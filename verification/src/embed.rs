//! How a request is answered from assets embedded in the binary: the index
//! document for the root and for client-side routes, the asset itself when it
//! exists, and `404` for a missing file that has an extension.

use vstd::prelude::*;

use crate::text::{
    contains_char, last_segment, last_segment_of, lemma_trim_start_first, str_eq, trim_start,
    trim_start_matches,
};

verus! {

/// What to look up among the embedded assets for a request.
#[derive(Debug, Clone, PartialEq, Eq)]
pub enum EmbedLookup {
    /// Serve the index document (the SPA entry point).
    Index,
    /// Look up the asset at this path (the request path without leading `/`).
    Asset(String),
}

/// What an [`EmbedLookup`] denotes.
pub enum EmbedLookupView {
    Index,
    Asset(Seq<char>),
}

impl View for EmbedLookup {
    type V = EmbedLookupView;

    open spec fn view(&self) -> EmbedLookupView {
        match self {
            EmbedLookup::Index => EmbedLookupView::Index,
            EmbedLookup::Asset(p) => EmbedLookupView::Asset(p@),
        }
    }
}

/// The asset path a request path names: the path without its leading slashes.
pub open spec fn asset_path(uri_path: Seq<char>) -> Seq<char> {
    trim_start(uri_path, '/')
}

/// The root, and the index document named explicitly, serve the index document;
/// every other path is looked up as an asset.
pub open spec fn lookup_of(uri_path: Seq<char>, index: Seq<char>) -> EmbedLookupView {
    let p = asset_path(uri_path);
    if p.len() == 0 || p == index {
        EmbedLookupView::Index
    } else {
        EmbedLookupView::Asset(p)
    }
}

/// Decide what to look up for the request path `uri_path` when `index` is the
/// SPA entry document.
pub fn embed_lookup(uri_path: &str, index: &str) -> (l: EmbedLookup)
    ensures
        l@ == lookup_of(uri_path@, index@),
{
    let path = trim_start_matches(uri_path, '/');
    if path.unicode_len() == 0 || str_eq(path, index) {
        EmbedLookup::Index
    } else {
        EmbedLookup::Asset(String::from_str(path))
    }
}

/// How a request is answered.
#[derive(Debug, Clone, Copy, PartialEq, Eq)]
pub enum EmbedAnswer {
    /// The index document (SPA entry point), as HTML.
    IndexDocument,
    /// The looked-up asset, with its MIME type.
    Asset,
    /// `404 Not Found`.
    NotFound,
}

/// The answer once the lookup is known and, for an asset, whether it exists:
/// an existing asset is served; a missing one whose last segment has an
/// extension (contains a `.`) is a missing file (`404`); any other missing path
/// is a client-side route and gets the index document.
pub open spec fn answer_of(lookup: EmbedLookupView, asset_found: bool) -> EmbedAnswer {
    match lookup {
        EmbedLookupView::Index => EmbedAnswer::IndexDocument,
        EmbedLookupView::Asset(p) => if asset_found {
            EmbedAnswer::Asset
        } else if last_segment(p).contains('.') {
            EmbedAnswer::NotFound
        } else {
            EmbedAnswer::IndexDocument
        },
    }
}

/// How a request for `uri_path` is answered when `embedded` holds the paths of
/// the embedded assets and `index` names the entry document.
pub open spec fn embed_reply(uri_path: Seq<char>, index: Seq<char>, embedded: Set<Seq<char>>) -> EmbedAnswer {
    let l = lookup_of(uri_path, index);
    answer_of(
        l,
        match l {
            EmbedLookupView::Asset(p) => embedded.contains(p),
            EmbedLookupView::Index => false,
        },
    )
}

/// Decide the answer from the lookup and, for an asset lookup, whether the
/// asset was found among the embedded files.
pub fn embed_answer(lookup: &EmbedLookup, asset_found: bool) -> (a: EmbedAnswer)
    ensures
        a == answer_of(lookup@, asset_found),
{
    match lookup {
        EmbedLookup::Index => EmbedAnswer::IndexDocument,
        EmbedLookup::Asset(p) => {
            if asset_found {
                EmbedAnswer::Asset
            } else if contains_char(last_segment_of(p.as_str()), '.') {
                EmbedAnswer::NotFound
            } else {
                EmbedAnswer::IndexDocument
            }
        },
    }
}

/// Leading slashes do not matter: `//app.js` is answered as `/app.js` is.
pub proof fn lemma_leading_slashes_ignored(uri_path: Seq<char>, index: Seq<char>, embedded: Set<Seq<char>>)
    ensures
        embed_reply("/"@ + uri_path, index, embedded) == embed_reply(uri_path, index, embedded),
{
    reveal_strlit("/");
    let u = "/"@ + uri_path;
    assert(u.len() > 0 && u[0] == '/');
    assert(u.drop_first() =~= uri_path);
    assert(asset_path(u) == asset_path(uri_path));
}

/// The root, and the index document requested by name, are answered with the
/// index document.
pub proof fn lemma_root_serves_index(index: Seq<char>, embedded: Set<Seq<char>>)
    requires
        index.len() == 0 || index[0] != '/',
    ensures
        embed_reply("/"@, index, embedded) == EmbedAnswer::IndexDocument,
        embed_reply("/"@ + index, index, embedded) == EmbedAnswer::IndexDocument,
{
    reveal_strlit("/");
    let u = "/"@;
    assert(u.len() == 1 && u[0] == '/');
    assert(u.drop_first() =~= Seq::<char>::empty());
    assert(trim_start(u.drop_first(), '/') == u.drop_first());
    assert(asset_path(u) == Seq::<char>::empty());
    lemma_leading_slashes_ignored(index, index, embedded);
    assert(asset_path(index) == index);
}

/// The path looked up never starts with a slash.
pub proof fn lemma_asset_path_has_no_leading_slash(uri_path: Seq<char>, index: Seq<char>)
    ensures
        lookup_of(uri_path, index) matches EmbedLookupView::Asset(p) ==> p.len() > 0 && p[0]
            != '/',
{
    lemma_trim_start_first(uri_path, '/');
}

/// An embedded asset is served as itself; a missing path with an extension is
/// a `404`; a missing path without one is a client-side route and gets the
/// index document.
pub proof fn lemma_asset_fallback(uri_path: Seq<char>, index: Seq<char>, embedded: Set<Seq<char>>)
    requires
        asset_path(uri_path).len() > 0,
        asset_path(uri_path) != index,
    ensures
        embedded.contains(asset_path(uri_path)) ==> embed_reply(uri_path, index, embedded)
            == EmbedAnswer::Asset,
        !embedded.contains(asset_path(uri_path)) && last_segment(asset_path(uri_path)).contains('.')
            ==> embed_reply(uri_path, index, embedded) == EmbedAnswer::NotFound,
        !embedded.contains(asset_path(uri_path)) && !last_segment(asset_path(uri_path)).contains('.')
            ==> embed_reply(uri_path, index, embedded) == EmbedAnswer::IndexDocument,
{
}

} // verus!
