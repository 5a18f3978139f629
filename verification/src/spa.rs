//! Shared options for the SPA-serving routers (`embed` and `static`).

use vstd::prelude::*;

verus! {

/// What a [`SpaOptions`] holds: the name of the SPA entry document.
pub struct SpaOptionsView {
    pub index: Seq<char>,
}

/// Options shared by the embed and static SPA routers.
#[derive(Debug, Clone)]
pub struct SpaOptions {
    index: String,
}

impl View for SpaOptions {
    type V = SpaOptionsView;

    closed spec fn view(&self) -> SpaOptionsView {
        SpaOptionsView { index: self.index@ }
    }
}

/// The entry document used when none is configured.
pub open spec fn default_index() -> Seq<char> {
    "index.html"@
}

impl SpaOptions {
    /// Defaults: index document `index.html`.
    pub fn new() -> (o: Self)
        ensures
            o@.index == default_index(),
            o@.index == "index.html"@,
    {
        let o = SpaOptions { index: String::from_str("index.html") };
        o
    }

    /// Set the SPA entry document served for `/` and unmatched client-side routes.
    pub fn index(self, name: String) -> (o: Self)
        ensures
            o@.index == name@,
    {
        SpaOptions { index: name }
    }

    /// The configured entry document.
    pub fn index_document(&self) -> (s: &str)
        ensures
            s@ == self@.index,
    {
        self.index.as_str()
    }
}

impl Default for SpaOptions {
    fn default() -> (o: Self)
        ensures
            o@.index == default_index(),
            o@.index == "index.html"@,
    {
        Self::new()
    }
}

} // verus!
