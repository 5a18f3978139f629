//! Which routes the dev-server reverse proxy is mounted on, and the URL it
//! forwards to.

use vstd::prelude::*;

use crate::dev::strings_view;
use crate::text::{decimal, lemma_trim_end_last, port_string, str_eq, trim_end, trim_end_matches};

verus! {

/// One mount of the reverse proxy.
#[derive(Debug, Clone, PartialEq, Eq)]
pub enum DevRoute {
    /// Everything the app does not route itself (the router's fallback).
    CatchAll,
    /// The subtree at `base`: the route `base` itself and the route `wildcard`
    /// (`base/{*rest}`); `dev_router` mounts the proxy on both with the proxy
    /// path `/`, so the prefix is not stripped from what is forwarded.
    Subtree { base: String, wildcard: String },
}

/// What a [`DevRoute`] denotes.
pub enum DevRouteView {
    CatchAll,
    Subtree { base: Seq<char>, wildcard: Seq<char> },
}

impl View for DevRoute {
    type V = DevRouteView;

    open spec fn view(&self) -> DevRouteView {
        match self {
            DevRoute::CatchAll => DevRouteView::CatchAll,
            DevRoute::Subtree { base, wildcard } => DevRouteView::Subtree {
                base: base@,
                wildcard: wildcard@,
            },
        }
    }
}

/// The views of a list of routes.
pub open spec fn routes_view(v: Seq<DevRoute>) -> Seq<DevRouteView> {
    v.map_values(|r: DevRoute| r@)
}

/// The catch-all prefix.
pub open spec fn root_prefix() -> Seq<char> {
    "/"@
}

/// The route-path suffix that matches everything below a subtree.
pub open spec fn rest_suffix() -> Seq<char> {
    "/{*rest}"@
}

/// The mount for a non-root prefix: trailing slashes are trimmed from the base.
pub open spec fn subtree_of(p: Seq<char>) -> DevRouteView {
    DevRouteView::Subtree {
        base: trim_end(p, '/'),
        wildcard: trim_end(p, '/') + rest_suffix(),
    }
}

/// An empty prefix list stands for `["/"]`.
pub open spec fn effective_prefixes(ps: Seq<Seq<char>>) -> Seq<Seq<char>> {
    if ps.len() == 0 {
        seq![root_prefix()]
    } else {
        ps
    }
}

/// The mounts for `ps` in order, given whether a catch-all was already mounted:
/// a `"/"` mounts the catch-all once and is ignored after that; any other
/// prefix mounts its subtree.
pub open spec fn plan_from(ps: Seq<Seq<char>>, has_catch_all: bool) -> Seq<DevRouteView>
    decreases ps.len(),
{
    if ps.len() == 0 {
        Seq::empty()
    } else if ps[0] == root_prefix() {
        if has_catch_all {
            plan_from(ps.drop_first(), true)
        } else {
            seq![DevRouteView::CatchAll] + plan_from(ps.drop_first(), true)
        }
    } else {
        seq![subtree_of(ps[0])] + plan_from(ps.drop_first(), has_catch_all)
    }
}

/// The mounts that proxying `ps` makes.
pub open spec fn dev_plan(ps: Seq<Seq<char>>) -> Seq<DevRouteView> {
    plan_from(effective_prefixes(ps), false)
}

/// The routes that proxy the path prefixes `prefixes`, in the order they are
/// mounted. `"/"` proxies everything (a fallback, so the app's own routes take
/// precedence); any other prefix proxies its subtree without stripping it.
/// An empty list is treated as `["/"]`, and only the first `"/"` is honored.
pub fn dev_routes(prefixes: Vec<String>) -> (routes: Vec<DevRoute>)
    ensures
        routes_view(routes@) == dev_plan(strings_view(prefixes@)),
{
    let ghost ps0 = strings_view(prefixes@);
    let mut prefixes = prefixes;
    if prefixes.len() == 0 {
        prefixes.push(String::from_str("/"));
        proof {
            assert(strings_view(prefixes@) =~= seq![root_prefix()]);
        }
    }
    let ghost ps = strings_view(prefixes@);
    assert(ps == effective_prefixes(ps0));
    let mut routes: Vec<DevRoute> = Vec::new();
    let mut has_catch_all = false;
    let n = prefixes.len();
    proof {
        assert(ps.skip(0) =~= ps);
    }
    for i in 0..n
        invariant
            n == prefixes@.len(),
            ps == strings_view(prefixes@),
            routes_view(routes@) + plan_from(ps.skip(i as int), has_catch_all) == plan_from(
                ps,
                false,
            ),
    {
        let ghost before = routes_view(routes@);
        let ghost rest = ps.skip(i as int);
        proof {
            assert(rest[0] == ps[i as int]);
            assert(rest.drop_first() =~= ps.skip(i + 1));
        }
        let prefix = &prefixes[i];
        if str_eq(prefix.as_str(), "/") {
            if !has_catch_all {
                has_catch_all = true;
                routes.push(DevRoute::CatchAll);
                proof {
                    assert(routes_view(routes@) =~= before + seq![DevRouteView::CatchAll]);
                }
            }
        } else {
            let base_str = trim_end_matches(prefix.as_str(), '/');
            let base = String::from_str(base_str);
            let mut wildcard = String::from_str(base_str);
            wildcard.append("/{*rest}");
            routes.push(DevRoute::Subtree { base, wildcard });
            proof {
                assert(routes_view(routes@) =~= before + seq![subtree_of(ps[i as int])]);
            }
        }
    }
    proof {
        assert(ps.skip(n as int) =~= Seq::<Seq<char>>::empty());
        assert(routes_view(routes@) =~= routes_view(routes@) + plan_from(ps.skip(n as int), has_catch_all));
    }
    routes
}

/// Whether a plan mounts the catch-all at position `i`.
pub open spec fn is_catch_all_at(plan: Seq<DevRouteView>, i: int) -> bool {
    0 <= i < plan.len() && plan[i] is CatchAll
}

proof fn lemma_plan_from_catch_all(ps: Seq<Seq<char>>, seen: bool)
    ensures
        seen ==> forall|i: int| !is_catch_all_at(plan_from(ps, seen), i),
        forall|i: int, j: int|
            is_catch_all_at(plan_from(ps, seen), i) && is_catch_all_at(plan_from(ps, seen), j)
                ==> i == j,
        (exists|i: int| is_catch_all_at(plan_from(ps, seen), i)) <==> (!seen && ps.contains(
            root_prefix(),
        )),
    decreases ps.len(),
{
    if ps.len() > 0 {
        let rest = ps.drop_first();
        lemma_plan_from_catch_all(rest, true);
        lemma_plan_from_catch_all(rest, seen);
        let plan = plan_from(ps, seen);
        if ps[0] == root_prefix() && !seen {
            assert forall|i: int| is_catch_all_at(plan, i) implies i == 0 by {
                if i > 0 {
                    assert(plan[i] == plan_from(rest, true)[i - 1]);
                    assert(is_catch_all_at(plan_from(rest, true), i - 1));
                }
            }
            assert(is_catch_all_at(plan, 0));
            assert(ps.contains(root_prefix())) by {
                assert(ps[0] == root_prefix());
            }
        } else {
            let tail = if ps[0] == root_prefix() {
                plan_from(rest, true)
            } else {
                plan_from(rest, seen)
            };
            let off: int = if ps[0] == root_prefix() {
                0
            } else {
                1
            };
            assert forall|i: int| is_catch_all_at(plan, i) implies is_catch_all_at(tail, i - off)
                && i >= off by {
                if off == 1 && i == 0 {
                    assert(plan[0] == subtree_of(ps[0]));
                } else {
                    assert(plan[i] == tail[i - off]);
                }
            }
            assert forall|i: int| is_catch_all_at(tail, i) implies is_catch_all_at(plan, i + off) by {
                assert(plan[i + off] == tail[i]);
            }
            if ps.contains(root_prefix()) && ps[0] != root_prefix() {
                let k = choose|k: int| 0 <= k < ps.len() && ps[k] == root_prefix();
                assert(rest[k - 1] == root_prefix());
                assert(rest.contains(root_prefix()));
            }
            if rest.contains(root_prefix()) {
                let k = choose|k: int| 0 <= k < rest.len() && rest[k] == root_prefix();
                assert(ps[k + 1] == root_prefix());
            }
        }
    }
}

/// At most one catch-all is mounted, and one is mounted exactly when the
/// prefix list is empty or contains `"/"`.
pub proof fn lemma_single_catch_all(ps: Seq<Seq<char>>)
    ensures
        forall|i: int, j: int|
            is_catch_all_at(dev_plan(ps), i) && is_catch_all_at(dev_plan(ps), j) ==> i == j,
        (exists|i: int| is_catch_all_at(dev_plan(ps), i)) <==> (ps.len() == 0 || ps.contains(
            root_prefix(),
        )),
{
    let eff = effective_prefixes(ps);
    lemma_plan_from_catch_all(eff, false);
    let plan = dev_plan(ps);
    assert(plan == plan_from(eff, false));
    if exists|i: int| is_catch_all_at(plan, i) {
        let i = choose|i: int| is_catch_all_at(plan, i);
        assert(is_catch_all_at(plan_from(eff, false), i));
    }
    if eff.contains(root_prefix()) {
        let i = choose|i: int| is_catch_all_at(plan_from(eff, false), i);
        assert(is_catch_all_at(plan, i));
    }
    if ps.len() == 0 {
        assert(effective_prefixes(ps)[0] == root_prefix());
        assert(effective_prefixes(ps).contains(root_prefix()));
    } else {
        assert(effective_prefixes(ps) == ps);
    }
}

/// An empty prefix list proxies everything, exactly as `["/"]` does.
pub proof fn lemma_empty_prefixes_proxy_everything()
    ensures
        dev_plan(Seq::empty()) == dev_plan(seq![root_prefix()]),
        dev_plan(Seq::empty()) == seq![DevRouteView::CatchAll],
{
    let ps = seq![root_prefix()];
    assert(ps.drop_first() =~= Seq::<Seq<char>>::empty());
    assert(ps[0] == root_prefix());
    assert(plan_from(ps.drop_first(), true) == Seq::<DevRouteView>::empty());
    assert(plan_from(ps, false) =~= seq![DevRouteView::CatchAll]);
}

/// Every subtree mount keeps its prefix: the base is one of the given prefixes
/// without its trailing slashes, and the wildcard route is the base followed by
/// `/{*rest}`.
pub proof fn lemma_subtree_mounts_keep_prefix(ps: Seq<Seq<char>>, i: int)
    requires
        0 <= i < dev_plan(ps).len(),
        dev_plan(ps)[i] is Subtree,
    ensures
        exists|j: int|
            0 <= j < ps.len() && ps[j] != root_prefix() && #[trigger] dev_plan(ps)[i]
                == subtree_of(ps[j]),
        dev_plan(ps)[i]->Subtree_wildcard == dev_plan(ps)[i]->Subtree_base + rest_suffix(),
        dev_plan(ps)[i]->Subtree_base.len() > 0 ==> dev_plan(ps)[i]->Subtree_base.last() != '/',
{
    lemma_plan_from_subtree(effective_prefixes(ps), false, i);
    let j = choose|j: int|
        0 <= j < ps.len() && ps[j] != root_prefix() && #[trigger] dev_plan(ps)[i] == subtree_of(
            ps[j],
        );
    lemma_trim_end_last(ps[j], '/');
}

pub proof fn lemma_plan_from_subtree(ps: Seq<Seq<char>>, seen: bool, i: int)
    requires
        0 <= i < plan_from(ps, seen).len(),
        plan_from(ps, seen)[i] is Subtree,
    ensures
        exists|j: int|
            0 <= j < ps.len() && ps[j] != root_prefix() && #[trigger] plan_from(ps, seen)[i]
                == subtree_of(ps[j]),
    decreases ps.len(),
{
    let rest = ps.drop_first();
    let plan = plan_from(ps, seen);
    if ps[0] == root_prefix() {
        if seen {
            lemma_plan_from_subtree(rest, true, i);
            let j = choose|j: int|
                0 <= j < rest.len() && rest[j] != root_prefix() && #[trigger] plan_from(rest, true)[i]
                    == subtree_of(rest[j]);
            assert(ps[j + 1] == rest[j]);
            assert(plan[i] == subtree_of(ps[j + 1]));
        } else {
            assert(i > 0);
            assert(plan[i] == plan_from(rest, true)[i - 1]);
            lemma_plan_from_subtree(rest, true, i - 1);
            let j = choose|j: int|
                0 <= j < rest.len() && rest[j] != root_prefix() && #[trigger] plan_from(rest, true)[i
                    - 1] == subtree_of(rest[j]);
            assert(ps[j + 1] == rest[j]);
            assert(plan[i] == subtree_of(ps[j + 1]));
        }
    } else if i == 0 {
        assert(plan[0] == subtree_of(ps[0]));
    } else {
        assert(plan[i] == plan_from(rest, seen)[i - 1]);
        lemma_plan_from_subtree(rest, seen, i - 1);
        let j = choose|j: int|
            0 <= j < rest.len() && rest[j] != root_prefix() && #[trigger] plan_from(rest, seen)[i - 1]
                == subtree_of(rest[j]);
        assert(ps[j + 1] == rest[j]);
        assert(plan[i] == subtree_of(ps[j + 1]));
    }
}

proof fn lemma_plan_from_complete(ps: Seq<Seq<char>>, seen: bool, j: int)
    requires
        0 <= j < ps.len(),
        ps[j] != root_prefix(),
    ensures
        exists|i: int| 0 <= i < plan_from(ps, seen).len() && #[trigger] plan_from(ps, seen)[i]
            == subtree_of(ps[j]),
    decreases ps.len(),
{
    let plan = plan_from(ps, seen);
    let rest = ps.drop_first();
    if j == 0 {
        assert(plan[0] == subtree_of(ps[0]));
    } else {
        let seen2 = if ps[0] == root_prefix() {
            true
        } else {
            seen
        };
        assert(rest[j - 1] == ps[j]);
        lemma_plan_from_complete(rest, seen2, j - 1);
        let tail = plan_from(rest, seen2);
        let i = choose|i: int| 0 <= i < tail.len() && #[trigger] tail[i] == subtree_of(rest[j - 1]);
        let off: int = if ps[0] == root_prefix() && seen {
            0
        } else {
            1
        };
        assert(plan[i + off] == tail[i]);
    }
}

/// Every prefix other than `"/"` gets its subtree mounted.
pub proof fn lemma_every_prefix_mounted(ps: Seq<Seq<char>>, j: int)
    requires
        0 <= j < ps.len(),
        ps[j] != root_prefix(),
    ensures
        exists|i: int| 0 <= i < dev_plan(ps).len() && #[trigger] dev_plan(ps)[i] == subtree_of(ps[j]),
{
    assert(effective_prefixes(ps) == ps);
    lemma_plan_from_complete(ps, false, j);
    let i = choose|i: int| 0 <= i < plan_from(ps, false).len() && #[trigger] plan_from(ps, false)[i]
        == subtree_of(ps[j]);
    assert(dev_plan(ps)[i] == subtree_of(ps[j]));
}

/// A trailing slash on a prefix does not change what is mounted: `"/api/"`
/// mounts the same subtree as `"/api"`.
pub proof fn lemma_trailing_slash_irrelevant(p: Seq<char>)
    requires
        p != root_prefix(),
        p + "/"@ != root_prefix(),
    ensures
        dev_plan(seq![p + "/"@]) == dev_plan(seq![p]),
{
    let q = p + "/"@;
    reveal_strlit("/");
    assert(q.last() == '/');
    assert(q.drop_last() =~= p);
    assert(trim_end(q, '/') == trim_end(p, '/'));
    assert(seq![q].drop_first() =~= Seq::<Seq<char>>::empty());
    assert(seq![p].drop_first() =~= Seq::<Seq<char>>::empty());
}

/// The proxy target URL for a dev server, e.g. `http://127.0.0.1:5173`.
pub fn target_url(host: &str, port: u16) -> (url: String)
    ensures
        url@ == "http://"@ + host@ + ":"@ + decimal(port as nat),
{
    let mut url = String::from_str("http://");
    url.append(host);
    url.append(":");
    let p = port_string(port);
    url.append(p.as_str());
    url
}

} // verus!
