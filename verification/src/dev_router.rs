//! The dev-server reverse proxy mounted on an axum `Router`: the routes that
//! `dev_routes` chooses, each forwarding the full request path to the target.

use axum::Router;
use axum_reverse_proxy::ReverseProxy;
use vstd::prelude::*;

use crate::dev::strings_view;
use crate::proxy::{
    dev_plan, dev_routes, effective_prefixes, is_catch_all_at, lemma_plan_from_subtree,
    lemma_single_catch_all, plan_from, rest_suffix, root_prefix, routes_view, subtree_of, DevRoute,
    DevRouteView,
};
use crate::route_path::{
    bases_overlap, bases_overlap_check, lemma_plain_path_valid, lemma_static_bases_overlap,
    plain_char, plain_path, valid_base, valid_base_check,
};
use crate::text::{lemma_trim_end_is_prefix, str_eq, trim_end, trim_end_matches};

verus! {

/// One reverse-proxy mount of a router.
pub enum ProxyMount {
    /// The route `path`, forwarding each request it matches, with its full path
    /// unchanged, to `target`.
    Route { path: Seq<char>, target: Seq<char> },
    /// The router's fallback, forwarding every request no route matches, with
    /// its full path unchanged, to `target`.
    Fallback { target: Seq<char> },
}

/// The routes and fallback that a router built by this module holds, in the
/// order they were mounted (a router holds at most one fallback).
pub uninterp spec fn router_mounts(r: Router) -> Seq<ProxyMount>;

/// Whether `ReverseProxy::new` accepts `target`: it parses as a URI with an
/// authority (host).
pub uninterp spec fn proxy_target_ok(target: Seq<char>) -> bool;

/// Whether `ms` holds a fallback.
pub open spec fn has_fallback(ms: Seq<ProxyMount>) -> bool {
    exists|i: int| 0 <= i < ms.len() && (#[trigger] ms[i]) is Fallback
}

/// Every route among `ms` belongs to a subtree: it is a valid base `c` or
/// `c/{*rest}`, and `c` does not overlap `b`.
pub open spec fn routes_clear_of(ms: Seq<ProxyMount>, b: Seq<char>) -> bool {
    forall|i: int|
        0 <= i < ms.len() && (#[trigger] ms[i]) is Route ==> exists|c: Seq<char>|
            #[trigger] valid_base(c) && !bases_overlap(b, c) && (ms[i]->Route_path == c
                || ms[i]->Route_path == c + rest_suffix())
}

/// The prefixes that mount without axum rejecting them: every prefix other
/// than `"/"` is, after trimming its trailing slashes, a valid subtree base,
/// and no two such bases overlap.
pub open spec fn prefixes_ok(ps: Seq<Seq<char>>) -> bool {
    &&& forall|j: int|
        0 <= j < ps.len() && ps[j] != root_prefix() ==> valid_base(trim_end(#[trigger] ps[j], '/'))
    &&& forall|j: int, k: int|
        0 <= j < ps.len() && 0 <= k < ps.len() && j != k && ps[j] != root_prefix() && ps[k]
            != root_prefix() ==> !bases_overlap(
            trim_end(#[trigger] ps[j], '/'),
            trim_end(#[trigger] ps[k], '/'),
        )
}

/// The mounts that one planned route makes, forwarding to `t`.
pub open spec fn mount_of(route: DevRouteView, t: Seq<char>) -> Seq<ProxyMount> {
    match route {
        DevRouteView::CatchAll => seq![ProxyMount::Fallback { target: t }],
        DevRouteView::Subtree { base, wildcard } => seq![
            ProxyMount::Route { path: base, target: t },
            ProxyMount::Route { path: wildcard, target: t },
        ],
    }
}

/// The mounts that a plan makes, in order, forwarding to `t`.
pub open spec fn mounts_of(plan: Seq<DevRouteView>, t: Seq<char>) -> Seq<ProxyMount>
    decreases plan.len(),
{
    if plan.len() == 0 {
        Seq::empty()
    } else {
        mounts_of(plan.drop_last(), t) + mount_of(plan.last(), t)
    }
}

/// Calls `axum::Router::new`; the new router holds no mounts.
#[verifier::external_body]
fn router_new() -> (r: Router)
    ensures
        router_mounts(r) == Seq::<ProxyMount>::empty(),
{
    Router::new()
}

/// Tests what `ReverseProxy::new` needs of a target: parsing it as an
/// `http::Uri` succeeds and the URI has an authority. The result is named
/// `proxy_target_ok(target)`.
#[verifier::external_body]
fn target_accepted(target: &str) -> (b: bool)
    ensures
        b == proxy_target_ok(target@),
{
    match target.parse::<axum::http::Uri>() {
        Ok(uri) => uri.authority().is_some(),
        Err(_) => false,
    }
}

/// Calls `ReverseProxy::new("/", target)` and mounts it with
/// `Router::route_service` on `base` and on `wildcard` (`base/{*rest}`).
/// `ReverseProxy::new` panics only on a target without a URI authority, which
/// `requires` leaves out. `route_service` panics on a path that axum or its
/// route tree (matchit) rejects, or that conflicts with a route already there.
/// A valid base is accepted with its wildcard route: matchit rejects braces
/// that do not form a capture ending its segment, with a non-empty name free
/// of `*` and `/`, and panics past 25 captures in one route. Among routes that are
/// valid bases or valid bases followed by `/{*rest}`, two conflict exactly when
/// they are equal once capture names are erased, or when a catch-all stands
/// where the other route has a capture; for whole subtrees that is
/// `bases_overlap`, which `requires` leaves out for every route already
/// mounted. The proxy's own path is `/`, so each request is forwarded with its
/// full path. (That the TLS client the proxy builds finds its crypto provider
/// is taken from this build, which enables only one.)
#[verifier::external_body]
fn mount_proxy_subtree(r: Router, base: &str, wildcard: &str, target: &str) -> (out: Router)
    requires
        proxy_target_ok(target@),
        valid_base(base@),
        wildcard@ == base@ + rest_suffix(),
        routes_clear_of(router_mounts(r), base@),
    ensures
        router_mounts(out) == router_mounts(r) + seq![
            ProxyMount::Route { path: base@, target: target@ },
            ProxyMount::Route { path: wildcard@, target: target@ },
        ],
{
    let proxy = ReverseProxy::new("/", target);
    r.route_service(base, proxy.clone()).route_service(wildcard, proxy)
}

/// Calls `ReverseProxy::new("/", target)` and makes it the router's fallback
/// with `Router::fallback_service` (which does not panic). A router holds one
/// fallback and a second call replaces the first, so `requires` asks for a
/// router without one. See `mount_proxy_subtree` for the target.
#[verifier::external_body]
fn mount_proxy_fallback(r: Router, target: &str) -> (out: Router)
    requires
        proxy_target_ok(target@),
        !has_fallback(router_mounts(r)),
    ensures
        router_mounts(out) == router_mounts(r).push(ProxyMount::Fallback { target: target@ }),
{
    r.fallback_service(ReverseProxy::new("/", target))
}

/// Whether the prefixes mount without axum rejecting them.
pub fn prefixes_accepted(prefixes: &Vec<String>) -> (ok: bool)
    ensures
        ok == prefixes_ok(strings_view(prefixes@)),
{
    let ghost ps = strings_view(prefixes@);
    let n = prefixes.len();
    let mut j: usize = 0;
    while j < n
        invariant
            n == prefixes@.len(),
            ps == strings_view(prefixes@),
            j <= n,
            forall|jj: int|
                0 <= jj < j && ps[jj] != root_prefix() ==> valid_base(trim_end(#[trigger] ps[jj], '/')),
            forall|jj: int, kk: int|
                0 <= jj < j && 0 <= kk < j && jj != kk && ps[jj] != root_prefix() && ps[kk]
                    != root_prefix() ==> !bases_overlap(
                    trim_end(#[trigger] ps[jj], '/'),
                    trim_end(#[trigger] ps[kk], '/'),
                ),
        decreases n - j,
    {
        let pj = prefixes[j].as_str();
        proof {
            assert(ps[j as int] == pj@);
        }
        if !str_eq(pj, "/") {
            let bj = trim_end_matches(pj, '/');
            if !valid_base_check(bj) {
                return false;
            }
            let mut k: usize = 0;
            while k < j
                invariant
                    n == prefixes@.len(),
                    ps == strings_view(prefixes@),
                    j < n,
                    k <= j,
                    bj@ == trim_end(ps[j as int], '/'),
                    ps[j as int] != root_prefix(),
                    forall|kk: int|
                        0 <= kk < k && ps[kk] != root_prefix() ==> !bases_overlap(
                            trim_end(#[trigger] ps[kk], '/'),
                            bj@,
                        ) && !bases_overlap(bj@, trim_end(ps[kk], '/')),
                decreases j - k,
            {
                let pk = prefixes[k].as_str();
                proof {
                    assert(ps[k as int] == pk@);
                }
                if !str_eq(pk, "/") {
                    if bases_overlap_check(trim_end_matches(pk, '/'), bj) {
                        proof {
                            assert(bases_overlap(trim_end(ps[k as int], '/'), trim_end(ps[j as int], '/')));
                            assert(ps[k as int] != root_prefix());
                            assert(!prefixes_ok(ps));
                        }
                        return false;
                    }
                }
                k = k + 1;
            }
        }
        j = j + 1;
    }
    true
}

/// The subtrees that accepted prefixes plan have valid bases, and no two of
/// them overlap.
proof fn lemma_plan_from_distinct(ps: Seq<Seq<char>>, seen: bool)
    requires
        prefixes_ok(ps),
    ensures
        forall|i: int|
            0 <= i < plan_from(ps, seen).len() && (#[trigger] plan_from(ps, seen)[i]) is Subtree
                ==> valid_base(plan_from(ps, seen)[i]->Subtree_base) && plan_from(ps, seen)[i]->Subtree_wildcard
                == plan_from(ps, seen)[i]->Subtree_base + rest_suffix(),
        forall|i: int, k: int|
            0 <= i < plan_from(ps, seen).len() && 0 <= k < plan_from(ps, seen).len() && i != k
                && (#[trigger] plan_from(ps, seen)[i]) is Subtree && (#[trigger] plan_from(
                ps,
                seen,
            )[k]) is Subtree ==> !bases_overlap(
                plan_from(ps, seen)[i]->Subtree_base,
                plan_from(ps, seen)[k]->Subtree_base,
            ),
    decreases ps.len(),
{
    let plan = plan_from(ps, seen);
    assert forall|i: int| 0 <= i < plan.len() && (#[trigger] plan[i]) is Subtree implies valid_base(
        plan[i]->Subtree_base,
    ) && plan[i]->Subtree_wildcard == plan[i]->Subtree_base + rest_suffix() by {
        lemma_plan_from_subtree(ps, seen, i);
        let j = choose|j: int|
            0 <= j < ps.len() && ps[j] != root_prefix() && #[trigger] plan_from(ps, seen)[i]
                == subtree_of(ps[j]);
        assert(valid_base(trim_end(ps[j], '/')));
    }
    if ps.len() > 0 {
        let rest = ps.drop_first();
        assert(prefixes_ok(rest)) by {
            assert forall|j: int| 0 <= j < rest.len() && rest[j] != root_prefix() implies valid_base(
                trim_end(#[trigger] rest[j], '/'),
            ) by {
                assert(rest[j] == ps[j + 1]);
            }
            assert forall|j: int, k: int|
                0 <= j < rest.len() && 0 <= k < rest.len() && j != k && rest[j] != root_prefix()
                    && rest[k] != root_prefix() implies !bases_overlap(
                trim_end(#[trigger] rest[j], '/'),
                trim_end(#[trigger] rest[k], '/'),
            ) by {
                assert(rest[j] == ps[j + 1] && rest[k] == ps[k + 1]);
            }
        }
        let seen2 = if ps[0] == root_prefix() {
            true
        } else {
            seen
        };
        lemma_plan_from_distinct(rest, seen2);
        let tail = plan_from(rest, seen2);
        let off: int = if ps[0] == root_prefix() && seen {
            0
        } else {
            1
        };
        assert(plan.len() == tail.len() + off);
        assert forall|i: int| off <= i < plan.len() implies plan[i] == tail[i - off] by {}
        assert forall|i: int, k: int|
            0 <= i < plan.len() && 0 <= k < plan.len() && i != k && (#[trigger] plan[i]) is Subtree
                && (#[trigger] plan[k]) is Subtree implies !bases_overlap(
                plan[i]->Subtree_base,
                plan[k]->Subtree_base,
            ) by {
            if i >= off && k >= off {
                assert(tail[i - off] is Subtree && tail[k - off] is Subtree);
            } else {
                // One of them is the head, which is the subtree of `ps[0]`.
                let (h, o) = if i < off {
                    (i, k)
                } else {
                    (k, i)
                };
                assert(h == 0 && off == 1);
                assert(ps[0] != root_prefix());
                assert(plan[0] == subtree_of(ps[0]));
                assert(tail[o - 1] is Subtree);
                lemma_plan_from_subtree(rest, seen2, o - 1);
                let j = choose|j: int|
                    0 <= j < rest.len() && rest[j] != root_prefix() && #[trigger] plan_from(
                        rest,
                        seen2,
                    )[o - 1] == subtree_of(rest[j]);
                assert(rest[j] == ps[j + 1]);
                assert(!bases_overlap(trim_end(ps[0], '/'), trim_end(ps[j + 1], '/')));
                assert(!bases_overlap(trim_end(ps[j + 1], '/'), trim_end(ps[0], '/')));
            }
        }
    }
}

/// Every route that a plan mounts is the base or the wildcard of one of its
/// subtrees, and its fallback comes from a catch-all.
proof fn lemma_mounts_of_entry(plan: Seq<DevRouteView>, t: Seq<char>, m: int)
    requires
        0 <= m < mounts_of(plan, t).len(),
    ensures
        mounts_of(plan, t)[m] is Route ==> exists|k: int|
            0 <= k < plan.len() && (#[trigger] plan[k]) is Subtree && (mounts_of(plan, t)[m]->Route_path
                == plan[k]->Subtree_base || mounts_of(plan, t)[m]->Route_path
                == plan[k]->Subtree_wildcard),
        mounts_of(plan, t)[m] is Fallback ==> exists|k: int|
            0 <= k < plan.len() && (#[trigger] plan[k]) is CatchAll,
    decreases plan.len(),
{
    let init = plan.drop_last();
    let ms = mounts_of(plan, t);
    let mi = mounts_of(init, t);
    if m < mi.len() {
        assert(ms[m] == mi[m]);
        lemma_mounts_of_entry(init, t, m);
        if ms[m] is Route {
            let k = choose|k: int|
                0 <= k < init.len() && (#[trigger] init[k]) is Subtree && (mi[m]->Route_path
                    == init[k]->Subtree_base || mi[m]->Route_path == init[k]->Subtree_wildcard);
            assert(plan[k] == init[k]);
        } else {
            let k = choose|k: int| 0 <= k < init.len() && (#[trigger] init[k]) is CatchAll;
            assert(plan[k] == init[k]);
        }
    } else {
        let k = plan.len() - 1;
        assert(ms[m] == mount_of(plan.last(), t)[m - mi.len()]);
        assert(plan[k] == plan.last());
    }
}

/// Mount the reverse proxy to `target` on the routes that `dev_routes`
/// chooses for `prefixes`: `"/"` proxies everything as the router's fallback
/// (so the app's own routes take precedence); any other prefix proxies its
/// subtree, with the full path forwarded. An empty list is treated as `["/"]`.
pub fn dev_router(prefixes: Vec<String>, target: &str) -> (r: Router)
    requires
        prefixes_ok(strings_view(prefixes@)),
        proxy_target_ok(target@),
    ensures
        router_mounts(r) == mounts_of(dev_plan(strings_view(prefixes@)), target@),
{
    let ghost ps = strings_view(prefixes@);
    let ghost plan = dev_plan(ps);
    proof {
        let eff = effective_prefixes(ps);
        if ps.len() == 0 {
            assert(eff[0] == root_prefix());
        }
        assert(prefixes_ok(eff));
        lemma_plan_from_distinct(eff, false);
        lemma_single_catch_all(ps);
    }
    let routes = dev_routes(prefixes);
    let n = routes.len();
    let mut router = router_new();
    proof {
        assert(plan.take(0) =~= Seq::<DevRouteView>::empty());
    }
    for i in 0..n
        invariant
            n == routes@.len(),
            routes_view(routes@) == plan,
            proxy_target_ok(target@),
            forall|k: int|
                0 <= k < plan.len() && (#[trigger] plan[k]) is Subtree ==> valid_base(
                    plan[k]->Subtree_base,
                ) && plan[k]->Subtree_wildcard == plan[k]->Subtree_base + rest_suffix(),
            forall|k: int, l: int|
                0 <= k < plan.len() && 0 <= l < plan.len() && k != l && (#[trigger] plan[k]) is Subtree
                    && (#[trigger] plan[l]) is Subtree ==> !bases_overlap(
                    plan[k]->Subtree_base,
                    plan[l]->Subtree_base,
                ),
            forall|k: int, l: int|
                is_catch_all_at(plan, k) && is_catch_all_at(plan, l) ==> k == l,
            router_mounts(router) == mounts_of(plan.take(i as int), target@),
    {
        let ghost done = plan.take(i as int);
        let ghost before = router_mounts(router);
        proof {
            assert(plan.take(i + 1).drop_last() =~= done);
            assert(plan.take(i + 1).last() == plan[i as int]);
            assert(plan[i as int] == routes@[i as int]@);
        }
        match &routes[i] {
            DevRoute::CatchAll => {
                proof {
                    if has_fallback(before) {
                        let m = choose|m: int| 0 <= m < before.len() && (#[trigger] before[m]) is Fallback;
                        lemma_mounts_of_entry(done, target@, m);
                        let k = choose|k: int| 0 <= k < done.len() && (#[trigger] done[k]) is CatchAll;
                        assert(done[k] == plan[k]);
                        assert(is_catch_all_at(plan, k) && is_catch_all_at(plan, i as int));
                    }
                }
                router = mount_proxy_fallback(router, target);
                proof {
                    assert(router_mounts(router) =~= mounts_of(plan.take(i + 1), target@));
                }
            },
            DevRoute::Subtree { base, wildcard } => {
                let ghost b = base@;
                let ghost w = wildcard@;
                proof {
                    assert(plan[i as int] is Subtree);
                    assert(plan[i as int]->Subtree_base == b);
                    assert(plan[i as int]->Subtree_wildcard == w);
                    assert forall|m: int| 0 <= m < before.len() && (#[trigger] before[m]) is Route implies exists|c: Seq<char>|
                        #[trigger] valid_base(c) && !bases_overlap(b, c) && (before[m]->Route_path == c
                            || before[m]->Route_path == c + rest_suffix()) by {
                        lemma_mounts_of_entry(done, target@, m);
                        let k = choose|k: int|
                            0 <= k < done.len() && (#[trigger] done[k]) is Subtree && (before[m]->Route_path
                                == done[k]->Subtree_base || before[m]->Route_path
                                == done[k]->Subtree_wildcard);
                        assert(done[k] == plan[k]);
                        assert(plan[k] is Subtree);
                        let c = plan[k]->Subtree_base;
                        assert(valid_base(c));
                        assert(!bases_overlap(b, c));
                    }
                }
                router = mount_proxy_subtree(router, base.as_str(), wildcard.as_str(), target);
                proof {
                    assert(mount_of(plan[i as int], target@) == seq![
                        ProxyMount::Route { path: b, target: target@ },
                        ProxyMount::Route { path: w, target: target@ },
                    ]);
                    assert(router_mounts(router) =~= mounts_of(plan.take(i + 1), target@));
                }
            },
        }
    }
    proof {
        assert(plan.take(n as int) =~= plan);
    }
    router
}

/// [`dev_router`] where the prefixes and the target are accepted, and `None`
/// where a prefix other than `"/"` is not a valid subtree base once its
/// trailing slashes are trimmed, two such bases overlap, or the target is not a
/// URI with a host.
pub fn try_dev_router(prefixes: Vec<String>, target: &str) -> (r: Option<Router>)
    ensures
        r is Some <==> prefixes_ok(strings_view(prefixes@)) && proxy_target_ok(target@),
        r matches Some(router) ==> router_mounts(router) == mounts_of(
            dev_plan(strings_view(prefixes@)),
            target@,
        ),
{
    if prefixes_accepted(&prefixes) && target_accepted(target) {
        Some(dev_router(prefixes, target))
    } else {
        None
    }
}

/// The prefixes that the proxy rejects, as axum panics on them: a prefix
/// other than `"/"` that does not start with `/`, and two prefixes other than
/// `"/"` that overlap: they trim to the same route (as `"/api"` and `"/api/"`
/// or an exact duplicate do), or more generally their bases overlap (as
/// `"/a/{x}"` and `"/a/{y}"` do, or `"/a"` and `"/a/{id}"`).
pub proof fn lemma_rejected_prefixes(p: Seq<char>, q: Seq<char>)
    ensures
        p != root_prefix() && (p.len() == 0 || p[0] != '/') ==> !prefixes_ok(seq![p]),
        p != root_prefix() && q != root_prefix() && trim_end(p, '/') == trim_end(q, '/')
            ==> !prefixes_ok(seq![p, q]),
        p != root_prefix() && q != root_prefix() && bases_overlap(trim_end(p, '/'), trim_end(q, '/'))
            ==> !prefixes_ok(seq![p, q]),
{
    lemma_trim_end_is_prefix(p, '/');
    let ps = seq![p];
    assert(ps[0] == p);
    let pq = seq![p, q];
    assert(pq[0] == p && pq[1] == q);
    if p != root_prefix() && (p.len() == 0 || p[0] != '/') {
        let t = trim_end(p, '/');
        if t.len() > 0 {
            assert(t[0] == p.take(t.len() as int)[0]);
        }
        assert(!valid_base(t));
    }
    if p != root_prefix() && q != root_prefix() && trim_end(p, '/') == trim_end(q, '/') {
        assert(bases_overlap(trim_end(p, '/'), trim_end(q, '/')));
    }
}

/// Dropping a `"/"` that follows a catch-all already planned leaves the plan
/// unchanged.
proof fn lemma_plan_from_drops_root(ps: Seq<Seq<char>>, i: int, seen: bool)
    requires
        0 <= i < ps.len(),
        ps[i] == root_prefix(),
        seen || exists|j: int| 0 <= j < i && ps[j] == root_prefix(),
    ensures
        plan_from(ps.remove(i), seen) == plan_from(ps, seen),
    decreases i,
{
    let rest = ps.drop_first();
    if i == 0 {
        assert(ps.remove(0) =~= rest);
    } else {
        let seen2 = seen || ps[0] == root_prefix();
        if !seen2 {
            let j = choose|j: int| 0 <= j < i && ps[j] == root_prefix();
            assert(j > 0);
            assert(rest[j - 1] == root_prefix());
        }
        lemma_plan_from_drops_root(rest, i - 1, seen2);
        let q = ps.remove(i);
        assert(q[0] == ps[0]);
        assert(q.drop_first() =~= rest.remove(i - 1));
    }
}

/// A `"/"` after the first one changes nothing: dropping it from the prefixes
/// leaves both whether they are accepted and what is mounted (so the router
/// that `dev_router` builds) unchanged.
pub proof fn lemma_repeated_root_ignored(ps: Seq<Seq<char>>, i: int)
    requires
        0 <= i < ps.len(),
        ps[i] == root_prefix(),
        exists|j: int| 0 <= j < i && ps[j] == root_prefix(),
    ensures
        dev_plan(ps.remove(i)) == dev_plan(ps),
        prefixes_ok(ps.remove(i)) == prefixes_ok(ps),
{
    let q = ps.remove(i);
    let j0 = choose|j: int| 0 <= j < i && ps[j] == root_prefix();
    assert(q[j0] == ps[j0]);
    assert(q.len() > 0);
    assert(effective_prefixes(q) == q);
    assert(effective_prefixes(ps) == ps);
    lemma_plan_from_drops_root(ps, i, false);
    // Index `k` of `q` is index `src(k)` of `ps`, which is never `i`.
    assert forall|k: int| 0 <= k < q.len() implies #[trigger] q[k] == ps[if k < i {
        k
    } else {
        k + 1
    }] by {}
    if prefixes_ok(ps) {
        assert forall|j: int| 0 <= j < q.len() && q[j] != root_prefix() implies valid_base(
            trim_end(#[trigger] q[j], '/'),
        ) by {
            let sj = if j < i {
                j
            } else {
                j + 1
            };
            assert(q[j] == ps[sj]);
        }
        assert forall|j: int, k: int|
            0 <= j < q.len() && 0 <= k < q.len() && j != k && q[j] != root_prefix() && q[k]
                != root_prefix() implies !bases_overlap(
            trim_end(#[trigger] q[j], '/'),
            trim_end(#[trigger] q[k], '/'),
        ) by {
            let sj = if j < i {
                j
            } else {
                j + 1
            };
            let sk = if k < i {
                k
            } else {
                k + 1
            };
            assert(q[j] == ps[sj] && q[k] == ps[sk]);
        }
    }
    if prefixes_ok(q) {
        assert forall|j: int| 0 <= j < ps.len() && ps[j] != root_prefix() implies valid_base(
            trim_end(#[trigger] ps[j], '/'),
        ) by {
            let qj = if j < i {
                j
            } else {
                j - 1
            };
            assert(ps[j] == q[qj]);
        }
        assert forall|j: int, k: int|
            0 <= j < ps.len() && 0 <= k < ps.len() && j != k && ps[j] != root_prefix() && ps[k]
                != root_prefix() implies !bases_overlap(
            trim_end(#[trigger] ps[j], '/'),
            trim_end(#[trigger] ps[k], '/'),
        ) by {
            let qj = if j < i {
                j
            } else {
                j - 1
            };
            let qk = if k < i {
                k
            } else {
                k - 1
            };
            assert(ps[j] == q[qj] && ps[k] == q[qk]);
        }
    }
}

/// Trimming trailing slashes keeps every character up to the last one that is
/// not a slash.
proof fn lemma_trim_end_keeps(p: Seq<char>, k: int)
    requires
        0 <= k < p.len(),
        p[k] != '/',
    ensures
        trim_end(p, '/').len() > k,
    decreases p.len(),
{
    if p.last() == '/' {
        assert(k < p.len() - 1);
        assert(p.drop_last()[k] == p[k]);
        lemma_trim_end_keeps(p.drop_last(), k);
    }
}

/// A prefix of static segments with something besides slashes, trimmed, is a
/// path of static segments without captures.
proof fn lemma_plain_prefix_base(p: Seq<char>, k: int)
    requires
        plain_path(p),
        0 <= k < p.len(),
        p[k] != '/',
    ensures
        p != root_prefix(),
        plain_path(trim_end(p, '/')),
        valid_base(trim_end(p, '/')),
        !trim_end(p, '/').contains('{'),
{
    reveal_strlit("/");
    if p == root_prefix() {
        assert(p.len() == 1);
    }
    lemma_trim_end_keeps(p, k);
    lemma_trim_end_is_prefix(p, '/');
    let t = trim_end(p, '/');
    assert forall|i: int| 1 <= i < t.len() implies plain_char(#[trigger] t[i])
        || t[i] == '/' by {
        assert(t[i] == p[i]);
    }
    assert(t[0] == p[0]);
    lemma_plain_path_valid(t);
    if t.contains('{') {
        let i = choose|i: int| 0 <= i < t.len() && t[i] == '{';
        assert(t[i] == p[i]);
    }
}

/// A prefix made of static segments (`/` followed by ASCII letters, digits,
/// `-`, `_`, `.` and `/`, with something besides slashes) is accepted on its
/// own, as `"/api/v1"` is.
pub proof fn lemma_plain_prefix_accepted(p: Seq<char>, k: int)
    requires
        plain_path(p),
        0 <= k < p.len(),
        p[k] != '/',
    ensures
        prefixes_ok(seq![p]),
{
    lemma_plain_prefix_base(p, k);
    assert(seq![p][0] == p);
}

/// Two such prefixes are accepted together unless they trim to the same route:
/// distinct static subtrees never overlap, however much text they share, as
/// `"/api"` and `"/admin/api"` or `"/a"` and `"/a/b"` do.
pub proof fn lemma_plain_prefixes_accepted(p: Seq<char>, k: int, q: Seq<char>, l: int)
    requires
        plain_path(p),
        0 <= k < p.len(),
        p[k] != '/',
        plain_path(q),
        0 <= l < q.len(),
        q[l] != '/',
        trim_end(p, '/') != trim_end(q, '/'),
    ensures
        prefixes_ok(seq![p, q]),
{
    lemma_plain_prefix_base(p, k);
    lemma_plain_prefix_base(q, l);
    lemma_static_bases_overlap(trim_end(p, '/'), trim_end(q, '/'));
    lemma_static_bases_overlap(trim_end(q, '/'), trim_end(p, '/'));
    let ps = seq![p, q];
    assert(ps[0] == p && ps[1] == q);
}

} // verus!
