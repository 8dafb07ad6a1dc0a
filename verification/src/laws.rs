//! The laws of the router, proved over the model: what registration
//! guarantees to later dispatches, that exact routes always win, that
//! replacing a registration leaves only the newer handler, and that a
//! dispatch misses whenever no registered pattern can fit the path.

use vstd::prelude::*;
use crate::http::HttpMethod;
use crate::model::{
    dispatch_model, exact_lookup, find_key, key_matches, keys_unique, lemma_find_key_prefix,
    lemma_find_key_spec, lemma_param_lookup_none_iff, param_lookup, register_model, router_wf,
    upsert, RouteModel, RouterModel,
};
use crate::pattern::{
    has_param_segment, lemma_match_needs_equal_segment_count, pattern_matches, segments_of,
};

verus! {

/// Inserting into a table keeps its keys unique, and every entry of the
/// result is either the inserted route or one of the old entries.
proof fn lemma_upsert_wf(entries: Seq<RouteModel>, r: RouteModel)
    requires
        keys_unique(entries),
    ensures
        keys_unique(upsert(entries, r)),
        forall|i: int|
            0 <= i < upsert(entries, r).len() ==> (#[trigger] upsert(entries, r)[i] == r
                || (0 <= i < entries.len() && upsert(entries, r)[i] == entries[i])),
{
    lemma_find_key_spec(entries, r.method, r.path);
    match find_key(entries, r.method, r.path) {
        Some(i) => {
            let e1 = entries.update(i, r);
            assert(key_matches(entries[i], r.method, r.path));
            assert forall|a: int, b: int| 0 <= a < b < e1.len() implies !key_matches(
                #[trigger] e1[b],
                #[trigger] e1[a].method,
                e1[a].path,
            ) by {
                if a == i {
                    assert(!key_matches(entries[b], entries[i].method, entries[i].path));
                } else if b == i {
                    assert(!key_matches(entries[b], entries[a].method, entries[a].path));
                } else {
                    assert(!key_matches(entries[b], entries[a].method, entries[a].path));
                }
            }
        },
        None => {
            let e1 = entries.push(r);
            assert forall|a: int, b: int| 0 <= a < b < e1.len() implies !key_matches(
                #[trigger] e1[b],
                #[trigger] e1[a].method,
                e1[a].path,
            ) by {
                if b == entries.len() {
                    assert(!key_matches(entries[a], r.method, r.path));
                } else {
                    assert(!key_matches(entries[b], entries[a].method, entries[a].path));
                }
            }
        },
    }
}

/// Registration never corrupts the table: a well-formed router stays well
/// formed, whichever table the route goes to.
pub proof fn lemma_register_preserves_wf(m: RouterModel, r: RouteModel)
    requires
        router_wf(m),
    ensures
        router_wf(register_model(m, r)),
{
    if has_param_segment(r.path) {
        lemma_upsert_wf(m.param, r);
    } else {
        lemma_upsert_wf(m.exact, r);
    }
}

/// An exact entry always takes precedence: whenever the exact table holds
/// the request's method and full path, dispatch answers that handler, and
/// the parameterized table — whatever it holds, whenever it was filled —
/// is never consulted.
pub proof fn lemma_exact_wins(m: RouterModel, method: HttpMethod, path: Seq<u8>)
    requires
        exact_lookup(m.exact, method, path) is Some,
    ensures
        dispatch_model(m, method, path) == exact_lookup(m.exact, method, path),
{
}

/// Every exact route standing in a well-formed router is dispatched: a
/// request of its method and its very path answers exactly its handler,
/// never the not-found answer.
pub proof fn lemma_registered_exact_route_dispatches(m: RouterModel, i: int)
    requires
        router_wf(m),
        0 <= i < m.exact.len(),
    ensures
        dispatch_model(m, m.exact[i].method, m.exact[i].path) == Some(m.exact[i].handler),
{
    let method = m.exact[i].method;
    let path = m.exact[i].path;
    lemma_find_key_spec(m.exact, method, path);
    match find_key(m.exact, method, path) {
        Some(j) => {
            assert(key_matches(m.exact[i], method, path));
            if j < i {
                assert(!key_matches(m.exact[i], m.exact[j].method, m.exact[j].path));
                assert(false);
            }
            assert(j == i);
        },
        None => {
            assert(key_matches(m.exact[i], method, path));
            assert(false);
        },
    }
}

/// After registering a route without placeholders, dispatching its method
/// and its very path answers exactly its handler — never the not-found
/// answer, and never a parameterized handler, whatever either table held
/// before.
pub proof fn lemma_register_exact_then_dispatch(m: RouterModel, r: RouteModel)
    requires
        !has_param_segment(r.path),
    ensures
        dispatch_model(register_model(m, r), r.method, r.path) == Some(r.handler),
{
    lemma_find_key_spec(m.exact, r.method, r.path);
    match find_key(m.exact, r.method, r.path) {
        Some(i) => {
            let e1 = m.exact.update(i, r);
            lemma_find_key_prefix(e1, r.method, r.path, i);
            assert(find_key(e1, r.method, r.path) == Some(i));
        },
        None => {
            let e1 = m.exact.push(r);
            lemma_find_key_prefix(e1, r.method, r.path, m.exact.len() as int);
            assert(find_key(e1, r.method, r.path) == Some(m.exact.len() as int));
        },
    }
}

/// Registering twice under one method and exact path replaces the
/// handler: afterwards a dispatch of that method and path answers only
/// the second one.
pub proof fn lemma_register_replaces(m: RouterModel, r1: RouteModel, r2: RouteModel)
    requires
        r1.method == r2.method,
        r1.path == r2.path,
        !has_param_segment(r1.path),
    ensures
        dispatch_model(register_model(register_model(m, r1), r2), r2.method, r2.path) == Some(
            r2.handler,
        ),
{
    lemma_register_exact_then_dispatch(register_model(m, r1), r2);
}

/// When every registered pattern of the request's method splits into a
/// different number of segments than the request path, dispatch misses:
/// no pattern can match across or short of a `/`.
pub proof fn lemma_segment_count_miss(m: RouterModel, method: HttpMethod, path: Seq<u8>)
    requires
        forall|i: int|
            0 <= i < m.exact.len() && (#[trigger] m.exact[i]).method == method ==> segments_of(
                m.exact[i].path,
            ).len() != segments_of(path).len(),
        forall|i: int|
            0 <= i < m.param.len() && (#[trigger] m.param[i]).method == method ==> segments_of(
                m.param[i].path,
            ).len() != segments_of(path).len(),
    ensures
        dispatch_model(m, method, path) is None,
{
    lemma_find_key_spec(m.exact, method, path);
    if let Some(i) = find_key(m.exact, method, path) {
        assert(key_matches(m.exact[i], method, path));
        assert(segments_of(m.exact[i].path).len() == segments_of(path).len());
        assert(false);
    }
    lemma_param_lookup_none_iff(m.param, method, path);
    assert forall|j: int| 0 <= j < m.param.len() implies !(#[trigger] m.param[j].method == method
        && pattern_matches(m.param[j].path, path)) by {
        if m.param[j].method == method && pattern_matches(m.param[j].path, path) {
            lemma_match_needs_equal_segment_count(m.param[j].path, path);
        }
    }
}

/// A registration is observed: after it returns, a dispatch of the
/// route's method on any path its pattern matches finds some handler —
/// the new route's, unless an exact entry or an earlier parameterized
/// entry of the same method already answers that path.
pub proof fn lemma_register_then_hit(m: RouterModel, r: RouteModel, path: Seq<u8>)
    requires
        pattern_matches(r.path, path),
    ensures
        dispatch_model(register_model(m, r), r.method, path) is Some,
{
    let m1 = register_model(m, r);
    if has_param_segment(r.path) {
        if exact_lookup(m1.exact, r.method, path) is Some {
        } else {
            lemma_find_key_spec(m.param, r.method, r.path);
            lemma_param_lookup_none_iff(m1.param, r.method, path);
            match find_key(m.param, r.method, r.path) {
                Some(i) => {
                    assert(m1.param == m.param.update(i, r));
                    assert(m1.param[i] == r);
                    assert(!(param_lookup(m1.param, r.method, path) is None));
                },
                None => {
                    assert(m1.param == m.param.push(r));
                    assert(m1.param[m.param.len() as int] == r);
                    assert(!(param_lookup(m1.param, r.method, path) is None));
                },
            }
        }
    } else {
        crate::pattern::lemma_exact_pattern_matches_only_itself(r.path, path);
        lemma_register_exact_then_dispatch(m, r);
    }
}

} // verus!
