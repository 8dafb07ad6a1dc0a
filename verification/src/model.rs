//! The mathematical model of the route table.
//!
//! A route is a method, a pattern and a handler identity; a router is two
//! tables of routes, the exact one and the parameterized one. Registration
//! and dispatch are stated here as pure functions over these values; the
//! executable `Router` promises in its contracts to behave exactly as
//! they say, and the laws about the router are proved over them.

use vstd::prelude::*;
use crate::http::HttpMethod;
use crate::pattern::{has_param_segment, pattern_matches};

verus! {

/// One route as a value: an HTTP method, the pattern's bytes, and the
/// identity of the handler it binds.
pub ghost struct RouteModel {
    pub method: HttpMethod,
    pub path: Seq<u8>,
    pub handler: u64,
}

/// The router's state as a value: the exact table, whose patterns hold no
/// placeholder, and the parameterized table, whose patterns hold at least
/// one. The parameterized table keeps registration order, and lookup scans
/// it front to back.
pub ghost struct RouterModel {
    pub exact: Seq<RouteModel>,
    pub param: Seq<RouteModel>,
}

/// Whether `entry` is registered under the key `(method, path)`.
pub open spec fn key_matches(entry: RouteModel, method: HttpMethod, path: Seq<u8>) -> bool {
    entry.method == method && entry.path == path
}

/// The index of the first entry registered under `(method, path)`, if any.
pub open spec fn find_key(entries: Seq<RouteModel>, method: HttpMethod, path: Seq<u8>) -> Option<
    int,
>
    decreases entries.len(),
{
    if entries.len() == 0 {
        None
    } else if key_matches(entries[0], method, path) {
        Some(0)
    } else {
        match find_key(entries.skip(1), method, path) {
            Some(i) => Some(i + 1),
            None => None,
        }
    }
}

/// Inserts `route` into a table: an entry under the same key is replaced
/// in place, and otherwise the route is appended at the end.
pub open spec fn upsert(entries: Seq<RouteModel>, route: RouteModel) -> Seq<RouteModel> {
    match find_key(entries, route.method, route.path) {
        Some(i) => entries.update(i, route),
        None => entries.push(route),
    }
}

/// What `register` does: a pattern with a placeholder segment goes to the
/// parameterized table, any other to the exact table; within its table an
/// entry under the same key is silently overwritten.
pub open spec fn register_model(m: RouterModel, route: RouteModel) -> RouterModel {
    if has_param_segment(route.path) {
        RouterModel { exact: m.exact, param: upsert(m.param, route) }
    } else {
        RouterModel { exact: upsert(m.exact, route), param: m.param }
    }
}

/// A router with nothing registered.
pub open spec fn empty_router_model() -> RouterModel {
    RouterModel { exact: Seq::empty(), param: Seq::empty() }
}

/// The router reached from `m` by registering every route of `routes`,
/// first to last.
pub open spec fn register_all(m: RouterModel, routes: Seq<RouteModel>) -> RouterModel
    decreases routes.len(),
{
    if routes.len() == 0 {
        m
    } else {
        register_all(register_model(m, routes[0]), routes.skip(1))
    }
}

/// The handler registered in a table under exactly `(method, path)`.
pub open spec fn exact_lookup(
    entries: Seq<RouteModel>,
    method: HttpMethod,
    path: Seq<u8>,
) -> Option<u64> {
    match find_key(entries, method, path) {
        Some(i) => Some(entries[i].handler),
        None => None,
    }
}

/// The handler of the first entry, in table order, whose method is
/// `method` and whose pattern matches `path`.
pub open spec fn param_lookup(
    entries: Seq<RouteModel>,
    method: HttpMethod,
    path: Seq<u8>,
) -> Option<u64>
    decreases entries.len(),
{
    if entries.len() == 0 {
        None
    } else if entries[0].method == method && pattern_matches(entries[0].path, path) {
        Some(entries[0].handler)
    } else {
        param_lookup(entries.skip(1), method, path)
    }
}

/// What `dispatch` decides: the exact table is consulted first and always
/// wins; only when it holds no entry for the full path is the
/// parameterized table scanned; `None` means no route matches.
pub open spec fn dispatch_model(m: RouterModel, method: HttpMethod, path: Seq<u8>) -> Option<u64> {
    match exact_lookup(m.exact, method, path) {
        Some(h) => Some(h),
        None => param_lookup(m.param, method, path),
    }
}

/// Well-formedness of a table: each key registered at most once.
pub open spec fn keys_unique(entries: Seq<RouteModel>) -> bool {
    forall|i: int, j: int|
        0 <= i < j < entries.len() ==> !key_matches(
            #[trigger] entries[j],
            #[trigger] entries[i].method,
            entries[i].path,
        )
}

/// Well-formedness of a router: exact patterns hold no placeholder,
/// parameterized patterns hold at least one, and within each table every
/// key is registered at most once.
pub open spec fn router_wf(m: RouterModel) -> bool {
    &&& forall|i: int|
        0 <= i < m.exact.len() ==> !has_param_segment(#[trigger] m.exact[i].path)
    &&& forall|i: int| 0 <= i < m.param.len() ==> has_param_segment(#[trigger] m.param[i].path)
    &&& keys_unique(m.exact)
    &&& keys_unique(m.param)
}

/// What `find_key` answers: a found index is the first whose entry holds
/// the key, and `None` means no entry holds it.
pub proof fn lemma_find_key_spec(entries: Seq<RouteModel>, method: HttpMethod, path: Seq<u8>)
    ensures
        match find_key(entries, method, path) {
            Some(i) => {
                &&& 0 <= i < entries.len()
                &&& key_matches(entries[i], method, path)
                &&& forall|j: int| 0 <= j < i ==> !key_matches(#[trigger] entries[j], method, path)
            },
            None => forall|j: int|
                0 <= j < entries.len() ==> !key_matches(#[trigger] entries[j], method, path),
        },
    decreases entries.len(),
{
    if entries.len() == 0 {
    } else if key_matches(entries[0], method, path) {
    } else {
        lemma_find_key_spec(entries.skip(1), method, path);
        match find_key(entries.skip(1), method, path) {
            Some(i) => {
                assert forall|j: int| 0 <= j < i + 1 implies !key_matches(
                    #[trigger] entries[j],
                    method,
                    path,
                ) by {
                    if j > 0 {
                        assert(entries.skip(1)[j - 1] == entries[j]);
                    }
                }
            },
            None => {
                assert forall|j: int| 0 <= j < entries.len() implies !key_matches(
                    #[trigger] entries[j],
                    method,
                    path,
                ) by {
                    if j > 0 {
                        assert(entries.skip(1)[j - 1] == entries[j]);
                    }
                }
            },
        }
    }
}

/// Connects a scan that saw no key in the first `i` entries with
/// `find_key`: at the end the key is absent, and at a hit it is the first.
pub proof fn lemma_find_key_prefix(
    entries: Seq<RouteModel>,
    method: HttpMethod,
    path: Seq<u8>,
    i: int,
)
    requires
        0 <= i <= entries.len(),
        forall|j: int| 0 <= j < i ==> !key_matches(#[trigger] entries[j], method, path),
    ensures
        i == entries.len() ==> find_key(entries, method, path) is None,
        i < entries.len() && key_matches(entries[i], method, path) ==> find_key(
            entries,
            method,
            path,
        ) == Some(i),
    decreases entries.len(),
{
    if entries.len() == 0 {
    } else if i == 0 {
    } else {
        assert(!key_matches(entries[0], method, path));
        assert forall|j: int| 0 <= j < i - 1 implies !key_matches(
            #[trigger] entries.skip(1)[j],
            method,
            path,
        ) by {
            assert(entries.skip(1)[j] == entries[j + 1]);
        }
        lemma_find_key_prefix(entries.skip(1), method, path, i - 1);
        if i < entries.len() {
            assert(entries.skip(1)[i - 1] == entries[i]);
        }
    }
}

/// The same connection for the parameterized scan: at the end no entry
/// matches, and at a hit the answer is that entry's handler.
pub proof fn lemma_param_lookup_prefix(
    entries: Seq<RouteModel>,
    method: HttpMethod,
    path: Seq<u8>,
    i: int,
)
    requires
        0 <= i <= entries.len(),
        forall|j: int|
            0 <= j < i ==> !(#[trigger] entries[j].method == method && pattern_matches(
                entries[j].path,
                path,
            )),
    ensures
        i == entries.len() ==> param_lookup(entries, method, path) is None,
        i < entries.len() && entries[i].method == method && pattern_matches(entries[i].path, path)
            ==> param_lookup(entries, method, path) == Some(entries[i].handler),
    decreases entries.len(),
{
    if entries.len() == 0 {
    } else if i == 0 {
    } else {
        assert(!(entries[0].method == method && pattern_matches(entries[0].path, path)));
        assert forall|j: int| 0 <= j < i - 1 implies !(#[trigger] entries.skip(1)[j].method
            == method && pattern_matches(entries.skip(1)[j].path, path)) by {
            assert(entries.skip(1)[j] == entries[j + 1]);
        }
        lemma_param_lookup_prefix(entries.skip(1), method, path, i - 1);
        if i < entries.len() {
            assert(entries.skip(1)[i - 1] == entries[i]);
        }
    }
}

/// The parameterized scan finds nothing exactly when no entry of the
/// method's matches the path.
pub proof fn lemma_param_lookup_none_iff(entries: Seq<RouteModel>, method: HttpMethod, path: Seq<u8>)
    ensures
        param_lookup(entries, method, path) is None <==> forall|j: int|
            0 <= j < entries.len() ==> !(#[trigger] entries[j].method == method && pattern_matches(
                entries[j].path,
                path,
            )),
    decreases entries.len(),
{
    if entries.len() == 0 {
    } else {
        lemma_param_lookup_none_iff(entries.skip(1), method, path);
        if entries[0].method == method && pattern_matches(entries[0].path, path) {
        } else {
            assert forall|j: int|
                0 <= j < entries.len() && param_lookup(entries, method, path) is None implies !(
            #[trigger] entries[j].method == method && pattern_matches(entries[j].path, path)) by {
                if j > 0 {
                    assert(entries.skip(1)[j - 1] == entries[j]);
                }
            }
            assert(forall|j: int|
                0 <= j < entries.skip(1).len() ==> #[trigger] entries.skip(1)[j] == entries[j
                    + 1]);
        }
    }
}

} // verus!
