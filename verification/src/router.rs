//! The route table and its two operations: `register`, which files a route
//! under the exact or the parameterized table, and dispatch (`get_handler`
//! and `route`), which picks the handler for a request or produces the
//! fixed not-found response.
//!
//! Handlers themselves are asynchronous callables that live outside this
//! crate; a route names its handler by an identity the surrounding program
//! assigns, and dispatch answers with that identity. The surrounding
//! program shares one router among connections and invokes the chosen
//! handler after dispatch has answered, so no table access ever spans a
//! handler's execution.

use vstd::pervasive::VecAdditionalExecFns;
use vstd::prelude::*;
use vstd::string::StringSliceAdditionalSpecFns;
use crate::http::{not_found_body, not_found_response, HttpMethod, Request, Response};
use crate::laws::lemma_register_preserves_wf;
use crate::model::{
    dispatch_model, empty_router_model, exact_lookup, key_matches, lemma_find_key_prefix,
    lemma_param_lookup_prefix, register_all, register_model, router_wf, upsert, RouteModel,
    RouterModel,
};
use crate::pattern::{bytes_eq, path_matches_bytes, pattern_has_param, pattern_matches};

verus! {

/// An immutable binding of an HTTP method and a path pattern to a handler
/// identity.
pub struct Route {
    method: HttpMethod,
    path: Vec<u8>,
    handler: u64,
}

impl View for Route {
    type V = RouteModel;

    closed spec fn view(&self) -> RouteModel {
        RouteModel { method: self.method, path: self.path@, handler: self.handler }
    }
}

impl Route {
    /// Builds a route for the given method. The path is taken as written:
    /// segments wrapped in braces are placeholders, everything else is
    /// literal, and a malformed placeholder is simply a literal segment.
    pub fn new(method: HttpMethod, path: &str, handler: u64) -> (r: Route)
        ensures
            r@ == (RouteModel { method, path: path.spec_bytes(), handler }),
    {
        Route { method, path: vstd::slice::slice_to_vec(path.as_bytes()), handler }
    }

    /// Builds a GET route.
    pub fn get(path: &str, handler: u64) -> (r: Route)
        ensures
            r@ == (RouteModel { method: HttpMethod::Get, path: path.spec_bytes(), handler }),
    {
        Route::new(HttpMethod::Get, path, handler)
    }
}

impl Clone for Route {
    /// Cloning a route copies the binding; the handler identity is shared,
    /// not duplicated.
    fn clone(&self) -> (r: Self)
        ensures
            r@ == self@,
    {
        Route {
            method: self.method,
            path: vstd::slice::slice_to_vec(self.path.as_slice()),
            handler: self.handler,
        }
    }
}

/// The models of a table's routes, in table order.
pub open spec fn routes_view(v: Seq<Route>) -> Seq<RouteModel> {
    v.map_values(|r: Route| r@)
}

/// The router: an exact table, keyed by the literal path, and a
/// parameterized table, scanned in registration order.
pub struct Router {
    exact: Vec<Route>,
    param: Vec<Route>,
}

impl View for Router {
    type V = RouterModel;

    closed spec fn view(&self) -> RouterModel {
        RouterModel {
            exact: routes_view(self.exact@),
            param: routes_view(self.param@),
        }
    }
}

/// Replaces the entry under `route`'s key, or appends the route,
/// exactly as `upsert` states.
fn table_upsert(entries: &mut Vec<Route>, route: Route)
    ensures
        routes_view(final(entries)@) == upsert(
            routes_view(old(entries)@),
            route@,
        ),
{
    let ghost entries0 = routes_view(entries@);
    let ghost rm = route@;
    let mut i: usize = 0;
    while i < entries.len()
        invariant
            rm == route@,
            entries0 == routes_view(old(entries)@),
            routes_view(entries@) == entries0,
            0 <= i <= entries@.len(),
            forall|j: int| 0 <= j < i ==> !key_matches(#[trigger] entries0[j], rm.method, rm.path),
        decreases entries@.len() - i,
    {
        let same_key = entries[i].method == route.method && bytes_eq(
            entries[i].path.as_slice(),
            route.path.as_slice(),
        );
        if same_key {
            proof {
                assert(entries0[i as int] == entries@[i as int]@);
                lemma_find_key_prefix(entries0, rm.method, rm.path, i as int);
            }
            entries.set(i, route);
            proof {
                assert(routes_view(entries@) =~= entries0.update(i as int, rm));
            }
            return;
        }
        proof {
            assert(entries0[i as int] == entries@[i as int]@);
        }
        i += 1;
    }
    proof {
        lemma_find_key_prefix(entries0, rm.method, rm.path, entries0.len() as int);
    }
    entries.push(route);
    proof {
        assert(routes_view(entries@) =~= entries0.push(rm));
    }
}

impl Router {
    /// A router with nothing registered: every dispatch is a miss.
    pub fn new() -> (r: Router)
        ensures
            r@ == empty_router_model(),
            router_wf(r@),
    {
        let r = Router { exact: Vec::new(), param: Vec::new() };
        proof {
            assert(r@.exact =~= Seq::<RouteModel>::empty());
            assert(r@.param =~= Seq::<RouteModel>::empty());
        }
        r
    }

    /// Builds a router from pre-built routes merged in order: what the
    /// application's modules hand over at startup, before the transport
    /// begins accepting.
    pub fn from_routes(routes: &Vec<Route>) -> (r: Router)
        ensures
            r@ == register_all(empty_router_model(), routes_view(routes@)),
            router_wf(r@),
    {
        let ghost all = routes_view(routes@);
        let mut r = Router::new();
        proof {
            assert(all.skip(0) =~= all);
        }
        let mut i: usize = 0;
        while i < routes.len()
            invariant
                all == routes_view(routes@),
                all.len() == routes@.len(),
                0 <= i <= all.len(),
                register_all(r@, all.skip(i as int)) == register_all(empty_router_model(), all),
                router_wf(r@),
            decreases all.len() - i,
        {
            proof {
                assert(all.skip(i as int)[0] == all[i as int]);
                assert(all[i as int] == routes@[i as int]@);
                assert(all.skip(i as int).skip(1) =~= all.skip(i as int + 1));
            }
            let route = routes[i].clone();
            r.register(route);
            i += 1;
        }
        proof {
            assert(all.skip(all.len() as int) =~= Seq::<RouteModel>::empty());
        }
        r
    }

    /// Files the route in the exact table when its pattern holds no
    /// placeholder segment, in the parameterized table otherwise. An entry
    /// already registered under the same method and pattern is silently
    /// overwritten; no error is raised.
    pub fn register(&mut self, route: Route)
        ensures
            final(self)@ == register_model(old(self)@, route@),
            router_wf(old(self)@) ==> router_wf(final(self)@),
    {
        let ghost m0 = self@;
        let ghost rm = route@;
        if pattern_has_param(route.path.as_slice()) {
            table_upsert(&mut self.param, route);
        } else {
            table_upsert(&mut self.exact, route);
        }
        proof {
            if router_wf(m0) {
                lemma_register_preserves_wf(m0, rm);
            }
        }
    }

    /// The handler for the request, if any route matches: the exact table
    /// is consulted first and always wins; only on a miss there is the
    /// parameterized table scanned, front to back, and the first entry of
    /// the request's method whose pattern matches the path answers.
    pub fn get_handler(&self, req: &Request) -> (h: Option<u64>)
        ensures
            h == dispatch_model(self@, req.method, req.path@),
    {
        let ghost m = self@;
        let mut i: usize = 0;
        while i < self.exact.len()
            invariant
                m == self@,
                0 <= i <= self.exact@.len(),
                forall|j: int|
                    0 <= j < i ==> !key_matches(#[trigger] m.exact[j], req.method, req.path@),
            decreases self.exact@.len() - i,
        {
            proof {
                assert(m.exact[i as int] == self.exact@[i as int]@);
            }
            let hit = self.exact[i].method == req.method && bytes_eq(
                self.exact[i].path.as_slice(),
                req.path.as_slice(),
            );
            if hit {
                proof {
                    lemma_find_key_prefix(m.exact, req.method, req.path@, i as int);
                }
                return Some(self.exact[i].handler);
            }
            i += 1;
        }
        proof {
            lemma_find_key_prefix(m.exact, req.method, req.path@, m.exact.len() as int);
        }
        let mut k: usize = 0;
        while k < self.param.len()
            invariant
                m == self@,
                exact_lookup(m.exact, req.method, req.path@) is None,
                0 <= k <= self.param@.len(),
                forall|j: int|
                    0 <= j < k ==> !(#[trigger] m.param[j].method == req.method
                        && pattern_matches(m.param[j].path, req.path@)),
            decreases self.param@.len() - k,
        {
            proof {
                assert(m.param[k as int] == self.param@[k as int]@);
            }
            let hit = self.param[k].method == req.method && path_matches_bytes(
                self.param[k].path.as_slice(),
                req.path.as_slice(),
            );
            if hit {
                proof {
                    lemma_param_lookup_prefix(m.param, req.method, req.path@, k as int);
                }
                return Some(self.param[k].handler);
            }
            k += 1;
        }
        proof {
            lemma_param_lookup_prefix(m.param, req.method, req.path@, m.param.len() as int);
        }
        None
    }

    /// Dispatches one request: either exactly one handler is to be
    /// invoked, or no route matches and the fixed not-found response comes
    /// back. Nothing else ever comes back, and no failure escapes.
    pub fn route(&self, req: &Request) -> (action: RouteAction)
        ensures
            match action {
                RouteAction::Invoke(h) => dispatch_model(self@, req.method, req.path@) == Some(h),
                RouteAction::NotFound(resp) => {
                    &&& dispatch_model(self@, req.method, req.path@) is None
                    &&& resp.status == 404
                    &&& resp.body@ == not_found_body()
                    &&& resp.body@.len() > 0
                },
            },
    {
        match self.get_handler(req) {
            Some(h) => RouteAction::Invoke(h),
            None => RouteAction::NotFound(not_found_response()),
        }
    }
}

impl Clone for Router {
    /// Cloning a router copies both tables; the copy dispatches exactly as
    /// the original.
    fn clone(&self) -> (r: Self)
        ensures
            r@ == self@,
    {
        let r = Router { exact: clone_routes(&self.exact), param: clone_routes(&self.param) };
        r
    }
}

/// Copies a table of routes, entry by entry.
fn clone_routes(v: &Vec<Route>) -> (out: Vec<Route>)
    ensures
        routes_view(out@) == routes_view(v@),
{
    let mut out: Vec<Route> = Vec::new();
    let mut i: usize = 0;
    while i < v.len()
        invariant
            0 <= i <= v@.len(),
            out@.len() == i,
            forall|j: int| 0 <= j < i ==> #[trigger] out@[j]@ == v@[j]@,
        decreases v@.len() - i,
    {
        out.push(v[i].clone());
        i += 1;
    }
    proof {
        assert(routes_view(out@) =~= routes_view(v@));
    }
    out
}

/// What one dispatch decides: invoke the handler with this identity, or
/// answer with this response (the fixed not-found one) and invoke nothing.
pub enum RouteAction {
    Invoke(u64),
    NotFound(Response),
}

} // verus!
