//! The route table and the dispatch step: a per-method mapping from
//! exact path to a type-erased handler, and the lookup that serves one
//! request.
//!
//! A handler is stored as an opaque identifier. The host program keeps
//! the matching callables and hands the dispatcher an invocation
//! function; the table itself only decides which handler serves a
//! request.
use vstd::prelude::*;
use vstd::string::StringExecFns;

use crate::assoc::{assoc_map, lemma_assoc_map_prefix, lemma_assoc_map_push,
    lemma_assoc_map_take_step};
use crate::json::JsonValue;
use crate::request::FullRequest;
use crate::response::{ApiResponse, ApiResponseType};

verus! {

broadcast use vstd::std_specs::vec::group_vec_axioms, vstd::seq::group_seq_axioms;

/// The identifier under which a type-erased handler is stored.
pub type HandlerId = u64;

/// One method's route mapping: exact path to handler, last
/// registration wins.
pub struct RouteMapInner {
    entries: Vec<(String, HandlerId)>,
}

impl View for RouteMapInner {
    type V = Seq<(Seq<char>, HandlerId)>;

    closed spec fn view(&self) -> Seq<(Seq<char>, HandlerId)> {
        Seq::new(self.entries@.len(), |i: int| (self.entries@[i].0@, self.entries@[i].1))
    }
}

impl RouteMapInner {
    /// The path-to-handler mapping this table stands for.
    pub open spec fn to_map(&self) -> Map<Seq<char>, HandlerId> {
        assoc_map(self@)
    }

    /// An empty route mapping.
    pub fn new() -> (m: RouteMapInner)
        ensures
            m@ == Seq::<(Seq<char>, HandlerId)>::empty(),
            m.to_map() == Map::<Seq<char>, HandlerId>::empty(),
    {
        let m = RouteMapInner { entries: Vec::new() };
        proof {
            assert(m@ =~= Seq::<(Seq<char>, HandlerId)>::empty());
        }
        m
    }

    /// The number of stored registrations.
    pub fn len(&self) -> (n: usize)
        ensures
            n == self@.len(),
    {
        self.entries.len()
    }

    /// The registration at a position, in registration order.
    pub fn entry_at(&self, i: usize) -> (e: (String, HandlerId))
        requires
            i < self@.len(),
        ensures
            (e.0@, e.1) == self@[i as int],
    {
        let e = &self.entries[i];
        (e.0.clone(), e.1)
    }

    /// Registers a handler for a path. A path registered again is
    /// served by the new handler; other paths are untouched.
    pub fn insert(&mut self, path: String, handler: HandlerId)
        ensures
            final(self)@ == old(self)@.push((path@, handler)),
            final(self).to_map() == old(self).to_map().insert(path@, handler),
    {
        let ghost p: Seq<char> = path@;
        self.entries.push((path, handler));
        proof {
            assert(self@ =~= old(self)@.push((p, handler)));
            lemma_assoc_map_push(old(self)@, p, handler);
        }
    }

    /// Looks a path up: the latest handler registered for it, if any.
    pub fn get(&self, path: &String) -> (r: Option<HandlerId>)
        ensures
            match r {
                Some(h) => self.to_map().contains_key(path@) && self.to_map()[path@] == h,
                None => !self.to_map().contains_key(path@),
            },
    {
        let n = self.entries.len();
        let mut i: usize = n;
        while i > 0
            invariant
                i <= n,
                n == self.entries@.len(),
                forall|j: int| i <= j < n ==> self@[j].0 != path@,
            decreases i,
        {
            let idx = i - 1;
            if self.entries[idx].0 == *path {
                proof {
                    lemma_assoc_map_prefix(self@, idx as int + 1, path@);
                    lemma_assoc_map_take_step(self@, idx as int + 1);
                }
                return Some(self.entries[idx].1);
            }
            i = idx;
        }
        proof {
            lemma_assoc_map_prefix(self@, 0, path@);
            assert(self@.take(0) =~= Seq::<(Seq<char>, HandlerId)>::empty());
        }
        None
    }
}

/// The route table: one independent mapping per supported method.
pub struct RouteMap {
    pub get_map: RouteMapInner,
    pub post_map: RouteMapInner,
}

impl Default for RouteMap {
    /// A route table with nothing registered.
    fn default() -> (m: Self)
        ensures
            m.get_map.to_map() == Map::<Seq<char>, HandlerId>::empty(),
            m.post_map.to_map() == Map::<Seq<char>, HandlerId>::empty(),
    {
        RouteMap { get_map: RouteMapInner::new(), post_map: RouteMapInner::new() }
    }
}

/// A supported HTTP method. A request whose method is neither of these
/// is a route miss; it is not silently served from another method's
/// mapping.
#[derive(PartialEq, Eq, Structural, Clone, Copy, Debug)]
pub enum Method {
    Get,
    Post,
}

/// The supported method a method string names, if any.
pub open spec fn method_of(s: Seq<char>) -> Option<Method> {
    if s == "GET"@ {
        Some(Method::Get)
    } else if s == "POST"@ {
        Some(Method::Post)
    } else {
        None
    }
}

/// Parses a method string into a supported method.
pub fn parse_method(s: &String) -> (m: Option<Method>)
    ensures
        m == method_of(s@),
{
    let get_name = String::from_str("GET");
    let post_name = String::from_str("POST");
    if *s == get_name {
        Some(Method::Get)
    } else if *s == post_name {
        Some(Method::Post)
    } else {
        None
    }
}

/// The route that serves a request: the latest handler registered for
/// the request's exact method and path, if any.
pub open spec fn route_of(routes: RouteMap, method: Seq<char>, path: Seq<char>) -> Option<
    HandlerId,
> {
    match method_of(method) {
        Some(Method::Get) => if routes.get_map.to_map().contains_key(path) {
            Some(routes.get_map.to_map()[path])
        } else {
            None
        },
        Some(Method::Post) => if routes.post_map.to_map().contains_key(path) {
            Some(routes.post_map.to_map()[path])
        } else {
            None
        },
        None => None,
    }
}

/// Looks the route up that serves a method and path.
pub fn lookup_route(routes: &RouteMap, method: &String, path: &String) -> (r: Option<HandlerId>)
    ensures
        r == route_of(*routes, method@, path@),
{
    match parse_method(method) {
        Some(Method::Get) => routes.get_map.get(path),
        Some(Method::Post) => routes.post_map.get(path),
        None => None,
    }
}

/// Whether a response is the answer for a request no route serves:
/// status 404 with no headers and the default null body.
pub open spec fn is_not_found(resp: ApiResponse) -> bool {
    &&& resp.status_code == 404
    &&& resp.headers@.len() == 0
    &&& resp.resp == ApiResponseType::Json(JsonValue::Null)
}

/// The response for a request no route serves.
pub fn not_found_response() -> (r: ApiResponse)
    ensures
        is_not_found(r),
{
    ApiResponse { status_code: 404, ..Default::default() }
}

/// Serves one request: looks the route up and invokes exactly the
/// handler registered for it, or answers a miss with the not-found
/// response without invoking anything.
pub fn dispatch<F: Fn(HandlerId, FullRequest) -> ApiResponse>(
    routes: &RouteMap,
    req: FullRequest,
    invoke: F,
) -> (resp: ApiResponse)
    requires
        route_of(*routes, req.method@, req.path@) is Some ==> call_requires(
            invoke,
            (route_of(*routes, req.method@, req.path@)->0, req),
        ),
    ensures
        match route_of(*routes, req.method@, req.path@) {
            Some(id) => call_ensures(invoke, (id, req), resp),
            None => is_not_found(resp),
        },
{
    let hit = lookup_route(routes, &req.method, &req.path);
    match hit {
        Some(id) => invoke(id, req),
        None => not_found_response(),
    }
}

/// Law: after a handler is registered for a method and path, a request
/// for exactly that method and path routes to exactly that handler.
pub proof fn lemma_registered_route_is_served(
    before: RouteMap,
    after: RouteMap,
    method: Method,
    p: Seq<char>,
    h: HandlerId,
)
    requires
        method == Method::Get ==> after.get_map.to_map() == before.get_map.to_map().insert(p, h),
        method == Method::Post ==> after.post_map.to_map() == before.post_map.to_map().insert(
            p,
            h,
        ),
    ensures
        method == Method::Get ==> route_of(after, "GET"@, p) == Some(h),
        method == Method::Post ==> route_of(after, "POST"@, p) == Some(h),
{
    proof_method_names_differ();
}

/// Law: registering the same method and path again replaces the prior
/// handler; a later request is served only by the latest registration.
pub proof fn lemma_reregistration_replaces(
    m: Map<Seq<char>, HandlerId>,
    p: Seq<char>,
    h1: HandlerId,
    h2: HandlerId,
)
    ensures
        m.insert(p, h1).insert(p, h2)[p] == h2,
        forall|routes: RouteMap|
            routes.get_map.to_map() == m.insert(p, h1).insert(p, h2) ==> route_of(
                routes,
                "GET"@,
                p,
            ) == Some(h2),
{
    proof_method_names_differ();
}

/// Law: a method and path with no registration routes to no handler at
/// all, so dispatch answers with the not-found response, whose status
/// is not a success status.
pub proof fn lemma_unregistered_route_not_served(
    routes: RouteMap,
    method: Seq<char>,
    path: Seq<char>,
    resp: ApiResponse,
)
    requires
        !routes.get_map.to_map().contains_key(path),
        !routes.post_map.to_map().contains_key(path),
        is_not_found(resp),
    ensures
        route_of(routes, method, path) is None,
        !(200 <= resp.status_code < 300),
{
}

/// The two supported method names differ.
proof fn proof_method_names_differ()
    ensures
        "GET"@ != "POST"@,
{
    reveal_strlit("GET");
    reveal_strlit("POST");
    assert("GET"@.len() != "POST"@.len());
}

} // verus!
