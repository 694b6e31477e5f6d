//! The builder surface: registering handlers under methods and paths,
//! choosing the bind address, and handing the completed route table to
//! exactly one backend dispatcher.
//!
//! Handlers of heterogeneous input types are stored under one uniform
//! call shape. The adapter functions below perform that erased call:
//! they convert the uniform input into the handler's declared input
//! type and invoke the handler.
use vstd::prelude::*;

use crate::routes::{HandlerId, RouteMap};

verus! {

broadcast use vstd::std_specs::vec::group_vec_axioms, vstd::seq::group_seq_axioms;

/// Performs the uniform, type-erased handler call: invokes the callback
/// on the uniform input directly.
pub fn create_box_dyn_fn<I, O, F: Fn(I) -> O>(cb: F, input: I) -> (r: O)
    requires
        call_requires(cb, (input,)),
    ensures
        call_ensures(cb, (input,), r),
{
    cb(input)
}

/// Performs the uniform, type-erased handler call for a callback whose
/// input type declares a `From` conversion out of the uniform input:
/// converts, then invokes.
pub fn create_box_dyn_fn_from<IOriginal, I: From<IOriginal>, O, F: Fn(I) -> O>(
    cb: F,
    input: IOriginal,
) -> (r: O)
    requires
        forall|m: I| call_ensures(I::from, (input,), m) ==> call_requires(cb, (m,)),
    ensures
        exists|m: I| #[trigger] call_ensures(cb, (m,), r) && call_ensures(I::from, (input,), m),
{
    let m = I::from(input);
    cb(m)
}

/// Performs the uniform, type-erased handler call with a caller-supplied
/// conversion: converts the uniform input, then invokes the callback.
pub fn create_box_dyn_fn_convert<IOriginal, I, O, F: Fn(I) -> O, F2: Fn(IOriginal) -> I>(
    cb: F,
    convert: F2,
    input: IOriginal,
) -> (r: O)
    requires
        call_requires(convert, (input,)),
        forall|m: I| call_ensures(convert, (input,), m) ==> call_requires(cb, (m,)),
    ensures
        exists|m: I| #[trigger] call_ensures(cb, (m,), r) && call_ensures(convert, (input,), m),
{
    let m = convert(input);
    cb(m)
}

/// The fluent builder: collects registrations and the bind
/// configuration, then hands everything to one dispatcher entry point.
pub struct ServerBuilder {
    pub route_map: RouteMap,
    /// Only the self-hosted backend binds to this address.
    pub bind_ip: [u8; 4],
    /// Only the self-hosted backend listens on this port.
    pub listen_port: u16,
}

impl Default for ServerBuilder {
    /// A builder with nothing registered, bound to all interfaces on
    /// port 3000.
    fn default() -> (b: Self)
        ensures
            b.route_map.get_map.to_map() == Map::<Seq<char>, HandlerId>::empty(),
            b.route_map.post_map.to_map() == Map::<Seq<char>, HandlerId>::empty(),
            b.bind_ip@ == seq![0u8, 0u8, 0u8, 0u8],
            b.listen_port == 3000,
    {
        let b = ServerBuilder {
            route_map: Default::default(),
            bind_ip: [0, 0, 0, 0],
            listen_port: 3000,
        };
        proof {
            assert(b.bind_ip@ =~= seq![0u8, 0u8, 0u8, 0u8]);
        }
        b
    }
}

impl ServerBuilder {
    /// Chooses the port the self-hosted backend listens on.
    pub fn on_port(self, port: u16) -> (b: Self)
        ensures
            b.listen_port == port,
            b.bind_ip == self.bind_ip,
            b.route_map == self.route_map,
    {
        ServerBuilder { listen_port: port, ..self }
    }

    /// Chooses the address the self-hosted backend binds to.
    pub fn on_ip(self, ip: [u8; 4]) -> (b: Self)
        ensures
            b.bind_ip == ip,
            b.listen_port == self.listen_port,
            b.route_map == self.route_map,
    {
        ServerBuilder { bind_ip: ip, ..self }
    }

    /// Registers a handler for GET requests on an exact path.
    pub fn get(self, route: &str, handler: HandlerId) -> (b: Self)
        ensures
            b.route_map.get_map.to_map() == self.route_map.get_map.to_map().insert(
                route@,
                handler,
            ),
            b.route_map.get_map@ == self.route_map.get_map@.push((route@, handler)),
            b.route_map.post_map == self.route_map.post_map,
            b.bind_ip == self.bind_ip,
            b.listen_port == self.listen_port,
    {
        let ServerBuilder { mut route_map, bind_ip, listen_port } = self;
        route_map.get_map.insert(route.to_owned(), handler);
        ServerBuilder { route_map, bind_ip, listen_port }
    }

    /// Registers a handler for POST requests on an exact path.
    pub fn post(self, route: &str, handler: HandlerId) -> (b: Self)
        ensures
            b.route_map.post_map.to_map() == self.route_map.post_map.to_map().insert(
                route@,
                handler,
            ),
            b.route_map.post_map@ == self.route_map.post_map@.push((route@, handler)),
            b.route_map.get_map == self.route_map.get_map,
            b.bind_ip == self.bind_ip,
            b.listen_port == self.listen_port,
    {
        let ServerBuilder { mut route_map, bind_ip, listen_port } = self;
        route_map.post_map.insert(route.to_owned(), handler);
        ServerBuilder { route_map, bind_ip, listen_port }
    }

    /// Consumes the builder and hands the bind address, port and the
    /// completed route table to the chosen dispatcher entry point.
    pub fn start<R, F: FnOnce([u8; 4], u16, RouteMap) -> R>(self, start_cb: F) -> (r: R)
        requires
            call_requires(start_cb, (self.bind_ip, self.listen_port, self.route_map)),
        ensures
            call_ensures(start_cb, (self.bind_ip, self.listen_port, self.route_map), r),
    {
        let ServerBuilder { route_map, bind_ip, listen_port } = self;
        start_cb(bind_ip, listen_port, route_map)
    }
}

} // verus!
