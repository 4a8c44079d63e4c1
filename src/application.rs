//! The application above HTTP: routes by exact path, with request bodies of
//! the JSON route decoded by a decoder that the embedding program supplies.
use vstd::prelude::*;

use crate::http::{bad_request_response, ok_response, slice_of, HttpReq, HttpResp};
use crate::proto::ProtocolBuffer;

verus! {

/// The routes of the application.
#[derive(Debug, Clone, Copy, PartialEq, Eq, Structural)]
pub enum Route {
    /// `/data`: answers 200.
    Data,
    /// `/req`: decodes the body; 200 where it decodes, else 400.
    Req,
    /// Any other path: answers 200.
    Unmatched,
}

/// "/data"
pub open spec fn data_path() -> Seq<u8> {
    seq![47u8, 100u8, 97u8, 116u8, 97u8]
}

/// "/req"
pub open spec fn req_path() -> Seq<u8> {
    seq![47u8, 114u8, 101u8, 113u8]
}

/// The route of a path: exact match only.
pub open spec fn route_of(path: Seq<u8>) -> Route {
    if path == data_path() {
        Route::Data
    } else if path == req_path() {
        Route::Req
    } else {
        Route::Unmatched
    }
}

/// The response to a request on `route`, where `body_accepted` tells whether
/// the decoder took the body.
pub open spec fn response_for(route: Route, body_accepted: bool) -> Seq<u8> {
    if route == Route::Req && !body_accepted {
        bad_request_response()
    } else {
        ok_response()
    }
}

/// Decodes the body of a request on the JSON route.
pub trait BodyDecoder {
    /// Whether the body decoded.
    fn decode(&mut self, body: &[u8]) -> bool;
}

/// Something built from a parsed request.
pub trait FromHttpRequest<P: ProtocolBuffer>: Sized {
    fn from_context(context: &HttpReq<P>) -> Self;
}

/// A handler of requests, called with the request.
pub trait Handler<T, P: ProtocolBuffer> {
    fn call(self, context: &HttpReq<P>) -> HttpResp;
}

/// The path of a request.
pub struct ReqPath(pub Vec<u8>);

impl<P: ProtocolBuffer> FromHttpRequest<P> for ReqPath {
    fn from_context(context: &HttpReq<P>) -> (r: ReqPath) {
        ReqPath(vstd::slice::slice_to_vec(context.path()))
    }
}

impl ReqPath {
    /// The path of a request.
    pub fn of<P: ProtocolBuffer>(context: &HttpReq<P>) -> (r: ReqPath)
        ensures
            r.0@ == slice_of(context.text(), context.path_ref()),
    {
        ReqPath(vstd::slice::slice_to_vec(context.path()))
    }
}

/// Calls a handler with a request.
pub fn trigger<T, H: Handler<T, P>, P: ProtocolBuffer>(context: &HttpReq<P>, handler: H) -> HttpResp {
    handler.call(context)
}

/// Two byte strings are equal.
fn bytes_eq(a: &[u8], b: &[u8]) -> (r: bool)
    ensures
        r == (a@ == b@),
{
    if a.len() != b.len() {
        return false;
    }
    let mut i: usize = 0;
    while i < a.len()
        invariant
            a@.len() == b@.len(),
            i <= a@.len(),
            forall|j: int| 0 <= j < i ==> a@[j] == b@[j],
        decreases a@.len() - i,
    {
        if a[i] != b[i] {
            return false;
        }
        i = i + 1;
    }
    proof {
        assert(a@ =~= b@);
    }
    true
}

/// The route of a path.
pub fn route(path: &[u8]) -> (r: Route)
    ensures
        r == route_of(path@),
{
    let data: [u8; 5] = [47, 100, 97, 116, 97];
    let req: [u8; 4] = [47, 114, 101, 113];
    proof {
        assert(data@ =~= data_path());
        assert(req@ =~= req_path());
    }
    if bytes_eq(path, data.as_slice()) {
        Route::Data
    } else if bytes_eq(path, req.as_slice()) {
        Route::Req
    } else {
        Route::Unmatched
    }
}

/// The response to a request on `route`.
pub fn respond(route: Route, body_accepted: bool) -> (r: HttpResp)
    ensures
        r.bytes() == response_for(route, body_accepted),
{
    if route == Route::Req && !body_accepted {
        HttpResp::bad_request()
    } else {
        HttpResp::ok()
    }
}

/// The application.
pub struct Api<D: BodyDecoder> {
    decoder: D,
}

impl<D: BodyDecoder> Api<D> {
    pub fn new(decoder: D) -> (r: Api<D>) {
        Api { decoder }
    }

    /// Answers a request: 200 on every route, but 400 on the JSON route
    /// where the decoder refuses the body. Only the JSON route asks the
    /// decoder.
    pub fn on_request<P: ProtocolBuffer>(&mut self, request: &HttpReq<P>) -> (r: HttpResp)
        ensures
            route_of(slice_of(request.text(), request.path_ref())) != Route::Req ==> r.bytes()
                == ok_response(),
            route_of(slice_of(request.text(), request.path_ref())) == Route::Req ==> (r.bytes()
                == ok_response() || r.bytes() == bad_request_response()),
    {
        let rt = route(request.path());
        let accepted: bool = match rt {
            Route::Req => self.decoder.decode(request.data()),
            _ => true,
        };
        respond(rt, accepted)
    }
}

} // verus!
