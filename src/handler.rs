//! Turning an inbound request into a response.
use vstd::prelude::*;
use vstd::string::StrSliceExecFns;
use vstd::utf8::encode_utf8;

use crate::config::{ConfigView, ServerConfig};
use crate::headers::{
    distinct_names, fields_view, header_map, insert_all, set_header, HeaderField,
};

verus! {

/// The request methods the server tells apart.
#[derive(Debug, Clone, Copy, PartialEq, Eq, Structural)]
pub enum Method {
    Get,
    Post,
    Put,
    Patch,
    Options,
    /// Any other method.
    Other,
}

/// An inbound request, without its body, which the transport streams.
pub struct InboundRequest {
    pub method: Method,
    /// The path of the request target, without its query.
    pub path: String,
    /// The request's header fields in order, names in canonical (lower-case) form.
    pub headers: Vec<HeaderField>,
}

/// Where the response body comes from.
pub enum ResponseBody {
    /// No body.
    Empty,
    /// These bytes.
    Fixed(Vec<u8>),
    /// The request body, byte for byte.
    EchoRequest,
}

/// A response: status, header fields with distinct names, and body.
pub struct OutboundResponse {
    pub status: u16,
    pub headers: Vec<HeaderField>,
    pub body: ResponseBody,
}

/// A response body as plain values.
pub enum BodyView {
    Empty,
    Fixed(Seq<u8>),
    EchoRequest,
}

impl View for ResponseBody {
    type V = BodyView;

    open spec fn view(&self) -> BodyView {
        match self {
            ResponseBody::Empty => BodyView::Empty,
            ResponseBody::Fixed(b) => BodyView::Fixed(b@),
            ResponseBody::EchoRequest => BodyView::EchoRequest,
        }
    }
}

/// The bytes a body of view `b` sends when the request body is `request_body`.
pub open spec fn body_bytes(b: BodyView, request_body: Seq<u8>) -> Seq<u8> {
    match b {
        BodyView::Empty => seq![],
        BodyView::Fixed(bytes) => bytes,
        BodyView::EchoRequest => request_body,
    }
}

/// The decimal digits of `n`, as ASCII bytes.
pub open spec fn decimal(n: nat) -> Seq<u8>
    decreases n,
{
    if n < 10 {
        seq![(n + 48) as u8]
    } else {
        decimal(n / 10).push((n % 10 + 48) as u8)
    }
}

/// The name of the `Content-Length` header, in canonical form.
pub open spec fn content_length_name() -> Seq<u8> {
    encode_utf8("content-length"@)
}

pub open spec fn is_root(path: Seq<char>) -> bool {
    path == "/"@
}

/// The request is one the server answers: a known method at the root path.
pub open spec fn is_routed(method: Method, path: Seq<char>) -> bool {
    is_root(path) && method != Method::Other
}

pub open spec fn expected_status(method: Method, path: Seq<char>) -> u16 {
    if is_routed(method, path) {
        200
    } else {
        404
    }
}

pub open spec fn expected_body(method: Method, path: Seq<char>, c: ConfigView) -> BodyView {
    if !is_root(path) {
        BodyView::Empty
    } else {
        match method {
            Method::Get => BodyView::Fixed(encode_utf8(c.body)),
            Method::Post | Method::Put | Method::Patch => BodyView::EchoRequest,
            _ => BodyView::Empty,
        }
    }
}

/// The response headers: the request's echoed, the configured ones laid over
/// them in order, and for `GET /` the length of the configured body last.
pub open spec fn expected_headers(
    method: Method,
    path: Seq<char>,
    request_headers: Seq<(Seq<u8>, Seq<u8>)>,
    c: ConfigView,
) -> Map<Seq<u8>, Seq<u8>> {
    let m = insert_all(insert_all(Map::empty(), request_headers), c.headers);
    if is_root(path) && method == Method::Get {
        m.insert(content_length_name(), decimal(encode_utf8(c.body).len()))
    } else {
        m
    }
}

/// The decimal digits of `n`, as ASCII bytes.
pub fn decimal_bytes(n: usize) -> (r: Vec<u8>)
    ensures
        r@ == decimal(n as nat),
    decreases n,
{
    if n < 10 {
        vec![(n as u8) + 48]
    } else {
        let mut r = decimal_bytes(n / 10);
        r.push(((n % 10) as u8) + 48);
        r
    }
}

fn is_root_path(path: &str) -> (r: bool)
    ensures
        r == is_root(path@),
{
    proof {
        reveal_strlit("/");
    }
    if path.unicode_len() != 1 {
        return false;
    }
    let c = path.get_char(0);
    assert(path@ == "/"@ <==> c == '/') by {
        if c == '/' {
            assert(path@ =~= "/"@);
        }
    }
    c == '/'
}

/// Adds each field of `extra` in order, each replacing any field of its name.
fn set_all(headers: &mut Vec<HeaderField>, extra: &Vec<HeaderField>)
    requires
        distinct_names(fields_view(old(headers)@)),
    ensures
        distinct_names(fields_view(final(headers)@)),
        header_map(fields_view(final(headers)@)) == insert_all(
            header_map(fields_view(old(headers)@)),
            fields_view(extra@),
        ),
{
    let ghost start = header_map(fields_view(headers@));
    let ghost ev = fields_view(extra@);
    let mut i: usize = 0;
    assert(ev.subrange(0, 0) =~= Seq::<(Seq<u8>, Seq<u8>)>::empty());
    while i < extra.len()
        invariant
            i <= extra@.len(),
            ev == fields_view(extra@),
            distinct_names(fields_view(headers@)),
            header_map(fields_view(headers@)) == insert_all(start, ev.subrange(0, i as int)),
        decreases extra@.len() - i,
    {
        let f = HeaderField { name: extra[i].name.clone(), value: extra[i].value.clone() };
        assert(f.name@ =~= extra@[i as int].name@);
        assert(f.value@ =~= extra@[i as int].value@);
        set_header(headers, f);
        assert(ev.subrange(0, i + 1).drop_last() =~= ev.subrange(0, i as int));
        i = i + 1;
    }
    assert(ev.subrange(0, extra@.len() as int) =~= ev);
}

/// Answers one request under a configuration. Every header of the request is
/// echoed, then the configured headers are laid over them. At the root path,
/// `GET` answers with the configured body and its byte length as
/// `Content-Length`, `POST`, `PUT` and `PATCH` echo the request body, and
/// `OPTIONS` answers with an empty body; anything else is 404 with an empty
/// body. The response depends on the request and the configuration alone.
pub fn handle_request(req: &InboundRequest, config: &ServerConfig) -> (r: OutboundResponse)
    ensures
        r.status == expected_status(req.method, req.path@),
        r.body@ == expected_body(req.method, req.path@, config@),
        distinct_names(fields_view(r.headers@)),
        header_map(fields_view(r.headers@)) == expected_headers(
            req.method,
            req.path@,
            fields_view(req.headers@),
            config@,
        ),
{
    let mut headers: Vec<HeaderField> = Vec::new();
    assert(fields_view(headers@) =~= Seq::<(Seq<u8>, Seq<u8>)>::empty());
    assert(header_map(fields_view(headers@)) == Map::<Seq<u8>, Seq<u8>>::empty());
    set_all(&mut headers, &req.headers);
    set_all(&mut headers, &config.extra_headers);
    let root = is_root_path(req.path.as_str());
    if !root {
        return OutboundResponse { status: 404, headers, body: ResponseBody::Empty };
    }
    match req.method {
        Method::Get => {
            let body = config.default_body.as_str().as_bytes_vec();
            let length = decimal_bytes(body.len());
            set_header(
                &mut headers,
                HeaderField { name: "content-length".as_bytes_vec(), value: length },
            );
            OutboundResponse { status: 200, headers, body: ResponseBody::Fixed(body) }
        },
        Method::Post | Method::Put | Method::Patch => {
            OutboundResponse { status: 200, headers, body: ResponseBody::EchoRequest }
        },
        Method::Options => {
            OutboundResponse { status: 200, headers, body: ResponseBody::Empty }
        },
        Method::Other => {
            OutboundResponse { status: 404, headers, body: ResponseBody::Empty }
        },
    }
}

impl ResponseBody {
    /// The bytes this body sends when the request body is `request_body`.
    pub fn bytes(&self, request_body: &Vec<u8>) -> (r: Vec<u8>)
        ensures
            r@ == body_bytes(self@, request_body@),
    {
        match self {
            ResponseBody::Empty => Vec::new(),
            ResponseBody::Fixed(b) => b.clone(),
            ResponseBody::EchoRequest => request_body.clone(),
        }
    }
}

} // verus!
