use echo_server::config::{parse_port, resolve_config, ConfigError, ServerConfig};
use echo_server::handler::{
    decimal_bytes, handle_request, InboundRequest, Method, OutboundResponse, ResponseBody,
};
use echo_server::headers::HeaderField;

fn args(list: &[&str]) -> Vec<String> {
    list.iter().map(|a| a.to_string()).collect()
}

fn config(list: &[&str]) -> ServerConfig {
    resolve_config(&args(list)).unwrap_or_else(|_| panic!("configuration refused"))
}

fn field(name: &str, value: &str) -> HeaderField {
    HeaderField { name: name.as_bytes().to_vec(), value: value.as_bytes().to_vec() }
}

fn request(method: Method, path: &str, headers: Vec<HeaderField>) -> InboundRequest {
    InboundRequest { method, path: path.to_string(), headers }
}

fn header<'a>(resp: &'a OutboundResponse, name: &str) -> Option<&'a [u8]> {
    resp.headers
        .iter()
        .find(|f| f.name == name.as_bytes())
        .map(|f| f.value.as_slice())
}

#[test]
fn test_get_body() {
    let resp = handle_request(&request(Method::Get, "/", vec![]), &config(&[]));
    assert_eq!(resp.status, 200);
    assert_eq!(resp.body.bytes(&b"hello world".to_vec()), b"Use {POST, PUT, PATCH} to echo".to_vec());
}

#[test]
fn port_flag_sets_port() {
    assert_eq!(config(&["--port=1337"]).port, 1337);
    assert_eq!(config(&["--port=1"]).port, 1);
    assert_eq!(config(&["--port=65535"]).port, 65535);
}

#[test]
fn invalid_ports_are_refused() {
    for bad in ["--port=0", "--port=65536", "--port=99999999999", "--port=abc", "--port=", "--port=12a", "--port=-1"] {
        assert!(matches!(resolve_config(&args(&[bad])), Err(ConfigError::InvalidPort)), "{}", bad);
    }
}

#[test]
fn parse_port_values() {
    assert_eq!(parse_port("8080"), Some(8080));
    assert_eq!(parse_port("007"), Some(7));
    assert_eq!(parse_port("0"), None);
    assert_eq!(parse_port(""), None);
    assert_eq!(parse_port("65536"), None);
}

#[test]
fn default_port_without_flag() {
    assert_eq!(config(&[]).port, 8080);
    assert_eq!(config(&["--body=x", "--header=a:b", "unrelated"]).port, 8080);
}

#[test]
fn last_port_flag_wins() {
    assert_eq!(config(&["--port=1337", "--port=9999"]).port, 9999);
}

#[test]
fn malformed_port_before_valid_one_is_refused() {
    assert!(resolve_config(&args(&["--port=x", "--port=80"])).is_err());
}

#[test]
fn default_body_get() {
    let resp = handle_request(&request(Method::Get, "/", vec![]), &config(&[]));
    assert_eq!(resp.status, 200);
    let body = resp.body.bytes(&Vec::new());
    assert_eq!(body, b"Use {POST, PUT, PATCH} to echo".to_vec());
    assert_eq!(header(&resp, "content-length"), Some(&b"30"[..]));
}

#[test]
fn configured_body_get() {
    let resp = handle_request(&request(Method::Get, "/", vec![]), &config(&["--body=hello"]));
    assert_eq!(resp.status, 200);
    assert_eq!(resp.body.bytes(&Vec::new()), b"hello".to_vec());
    assert_eq!(header(&resp, "content-length"), Some(&b"5"[..]));
}

#[test]
fn content_length_counts_bytes() {
    let resp = handle_request(&request(Method::Get, "/", vec![]), &config(&["--body=héllo"]));
    assert_eq!(header(&resp, "content-length"), Some(&b"6"[..]));
}

#[test]
fn last_body_flag_wins() {
    let c = config(&["--body=first", "--body=second"]);
    assert_eq!(c.default_body, "second");
}

#[test]
fn content_length_overrides_request_and_configuration() {
    let c = config(&["--header=Content-Length:999"]);
    let resp = handle_request(&request(Method::Get, "/", vec![field("content-length", "1")]), &c);
    assert_eq!(header(&resp, "content-length"), Some(&b"30"[..]));
}

#[test]
fn write_methods_echo_body() {
    let payload: Vec<u8> = vec![0, 255, 1, 128, b'a', 0xc3];
    for method in [Method::Post, Method::Put, Method::Patch] {
        let resp = handle_request(&request(method, "/", vec![]), &config(&["--body=ignored"]));
        assert_eq!(resp.status, 200);
        assert!(matches!(resp.body, ResponseBody::EchoRequest));
        assert_eq!(resp.body.bytes(&payload), payload);
        assert_eq!(resp.body.bytes(&Vec::new()), Vec::<u8>::new());
    }
}

#[test]
fn options_is_empty_ok() {
    for c in [config(&[]), config(&["--body=hello", "--header=a:b"])] {
        let resp = handle_request(&request(Method::Options, "/", vec![]), &c);
        assert_eq!(resp.status, 200);
        assert_eq!(resp.body.bytes(&b"request".to_vec()), Vec::<u8>::new());
    }
}

#[test]
fn unrouted_requests_are_not_found() {
    let c = config(&[]);
    for method in [Method::Get, Method::Post, Method::Put, Method::Patch, Method::Options, Method::Other] {
        let resp = handle_request(&request(method, "/foo", vec![]), &c);
        assert_eq!(resp.status, 404);
        assert_eq!(resp.body.bytes(&b"x".to_vec()), Vec::<u8>::new());
    }
    let resp = handle_request(&request(Method::Other, "/", vec![]), &c);
    assert_eq!(resp.status, 404);
    assert_eq!(resp.body.bytes(&b"x".to_vec()), Vec::<u8>::new());
    let resp = handle_request(&request(Method::Get, "", vec![]), &c);
    assert_eq!(resp.status, 404);
}

#[test]
fn request_headers_are_echoed() {
    let req = request(
        Method::Post,
        "/",
        vec![field("x-trace", "abc"), field("accept", "*/*"), field("x-trace", "def")],
    );
    let resp = handle_request(&req, &config(&["--header=other:1"]));
    assert_eq!(header(&resp, "x-trace"), Some(&b"def"[..]));
    assert_eq!(header(&resp, "accept"), Some(&b"*/*"[..]));
    assert_eq!(header(&resp, "other"), Some(&b"1"[..]));
    assert_eq!(resp.headers.len(), 3);
}

#[test]
fn configured_header_overrides_echo() {
    let req = request(Method::Get, "/", vec![field("x", "original")]);
    let resp = handle_request(&req, &config(&["--header=X:override"]));
    assert_eq!(header(&resp, "x"), Some(&b"override"[..]));
    let resp = handle_request(&request(Method::Other, "/nowhere", vec![field("x", "original")]), &config(&["--header=X:override"]));
    assert_eq!(header(&resp, "x"), Some(&b"override"[..]));
}

#[test]
fn later_configured_header_wins() {
    let resp = handle_request(&request(Method::Options, "/", vec![]), &config(&["--header=a:1", "--header=A:2"]));
    assert_eq!(header(&resp, "a"), Some(&b"2"[..]));
    assert_eq!(resp.headers.len(), 1);
}

#[test]
fn malformed_header_flag_is_dropped() {
    let c = config(&["--header=malformed", "--header=good:yes", "--header=bad name:v", "--header=k:bad\u{1}"]);
    assert_eq!(c.extra_headers.len(), 1);
    assert_eq!(c.extra_headers[0].name, b"good".to_vec());
    assert_eq!(c.extra_headers[0].value, b"yes".to_vec());
}

#[test]
fn header_flag_splits_at_first_colon() {
    let c = config(&["--header=X-Url:http://example.com:80"]);
    assert_eq!(c.extra_headers.len(), 1);
    assert_eq!(c.extra_headers[0].name, b"x-url".to_vec());
    assert_eq!(c.extra_headers[0].value, b"http://example.com:80".to_vec());
}

#[test]
fn header_values_keep_non_ascii_bytes() {
    let c = config(&["--header=greeting:héllo", "--header=tab:a\tb", "--header=empty:"]);
    assert_eq!(c.extra_headers.len(), 3);
    assert_eq!(c.extra_headers[0].value, "héllo".as_bytes().to_vec());
    assert_eq!(c.extra_headers[1].value, b"a\tb".to_vec());
    assert_eq!(c.extra_headers[2].value, Vec::<u8>::new());
}

#[test]
fn header_names_are_validated() {
    let c = config(&["--header=:v", "--header=a(b:v", "--header=é:v", "--header=Accept:text"]);
    assert_eq!(c.extra_headers.len(), 1);
    assert_eq!(c.extra_headers[0].name, b"accept".to_vec());
}

#[test]
fn unknown_arguments_are_ignored() {
    let c = config(&["serve", "--verbose", "--port", "--bodyx=1"]);
    assert_eq!(c.port, 8080);
    assert_eq!(c.default_body, "Use {POST, PUT, PATCH} to echo");
    assert!(c.extra_headers.is_empty());
}

#[test]
fn responses_are_independent() {
    let c = config(&["--body=shared"]);
    let a = handle_request(&request(Method::Post, "/", vec![field("x", "a")]), &c);
    let b = handle_request(&request(Method::Post, "/", vec![field("y", "b")]), &c);
    assert_eq!(header(&a, "x"), Some(&b"a"[..]));
    assert_eq!(header(&a, "y"), None);
    assert_eq!(header(&b, "y"), Some(&b"b"[..]));
    assert_eq!(header(&b, "x"), None);
    let again = handle_request(&request(Method::Post, "/", vec![field("x", "a")]), &c);
    assert_eq!(header(&again, "x"), Some(&b"a"[..]));
    assert_eq!(again.headers.len(), 1);
}

#[test]
fn decimal_digits() {
    assert_eq!(decimal_bytes(0), b"0".to_vec());
    assert_eq!(decimal_bytes(9), b"9".to_vec());
    assert_eq!(decimal_bytes(10), b"10".to_vec());
    assert_eq!(decimal_bytes(1234567), b"1234567".to_vec());
}
