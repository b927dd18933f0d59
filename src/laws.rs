//! Laws that relate configuration resolution and request handling.
use vstd::prelude::*;
use vstd::utf8::encode_utf8;

use crate::config::{
    after_prefix, body_flag, default_body_text, default_port, default_view, header_entry,
    header_flag, port_flag, port_value, resolve, ConfigError, ConfigView,
};
use crate::handler::{
    body_bytes, content_length_name, decimal, expected_body, expected_headers, expected_status,
    is_root, is_routed, BodyView, Method,
};
use crate::headers::insert_all;

verus! {

/// A `--header` argument is neither a `--port` nor a `--body` argument.
proof fn lemma_header_arg_kind(s: Seq<char>)
    ensures
        after_prefix(header_flag() + s, port_flag()) is None,
        after_prefix(header_flag() + s, body_flag()) is None,
        after_prefix(header_flag() + s, header_flag()) == Some(s),
{
    reveal_strlit("--header=");
    reveal_strlit("--port=");
    reveal_strlit("--body=");
    let a = header_flag() + s;
    assert(a.subrange(0, port_flag().len() as int)[2] != port_flag()[2]);
    assert(a.subrange(0, body_flag().len() as int)[2] != body_flag()[2]);
    assert(a.subrange(0, header_flag().len() as int) =~= header_flag());
    assert(a.subrange(header_flag().len() as int, a.len() as int) =~= s);
}

proof fn lemma_port_arg_kind(s: Seq<char>)
    ensures
        after_prefix(port_flag() + s, port_flag()) == Some(s),
{
    let a = port_flag() + s;
    assert(a.subrange(0, port_flag().len() as int) =~= port_flag());
    assert(a.subrange(port_flag().len() as int, a.len() as int) =~= s);
}

proof fn lemma_body_arg_kind(s: Seq<char>)
    ensures
        after_prefix(body_flag() + s, port_flag()) is None,
        after_prefix(body_flag() + s, body_flag()) == Some(s),
{
    reveal_strlit("--port=");
    reveal_strlit("--body=");
    let a = body_flag() + s;
    assert(a.subrange(0, port_flag().len() as int)[2] != port_flag()[2]);
    assert(a.subrange(0, body_flag().len() as int) =~= body_flag());
    assert(a.subrange(body_flag().len() as int, a.len() as int) =~= s);
}

/// `--port=N` alone resolves to port N when N is a decimal number from 1 to
/// 65535, and fails otherwise.
pub proof fn port_flag_sets_port(s: Seq<char>)
    ensures
        port_value(s) matches Some(p) ==> resolve(seq![port_flag() + s])
            == Ok::<ConfigView, ConfigError>(ConfigView { port: p, ..default_view() }),
        port_value(s) is None ==> resolve(seq![port_flag() + s]) == Err::<ConfigView, ConfigError>(
            ConfigError::InvalidPort,
        ),
{
    let args = seq![port_flag() + s];
    assert(args.drop_last() =~= Seq::<Seq<char>>::empty());
    assert(resolve(args.drop_last()) == Ok::<ConfigView, ConfigError>(default_view()));
    lemma_port_arg_kind(s);
}

/// Of several `--port` flags the last decides the port.
pub proof fn last_port_wins(args: Seq<Seq<char>>, s: Seq<char>)
    requires
        resolve(args) is Ok,
        port_value(s) is Some,
    ensures
        resolve(args.push(port_flag() + s)) is Ok,
        resolve(args.push(port_flag() + s))->Ok_0.port == port_value(s)->Some_0,
{
    assert(args.push(port_flag() + s).drop_last() =~= args);
    lemma_port_arg_kind(s);
}

/// Of several `--body` flags the last decides the body.
pub proof fn last_body_wins(args: Seq<Seq<char>>, s: Seq<char>)
    requires
        resolve(args) is Ok,
    ensures
        resolve(args.push(body_flag() + s)) is Ok,
        resolve(args.push(body_flag() + s))->Ok_0.body == s,
{
    assert(args.push(body_flag() + s).drop_last() =~= args);
    lemma_body_arg_kind(s);
}

/// Without a `--port` flag resolution succeeds with the default port.
pub proof fn no_port_flag_gives_default(args: Seq<Seq<char>>)
    requires
        forall|i: int| 0 <= i < args.len() ==> #[trigger] after_prefix(args[i], port_flag()) is None,
    ensures
        resolve(args) is Ok,
        resolve(args)->Ok_0.port == default_port(),
    decreases args.len(),
{
    if args.len() > 0 {
        let rest = args.drop_last();
        assert forall|i: int| 0 <= i < rest.len() implies #[trigger] after_prefix(rest[i], port_flag()) is None by {
            assert(rest[i] == args[i]);
        }
        no_port_flag_gives_default(rest);
        assert(after_prefix(args[args.len() - 1], port_flag()) is None);
    }
}

/// Without a `--body` flag resolution keeps the default body.
proof fn lemma_no_body_flag(args: Seq<Seq<char>>)
    requires
        forall|i: int| 0 <= i < args.len() ==> #[trigger] after_prefix(args[i], body_flag()) is None,
        resolve(args) is Ok,
    ensures
        resolve(args)->Ok_0.body == default_body_text(),
    decreases args.len(),
{
    if args.len() > 0 {
        let rest = args.drop_last();
        assert forall|i: int| 0 <= i < rest.len() implies #[trigger] after_prefix(rest[i], body_flag()) is None by {
            assert(rest[i] == args[i]);
        }
        lemma_no_body_flag(rest);
        assert(after_prefix(args[args.len() - 1], body_flag()) is None);
    }
}

/// Without a `--body` flag, `GET /` answers 200 with the default body and its
/// byte length as `Content-Length`.
pub proof fn get_without_body_flag(args: Seq<Seq<char>>, request_headers: Seq<(Seq<u8>, Seq<u8>)>)
    requires
        forall|i: int| 0 <= i < args.len() ==> #[trigger] after_prefix(args[i], body_flag()) is None,
        resolve(args) is Ok,
    ensures
        expected_status(Method::Get, "/"@) == 200,
        expected_body(Method::Get, "/"@, resolve(args)->Ok_0) == BodyView::Fixed(
            encode_utf8(default_body_text()),
        ),
        expected_headers(Method::Get, "/"@, request_headers, resolve(args)->Ok_0)[content_length_name()]
            == decimal(encode_utf8(default_body_text()).len()),
{
    lemma_no_body_flag(args);
}

/// `POST`, `PUT` and `PATCH` at the root answer 200 with the request body,
/// byte for byte, whatever it is.
pub proof fn body_is_echoed(method: Method, c: ConfigView, request_body: Seq<u8>)
    requires
        method == Method::Post || method == Method::Put || method == Method::Patch,
    ensures
        expected_status(method, "/"@) == 200,
        body_bytes(expected_body(method, "/"@, c), request_body) == request_body,
{
}

/// `OPTIONS /` answers 200 with an empty body under every configuration.
pub proof fn options_is_empty_ok(c: ConfigView, request_body: Seq<u8>)
    ensures
        expected_status(Method::Options, "/"@) == 200,
        body_bytes(expected_body(Method::Options, "/"@, c), request_body) == Seq::<u8>::empty(),
{
}

/// Any other path, or any other method at the root, answers 404 with an empty body.
pub proof fn unrouted_is_not_found(method: Method, path: Seq<char>, c: ConfigView, request_body: Seq<u8>)
    requires
        !is_root(path) || method == Method::Other,
    ensures
        !is_routed(method, path),
        expected_status(method, path) == 404,
        body_bytes(expected_body(method, path, c), request_body) == Seq::<u8>::empty(),
{
}

/// After inserting `fs` in order, a name holds the value of its last field in
/// `fs`; a name that `fs` lacks keeps what it had.
proof fn lemma_insert_all_lookup(m: Map<Seq<u8>, Seq<u8>>, fs: Seq<(Seq<u8>, Seq<u8>)>, n: Seq<u8>)
    ensures
        (exists|i: int| 0 <= i < fs.len() && fs[i].0 == n) ==> ({
            let i = choose|i: int| 0 <= i < fs.len() && fs[i].0 == n && (forall|j: int| i < j < fs.len() ==> fs[j].0 != n);
            0 <= i < fs.len() && fs[i].0 == n && (forall|j: int| i < j < fs.len() ==> fs[j].0 != n)
            && insert_all(m, fs).contains_key(n) && insert_all(m, fs)[n] == fs[i].1
        }),
        (forall|i: int| 0 <= i < fs.len() ==> fs[i].0 != n) ==> insert_all(m, fs).contains_key(n)
            == m.contains_key(n) && (m.contains_key(n) ==> insert_all(m, fs)[n] == m[n]),
    decreases fs.len(),
{
    if fs.len() > 0 {
        let rest = fs.drop_last();
        lemma_insert_all_lookup(m, rest, n);
        let last = fs.len() - 1;
        if fs[last].0 == n {
            assert(forall|j: int| last < j < fs.len() ==> fs[j].0 != n);
            let i = choose|i: int| 0 <= i < fs.len() && fs[i].0 == n && (forall|j: int| i < j < fs.len() ==> fs[j].0 != n);
            assert(i == last);
        } else {
            if exists|i: int| 0 <= i < fs.len() && fs[i].0 == n {
                let w = choose|i: int| 0 <= i < fs.len() && fs[i].0 == n;
                assert(rest[w].0 == n);
                let i = choose|i: int| 0 <= i < rest.len() && rest[i].0 == n && (forall|j: int| i < j < rest.len() ==> rest[j].0 != n);
                assert(forall|j: int| i < j < fs.len() ==> fs[j].0 != n) by {
                    assert forall|j: int| i < j < fs.len() implies fs[j].0 != n by {
                        if j < last {
                            assert(rest[j] == fs[j]);
                        }
                    }
                }
                let k = choose|k: int| 0 <= k < fs.len() && fs[k].0 == n && (forall|j: int| k < j < fs.len() ==> fs[j].0 != n);
                assert(k == i) by {
                    if k < i {
                        assert(fs[i].0 == n);
                    } else if i < k {
                        assert(fs[k].0 == n);
                    }
                }
            } else {
                assert forall|i: int| 0 <= i < rest.len() implies rest[i].0 != n by {
                    assert(rest[i] == fs[i]);
                }
            }
        }
    }
}

/// Every request header whose name neither a configured header nor the
/// `Content-Length` of `GET /` sets again comes back with its value; of
/// repeated names, the last value.
pub proof fn request_header_is_echoed(
    method: Method,
    path: Seq<char>,
    request_headers: Seq<(Seq<u8>, Seq<u8>)>,
    c: ConfigView,
    i: int,
)
    requires
        0 <= i < request_headers.len(),
        forall|j: int| i < j < request_headers.len() ==> request_headers[j].0 != request_headers[i].0,
        forall|k: int| 0 <= k < c.headers.len() ==> c.headers[k].0 != request_headers[i].0,
        is_root(path) && method == Method::Get ==> request_headers[i].0 != content_length_name(),
    ensures
        expected_headers(method, path, request_headers, c).contains_key(request_headers[i].0),
        expected_headers(method, path, request_headers, c)[request_headers[i].0]
            == request_headers[i].1,
{
    let n = request_headers[i].0;
    let fs = request_headers;
    lemma_insert_all_lookup(Map::empty(), fs, n);
    let k = choose|k: int| 0 <= k < fs.len() && fs[k].0 == n && (forall|j: int| k < j < fs.len() ==> fs[j].0 != n);
    assert(k == i) by {
        if k < i {
            assert(fs[i].0 == n);
        } else if i < k {
            assert(fs[k].0 == n);
        }
    }
    lemma_insert_all_lookup(insert_all(Map::empty(), fs), c.headers, n);
}

/// A `--header=KEY:VALUE` flag sets its header in every response, over the
/// request's header of that name, unless it names the `Content-Length` of
/// `GET /`.
pub proof fn header_flag_overrides(
    args: Seq<Seq<char>>,
    s: Seq<char>,
    method: Method,
    path: Seq<char>,
    request_headers: Seq<(Seq<u8>, Seq<u8>)>,
)
    requires
        resolve(args.push(header_flag() + s)) is Ok,
        header_entry(s) is Some,
        is_root(path) && method == Method::Get ==> header_entry(s)->Some_0.0 != content_length_name(),
    ensures
        expected_headers(method, path, request_headers, resolve(args.push(header_flag() + s))->Ok_0)
            .contains_key(header_entry(s)->Some_0.0),
        expected_headers(method, path, request_headers, resolve(args.push(header_flag() + s))->Ok_0)[
            header_entry(s)->Some_0.0] == header_entry(s)->Some_0.1,
{
    assert(args.push(header_flag() + s).drop_last() =~= args);
    lemma_header_arg_kind(s);
    let prev = resolve(args)->Ok_0;
    let h = header_entry(s)->Some_0;
    assert(prev.headers.push(h).drop_last() =~= prev.headers);
}

/// A `--header` flag that is not `KEY:VALUE` with a valid name and value,
/// such as one without a colon, changes nothing.
pub proof fn malformed_header_flag_ignored(args: Seq<Seq<char>>, s: Seq<char>)
    requires
        header_entry(s) is None,
    ensures
        resolve(args.push(header_flag() + s)) == resolve(args),
{
    assert(args.push(header_flag() + s).drop_last() =~= args);
    lemma_header_arg_kind(s);
}

} // verus!
