//! Resolving the server's configuration from its start-up arguments.
use vstd::prelude::*;
use vstd::string::StrSliceExecFns;

use crate::headers::{
    fields_view, header_name_bytes, header_name_from_str, header_value_bytes,
    header_value_from_str, HeaderField,
};

verus! {

/// The server's settings, fixed once at start-up and then only read.
pub struct ServerConfig {
    /// The port to listen on.
    pub port: u16,
    /// The body of the response to `GET /`.
    pub default_body: String,
    /// Headers laid over every response, applied in order.
    pub extra_headers: Vec<HeaderField>,
}

/// What a configuration holds, as plain values.
pub struct ConfigView {
    pub port: u16,
    pub body: Seq<char>,
    pub headers: Seq<(Seq<u8>, Seq<u8>)>,
}

impl View for ServerConfig {
    type V = ConfigView;

    open spec fn view(&self) -> ConfigView {
        ConfigView {
            port: self.port,
            body: self.default_body@,
            headers: fields_view(self.extra_headers@),
        }
    }
}

/// Why the arguments give no configuration.
#[derive(Debug, Clone, Copy, PartialEq, Eq, Structural)]
pub enum ConfigError {
    /// A `--port` value is not a decimal number from 1 to 65535.
    InvalidPort,
}

/// The port used when no `--port` flag is given.
pub open spec fn default_port() -> u16 {
    8080
}

/// The body used when no `--body` flag is given.
pub open spec fn default_body_text() -> Seq<char> {
    "Use {POST, PUT, PATCH} to echo"@
}

pub open spec fn port_flag() -> Seq<char> {
    "--port="@
}

pub open spec fn body_flag() -> Seq<char> {
    "--body="@
}

pub open spec fn header_flag() -> Seq<char> {
    "--header="@
}

/// The configuration before any argument is read.
pub open spec fn default_view() -> ConfigView {
    ConfigView { port: default_port(), body: default_body_text(), headers: seq![] }
}

/// What follows `prefix` in `s`, if `s` starts with it.
pub open spec fn after_prefix(s: Seq<char>, prefix: Seq<char>) -> Option<Seq<char>> {
    if prefix.len() <= s.len() && s.subrange(0, prefix.len() as int) == prefix {
        Some(s.subrange(prefix.len() as int, s.len() as int))
    } else {
        None
    }
}

pub open spec fn is_digit(c: char) -> bool {
    '0' <= c && c <= '9'
}

/// The number that a string of decimal digits denotes.
pub open spec fn digits_value(s: Seq<char>) -> nat
    decreases s.len(),
{
    if s.len() == 0 {
        0
    } else {
        digits_value(s.drop_last()) * 10 + (s.last() as u32 - '0' as u32) as nat
    }
}

/// The port that text `s` denotes: a non-empty string of decimal digits whose
/// value lies between 1 and 65535.
pub open spec fn port_value(s: Seq<char>) -> Option<u16> {
    if s.len() > 0 && (forall|i: int| 0 <= i < s.len() ==> #[trigger] is_digit(s[i]))
        && 1 <= digits_value(s) <= 65535 {
        Some(digits_value(s) as u16)
    } else {
        None
    }
}

/// The position of the first colon in `s`, if there is one.
pub open spec fn first_colon(s: Seq<char>) -> Option<int>
    decreases s.len(),
{
    if s.len() == 0 {
        None
    } else {
        match first_colon(s.drop_last()) {
            Some(p) => Some(p),
            None => if s.last() == ':' {
                Some(s.len() - 1)
            } else {
                None
            },
        }
    }
}

/// The header that a `--header` value `key:value` denotes: split at the first
/// colon, both sides valid. Any other value denotes none.
pub open spec fn header_entry(s: Seq<char>) -> Option<(Seq<u8>, Seq<u8>)> {
    match first_colon(s) {
        Some(p) => match (
            header_name_bytes(s.subrange(0, p)),
            header_value_bytes(s.subrange(p + 1, s.len() as int)),
        ) {
            (Some(n), Some(v)) => Some((n, v)),
            _ => None,
        },
        None => None,
    }
}

/// The effect of one argument on a configuration.
pub open spec fn apply_arg(c: ConfigView, arg: Seq<char>) -> Result<ConfigView, ConfigError> {
    if let Some(v) = after_prefix(arg, port_flag()) {
        match port_value(v) {
            Some(p) => Ok(ConfigView { port: p, ..c }),
            None => Err(ConfigError::InvalidPort),
        }
    } else if let Some(v) = after_prefix(arg, body_flag()) {
        Ok(ConfigView { body: v, ..c })
    } else if let Some(v) = after_prefix(arg, header_flag()) {
        match header_entry(v) {
            Some(h) => Ok(ConfigView { headers: c.headers.push(h), ..c }),
            None => Ok(c),
        }
    } else {
        Ok(c)
    }
}

/// The configuration that a list of arguments gives: each argument applied in
/// order to the defaults, the first malformed port ending the resolution.
pub open spec fn resolve(args: Seq<Seq<char>>) -> Result<ConfigView, ConfigError>
    decreases args.len(),
{
    if args.len() == 0 {
        Ok(default_view())
    } else {
        match resolve(args.drop_last()) {
            Ok(c) => apply_arg(c, args.last()),
            Err(e) => Err(e),
        }
    }
}

pub open spec fn args_view(args: Seq<String>) -> Seq<Seq<char>> {
    args.map_values(|a: String| a@)
}

pub open spec fn opt_chars(o: Option<String>) -> Option<Seq<char>> {
    match o {
        Some(s) => Some(s@),
        None => None,
    }
}

/// What follows `prefix` in `arg`, if `arg` starts with it.
pub fn strip_prefix(arg: &str, prefix: &str) -> (r: Option<String>)
    ensures
        opt_chars(r) == after_prefix(arg@, prefix@),
{
    let n = arg.unicode_len();
    let m = prefix.unicode_len();
    if n < m {
        return None;
    }
    let mut i: usize = 0;
    while i < m
        invariant
            n == arg@.len(),
            m == prefix@.len(),
            m <= n,
            i <= m,
            forall|k: int| 0 <= k < i ==> arg@[k] == prefix@[k],
        decreases m - i,
    {
        if arg.get_char(i) != prefix.get_char(i) {
            assert(arg@.subrange(0, m as int)[i as int] != prefix@[i as int]);
            return None;
        }
        i = i + 1;
    }
    assert(arg@.subrange(0, m as int) =~= prefix@);
    Some(arg.substring_char(m, n).to_owned())
}

/// The port that `s` denotes, if it is a decimal number from 1 to 65535.
pub fn parse_port(s: &str) -> (r: Option<u16>)
    ensures
        r == port_value(s@),
{
    let n = s.unicode_len();
    if n == 0 {
        return None;
    }
    let mut acc: u32 = 0;
    let mut too_large = false;
    let mut i: usize = 0;
    while i < n
        invariant
            n == s@.len(),
            i <= n,
            forall|k: int| 0 <= k < i ==> #[trigger] is_digit(s@[k]),
            !too_large ==> acc as nat == digits_value(s@.subrange(0, i as int)) && acc <= 65535,
            too_large ==> digits_value(s@.subrange(0, i as int)) > 65535,
        decreases n - i,
    {
        let c = s.get_char(i);
        if !('0' <= c && c <= '9') {
            assert(!is_digit(s@[i as int]));
            return None;
        }
        let d: u32 = (c as u32) - ('0' as u32);
        assert(s@.subrange(0, i + 1).drop_last() =~= s@.subrange(0, i as int));
        if !too_large {
            let v: u32 = acc * 10 + d;
            if v > 65535 {
                too_large = true;
            } else {
                acc = v;
            }
        }
        i = i + 1;
    }
    assert(s@.subrange(0, n as int) =~= s@);
    if too_large || acc == 0 {
        None
    } else {
        Some(acc as u16)
    }
}

pub open spec fn opt_field(o: Option<HeaderField>) -> Option<(Seq<u8>, Seq<u8>)> {
    match o {
        Some(f) => Some(f@),
        None => None,
    }
}

/// The header that a `--header` value denotes, if it is well formed.
pub fn parse_header_entry(s: &str) -> (r: Option<HeaderField>)
    ensures
        opt_field(r) == header_entry(s@),
{
    let n = s.unicode_len();
    let mut i: usize = 0;
    while i < n
        invariant
            n == s@.len(),
            i <= n,
            first_colon(s@.subrange(0, i as int)) is None,
        decreases n - i,
    {
        assert(s@.subrange(0, i + 1).drop_last() =~= s@.subrange(0, i as int));
        if s.get_char(i) == ':' {
            proof {
                lemma_first_colon_extend(s@, i as int);
            }
            let name = header_name_from_str(s.substring_char(0, i));
            let value = header_value_from_str(s.substring_char(i + 1, n));
            return match (name, value) {
                (Some(name), Some(value)) => Some(HeaderField { name, value }),
                _ => None,
            };
        }
        i = i + 1;
    }
    assert(s@.subrange(0, n as int) =~= s@);
    None
}

/// Once the first colon lies in a prefix, it is the first colon of the whole.
proof fn lemma_first_colon_extend(s: Seq<char>, i: int)
    requires
        0 <= i < s.len(),
        first_colon(s.subrange(0, i)) is None,
        s[i] == ':',
    ensures
        first_colon(s) == Some(i),
    decreases s.len(),
{
    if i < s.len() - 1 {
        assert(s.drop_last().subrange(0, i) =~= s.subrange(0, i));
        lemma_first_colon_extend(s.drop_last(), i);
    } else {
        assert(s.drop_last() =~= s.subrange(0, i));
    }
}

/// An error part way through the arguments is the error of the whole list.
proof fn lemma_resolve_err_stays(args: Seq<Seq<char>>, i: int)
    requires
        0 <= i <= args.len(),
        resolve(args.subrange(0, i)) is Err,
    ensures
        resolve(args) == resolve(args.subrange(0, i)),
    decreases args.len() - i,
{
    if i < args.len() {
        assert(args.subrange(0, i + 1).drop_last() =~= args.subrange(0, i));
        lemma_resolve_err_stays(args, i + 1);
    } else {
        assert(args.subrange(0, i) =~= args);
    }
}

/// Resolves the configuration from the start-up arguments (the program name
/// excluded): `--port=N`, `--body=TEXT` and repeatable `--header=KEY:VALUE`,
/// in any order. A repeated port or body takes its last value; headers
/// accumulate; malformed headers and unknown arguments are ignored; a
/// malformed port is an error.
pub fn resolve_config(args: &Vec<String>) -> (r: Result<ServerConfig, ConfigError>)
    ensures
        match r {
            Ok(c) => resolve(args_view(args@)) == Ok::<ConfigView, ConfigError>(c@),
            Err(e) => resolve(args_view(args@)) == Err::<ConfigView, ConfigError>(e),
        },
{
    let ghost all = args_view(args@);
    let mut port: u16 = 8080;
    let mut body: String = "Use {POST, PUT, PATCH} to echo".to_owned();
    let mut headers: Vec<HeaderField> = Vec::new();
    let mut i: usize = 0;
    proof {
        assert(all.subrange(0, 0) =~= Seq::<Seq<char>>::empty());
        assert(fields_view(headers@) =~= Seq::<(Seq<u8>, Seq<u8>)>::empty());
    }
    while i < args.len()
        invariant
            all == args_view(args@),
            i <= args@.len(),
            resolve(all.subrange(0, i as int)) == Ok::<ConfigView, ConfigError>(
                ConfigView { port, body: body@, headers: fields_view(headers@) },
            ),
        decreases args@.len() - i,
    {
        let ghost c = ConfigView { port, body: body@, headers: fields_view(headers@) };
        let arg = args[i].as_str();
        assert(all.subrange(0, i + 1).drop_last() =~= all.subrange(0, i as int));
        assert(all.subrange(0, i + 1).last() == arg@);
        match strip_prefix(arg, "--port=") {
            Some(v) => match parse_port(v.as_str()) {
                Some(p) => {
                    port = p;
                },
                None => {
                    proof {
                        lemma_resolve_err_stays(all, i + 1);
                    }
                    return Err(ConfigError::InvalidPort);
                },
            },
            None => match strip_prefix(arg, "--body=") {
                Some(v) => {
                    body = v;
                },
                None => match strip_prefix(arg, "--header=") {
                    Some(v) => {
                        if let Some(f) = parse_header_entry(v.as_str()) {
                            let ghost before = headers@;
                            headers.push(f);
                            assert(fields_view(headers@) =~= fields_view(before).push(f@));
                        }
                    },
                    None => {},
                },
            },
        }
        i = i + 1;
    }
    assert(all.subrange(0, args@.len() as int) =~= all);
    Ok(ServerConfig { port, default_body: body, extra_headers: headers })
}

} // verus!
