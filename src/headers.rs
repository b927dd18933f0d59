//! Header fields and the header map that a response carries.
use vstd::prelude::*;
use vstd::utf8::encode_utf8;

verus! {

/// One header field: a name in canonical (lower-case) form and its raw value bytes.
pub struct HeaderField {
    pub name: Vec<u8>,
    pub value: Vec<u8>,
}

impl View for HeaderField {
    type V = (Seq<u8>, Seq<u8>);

    open spec fn view(&self) -> (Seq<u8>, Seq<u8>) {
        (self.name@, self.value@)
    }
}

/// The plain view of a list of fields.
pub open spec fn fields_view(fs: Seq<HeaderField>) -> Seq<(Seq<u8>, Seq<u8>)> {
    fs.map_values(|f: HeaderField| f@)
}

/// The map that results from inserting the fields of `fs` in order into `m`,
/// each insertion replacing any earlier value of the same name.
pub open spec fn insert_all(m: Map<Seq<u8>, Seq<u8>>, fs: Seq<(Seq<u8>, Seq<u8>)>) -> Map<Seq<u8>, Seq<u8>>
    decreases fs.len(),
{
    if fs.len() == 0 {
        m
    } else {
        insert_all(m, fs.drop_last()).insert(fs.last().0, fs.last().1)
    }
}

/// The header map described by a list of fields: for each name, its last value.
pub open spec fn header_map(fs: Seq<(Seq<u8>, Seq<u8>)>) -> Map<Seq<u8>, Seq<u8>> {
    insert_all(Map::empty(), fs)
}

/// No two fields of `fs` share a name.
pub open spec fn distinct_names(fs: Seq<(Seq<u8>, Seq<u8>)>) -> bool {
    forall|i: int, j: int| 0 <= i < fs.len() && 0 <= j < fs.len() && i != j
        ==> #[trigger] fs[i].0 != #[trigger] fs[j].0
}

/// Replacing the value of the only field named `n` is an insertion into the map.
proof fn lemma_update_value(fs: Seq<(Seq<u8>, Seq<u8>)>, i: int, f: (Seq<u8>, Seq<u8>))
    requires
        distinct_names(fs),
        0 <= i < fs.len(),
        f.0 == fs[i].0,
    ensures
        header_map(fs.update(i, f)) == header_map(fs).insert(f.0, f.1),
    decreases fs.len(),
{
    let gs = fs.update(i, f);
    if i == fs.len() - 1 {
        assert(gs.drop_last() == fs.drop_last());
        assert(header_map(gs) =~= header_map(fs).insert(f.0, f.1));
    } else {
        assert(gs.drop_last() == fs.drop_last().update(i, f));
        assert(distinct_names(fs.drop_last())) by {
            assert forall|a: int, b: int|
                0 <= a < fs.drop_last().len() && 0 <= b < fs.drop_last().len() && a != b
                implies #[trigger] fs.drop_last()[a].0 != #[trigger] fs.drop_last()[b].0 by {
                assert(fs[a].0 != fs[b].0);
            }
        }
        lemma_update_value(fs.drop_last(), i, f);
        assert(fs[fs.len() - 1].0 != fs[i].0);
        assert(header_map(gs) =~= header_map(fs).insert(f.0, f.1));
    }
}

/// Byte-wise equality of two byte vectors.
pub fn bytes_eq(a: &Vec<u8>, b: &Vec<u8>) -> (r: bool)
    ensures
        r == (a@ == b@),
{
    if a.len() != b.len() {
        return false;
    }
    let mut i: usize = 0;
    while i < a.len()
        invariant
            a@.len() == b@.len(),
            i <= a@.len(),
            forall|k: int| 0 <= k < i ==> a@[k] == b@[k],
        decreases a@.len() - i,
    {
        if a[i] != b[i] {
            return false;
        }
        i = i + 1;
    }
    assert(a@ =~= b@);
    true
}

/// Sets header `f.name` to `f.value` in a list of distinctly named fields,
/// replacing the field of that name if there is one and appending otherwise.
pub fn set_header(fields: &mut Vec<HeaderField>, f: HeaderField)
    requires
        distinct_names(fields_view(old(fields)@)),
    ensures
        distinct_names(fields_view(final(fields)@)),
        header_map(fields_view(final(fields)@)) == header_map(fields_view(old(fields)@)).insert(
            f.name@,
            f.value@,
        ),
{
    let ghost before = fields_view(fields@);
    let mut i: usize = 0;
    while i < fields.len()
        invariant
            fields@ == old(fields)@,
            before == fields_view(fields@),
            distinct_names(before),
            i <= fields@.len(),
            forall|k: int| 0 <= k < i ==> #[trigger] before[k].0 != f.name@,
        decreases fields@.len() - i,
    {
        if bytes_eq(&fields[i].name, &f.name) {
            proof {
                lemma_update_value(before, i as int, f@);
            }
            fields.set(i, f);
            let ghost after = fields_view(fields@);
            assert(after =~= before.update(i as int, f@));
            assert forall|a: int, b: int|
                0 <= a < after.len() && 0 <= b < after.len() && a != b
                implies #[trigger] after[a].0 != #[trigger] after[b].0 by {
                assert(before[a].0 != before[b].0);
            }
            return;
        }
        i = i + 1;
    }
    fields.push(f);
    let ghost after = fields_view(fields@);
    assert(after =~= before.push(f@));
    assert(after.drop_last() =~= before);
    assert forall|a: int, b: int|
        0 <= a < after.len() && 0 <= b < after.len() && a != b
        implies #[trigger] after[a].0 != #[trigger] after[b].0 by {
        if a < before.len() && b < before.len() {
            assert(before[a].0 != before[b].0);
        } else if a < before.len() {
            assert(before[a].0 != f.name@);
        } else {
            assert(before[b].0 != f.name@);
        }
    }
    assert(header_map(after) =~= header_map(before).insert(f.name@, f.value@));
}

/// A character that may stand in a header name: the token characters of HTTP.
pub open spec fn is_name_char(c: char) -> bool {
    ('a' <= c && c <= 'z') || ('A' <= c && c <= 'Z') || ('0' <= c && c <= '9') || c == '!'
        || c == '"' || c == '#' || c == '$' || c == '%' || c == '&' || c == '\'' || c == '*'
        || c == '+' || c == '-' || c == '.' || c == '^' || c == '_' || c == '`' || c == '|'
        || c == '~'
}

/// The byte of a name character in canonical form: ASCII upper case folded to lower case.
pub open spec fn lower_byte(c: char) -> u8 {
    if 'A' <= c && c <= 'Z' {
        (c as u32 + 32) as u8
    } else {
        c as u8
    }
}

/// The canonical name that text `s` denotes, if it is a valid header name.
pub open spec fn header_name_bytes(s: Seq<char>) -> Option<Seq<u8>> {
    if 0 < s.len() <= 65535 && forall|i: int| 0 <= i < s.len() ==> #[trigger] is_name_char(s[i]) {
        Some(s.map_values(|c: char| lower_byte(c)))
    } else {
        None
    }
}

/// A character whose UTF-8 bytes may stand in a header value: anything but the
/// ASCII control characters, tab excepted.
pub open spec fn is_value_char(c: char) -> bool {
    c == '\t' || (c as u32 >= 32 && c as u32 != 127)
}

/// The bytes of the header value that text `s` denotes, if it is a valid value.
pub open spec fn header_value_bytes(s: Seq<char>) -> Option<Seq<u8>> {
    if forall|i: int| 0 <= i < s.len() ==> #[trigger] is_value_char(s[i]) {
        Some(encode_utf8(s))
    } else {
        None
    }
}

/// The plain view of an optional byte vector.
pub open spec fn opt_bytes(o: Option<Vec<u8>>) -> Option<Seq<u8>> {
    match o {
        Some(v) => Some(v@),
        None => None,
    }
}

/// Relies on `HeaderName::from_str` (http, re-exported by hyper): it accepts a
/// non-empty name of at most 65535 token characters and lower-cases it.
#[verifier::external_body]
pub(crate) fn header_name_from_str(s: &str) -> (r: Option<Vec<u8>>)
    ensures
        opt_bytes(r) == header_name_bytes(s@),
{
    match <hyper::header::HeaderName as std::str::FromStr>::from_str(s) {
        Ok(n) => Some(n.as_str().as_bytes().to_vec()),
        Err(_) => None,
    }
}

/// Relies on `HeaderValue::from_str` (http, re-exported by hyper): it accepts
/// text whose bytes are all tab or at least 32 and not 127, and keeps the bytes.
#[verifier::external_body]
pub(crate) fn header_value_from_str(s: &str) -> (r: Option<Vec<u8>>)
    ensures
        opt_bytes(r) == header_value_bytes(s@),
{
    match hyper::header::HeaderValue::from_str(s) {
        Ok(v) => Some(v.as_bytes().to_vec()),
        Err(_) => None,
    }
}

} // verus!
