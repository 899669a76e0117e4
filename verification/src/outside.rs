//! Calls into outside crates and into the parts of std that vstd does not
//! specify. Each function here makes one call; its contract is trusted.

use vstd::prelude::*;

use crate::text::{ends_with_seq, starts_with_seq};

verus! {

/// SHA-256 of `data`, as computed by the `sha2` crate (`Digest::digest`,
/// digest-0.10.7 src/digest.rs:124, on `sha2::Sha256`): a function of the
/// bytes alone.
pub uninterp spec fn sha256_digest(data: Seq<u8>) -> [u8; 32];

/// Lower-case hexadecimal digit for `d < 16`.
pub open spec fn hex_digit(d: nat) -> char {
    if d < 10 {
        ((d + 48) as u32) as char
    } else {
        ((d + 87) as u32) as char
    }
}

/// How `serde_json` escapes one character inside a string literal: quote and
/// backslash are escaped, the named controls use their short escapes, other
/// characters below U+0020 become `\u00XX`, everything else stays.
pub open spec fn json_escape_char(c: char) -> Seq<char> {
    let v = c as u32;
    if c == '"' {
        seq!['\\', '"']
    } else if c == '\\' {
        seq!['\\', '\\']
    } else if v == 0x08 {
        seq!['\\', 'b']
    } else if v == 0x09 {
        seq!['\\', 't']
    } else if v == 0x0a {
        seq!['\\', 'n']
    } else if v == 0x0c {
        seq!['\\', 'f']
    } else if v == 0x0d {
        seq!['\\', 'r']
    } else if v < 0x20 {
        seq!['\\', 'u', '0', '0', hex_digit((v / 16) as nat), hex_digit((v % 16) as nat)]
    } else {
        seq![c]
    }
}

/// Escaped contents of a JSON string literal.
pub open spec fn json_escape(s: Seq<char>) -> Seq<char>
    decreases s.len(),
{
    if s.len() == 0 {
        seq![]
    } else {
        json_escape(s.drop_last()) + json_escape_char(s.last())
    }
}

/// JSON text that `serde_json` writes for the string `s`.
pub open spec fn json_string_text(s: Seq<char>) -> Seq<char> {
    seq!['"'] + json_escape(s) + seq!['"']
}

/// The string that `serde_json` reads from the JSON text `t`, if `t` is
/// exactly one JSON string.
pub uninterp spec fn json_string_value(t: Seq<char>) -> Option<Seq<char>>;

/// The optional string that `serde_json` reads from `t`: `Some(None)` for
/// `null`, `Some(Some(s))` for a JSON string.
pub uninterp spec fn json_optional_string_value(t: Seq<char>) -> Option<Option<Seq<char>>>;

/// The UUID, as a 128-bit value, that `uuid::Uuid::parse_str` reads from `t`
/// (uuid-1.29.0 src/parser.rs:76, then `Uuid::as_u128`, src/lib.rs:715):
/// `None` where the parse fails; a function of the text alone.
pub uninterp spec fn uuid_value(t: Seq<char>) -> Option<u128>;

/// Hexadecimal digit `k` (0 to 31, most significant first) of the 128-bit
/// value `id`.
pub open spec fn uuid_nibble(id: u128, k: int) -> nat {
    ((id as nat) / vstd::arithmetic::power::pow(16, (31 - k) as nat) as nat) % 16
}

/// The 32 lower-case hexadecimal digits of `id`, most significant first.
pub open spec fn uuid_hex(id: u128) -> Seq<char> {
    Seq::new(32, |k: int| hex_digit(uuid_nibble(id, k)))
}

/// Lower-case hyphenated text of the UUID `id` (`Uuid::hyphenated` of
/// `Uuid::from_u128`): its big-endian hexadecimal digits in groups of 8, 4,
/// 4, 4 and 12, joined by hyphens.
pub open spec fn uuid_text_of(id: u128) -> Seq<char> {
    let h = uuid_hex(id);
    h.subrange(0, 8) + seq!['-'] + h.subrange(8, 12) + seq!['-'] + h.subrange(12, 16) + seq!['-']
        + h.subrange(16, 20) + seq!['-'] + h.subrange(20, 32)
}

/// Nanoseconds since the Unix epoch of the RFC 3339 timestamp `t`, as read by
/// `time::OffsetDateTime::parse` with the `Rfc3339` format.
pub uninterp spec fn rfc3339_instant(t: Seq<char>) -> Option<int>;

/// Unicode lower-case mapping of `s` (`str::to_lowercase`).
pub uninterp spec fn unicode_lowercase(s: Seq<char>) -> Seq<char>;

/// `sha2::Sha256::digest`: the 32-byte SHA-256 digest of `data`.
#[verifier::external_body]
pub(crate) fn sha256(data: &[u8]) -> (r: [u8; 32])
    ensures
        r == sha256_digest(data@),
{
    <sha2::Sha256 as sha2::Digest>::digest(data).into()
}

/// `serde_json::to_string` on a string: its JSON string literal. A `str`
/// serializes through `serialize_str` into a `Vec<u8>`, whose writes do not
/// fail, so the call always succeeds.
#[verifier::external_body]
pub(crate) fn json_encode_str(s: &str) -> (r: Option<String>)
    ensures
        r is Some,
        r matches Some(t) ==> t@ == json_string_text(s@),
{
    serde_json::to_string(s).ok()
}

/// `serde_json::from_str::<String>`: the string a JSON string literal holds.
#[verifier::external_body]
pub(crate) fn json_decode_str(t: &str) -> (r: Option<String>)
    ensures
        r is Some <==> json_string_value(t@) is Some,
        r matches Some(s) ==> json_string_value(t@) == Some(s@),
{
    serde_json::from_str::<String>(t).ok()
}

/// `serde_json::from_str::<Option<String>>`: `null` or a JSON string.
#[verifier::external_body]
pub(crate) fn json_decode_optional_str(t: &str) -> (r: Option<Option<String>>)
    ensures
        r is Some <==> json_optional_string_value(t@) is Some,
        r matches Some(None) ==> json_optional_string_value(t@) == Some(None::<Seq<char>>),
        r matches Some(Some(s)) ==> json_optional_string_value(t@) == Some(Some(s@)),
{
    serde_json::from_str::<Option<String>>(t).ok()
}

/// `uuid::Uuid::parse_str`, returning the UUID's 128-bit value; the result is
/// the named `uuid_value` of the text, and nothing more is claimed.
#[verifier::external_body]
pub(crate) fn parse_uuid(t: &str) -> (r: Option<u128>)
    ensures
        r == uuid_value(t@),
{
    match uuid::Uuid::parse_str(t) {
        Ok(id) => Some(id.as_u128()),
        Err(_) => None,
    }
}

/// `uuid::Uuid::hyphenated`: the lower-case hyphenated text of `id`.
#[verifier::external_body]
pub(crate) fn uuid_text(id: u128) -> (r: String)
    ensures
        r@ == uuid_text_of(id),
{
    uuid::Uuid::from_u128(id).hyphenated().to_string()
}

/// `time::OffsetDateTime::parse` with `Rfc3339` (time-0.3.55
/// src/offset_date_time.rs:1550, the format at src/parsing/parsable.rs:615),
/// then `unix_timestamp_nanos` (src/offset_date_time.rs:558): the named
/// `rfc3339_instant` of the text, `None` exactly where the parse fails.
#[verifier::external_body]
pub(crate) fn parse_rfc3339(t: &str) -> (r: Option<i128>)
    ensures
        r matches Some(v) ==> rfc3339_instant(t@) == Some(v as int),
        r is None ==> rfc3339_instant(t@) is None,
{
    match time::OffsetDateTime::parse(t, &time::format_description::well_known::Rfc3339) {
        Ok(instant) => Some(instant.unix_timestamp_nanos()),
        Err(_) => None,
    }
}

/// `str::to_lowercase`: the std documentation defines the result by the
/// Unicode `Lowercase` mapping of each character, so it is a function of the
/// text alone, named `unicode_lowercase`.
#[verifier::external_body]
pub(crate) fn to_lowercase(s: &str) -> (r: String)
    ensures
        r@ == unicode_lowercase(s@),
{
    s.to_lowercase()
}


/// A file name that joins onto a directory as its last component: not
/// empty, not `.` or `..`, without separators or a drive colon.
pub open spec fn plain_file_name(name: Seq<char>) -> bool {
    &&& name.len() > 0
    &&& name != seq!['.']
    &&& name != seq!['.', '.']
    &&& forall|i: int|
        0 <= i < name.len() ==> #[trigger] name[i] != '/' && name[i] != '\\' && name[i] != ':'
}

/// What `Path::join` documents for a plain file name: the result ends with
/// the name; unless the directory has a verbatim prefix (which the join
/// normalizes), it starts with the directory and adds at most one separator.
pub open spec fn joined_path(dir: Seq<char>, name: Seq<char>, r: Seq<char>) -> bool {
    &&& ends_with_seq(r, name)
    &&& !starts_with_seq(dir, seq!['\\', '\\', '?', '\\']) ==> (starts_with_seq(r, dir)
        && dir.len() + name.len() <= r.len() <= dir.len() + name.len() + 1)
}

/// `Path::join` of a directory and a plain file name, as text. Which
/// separator is added depends on the platform, and is left unsaid.
#[verifier::external_body]
pub(crate) fn join_path(dir: &str, name: &str) -> (r: String)
    requires
        plain_file_name(name@),
    ensures
        joined_path(dir@, name@, r@),
{
    std::path::Path::new(dir).join(name).to_string_lossy().into_owned()
}

/// `std::str::from_utf8`: the text `bytes` encode, if they are UTF-8.
#[verifier::external_body]
pub(crate) fn utf8_to_string(bytes: &[u8]) -> (r: Option<String>)
    ensures
        r is Some <==> vstd::utf8::valid_utf8(bytes@),
        r matches Some(s) ==> s@ == vstd::utf8::decode_utf8(bytes@),
{
    std::str::from_utf8(bytes).ok().map(|s| s.to_owned())
}

/// The compact JSON text `serde_json` writes back for the JSON text `t`
/// after reading it as a value, if `t` is JSON.
pub uninterp spec fn compact_json_text(t: Seq<char>) -> Option<Seq<char>>;

/// `serde_json::from_str::<serde_json::Value>` followed by
/// `serde_json::to_string`: the JSON text `text` rewritten compactly. The
/// result is the named `compact_json_text` of the text; `None` where either
/// call fails.
#[verifier::external_body]
pub(crate) fn compact_json(text: &str) -> (r: Option<String>)
    ensures
        r is Some <==> compact_json_text(text@) is Some,
        r matches Some(s) ==> compact_json_text(text@) == Some(s@),
{
    serde_json::from_str::<serde_json::Value>(text).and_then(|value| serde_json::to_string(&value)).ok()
}

/// The string member `key` of the JSON value that `serde_json` reads from
/// `t`: `None` if `t` is not JSON, `Some(None)` if the value has no member
/// `key` that is a string.
pub uninterp spec fn json_member_string(t: Seq<char>, key: Seq<char>) -> Option<Option<Seq<char>>>;

/// The boolean member `key` of the JSON value read from `t`, in the same way.
pub uninterp spec fn json_member_boolean(t: Seq<char>, key: Seq<char>) -> Option<Option<bool>>;

/// `serde_json::from_str::<serde_json::Value>`, then `Value::get` and
/// `Value::as_str` (serde_json-1.0.154 src/value/mod.rs:305 and :492): the
/// string member `key` of the JSON text `text`, as the named
/// `json_member_string`.
#[verifier::external_body]
pub(crate) fn json_member_str(text: &str, key: &str) -> (r: Option<Option<String>>)
    ensures
        r is None <==> json_member_string(text@, key@) is None,
        r matches Some(None) ==> json_member_string(text@, key@) == Some(None::<Seq<char>>),
        r matches Some(Some(v)) ==> json_member_string(text@, key@) == Some(Some(v@)),
{
    match serde_json::from_str::<serde_json::Value>(text) {
        Ok(value) => Some(value.get(key).and_then(serde_json::Value::as_str).map(String::from)),
        Err(_) => None,
    }
}

/// `serde_json::from_str::<serde_json::Value>`, then `Value::get` and
/// `Value::as_bool` (serde_json-1.0.154 src/value/mod.rs:305 and :708): the
/// boolean member `key` of the JSON text `text`, as the named
/// `json_member_boolean`.
#[verifier::external_body]
pub(crate) fn json_member_bool(text: &str, key: &str) -> (r: Option<Option<bool>>)
    ensures
        r == json_member_boolean(text@, key@),
{
    match serde_json::from_str::<serde_json::Value>(text) {
        Ok(value) => Some(value.get(key).and_then(serde_json::Value::as_bool)),
        Err(_) => None,
    }
}

} // verus!
