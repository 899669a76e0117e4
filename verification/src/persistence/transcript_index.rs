//! Full-text search over the rebuildable transcript index: request
//! validation, the search cursor codec, and assembly of result pages from
//! the rows the index returns.

use vstd::prelude::*;

use crate::codes::Code;
use crate::outside::{
    parse_uuid, sha256, sha256_digest, to_lowercase, unicode_lowercase, uuid_text, uuid_text_of,
    uuid_value,
};
use crate::persistence::session_journal::AudioSource;
use crate::persistence::transcript_service::{
    encode_hex, hex_text, lemma_no_colon_in_decimal, lemma_uuid_text_has_no_colon,
};
use crate::persistence::transcript_store::TranscriptStoreError;
use crate::security::redaction::{join_spec, split_whitespace, split_whitespace_spec};
use crate::text::{
    lemma_split_append, lemma_split_whole,
    is_whitespace, is_whitespace_spec, occurs_at, chars_equal, decimal, from_chars, is_control, is_control_spec, lemma_decimal_digits,
    lemma_parse_decimal, parse_unsigned, parse_unsigned_spec, push_char, push_chars,
    push_decimal, push_str, slice_chars, split_chars, split_spec, starts_with_chars,
    starts_with_seq, to_chars, utf8_byte_len, utf8_bytes, utf8_count,
};

verus! {

/// Longest accepted query, in bytes.
pub const MAX_QUERY_BYTES: usize = 256;

/// Most whitespace-separated terms a query may hold.
pub const MAX_QUERY_TERMS: usize = 16;

/// Largest page of results.
pub const MAX_RESULT_LIMIT: u16 = 100;

/// Largest offset a search cursor may name.
pub const MAX_CURSOR_OFFSET: u32 = 100_000;

/// A search over one project's transcripts, optionally narrowed to one
/// session.
#[derive(Debug)]
pub struct TranscriptSearchRequest {
    pub project_id: u128,
    pub session_id: Option<u128>,
    pub query: String,
    pub cursor: Option<String>,
    pub limit: u16,
}

/// A decoded search cursor: the index generation it was issued for and the
/// offset of the page.
#[derive(Debug, Clone, Copy, PartialEq, Eq, Structural)]
pub struct DecodedSearchCursor {
    pub generation: Option<u64>,
    pub offset: u32,
}

pub open spec fn search_cursor_prefix() -> Seq<char> {
    seq!['t', '1', ':']
}

/// The scope field of a cursor: the session's id text, or `*` for the whole
/// project.
pub open spec fn scope_text(session_id: Option<Seq<char>>) -> Seq<char> {
    match session_id {
        Some(s) => s,
        None => seq!['*'],
    }
}

/// `t1:{generation}:{project}:{scope}:{query key}:{offset}`.
pub open spec fn search_cursor_text(
    generation: nat,
    project_id: Seq<char>,
    scope: Seq<char>,
    query_key: Seq<char>,
    offset: nat,
) -> Seq<char> {
    search_cursor_prefix() + decimal(generation) + seq![':'] + project_id + seq![':'] + scope
        + seq![':'] + query_key + seq![':'] + decimal(offset)
}

/// What a search cursor decodes to: nothing means the first page; otherwise
/// five `:`-separated fields after `t1:` that name a generation of at least
/// one, this project, this scope and this query, and a bounded offset.
pub open spec fn decode_search_cursor_spec(
    cursor: Option<Seq<char>>,
    project_id: Seq<char>,
    session_id: Option<Seq<char>>,
    query_key: Seq<char>,
) -> Option<DecodedSearchCursor> {
    match cursor {
        None => Some(DecodedSearchCursor { generation: None, offset: 0 }),
        Some(c) => {
            let parts = split_spec(c.skip(3), ':');
            let generation = parse_unsigned_spec(parts[0], u64::MAX as nat);
            let offset = parse_unsigned_spec(parts[4], u32::MAX as nat);
            if starts_with_seq(c, search_cursor_prefix()) && parts.len() == 5 && parts[1]
                == project_id && parts[2] == scope_text(session_id) && parts[3] == query_key
                && generation is Some && generation->0 >= 1 && offset is Some && offset->0
                <= MAX_CURSOR_OFFSET {
                Some(
                    DecodedSearchCursor {
                        generation: Some(generation->0 as u64),
                        offset: offset->0 as u32,
                    },
                )
            } else {
                None
            }
        },
    }
}

pub open spec fn optional_text(value: Option<String>) -> Option<Seq<char>> {
    match value {
        Some(v) => Some(v@),
        None => None,
    }
}

/// Decodes a search cursor bound to this project, scope and query.
pub fn decode_cursor(
    cursor: Option<&str>,
    project_id: &str,
    session_id: Option<&str>,
    query_key: &str,
) -> (r: Result<DecodedSearchCursor, TranscriptStoreError>)
    ensures
        ({
            let c = match cursor {
                Some(c) => Some(c@),
                None => None,
            };
            let s = match session_id {
                Some(s) => Some(s@),
                None => None,
            };
            let expected = decode_search_cursor_spec(c, project_id@, s, query_key@);
            &&& r is Ok <==> expected is Some
            &&& r matches Ok(d) ==> expected == Some(d)
            &&& r matches Err(e) ==> e.code == Code::TranscriptSearchCursorInvalid
        }),
{
    let cursor = match cursor {
        None => return Ok(DecodedSearchCursor { generation: None, offset: 0 }),
        Some(c) => c,
    };
    let chars = to_chars(cursor);
    let prefix = ['t', '1', ':'];
    proof {
        assert(prefix@ =~= search_cursor_prefix());
    }
    if !starts_with_chars(chars.as_slice(), &prefix) {
        return Err(TranscriptStoreError::new(Code::TranscriptSearchCursorInvalid));
    }
    let rest = slice_chars(chars.as_slice(), 3, chars.len());
    proof {
        assert(rest@ =~= cursor@.skip(3));
    }
    let parts = split_chars(rest.as_slice(), ':');
    if parts.len() != 5 {
        return Err(TranscriptStoreError::new(Code::TranscriptSearchCursorInvalid));
    }
    let scope = match session_id {
        Some(s) => to_chars(s),
        None => {
            let mut star: Vec<char> = Vec::new();
            star.push('*');
            proof {
                assert(star@ =~= seq!['*']);
            }
            star
        },
    };
    if !chars_equal(parts[1].as_slice(), to_chars(project_id).as_slice()) || !chars_equal(
        parts[2].as_slice(),
        scope.as_slice(),
    ) || !chars_equal(parts[3].as_slice(), to_chars(query_key).as_slice()) {
        return Err(TranscriptStoreError::new(Code::TranscriptSearchCursorInvalid));
    }
    let generation = match parse_unsigned(parts[0].as_slice(), u64::MAX) {
        Some(g) => g,
        None => return Err(TranscriptStoreError::new(Code::TranscriptSearchCursorInvalid)),
    };
    if generation < 1 {
        return Err(TranscriptStoreError::new(Code::TranscriptSearchCursorInvalid));
    }
    let offset = match parse_unsigned(parts[4].as_slice(), 4_294_967_295) {
        Some(o) => o,
        None => return Err(TranscriptStoreError::new(Code::TranscriptSearchCursorInvalid)),
    };
    if offset > MAX_CURSOR_OFFSET as u64 {
        return Err(TranscriptStoreError::new(Code::TranscriptSearchCursorInvalid));
    }
    Ok(DecodedSearchCursor { generation: Some(generation), offset: offset as u32 })
}

/// `term` with every `"` doubled, as an FTS string literal needs.
pub open spec fn double_quotes(term: Seq<char>) -> Seq<char>
    decreases term.len(),
{
    if term.len() == 0 {
        seq![]
    } else {
        double_quotes(term.drop_last()) + if term.last() == '"' {
            seq!['"', '"']
        } else {
            seq![term.last()]
        }
    }
}

/// One term as a quoted FTS phrase.
pub open spec fn fts_phrase(term: Seq<char>) -> Seq<char> {
    seq!['"'] + double_quotes(term) + seq!['"']
}

/// The FTS query: every term as a phrase, all of them required.
pub open spec fn fts_query_spec(terms: Seq<Seq<char>>) -> Seq<char> {
    join_spec(terms.map_values(|t: Seq<char>| fts_phrase(t)), " AND "@)
}

/// The lower-cased terms of a query.
pub open spec fn query_terms_spec(query: Seq<char>) -> Seq<Seq<char>> {
    split_whitespace_spec(query).map_values(|t: Seq<char>| unicode_lowercase(t))
}

/// The key that binds a cursor to its query: the first sixteen hex digits
/// of the SHA-256 of the lower-cased query.
pub open spec fn query_key_spec(query: Seq<char>) -> Seq<char> {
    hex_text(sha256_digest(vstd::utf8::encode_utf8(unicode_lowercase(query)))@).take(16)
}

/// What a search request must satisfy before its terms are read.
pub open spec fn search_request_ok(query: Seq<char>, limit: u16) -> bool {
    &&& query.len() > 0
    &&& utf8_count(query) <= MAX_QUERY_BYTES
    &&& forall|i: int| 0 <= i < query.len() ==> !is_control_spec(#[trigger] query[i])
    &&& 1 <= limit <= MAX_RESULT_LIMIT
}

/// A search request that passed validation, ready for the index.
#[derive(Debug)]
pub struct ValidatedSearch {
    pub project_id: String,
    pub session_id: Option<String>,
    pub project_uuid: u128,
    pub session_uuid: Option<u128>,
    pub fts_query: String,
    pub query_terms: Vec<String>,
    pub query_key: String,
    pub cursor: DecodedSearchCursor,
    pub limit: u16,
}

/// Wraps `term` in quotes, doubling the quotes inside it.
fn push_phrase(out: &mut String, term: &str)
    ensures
        final(out)@ == old(out)@ + fts_phrase(term@),
{
    let ghost start = out@;
    push_char(out, '"');
    let chars = to_chars(term);
    let n = chars.len();
    for i in 0..n
        invariant
            n == chars@.len(),
            chars@ == term@,
            out@ == start + seq!['"'] + double_quotes(term@.take(i as int)),
    {
        if chars[i] == '"' {
            push_char(out, '"');
            push_char(out, '"');
        } else {
            push_char(out, chars[i]);
        }
        proof {
            assert(term@.take(i + 1).drop_last() =~= term@.take(i as int));
            assert(out@ =~= start + seq!['"'] + double_quotes(term@.take(i + 1)));
        }
    }
    push_char(out, '"');
    proof {
        assert(term@.take(n as int) =~= term@);
        assert(out@ =~= start + fts_phrase(term@));
    }
}

impl ValidatedSearch {
    /// Validates a search request: a non-empty query of at most 256 bytes
    /// without control characters, a limit from 1 to 100, one to sixteen
    /// terms, and a cursor bound to this project, scope and query.
    pub fn new(request: &TranscriptSearchRequest) -> (r: Result<Self, TranscriptStoreError>)
        ensures
            ({
                let q = request.query@;
                let terms = split_whitespace_spec(q);
                let valid = search_request_ok(q, request.limit) && 1 <= terms.len()
                    <= MAX_QUERY_TERMS;
                let project = uuid_text_of(request.project_id);
                let session = match request.session_id {
                    Some(s) => Some(uuid_text_of(s)),
                    None => None,
                };
                let cursor = decode_search_cursor_spec(
                    optional_text(request.cursor),
                    project,
                    session,
                    query_key_spec(q),
                );
                &&& r matches Err(e) ==> (e.code == Code::TranscriptSearchRequestInvalid <==> !valid)
                &&& r matches Err(e) ==> (e.code == Code::TranscriptSearchRequestInvalid || e.code
                    == Code::TranscriptSearchCursorInvalid)
                &&& r is Ok <==> (valid && cursor is Some)
                &&& r matches Ok(v) ==> {
                    &&& v.project_id@ == project
                    &&& optional_text(v.session_id) == session
                    &&& v.project_uuid == request.project_id
                    &&& v.session_uuid == request.session_id
                    &&& v.query_terms@.len() == terms.len()
                    &&& forall|k: int|
                        0 <= k < terms.len() ==> (#[trigger] v.query_terms@[k])@
                            == query_terms_spec(q)[k]
                    &&& v.fts_query@ == fts_query_spec(query_terms_spec(q))
                    &&& v.query_key@ == query_key_spec(q)
                    &&& cursor == Some(v.cursor)
                    &&& v.limit == request.limit
                }
            }),
    {
        let query = to_chars(request.query.as_str());
        let n = query.len();
        if n == 0 || utf8_byte_len(query.as_slice()) > MAX_QUERY_BYTES || request.limit < 1
            || request.limit > MAX_RESULT_LIMIT {
            return Err(TranscriptStoreError::new(Code::TranscriptSearchRequestInvalid));
        }
        for i in 0..n
            invariant
                n == query@.len(),
                query@ == request.query@,
                forall|j: int| 0 <= j < i ==> !is_control_spec(#[trigger] query@[j]),
        {
            if is_control(query[i]) {
                return Err(TranscriptStoreError::new(Code::TranscriptSearchRequestInvalid));
            }
        }
        let tokens = split_whitespace(query.as_slice());
        if tokens.len() == 0 || tokens.len() > MAX_QUERY_TERMS {
            return Err(TranscriptStoreError::new(Code::TranscriptSearchRequestInvalid));
        }
        let ghost q = request.query@;
        let ghost spec_terms = query_terms_spec(q);
        let ghost phrases = spec_terms.map_values(|t: Seq<char>| fts_phrase(t));
        let mut terms: Vec<String> = Vec::new();
        let mut fts = String::new();
        let m = tokens.len();
        for k in 0..m
            invariant
                m == tokens@.len(),
                m == split_whitespace_spec(q).len(),
                spec_terms == query_terms_spec(q),
                phrases == spec_terms.map_values(|t: Seq<char>| fts_phrase(t)),
                forall|j: int|
                    0 <= j < m ==> (#[trigger] tokens@[j])@ == split_whitespace_spec(q)[j],
                terms@.len() == k,
                forall|j: int| 0 <= j < k ==> (#[trigger] terms@[j])@ == spec_terms[j],
                fts@ == join_spec(phrases.take(k as int), " AND "@),
        {
            let lower = to_lowercase(from_chars(tokens[k].as_slice()).as_str());
            let ghost before = fts@;
            if k > 0 {
                push_str(&mut fts, " AND ");
            }
            push_phrase(&mut fts, lower.as_str());
            proof {
                assert(lower@ == spec_terms[k as int]);
                assert(phrases[k as int] == fts_phrase(lower@));
                assert(phrases.take(k + 1).drop_last() =~= phrases.take(k as int));
                if k == 0 {
                    assert(fts@ =~= join_spec(phrases.take(1), " AND "@));
                } else {
                    assert(fts@ =~= join_spec(phrases.take(k + 1), " AND "@));
                }
            }
            terms.push(lower);
        }
        proof {
            assert(phrases.take(m as int) =~= phrases);
        }
        let project_id = uuid_text(request.project_id);
        let session_id = match request.session_id {
            Some(s) => Some(uuid_text(s)),
            None => None,
        };
        let lowered = to_lowercase(request.query.as_str());
        let digest = sha256(utf8_bytes(lowered.as_str()).as_slice());
        let hex = to_chars(encode_hex(&digest).as_str());
        proof {
            crate::persistence::transcript_service::hex_text_shape(
                sha256_digest(vstd::utf8::encode_utf8(lowered@))@,
            );
            assert(digest@.len() == 32);
        }
        let key = from_chars(slice_chars(hex.as_slice(), 0, 16).as_slice());
        proof {
            assert(key@ =~= query_key_spec(q));
        }
        let session_ref = match &session_id {
            Some(s) => Some(s.as_str()),
            None => None,
        };
        let cursor_ref = match &request.cursor {
            Some(c) => Some(c.as_str()),
            None => None,
        };
        let cursor = decode_cursor(cursor_ref, project_id.as_str(), session_ref, key.as_str())?;
        Ok(ValidatedSearch {
            project_id,
            session_id,
            project_uuid: request.project_id,
            session_uuid: request.session_id,
            fts_query: fts,
            query_terms: terms,
            query_key: key,
            cursor,
            limit: request.limit,
        })
    }
}

/// The search cursor of the page after one that started at `offset`.
pub fn encode_search_cursor(
    generation: u64,
    project_id: &str,
    session_id: Option<&str>,
    query_key: &str,
    offset: u32,
) -> (r: String)
    ensures
        r@ == search_cursor_text(
            generation as nat,
            project_id@,
            scope_text(
                match session_id {
                    Some(s) => Some(s@),
                    None => None,
                },
            ),
            query_key@,
            offset as nat,
        ),
{
    let mut r = String::new();
    push_str(&mut r, "t1:");
    push_decimal(&mut r, generation);
    push_char(&mut r, ':');
    push_str(&mut r, project_id);
    push_char(&mut r, ':');
    match session_id {
        Some(s) => push_str(&mut r, s),
        None => push_char(&mut r, '*'),
    }
    push_char(&mut r, ':');
    push_str(&mut r, query_key);
    push_char(&mut r, ':');
    push_decimal(&mut r, offset as u64);
    proof {
        reveal_strlit("t1:");
        assert(r@ =~= search_cursor_text(
            generation as nat,
            project_id@,
            scope_text(
                match session_id {
                    Some(s) => Some(s@),
                    None => None,
                },
            ),
            query_key@,
            offset as nat,
        ));
    }
    r
}

/// Points in a search index rebuild where a test may inject a failure.
#[derive(Debug, Clone, Copy, PartialEq, Eq, Structural)]
pub enum SearchRebuildFault {
    AfterDelete,
    AfterInsert,
}

/// Fails with `transcript_search_fault_injected` exactly at the configured
/// point.
pub fn inject_fault(configured: Option<SearchRebuildFault>, current: SearchRebuildFault) -> (r:
    Result<(), TranscriptStoreError>)
    ensures
        r is Err <==> configured == Some(current),
        r matches Err(e) ==> e.code == Code::TranscriptSearchFaultInjected,
{
    match configured {
        Some(c) => if c == current {
            Err(TranscriptStoreError::new(Code::TranscriptSearchFaultInjected))
        } else {
            Ok(())
        },
        None => Ok(()),
    }
}

/// Most characters a snippet shows.
pub const MAX_SNIPPET_CHARS: usize = 240;

/// Whitespace runs of `s` collapsed to single spaces.
pub open spec fn collapse_whitespace(s: Seq<char>) -> Seq<char>
    decreases s.len(),
{
    if s.len() == 0 {
        seq![]
    } else {
        let p = collapse_whitespace(s.drop_last());
        if is_whitespace_spec(s.last()) {
            if s.len() >= 2 && is_whitespace_spec(s[s.len() - 2]) {
                p
            } else {
                p.push(' ')
            }
        } else {
            p.push(s.last())
        }
    }
}

/// `s` without a leading and a trailing space.
pub open spec fn trim_spaces(s: Seq<char>) -> Seq<char> {
    let a = if s.len() > 0 && s[0] == ' ' {
        s.drop_first()
    } else {
        s
    };
    if a.len() > 0 && a.last() == ' ' {
        a.drop_last()
    } else {
        a
    }
}

/// The text a snippet is cut from: whitespace collapsed and trimmed.
pub open spec fn snippet_source(text: Seq<char>) -> Seq<char> {
    trim_spaces(collapse_whitespace(text))
}

/// Position of the first occurrence of `p` in `s`.
pub open spec fn first_occurrence(s: Seq<char>, p: Seq<char>) -> Option<int> {
    if exists|i: int| occurs_at(s, p, i) {
        Some(choose|i: int| occurs_at(s, p, i) && forall|j: int| 0 <= j < i ==> !occurs_at(s, p, j))
    } else {
        None
    }
}

/// The earliest byte offset at which any of the first `k` terms occurs in
/// `lower`.
pub open spec fn earliest_match(lower: Seq<char>, terms: Seq<Seq<char>>, k: nat) -> Option<nat>
    decreases k,
{
    if k == 0 {
        None
    } else {
        let rest = earliest_match(lower, terms, (k - 1) as nat);
        match first_occurrence(lower, terms[k - 1]) {
            None => rest,
            Some(i) => {
                let b = utf8_count(lower.take(i));
                match rest {
                    Some(r) => if r <= b { Some(r) } else { Some(b) },
                    None => Some(b),
                }
            },
        }
    }
}

/// The byte offset where the first term match starts in the lower-cased
/// text, or zero.
pub open spec fn match_byte_offset(text: Seq<char>, terms: Seq<Seq<char>>) -> nat {
    match earliest_match(unicode_lowercase(snippet_source(text)), terms, terms.len()) {
        Some(b) => b,
        None => 0,
    }
}

/// The byte offset falls between characters of the snippet source; where it
/// does not (lower-casing changed byte lengths), slicing the source there
/// would panic.
pub open spec fn snippet_offset_on_boundary(text: Seq<char>, terms: Seq<Seq<char>>) -> bool {
    exists|j: int|
        0 <= j <= snippet_source(text).len() && utf8_count(snippet_source(text).take(j))
            == match_byte_offset(text, terms)
}

/// The character index at that byte offset.
pub open spec fn match_char_index(text: Seq<char>, terms: Seq<Seq<char>>) -> int {
    choose|j: int|
        0 <= j <= snippet_source(text).len() && utf8_count(snippet_source(text).take(j))
            == match_byte_offset(text, terms)
}

/// The snippet: up to 240 characters starting 48 before the first match,
/// with an ellipsis on each side where text was cut.
pub open spec fn snippet_spec(text: Seq<char>, terms: Seq<Seq<char>>) -> Seq<char> {
    let source = snippet_source(text);
    let j = match_char_index(text, terms);
    let start = if j >= 48 { j - 48 } else { 0 };
    let end = if start + MAX_SNIPPET_CHARS <= source.len() {
        start + MAX_SNIPPET_CHARS
    } else {
        source.len() as int
    };
    (if start > 0 { seq!['…'] } else { seq![] }) + source.subrange(start, end) + (if end
        < source.len() {
        seq!['…']
    } else {
        seq![]
    })
}

proof fn lemma_utf8_prefix_increasing(s: Seq<char>, a: int, b: int)
    requires
        0 <= a < b <= s.len(),
    ensures
        utf8_count(s.take(a)) < utf8_count(s.take(b)),
    decreases b - a,
{
    assert(s.take(b).drop_last() =~= s.take(b - 1));
    if a < b - 1 {
        lemma_utf8_prefix_increasing(s, a, b - 1);
    }
}

/// Collapses whitespace runs to single spaces and trims the ends.
fn normalize_snippet_text(text: &str) -> (r: Vec<char>)
    ensures
        r@ == snippet_source(text@),
{
    let chars = to_chars(text);
    let n = chars.len();
    let mut out: Vec<char> = Vec::new();
    let mut previous_space = false;
    for i in 0..n
        invariant
            n == chars@.len(),
            chars@ == text@,
            out@ == collapse_whitespace(text@.take(i as int)),
            previous_space == (i > 0 && is_whitespace_spec(text@[i - 1])),
    {
        let c = chars[i];
        proof {
            assert(text@.take(i + 1).drop_last() =~= text@.take(i as int));
            if i > 0 {
                assert(text@.take(i + 1)[i - 1] == text@[i - 1]);
            }
        }
        if is_whitespace(c) {
            if !previous_space {
                out.push(' ');
            }
            previous_space = true;
        } else {
            out.push(c);
            previous_space = false;
        }
    }
    proof {
        assert(text@.take(n as int) =~= text@);
    }
    let ghost collapsed = out@;
    let mut start: usize = 0;
    if out.len() > 0 && out[0] == ' ' {
        start = 1;
    }
    let mut end = out.len();
    if end > start && out[end - 1] == ' ' {
        end = end - 1;
    }
    let r = slice_chars(out.as_slice(), start, end);
    proof {
        let a = if collapsed.len() > 0 && collapsed[0] == ' ' {
            collapsed.drop_first()
        } else {
            collapsed
        };
        assert(a =~= collapsed.subrange(start as int, collapsed.len() as int));
        if a.len() > 0 && a.last() == ' ' {
            assert(r@ =~= a.drop_last());
        } else {
            assert(r@ =~= a);
        }
    }
    r
}

/// Byte length in UTF-8 of `chars`, in a width that cannot overflow.
fn utf8_count_wide(chars: &[char]) -> (r: u128)
    ensures
        r == utf8_count(chars@),
{
    let n = chars.len();
    let mut total: u128 = 0;
    for i in 0..n
        invariant
            n == chars@.len(),
            total == utf8_count(chars@.take(i as int)),
    {
        proof {
            assert(chars@.take(i + 1).drop_last() =~= chars@.take(i as int));
            crate::text::lemma_utf8_count_bounded(chars@.take(i + 1));
        }
        total = total + crate::text::utf8_len(chars[i]) as u128;
    }
    proof {
        assert(chars@.take(n as int) =~= chars@);
    }
    total
}

/// The earliest byte offset of a term match in `lower`.
#[verifier::spinoff_prover]
#[verifier::rlimit(40)]
fn earliest_term_match(lower: &[char], terms: &[String]) -> (r: Option<u128>)
    ensures
        ({
            let views = terms@.map_values(|t: String| t@);
            &&& r is Some <==> earliest_match(lower@, views, views.len()) is Some
            &&& r matches Some(b) ==> earliest_match(lower@, views, views.len()) == Some(b as nat)
        }),
{
    let ghost views = terms@.map_values(|t: String| t@);
    let mut best: Option<u128> = None;
    let n = terms.len();
    for k in 0..n
        invariant
            n == terms@.len(),
            views == terms@.map_values(|t: String| t@),
            best is Some <==> earliest_match(lower@, views, k as nat) is Some,
            best matches Some(b) ==> earliest_match(lower@, views, k as nat) == Some(b as nat),
    {
        let term = to_chars(terms[k].as_str());
        match crate::text::find_from(lower, term.as_slice(), 0) {
            Some(i) => {
                proof {
                    assert(views[k as int] == term@);
                    assert(exists|x: int| occurs_at(lower@, term@, x));
                    let c = first_occurrence(lower@, term@)->0;
                    if c < i {
                        assert(!occurs_at(lower@, term@, c));
                    }
                    if i < c {
                        assert(!occurs_at(lower@, term@, i as int));
                    }
                    assert(c == i);
                }
                let prefix = slice_chars(lower, 0, i);
                let b = utf8_count_wide(prefix.as_slice());
                proof {
                    assert(prefix@ =~= lower@.take(i as int));
                }
                best = match best {
                    Some(r) => if r <= b {
                        Some(r)
                    } else {
                        Some(b)
                    },
                    None => Some(b),
                };
            },
            None => {
                proof {
                    assert(views[k as int] == term@);
                    assert(!exists|x: int| occurs_at(lower@, term@, x));
                }
            },
        }
    }
    best
}

/// The text around the first match of any term, at most 240 characters,
/// starting 48 characters before the match, with ellipses where cut.
pub fn stable_snippet(text: &str, terms: &[String]) -> (r: String)
    requires
        snippet_offset_on_boundary(text@, terms@.map_values(|t: String| t@)),
    ensures
        r@ == snippet_spec(text@, terms@.map_values(|t: String| t@)),
{
    let ghost views = terms@.map_values(|t: String| t@);
    let normalized = normalize_snippet_text(text);
    let lower = to_chars(to_lowercase(from_chars(normalized.as_slice()).as_str()).as_str());
    let byte_start = match earliest_term_match(lower.as_slice(), terms) {
        Some(b) => b,
        None => 0,
    };
    let n = normalized.len();
    let mut j: usize = 0;
    let mut bytes: u128 = 0;
    let ghost target = match_char_index(text@, views);
    proof {
        assert(normalized@.take(0) =~= Seq::<char>::empty());
        if target > 0 {
            lemma_utf8_prefix_increasing(normalized@, 0, target);
        }
    }
    while bytes < byte_start
        invariant
            n == normalized@.len(),
            0 <= target <= n,
            utf8_count(normalized@.take(target)) == byte_start,
            j <= target,
            bytes == utf8_count(normalized@.take(j as int)),
        decreases target - j,
    {
        proof {
            if j == target {
                assert(false);
            }
        }
        proof {
            assert(normalized@.take(j + 1).drop_last() =~= normalized@.take(j as int));
            if j + 1 < target {
                lemma_utf8_prefix_increasing(normalized@, j + 1, target);
            }
            crate::text::lemma_utf8_count_bounded(normalized@.take(target));
        }
        bytes = bytes + crate::text::utf8_len(normalized[j]) as u128;
        j = j + 1;
    }
    proof {
        if (j as int) < target {
            lemma_utf8_prefix_increasing(normalized@, j as int, target);
        }
    }
    let char_start = if j >= 48 {
        j - 48
    } else {
        0
    };
    let end = if char_start <= n && n - char_start >= MAX_SNIPPET_CHARS {
        char_start + MAX_SNIPPET_CHARS
    } else {
        n
    };
    let mut snippet = String::new();
    if char_start > 0 {
        push_char(&mut snippet, '…');
    }
    push_chars(&mut snippet, slice_chars(normalized.as_slice(), char_start, end).as_slice());
    if end < n {
        push_char(&mut snippet, '…');
    }
    proof {
        assert(snippet@ =~= snippet_spec(text@, views));
    }
    snippet
}

/// The snippet, or nothing where the match offset would cut through a
/// character of the snippet source.
pub fn checked_stable_snippet(text: &str, terms: &[String]) -> (r: Option<String>)
    ensures
        r is Some <==> snippet_offset_on_boundary(text@, terms@.map_values(|t: String| t@)),
        r matches Some(v) ==> v@ == snippet_spec(text@, terms@.map_values(|t: String| t@)),
{
    let ghost views = terms@.map_values(|t: String| t@);
    let normalized = normalize_snippet_text(text);
    let lower = to_chars(to_lowercase(from_chars(normalized.as_slice()).as_str()).as_str());
    let byte_start = match earliest_term_match(lower.as_slice(), terms) {
        Some(b) => b,
        None => 0,
    };
    let n = normalized.len();
    let mut j: usize = 0;
    let mut bytes: u128 = 0;
    proof {
        assert(normalized@.take(0) =~= Seq::<char>::empty());
    }
    while bytes < byte_start && j < n
        invariant
            n == normalized@.len(),
            j <= n,
            bytes == utf8_count(normalized@.take(j as int)),
            forall|k: int| 0 <= k < j ==> utf8_count(#[trigger] normalized@.take(k)) < byte_start,
        decreases n - j,
    {
        proof {
            assert(normalized@.take(j + 1).drop_last() =~= normalized@.take(j as int));
            crate::text::lemma_utf8_count_bounded(normalized@.take(j + 1));
        }
        bytes = bytes + crate::text::utf8_len(normalized[j]) as u128;
        j = j + 1;
    }
    if bytes != byte_start {
        proof {
            assert forall|k: int|
                0 <= k <= normalized@.len() implies utf8_count(#[trigger] normalized@.take(k))
                != byte_start by {
                if k < j {
                } else if k > j {
                    lemma_utf8_prefix_increasing(normalized@, j as int, k);
                }
            }
        }
        return None;
    }
    Some(stable_snippet(text, terms))
}

/// One row the index returns for a search, as stored.
#[derive(Debug)]
pub struct SearchRow {
    pub project_id: String,
    pub session_id: String,
    pub segment_id: String,
    pub source: String,
    pub start_ms: i64,
    pub end_ms: i64,
    pub language: String,
    pub text: String,
    pub checkpoint_sequence: i64,
    pub checkpoint_checksum: String,
    pub snapshot_sha256: Vec<u8>,
}

/// One search hit.
#[derive(Debug)]
pub struct TranscriptSearchResult {
    pub project_id: u128,
    pub session_id: u128,
    pub segment_id: u128,
    pub source: AudioSource,
    pub start_ms: u64,
    pub end_ms: u64,
    pub language: String,
    pub snippet: String,
}

/// One page of search hits and the cursor of the next page, if any.
#[derive(Debug)]
pub struct TranscriptSearchPage {
    pub items: Vec<TranscriptSearchResult>,
    pub next_cursor: Option<String>,
}

/// The audio source a stored source name stands for.
pub open spec fn source_from_name(name: Seq<char>) -> Option<AudioSource> {
    if name == "microphone"@ {
        Some(AudioSource::Microphone)
    } else if name == "system_output"@ {
        Some(AudioSource::SystemOutput)
    } else {
        None
    }
}

/// A stored row is consistent with the search and well formed.
pub open spec fn row_ok(row: SearchRow, search: ValidatedSearch) -> bool {
    &&& row.project_id@ == search.project_id@
    &&& (search.session_id matches Some(s) ==> s@ == row.session_id@)
    &&& row.checkpoint_sequence >= 1
    &&& utf8_count(row.checkpoint_checksum@) == 64
    &&& row.snapshot_sha256@.len() == 32
    &&& row.language@.len() > 0
    &&& utf8_count(row.language@) <= 64
    &&& row.text@.len() > 0
    &&& utf8_count(row.text@) <= 32_768
    &&& row.start_ms >= 0
    &&& row.end_ms > row.start_ms
    &&& uuid_value(row.project_id@) == Some(search.project_uuid)
    &&& uuid_value(row.session_id@) is Some
    &&& (search.session_uuid matches Some(s) ==> uuid_value(row.session_id@) == Some(s))
    &&& uuid_value(row.segment_id@) is Some
    &&& source_from_name(row.source@) is Some
}

/// The hit a well-formed row gives.
pub open spec fn row_matches_result(
    row: SearchRow,
    result: TranscriptSearchResult,
    terms: Seq<Seq<char>>,
) -> bool {
    &&& uuid_value(row.project_id@) == Some(result.project_id)
    &&& uuid_value(row.session_id@) == Some(result.session_id)
    &&& uuid_value(row.segment_id@) == Some(result.segment_id)
    &&& source_from_name(row.source@) == Some(result.source)
    &&& result.start_ms == row.start_ms
    &&& result.end_ms == row.end_ms
    &&& result.language@ == row.language@
    &&& result.snippet@ == snippet_spec(row.text@, terms)
}

/// Every row up to and including `i` is well formed.
pub open spec fn rows_ok_through(rows: Seq<SearchRow>, search: ValidatedSearch, i: int) -> bool {
    forall|j: int| 0 <= j <= i ==> row_ok(#[trigger] rows[j], search)
}

/// The next page starts `limit` further on, or at the bound when that
/// would overflow.
pub open spec fn next_offset(offset: u32, limit: u16) -> nat {
    if offset + limit <= u32::MAX {
        (offset + limit) as nat
    } else {
        MAX_CURSOR_OFFSET as nat
    }
}

/// Checks one stored row and turns it into a hit.
fn search_hit(row: &SearchRow, search: &ValidatedSearch) -> (r: Option<TranscriptSearchResult>)
    requires
        row_ok(*row, *search) ==> snippet_offset_on_boundary(
            row.text@,
            search.query_terms@.map_values(|t: String| t@),
        ),
    ensures
        r is Some <==> row_ok(*row, *search),
        r matches Some(hit) ==> row_matches_result(
            *row,
            hit,
            search.query_terms@.map_values(|t: String| t@),
        ),
{
    let same_project = chars_equal(
        to_chars(row.project_id.as_str()).as_slice(),
        to_chars(search.project_id.as_str()).as_slice(),
    );
    let same_session = match &search.session_id {
        Some(expected) => chars_equal(
            to_chars(expected.as_str()).as_slice(),
            to_chars(row.session_id.as_str()).as_slice(),
        ),
        None => true,
    };
    let language = to_chars(row.language.as_str());
    let text = to_chars(row.text.as_str());
    if !same_project || !same_session || row.checkpoint_sequence < 1 || utf8_byte_len(
        to_chars(row.checkpoint_checksum.as_str()).as_slice(),
    ) != 64 || row.snapshot_sha256.len() != 32 || language.len() == 0 || utf8_byte_len(
        language.as_slice(),
    ) > 64 || text.len() == 0 || utf8_byte_len(text.as_slice()) > 32_768 || row.start_ms < 0
        || row.end_ms <= row.start_ms {
        return None;
    }
    let project_id = match parse_uuid(row.project_id.as_str()) {
        Some(id) => id,
        None => return None,
    };
    if project_id != search.project_uuid {
        return None;
    }
    let session_id = match parse_uuid(row.session_id.as_str()) {
        Some(id) => id,
        None => return None,
    };
    match search.session_uuid {
        Some(s) => if session_id != s {
            return None;
        },
        None => {},
    }
    let segment_id = match parse_uuid(row.segment_id.as_str()) {
        Some(id) => id,
        None => return None,
    };
    let source_name = to_chars(row.source.as_str());
    let source = if chars_equal(source_name.as_slice(), to_chars("microphone").as_slice()) {
        AudioSource::Microphone
    } else if chars_equal(source_name.as_slice(), to_chars("system_output").as_slice()) {
        AudioSource::SystemOutput
    } else {
        return None;
    };
    Some(
        TranscriptSearchResult {
            project_id,
            session_id,
            segment_id,
            source,
            start_ms: row.start_ms as u64,
            end_ms: row.end_ms as u64,
            language: row.language.clone(),
            snippet: stable_snippet(row.text.as_str(), search.query_terms.as_slice()),
        },
    )
}

/// What a search page assembled from `rows` at index generation
/// `generation` is: a negative generation or a malformed row means the index
/// is invalid, a cursor from another generation is stale, and otherwise the
/// page holds the hit of each row up to `limit`, all in the searched scope,
/// with a cursor to the next page exactly when more rows came back.
pub open spec fn search_page_outcome(
    generation: i64,
    search: ValidatedSearch,
    rows: Seq<SearchRow>,
    r: Result<TranscriptSearchPage, TranscriptStoreError>,
) -> bool {
    &&& (generation < 0 ==> r == Err::<TranscriptSearchPage, TranscriptStoreError>(
            TranscriptStoreError { code: Code::TranscriptSearchIndexInvalid },
        ))
    &&& (generation >= 0 && (search.cursor.generation matches Some(g) && g != generation) ==> r
            == Err::<TranscriptSearchPage, TranscriptStoreError>(
            TranscriptStoreError { code: Code::TranscriptSearchPageStale },
        ))
    &&& (generation >= 0 && !(search.cursor.generation matches Some(g) && g != generation) ==> {
            &&& r is Err <==> exists|i: int| 0 <= i < rows.len() && !row_ok(#[trigger] rows[i], search)
            &&& r matches Err(e) ==> e.code == Code::TranscriptSearchIndexInvalid
            &&& r matches Ok(page) ==> {
                let kept = if rows.len() > search.limit { rows.len() - 1 } else { rows.len() as int };
                &&& page.items@.len() == kept
                &&& rows.len() <= search.limit + 1 ==> page.items@.len() <= search.limit
                &&& forall|k: int|
                    0 <= k < kept ==> (#[trigger] page.items@[k]).project_id == search.project_uuid
                        && (search.session_uuid matches Some(s) ==> page.items@[k].session_id == s)
                &&& forall|k: int|
                    0 <= k < kept ==> row_matches_result(
                        rows[k],
                        #[trigger] page.items@[k],
                        search.query_terms@.map_values(|t: String| t@),
                    )
                &&& rows.len() > search.limit ==> (page.next_cursor matches Some(c) && c@
                    == search_cursor_text(
                    generation as nat,
                    search.project_id@,
                    scope_text(optional_text(search.session_id)),
                    search.query_key@,
                    next_offset(search.cursor.offset, search.limit),
                ))
                &&& rows.len() <= search.limit ==> page.next_cursor is None
            }
        })
}

/// Assembles a search page from the rows the index returned (it reads up to
/// `limit + 1`) at index generation `generation`: a negative generation or a
/// malformed row means the index is invalid, a cursor from another
/// generation is stale, and more than `limit` rows means another page
/// follows, so the last row is held back.
pub fn assemble_search_page(generation: i64, search: &ValidatedSearch, rows: Vec<SearchRow>) -> (r:
    Result<TranscriptSearchPage, TranscriptStoreError>)
    requires
        forall|i: int|
            0 <= i < rows@.len() && rows_ok_through(rows@, *search, i) ==> snippet_offset_on_boundary(
                (#[trigger] rows@[i]).text@,
                search.query_terms@.map_values(|t: String| t@),
            ),
    ensures
        search_page_outcome(generation, *search, rows@, r),
{
    if generation < 0 {
        return Err(TranscriptStoreError::new(Code::TranscriptSearchIndexInvalid));
    }
    let current = generation as u64;
    match search.cursor.generation {
        Some(g) => if g != current {
            return Err(TranscriptStoreError::new(Code::TranscriptSearchPageStale));
        },
        None => {},
    }
    let mut items: Vec<TranscriptSearchResult> = Vec::new();
    let n = rows.len();
    let ghost views = search.query_terms@.map_values(|t: String| t@);
    for i in 0..n
        invariant
            n == rows@.len(),
            generation >= 0,
            current == generation,
            !(search.cursor.generation matches Some(g) && g != generation),
            views == search.query_terms@.map_values(|t: String| t@),
            forall|k: int|
                0 <= k < rows@.len() && rows_ok_through(rows@, *search, k) ==> snippet_offset_on_boundary(
                    (#[trigger] rows@[k]).text@,
                    views,
                ),
            items@.len() == i,
            forall|k: int| 0 <= k < i ==> row_ok(#[trigger] rows@[k], *search),
            forall|k: int| 0 <= k < i ==> row_matches_result(rows@[k], #[trigger] items@[k], views),
    {
        proof {
            if row_ok(rows@[i as int], *search) {
                assert(rows_ok_through(rows@, *search, i as int));
            }
        }
        match search_hit(&rows[i], search) {
            Some(hit) => items.push(hit),
            None => {
                return Err(TranscriptStoreError::new(Code::TranscriptSearchIndexInvalid));
            },
        }
    }
    let has_more = items.len() > search.limit as usize;
    if has_more {
        items.pop();
    }
    let next_cursor = if has_more {
        let offset = match search.cursor.offset.checked_add(search.limit as u32) {
            Some(o) => o,
            None => MAX_CURSOR_OFFSET,
        };
        let session = match &search.session_id {
            Some(s) => Some(s.as_str()),
            None => None,
        };
        Some(
            encode_search_cursor(
                current,
                search.project_id.as_str(),
                session,
                search.query_key.as_str(),
                offset,
            ),
        )
    } else {
        None
    };
    Ok(TranscriptSearchPage { items, next_cursor })
}

/// Assembles the page, or reports nothing where a snippet could not be cut
/// from a well-formed row (see `checked_stable_snippet`).
pub fn checked_assemble_search_page(generation: i64, search: &ValidatedSearch, rows: Vec<SearchRow>) -> (r:
    Option<Result<TranscriptSearchPage, TranscriptStoreError>>)
    ensures
        r is Some <==> forall|i: int|
            0 <= i < rows@.len() && rows_ok_through(rows@, *search, i) ==> snippet_offset_on_boundary(
                (#[trigger] rows@[i]).text@,
                search.query_terms@.map_values(|t: String| t@),
            ),
        r matches Some(page) ==> search_page_outcome(generation, *search, rows@, page),
{
    let ghost views = search.query_terms@.map_values(|t: String| t@);
    let n = rows.len();
    for i in 0..n
        invariant
            n == rows@.len(),
            views == search.query_terms@.map_values(|t: String| t@),
            forall|k: int|
                0 <= k < i && rows_ok_through(rows@, *search, k) ==> snippet_offset_on_boundary(
                    (#[trigger] rows@[k]).text@,
                    views,
                ),
    {
        let row = &rows[i];
        if search_hit_ok(row, search) && prefix_rows_ok(&rows, search, i) {
            if checked_stable_snippet(row.text.as_str(), search.query_terms.as_slice()).is_none() {
                return None;
            }
        }
    }
    Some(assemble_search_page(generation, search, rows))
}

/// Whether a row is well formed and consistent with the search.
fn search_hit_ok(row: &SearchRow, search: &ValidatedSearch) -> (r: bool)
    ensures
        r == row_ok(*row, *search),
{
    let same_project = chars_equal(
        to_chars(row.project_id.as_str()).as_slice(),
        to_chars(search.project_id.as_str()).as_slice(),
    );
    let same_session = match &search.session_id {
        Some(expected) => chars_equal(
            to_chars(expected.as_str()).as_slice(),
            to_chars(row.session_id.as_str()).as_slice(),
        ),
        None => true,
    };
    let language = to_chars(row.language.as_str());
    let text = to_chars(row.text.as_str());
    if !same_project || !same_session || row.checkpoint_sequence < 1 || utf8_byte_len(
        to_chars(row.checkpoint_checksum.as_str()).as_slice(),
    ) != 64 || row.snapshot_sha256.len() != 32 || language.len() == 0 || utf8_byte_len(
        language.as_slice(),
    ) > 64 || text.len() == 0 || utf8_byte_len(text.as_slice()) > 32_768 || row.start_ms < 0
        || row.end_ms <= row.start_ms {
        return false;
    }
    let project_ok = match parse_uuid(row.project_id.as_str()) {
        Some(id) => id == search.project_uuid,
        None => false,
    };
    let session_ok = match parse_uuid(row.session_id.as_str()) {
        Some(id) => match search.session_uuid {
            Some(s) => id == s,
            None => true,
        },
        None => false,
    };
    let source_name = to_chars(row.source.as_str());
    project_ok && session_ok && parse_uuid(row.segment_id.as_str()).is_some() && (chars_equal(
        source_name.as_slice(),
        to_chars("microphone").as_slice(),
    ) || chars_equal(source_name.as_slice(), to_chars("system_output").as_slice()))
}

/// Whether every row up to and including `i` is well formed.
fn prefix_rows_ok(rows: &Vec<SearchRow>, search: &ValidatedSearch, i: usize) -> (r: bool)
    requires
        i < rows@.len(),
    ensures
        r == rows_ok_through(rows@, *search, i as int),
{
    for j in 0..i
        invariant
            i < rows@.len(),
            forall|k: int| 0 <= k < j ==> row_ok(#[trigger] rows@[k], *search),
    {
        if !search_hit_ok(&rows[j], search) {
            return false;
        }
    }
    search_hit_ok(&rows[i], search)
}

/// The cursor a search page hands out decodes, for the same project, scope
/// and query, to the generation it was issued at and the offset where the
/// next page starts.
pub proof fn search_cursor_round_trip(
    generation: u64,
    project_id: u128,
    session_id: Option<u128>,
    query: Seq<char>,
    offset: u32,
)
    requires
        generation >= 1,
        offset <= MAX_CURSOR_OFFSET,
    ensures
        ({
            let session = match session_id {
                Some(s) => Some(uuid_text_of(s)),
                None => None,
            };
            decode_search_cursor_spec(
                Some(
                    search_cursor_text(
                        generation as nat,
                        uuid_text_of(project_id),
                        scope_text(session),
                        query_key_spec(query),
                        offset as nat,
                    ),
                ),
                uuid_text_of(project_id),
                session,
                query_key_spec(query),
            ) == Some(DecodedSearchCursor { generation: Some(generation), offset })
        }),
{
    let session = match session_id {
        Some(s) => Some(uuid_text_of(s)),
        None => None,
    };
    let p = uuid_text_of(project_id);
    let scope = scope_text(session);
    let key = query_key_spec(query);
    let g = decimal(generation as nat);
    let o = decimal(offset as nat);
    let c = search_cursor_text(generation as nat, p, scope, key, offset as nat);
    assert(c.skip(3) =~= g + seq![':'] + p + seq![':'] + scope + seq![':'] + key + seq![':'] + o);
    assert(starts_with_seq(c, search_cursor_prefix())) by {
        assert(c.subrange(0, 3) =~= search_cursor_prefix());
    }
    lemma_no_colon_in_decimal(generation as nat);
    lemma_no_colon_in_decimal(offset as nat);
    lemma_uuid_text_has_no_colon(project_id);
    match session_id {
        Some(s) => {
            lemma_uuid_text_has_no_colon(s);
        },
        None => {
            assert(!seq!['*'].contains(':')) by {
                if seq!['*'].contains(':') {
                    let i = choose|i: int| 0 <= i < 1 && seq!['*'][i] == ':';
                }
            }
        },
    }
    let digest = sha256_digest(vstd::utf8::encode_utf8(unicode_lowercase(query)))@;
    assert(digest.len() == 32);
    crate::persistence::transcript_service::hex_text_shape(digest);
    assert(!key.contains(':')) by {
        if key.contains(':') {
            let i = choose|i: int| 0 <= i < key.len() && key[i] == ':';
            assert(key[i] == hex_text(digest)[i]);
            assert(crate::text::is_lower_hex_char(hex_text(digest)[i]));
        }
    }
    lemma_split_whole(g, ':');
    lemma_split_append(g, p, ':');
    lemma_split_append(g + seq![':'] + p, scope, ':');
    lemma_split_append(g + seq![':'] + p + seq![':'] + scope, key, ':');
    lemma_split_append(g + seq![':'] + p + seq![':'] + scope + seq![':'] + key, o, ':');
    lemma_parse_decimal(generation as nat, u64::MAX as nat);
    lemma_parse_decimal(offset as nat, u32::MAX as nat);
    let parts = split_spec(c.skip(3), ':');
    assert(parts =~= seq![g, p, scope, key, o]);
}

} // verus!
