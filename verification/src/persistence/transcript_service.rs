//! Reading the finalized transcript: the page cursor codec, page windows,
//! evenly spaced sampling for summaries and digest text.

use vstd::prelude::*;

use crate::codes::Code;
use crate::outside::{hex_digit, uuid_hex, uuid_nibble, uuid_text, uuid_text_of};
use crate::text::{
    lemma_split_append, lemma_split_whole,
    chars_equal, decimal, from_chars, is_lower_hex_char, is_lower_hex_digest, lemma_decimal_digits,
    lemma_parse_decimal, lower_hex_digest, parse_unsigned, parse_unsigned_spec, push_char,
    push_chars, push_decimal, push_str, split_chars, split_spec, starts_with_chars,
    starts_with_seq, to_chars,
};

verus! {

/// Largest offset a transcript page cursor may name.
pub const MAX_READ_CURSOR_OFFSET: usize = 100_000;

/// Segments a proactive insight reads from the end of the transcript.
pub const RECENT_INSIGHT_SEGMENTS: usize = 12;

/// Segments sampled across a whole session for its summary.
pub const SUMMARY_SAMPLE_SEGMENTS: usize = 64;

/// Closing segments a summary always reads.
pub const SUMMARY_CLOSING_SEGMENTS: usize = 24;

/// A request for one page of a session's finalized transcript.
#[derive(Debug)]
pub struct TranscriptPageRequest {
    pub project_id: u128,
    pub session_id: u128,
    pub cursor: Option<String>,
    pub limit: u16,
}

/// A decoded page cursor: the snapshot fingerprint it was issued for, and
/// where the page starts.
#[derive(Debug)]
pub struct ReadCursor {
    pub fingerprint: Option<String>,
    pub offset: usize,
}

pub open spec fn read_cursor_prefix() -> Seq<char> {
    seq!['r', '1', ':']
}

/// `r1:{project}:{session}:{fingerprint}:{offset}`.
pub open spec fn read_cursor_text(
    project_id: u128,
    session_id: u128,
    fingerprint: Seq<char>,
    offset: nat,
) -> Seq<char> {
    read_cursor_prefix() + uuid_text_of(project_id) + seq![':'] + uuid_text_of(session_id) + seq![
        ':',
    ] + fingerprint + seq![':'] + decimal(offset)
}

/// What a cursor decodes to for the page's project and session: nothing
/// means the first page; otherwise exactly four `:`-separated fields after
/// `r1:`, naming this project and session, a lower-case SHA-256 fingerprint
/// and an offset no larger than the bound.
pub open spec fn read_cursor_spec(cursor: Option<Seq<char>>, project_id: u128, session_id: u128) -> Option<
    (Option<Seq<char>>, nat),
> {
    match cursor {
        None => Some((None, 0)),
        Some(c) => {
            let parts = split_spec(c.skip(3), ':');
            let offset = parse_unsigned_spec(parts[3], usize::MAX as nat);
            if starts_with_seq(c, read_cursor_prefix()) && parts.len() == 4 && offset is Some
                && offset->0 <= MAX_READ_CURSOR_OFFSET && parts[0] == uuid_text_of(project_id)
                && parts[1] == uuid_text_of(session_id) && is_lower_hex_digest(parts[2]) {
                Some((Some(parts[2]), offset->0))
            } else {
                None
            }
        },
    }
}

impl ReadCursor {
    /// Decodes the request's cursor; a cursor for another project or
    /// session, or of any other shape, is refused.
    pub fn decode(request: &TranscriptPageRequest) -> (r: Result<Self, Code>)
        ensures
            ({
                let cursor = match request.cursor {
                    Some(c) => Some(c@),
                    None => None,
                };
                let expected = read_cursor_spec(cursor, request.project_id, request.session_id);
                &&& r is Ok <==> expected is Some
                &&& r matches Err(code) ==> code == Code::TranscriptPageCursorInvalid
                &&& r matches Ok(decoded) ==> expected == Some(
                    (
                        match decoded.fingerprint {
                            Some(f) => Some(f@),
                            None => None::<Seq<char>>,
                        },
                        decoded.offset as nat,
                    ),
                )
            }),
    {
        let cursor = match &request.cursor {
            None => return Ok(ReadCursor { fingerprint: None, offset: 0 }),
            Some(c) => c,
        };
        let chars = to_chars(cursor.as_str());
        let prefix = ['r', '1', ':'];
        proof {
            assert(prefix@ =~= read_cursor_prefix());
        }
        if !starts_with_chars(chars.as_slice(), &prefix) {
            return Err(Code::TranscriptPageCursorInvalid);
        }
        let rest = crate::text::slice_chars(chars.as_slice(), 3, chars.len());
        proof {
            assert(rest@ =~= cursor@.skip(3));
        }
        let parts = split_chars(rest.as_slice(), ':');
        if parts.len() != 4 {
            return Err(Code::TranscriptPageCursorInvalid);
        }
        let offset = match parse_unsigned(parts[3].as_slice(), usize::MAX as u64) {
            Some(v) => v,
            None => return Err(Code::TranscriptPageCursorInvalid),
        };
        if offset > MAX_READ_CURSOR_OFFSET as u64 {
            return Err(Code::TranscriptPageCursorInvalid);
        }
        let project = to_chars(uuid_text(request.project_id).as_str());
        let session = to_chars(uuid_text(request.session_id).as_str());
        if !chars_equal(parts[0].as_slice(), project.as_slice()) || !chars_equal(
            parts[1].as_slice(),
            session.as_slice(),
        ) || !lower_hex_digest(parts[2].as_slice()) {
            return Err(Code::TranscriptPageCursorInvalid);
        }
        Ok(ReadCursor { fingerprint: Some(from_chars(parts[2].as_slice())), offset: offset as usize })
    }
}

/// The cursor text of the page starting at `offset`.
pub fn encode_read_cursor(project_id: u128, session_id: u128, fingerprint: &str, offset: usize) -> (r:
    String)
    ensures
        r@ == read_cursor_text(project_id, session_id, fingerprint@, offset as nat),
{
    let mut r = String::new();
    push_str(&mut r, "r1:");
    push_str(&mut r, uuid_text(project_id).as_str());
    push_char(&mut r, ':');
    push_str(&mut r, uuid_text(session_id).as_str());
    push_char(&mut r, ':');
    push_str(&mut r, fingerprint);
    push_char(&mut r, ':');
    push_decimal(&mut r, offset as u64);
    proof {
        reveal_strlit("r1:");
        assert(r@ =~= read_cursor_text(project_id, session_id, fingerprint@, offset as nat));
    }
    r
}

/// The window of a page: the first and one-past-last segment, and the
/// cursor of the next page when segments remain.
#[derive(Debug)]
pub struct PageWindow {
    pub start: usize,
    pub end: usize,
    pub next_cursor: Option<String>,
}

/// Places a page over a snapshot of `total` segments with digest text
/// `fingerprint`: a cursor issued for another snapshot is stale, an offset
/// past the snapshot or the bound is refused, and the page holds up to
/// `limit` segments from the offset.
pub fn page_window(
    request: &TranscriptPageRequest,
    cursor: &ReadCursor,
    fingerprint: &str,
    total: usize,
) -> (r: Result<PageWindow, Code>)
    ensures
        (cursor.fingerprint matches Some(f) && f@ != fingerprint@) ==> r == Err::<
            PageWindow,
            Code,
        >(Code::TranscriptPageStale),
        !(cursor.fingerprint matches Some(f) && f@ != fingerprint@) && (cursor.offset > total
            || cursor.offset > MAX_READ_CURSOR_OFFSET) ==> r == Err::<PageWindow, Code>(
            Code::TranscriptPageCursorInvalid,
        ),
        r is Ok <==> !(cursor.fingerprint matches Some(f) && f@ != fingerprint@) && cursor.offset
            <= total && cursor.offset <= MAX_READ_CURSOR_OFFSET,
        r matches Ok(w) ==> {
            &&& w.start == cursor.offset
            &&& w.end == if cursor.offset + request.limit <= total {
                cursor.offset + request.limit
            } else {
                total as int
            }
            &&& w.end < total ==> (w.next_cursor matches Some(c) && c@ == read_cursor_text(
                request.project_id,
                request.session_id,
                fingerprint@,
                w.end as nat,
            ))
            &&& w.end >= total ==> w.next_cursor is None
        },
{
    match &cursor.fingerprint {
        Some(expected) => {
            let e = to_chars(expected.as_str());
            let f = to_chars(fingerprint);
            if !chars_equal(e.as_slice(), f.as_slice()) {
                return Err(Code::TranscriptPageStale);
            }
        },
        None => {},
    }
    if cursor.offset > total || cursor.offset > MAX_READ_CURSOR_OFFSET {
        return Err(Code::TranscriptPageCursorInvalid);
    }
    let limit = request.limit as usize;
    let end = if limit <= total - cursor.offset {
        cursor.offset + limit
    } else {
        total
    };
    let next_cursor = if end < total {
        Some(encode_read_cursor(request.project_id, request.session_id, fingerprint, end))
    } else {
        None
    };
    Ok(PageWindow { start: cursor.offset, end, next_cursor })
}

pub proof fn lemma_uuid_text_has_no_colon(id: u128)
    ensures
        !uuid_text_of(id).contains(':'),
        uuid_text_of(id).len() == 36,
{
    let h = uuid_hex(id);
    let t = uuid_text_of(id);
    assert forall|k: int| 0 <= k < 32 implies #[trigger] h[k] != ':' by {
        let d = uuid_nibble(id, k);
        assert(d < 16);
    }
    if t.contains(':') {
        let i = choose|i: int| 0 <= i < t.len() && t[i] == ':';
        if i < 8 {
            assert(t[i] == h[i]);
        } else if i == 8 || i == 13 || i == 18 || i == 23 {
        } else if i < 13 {
            assert(t[i] == h[i - 1]);
        } else if i < 18 {
            assert(t[i] == h[i - 2]);
        } else if i < 23 {
            assert(t[i] == h[i - 3]);
        } else {
            assert(t[i] == h[i - 4]);
        }
    }
}

pub proof fn lemma_no_colon_in_digest(f: Seq<char>)
    requires
        is_lower_hex_digest(f),
    ensures
        !f.contains(':'),
{
    if f.contains(':') {
        let i = choose|i: int| 0 <= i < f.len() && f[i] == ':';
        assert(is_lower_hex_char(f[i]));
    }
}

pub proof fn lemma_no_colon_in_decimal(n: nat)
    ensures
        !decimal(n).contains(':'),
{
    lemma_decimal_digits(n);
    let d = decimal(n);
    if d.contains(':') {
        let i = choose|i: int| 0 <= i < d.len() && d[i] == ':';
        assert(crate::text::is_digit_spec(d[i]));
    }
}

/// The cursor a page hands out decodes, for the same project and session,
/// to the snapshot fingerprint it was issued for and the offset where the
/// next page starts.
pub proof fn read_cursor_round_trip(
    project_id: u128,
    session_id: u128,
    fingerprint: Seq<char>,
    offset: nat,
)
    requires
        is_lower_hex_digest(fingerprint),
        offset <= MAX_READ_CURSOR_OFFSET,
    ensures
        read_cursor_spec(
            Some(read_cursor_text(project_id, session_id, fingerprint, offset)),
            project_id,
            session_id,
        ) == Some((Some(fingerprint), offset)),
{
    let c = read_cursor_text(project_id, session_id, fingerprint, offset);
    let p = uuid_text_of(project_id);
    let q = uuid_text_of(session_id);
    let d = decimal(offset);
    assert(c.skip(3) =~= p + seq![':'] + q + seq![':'] + fingerprint + seq![':'] + d);
    assert(starts_with_seq(c, read_cursor_prefix())) by {
        assert(c.subrange(0, 3) =~= read_cursor_prefix());
    }
    lemma_uuid_text_has_no_colon(project_id);
    lemma_uuid_text_has_no_colon(session_id);
    lemma_no_colon_in_digest(fingerprint);
    lemma_no_colon_in_decimal(offset);
    lemma_split_whole(p, ':');
    lemma_split_append(p, q, ':');
    lemma_split_append(p + seq![':'] + q, fingerprint, ':');
    lemma_split_append(p + seq![':'] + q + seq![':'] + fingerprint, d, ':');
    lemma_parse_decimal(offset, usize::MAX as nat);
    let parts = split_spec(c.skip(3), ':');
    assert(parts =~= seq![p, q, fingerprint, d]);
}

/// Lower-case hexadecimal text of `bytes`, two digits per byte.
pub open spec fn hex_text(bytes: Seq<u8>) -> Seq<char>
    decreases bytes.len(),
{
    if bytes.len() == 0 {
        seq![]
    } else {
        hex_text(bytes.drop_last()) + seq![
            hex_digit((bytes.last() / 16) as nat),
            hex_digit((bytes.last() % 16) as nat),
        ]
    }
}

/// One hexadecimal digit.
fn hex_char(d: u8) -> (c: char)
    requires
        d < 16,
    ensures
        c == hex_digit(d as nat),
{
    if d < 10 {
        (d + 48) as char
    } else {
        (d + 87) as char
    }
}

/// Writes `bytes` as lower-case hexadecimal, two digits per byte.
pub fn encode_hex(bytes: &[u8]) -> (r: String)
    ensures
        r@ == hex_text(bytes@),
{
    let mut output = String::new();
    let n = bytes.len();
    for i in 0..n
        invariant
            n == bytes@.len(),
            output@ == hex_text(bytes@.take(i as int)),
    {
        let b = bytes[i];
        push_char(&mut output, hex_char(b / 16));
        push_char(&mut output, hex_char(b % 16));
        proof {
            assert(bytes@.take(i + 1).drop_last() =~= bytes@.take(i as int));
        }
    }
    proof {
        assert(bytes@.take(n as int) =~= bytes@);
    }
    output
}

/// The hexadecimal text of bytes is two lower-case hexadecimal digits per
/// byte.
pub proof fn hex_text_shape(bytes: Seq<u8>)
    ensures
        hex_text(bytes).len() == 2 * bytes.len(),
        forall|i: int| 0 <= i < hex_text(bytes).len() ==> is_lower_hex_char(#[trigger] hex_text(bytes)[i]),
    decreases bytes.len(),
{
    if bytes.len() > 0 {
        hex_text_shape(bytes.drop_last());
        let a = hex_text(bytes.drop_last());
        let t = hex_text(bytes);
        let hi = (bytes.last() / 16) as nat;
        let lo = (bytes.last() % 16) as nat;
        assert forall|i: int| 0 <= i < t.len() implies is_lower_hex_char(#[trigger] t[i]) by {
            if i < a.len() {
                assert(t[i] == a[i]);
            } else if i == a.len() {
                assert(t[i] == hex_digit(hi));
            } else {
                assert(t[i] == hex_digit(lo));
            }
        }
    }
}

/// `limit` evenly spaced indexes over `total` segments: the sample of a
/// session too long to read whole.
pub open spec fn evenly_spaced_spec(total: nat, limit: nat) -> Seq<nat> {
    if total == 0 || limit == 0 {
        seq![]
    } else if total <= limit {
        Seq::new(total, |i: int| i as nat)
    } else if limit == 1 {
        seq![0]
    } else {
        Seq::new(limit, |s: int| ((s * (total - 1)) / (limit - 1)) as nat)
    }
}

proof fn lemma_step_increases(s: int, total: int, limit: int)
    requires
        0 <= s,
        2 <= limit < total,
    ensures
        (s * (total - 1)) / (limit - 1) < ((s + 1) * (total - 1)) / (limit - 1),
{
    let m = limit - 1;
    let a = s * (total - 1);
    let b = (s + 1) * (total - 1);
    assert(b == a + (total - 1)) by (nonlinear_arith)
        requires
            a == s * (total - 1),
            b == (s + 1) * (total - 1),
    ;
    assert(a >= 0) by (nonlinear_arith)
        requires
            a == s * (total - 1),
            s >= 0,
            total >= 1,
    ;
    assert(a / m + 1 <= (a + m) / m) by (nonlinear_arith)
        requires
            m >= 1,
            a >= 0,
    ;
    assert((a + m) / m <= b / m) by (nonlinear_arith)
        requires
            m >= 1,
            b >= a + m,
    ;
}

/// Picks at most `limit` evenly spaced indexes over `total`, always
/// including the first, and the last when `limit` is at least two.
pub fn evenly_spaced_indexes(total: usize, limit: usize) -> (r: Vec<usize>)
    requires
        limit >= 1 ==> (limit - 1) * (total - 1) <= usize::MAX || total <= limit,
    ensures
        r@.len() == evenly_spaced_spec(total as nat, limit as nat).len(),
        forall|i: int| 0 <= i < r@.len() ==> r@[i] == evenly_spaced_spec(total as nat, limit as nat)[i],
{
    if total == 0 || limit == 0 {
        return Vec::new();
    }
    if total <= limit {
        let mut all: Vec<usize> = Vec::new();
        for i in 0..total
            invariant
                all@.len() == i,
                forall|j: int| 0 <= j < i ==> all@[j] == j,
        {
            all.push(i);
        }
        return all;
    }
    if limit == 1 {
        return vec![0];
    }
    let mut indexes: Vec<usize> = Vec::new();
    for step in 0..limit
        invariant
            2 <= limit < total,
            (limit - 1) * (total - 1) <= usize::MAX,
            indexes@.len() == step,
            forall|j: int|
                0 <= j < step ==> indexes@[j] == ((j * (total - 1)) / (limit - 1)) as nat,
    {
        assert(step * (total - 1) <= (limit - 1) * (total - 1)) by (nonlinear_arith)
            requires
                step <= limit - 1,
                total >= 1,
        ;
        let index = step * (total - 1) / (limit - 1);
        proof {
            if step > 0 {
                lemma_step_increases(step - 1, total as int, limit as int);
            }
        }
        let duplicate = match indexes.last() {
            Some(last) => *last == index,
            None => false,
        };
        if !duplicate {
            indexes.push(index);
        }
    }
    indexes
}

/// An evenly spaced sample is strictly increasing and stays inside the
/// session; it starts at the first segment and, with room for two or more,
/// ends at the last.
pub proof fn evenly_spaced_sample_spans_the_session(total: nat, limit: nat)
    ensures
        ({
            let r = evenly_spaced_spec(total, limit);
            &&& r.len() == if total <= limit { total } else if limit == 0 { 0 } else { limit }
            &&& forall|i: int, j: int| 0 <= i < j < r.len() ==> r[i] < r[j]
            &&& forall|i: int| 0 <= i < r.len() ==> r[i] < total
            &&& r.len() > 0 ==> r[0] == 0
            &&& (limit >= 2 && total >= 1) ==> r.len() > 0 && r[r.len() - 1] == total - 1
        }),
{
    let r = evenly_spaced_spec(total, limit);
    if total > limit && limit >= 2 {
        let m = limit - 1;
        let t = total - 1;
        assert forall|i: int, j: int| 0 <= i < j < r.len() implies r[i] < r[j] by {
            lemma_spread_monotone(i, j, total as int, limit as int);
        }
        assert forall|i: int| 0 <= i < r.len() implies r[i] < total by {
            assert((i * t) / m <= (m * t) / m) by (nonlinear_arith)
                requires
                    0 <= i <= m,
                    m >= 1,
                    t >= 0,
            ;
            assert((m * t) / m == t) by (nonlinear_arith)
                requires
                    m >= 1,
            ;
        }
        assert(r[r.len() - 1] == total - 1) by {
            assert(((m * t) / m) == t) by (nonlinear_arith)
                requires
                    m >= 1,
            ;
        }
    }
}

proof fn lemma_spread_monotone(i: int, j: int, total: int, limit: int)
    requires
        0 <= i < j,
        2 <= limit < total,
    ensures
        (i * (total - 1)) / (limit - 1) < (j * (total - 1)) / (limit - 1),
    decreases j - i,
{
    lemma_step_increases(j - 1, total, limit);
    if i < j - 1 {
        lemma_spread_monotone(i, j - 1, total, limit);
    }
}

/// Where a proactive insight's read of the transcript's tail begins.
pub fn recent_window_start(total: usize) -> (r: usize)
    ensures
        r == if total >= RECENT_INSIGHT_SEGMENTS { total - RECENT_INSIGHT_SEGMENTS } else { 0 },
{
    total.saturating_sub(RECENT_INSIGHT_SEGMENTS)
}

/// Where a summary's closing segments begin.
pub fn closing_window_start(total: usize) -> (r: usize)
    ensures
        r == if total >= SUMMARY_CLOSING_SEGMENTS { total - SUMMARY_CLOSING_SEGMENTS } else { 0 },
{
    total.saturating_sub(SUMMARY_CLOSING_SEGMENTS)
}

/// Segments on each side of the selected one that a manual question reads.
pub const MANUAL_QUESTION_NEIGHBORS_PER_SIDE: usize = 4;

/// The read of the finalized transcript that a context is built for.
#[derive(Debug, Clone, Copy, PartialEq, Eq, Structural)]
pub enum TranscriptContextKind {
    ManualQuestion,
    RecentInsight,
    SessionSummary,
}

/// The code a malformed request of each kind is refused with.
pub open spec fn context_invalid_code(kind: TranscriptContextKind) -> Code {
    match kind {
        TranscriptContextKind::ManualQuestion => Code::ManualQuestionInvalid,
        TranscriptContextKind::RecentInsight => Code::InsightInvalid,
        TranscriptContextKind::SessionSummary => Code::SummaryInvalid,
    }
}

/// Checks a context request before anything is read: neither the project,
/// the session nor a selected segment may be the nil identifier.
pub fn check_context_request(
    kind: TranscriptContextKind,
    project_id: u128,
    session_id: u128,
    selected_segment_id: Option<u128>,
) -> (r: Result<(), Code>)
    ensures
        r is Err <==> (project_id == 0 || session_id == 0 || selected_segment_id == Some(0u128)),
        r matches Err(c) ==> c == context_invalid_code(kind),
{
    let selected_nil = match selected_segment_id {
        Some(id) => id == 0,
        None => false,
    };
    if project_id == 0 || session_id == 0 || selected_nil {
        Err(
            match kind {
                TranscriptContextKind::ManualQuestion => Code::ManualQuestionInvalid,
                TranscriptContextKind::RecentInsight => Code::InsightInvalid,
                TranscriptContextKind::SessionSummary => Code::SummaryInvalid,
            },
        )
    } else {
        Ok(())
    }
}

/// `i` is where `id` first occurs in `ids`.
pub open spec fn first_index_of(ids: Seq<u128>, id: u128, i: int) -> bool {
    &&& 0 <= i < ids.len()
    &&& ids[i] == id
    &&& forall|j: int| 0 <= j < i ==> ids[j] != id
}

/// The segments a manual question reads, as a half-open range of positions,
/// and where the selected segment stands in the transcript.
#[derive(Debug, Clone, Copy, PartialEq, Eq, Structural)]
pub struct NeighborWindow {
    pub start: usize,
    pub end: usize,
    pub selected: usize,
}

/// Finds the first segment carrying the selected identifier and the window
/// of up to four neighbours on each side of it, clipped to the transcript.
pub fn neighbor_window(ids: &Vec<u128>, selected_id: u128) -> (r: Result<NeighborWindow, Code>)
    ensures
        r is Err <==> !ids@.contains(selected_id),
        r matches Err(c) ==> c == Code::ManualQuestionSegmentNotFound,
        r matches Ok(w) ==> {
            &&& first_index_of(ids@, selected_id, w.selected as int)
            &&& w.start == if w.selected >= MANUAL_QUESTION_NEIGHBORS_PER_SIDE {
                w.selected - MANUAL_QUESTION_NEIGHBORS_PER_SIDE
            } else {
                0
            }
            &&& w.end == if w.selected + MANUAL_QUESTION_NEIGHBORS_PER_SIDE + 1 <= ids.len() {
                w.selected + MANUAL_QUESTION_NEIGHBORS_PER_SIDE + 1
            } else {
                ids.len() as int
            }
            &&& w.start <= w.selected < w.end <= ids.len()
            &&& w.end - w.start <= 2 * MANUAL_QUESTION_NEIGHBORS_PER_SIDE + 1
        },
{
    let mut i: usize = 0;
    while i < ids.len()
        invariant
            i <= ids.len(),
            forall|j: int| 0 <= j < i ==> ids@[j] != selected_id,
        decreases ids.len() - i,
    {
        if ids[i] == selected_id {
            let start = i.saturating_sub(MANUAL_QUESTION_NEIGHBORS_PER_SIDE);
            let end = if ids.len() - i > MANUAL_QUESTION_NEIGHBORS_PER_SIDE {
                i + MANUAL_QUESTION_NEIGHBORS_PER_SIDE + 1
            } else {
                ids.len()
            };
            return Ok(NeighborWindow { start, end, selected: i });
        }
        i += 1;
    }
    proof {
        if ids@.contains(selected_id) {
            let k = choose|k: int| 0 <= k < ids@.len() && ids@[k] == selected_id;
            assert(ids@[k] != selected_id);
        }
    }
    Err(Code::ManualQuestionSegmentNotFound)
}

/// Where a proactive insight's read begins; an empty transcript has nothing
/// to read.
pub fn recent_insight_start(total: usize) -> (r: Result<usize, Code>)
    ensures
        r is Err <==> total == 0,
        r matches Err(c) ==> c == Code::InsightTranscriptEmpty,
        r matches Ok(start) ==> start == if total >= RECENT_INSIGHT_SEGMENTS {
            total - RECENT_INSIGHT_SEGMENTS
        } else {
            0
        },
{
    if total == 0 {
        Err(Code::InsightTranscriptEmpty)
    } else {
        Ok(recent_window_start(total))
    }
}

/// The positions a session summary reads: an evenly spaced sample across the
/// whole session and where its closing segments begin.
#[derive(Debug)]
pub struct SummaryReadPlan {
    pub sampled: Vec<usize>,
    pub closing_start: usize,
}

/// Plans the summary's read of a transcript of `total` segments; an empty
/// transcript has nothing to summarize.
pub fn summary_read_plan(total: usize) -> (r: Result<SummaryReadPlan, Code>)
    requires
        (SUMMARY_SAMPLE_SEGMENTS - 1) * (total - 1) <= usize::MAX || total <= SUMMARY_SAMPLE_SEGMENTS,
    ensures
        r is Err <==> total == 0,
        r matches Err(c) ==> c == Code::SummaryTranscriptEmpty,
        r matches Ok(plan) ==> {
            &&& plan.sampled@.len() == evenly_spaced_spec(total as nat, SUMMARY_SAMPLE_SEGMENTS as nat).len()
            &&& forall|i: int| 0 <= i < plan.sampled@.len() ==> plan.sampled@[i] == evenly_spaced_spec(
                total as nat,
                SUMMARY_SAMPLE_SEGMENTS as nat,
            )[i]
            &&& plan.closing_start == if total >= SUMMARY_CLOSING_SEGMENTS {
                total - SUMMARY_CLOSING_SEGMENTS
            } else {
                0
            }
        },
{
    if total == 0 {
        return Err(Code::SummaryTranscriptEmpty);
    }
    let sampled = evenly_spaced_indexes(total, SUMMARY_SAMPLE_SEGMENTS);
    Ok(SummaryReadPlan { sampled, closing_start: closing_window_start(total) })
}

} // verus!
