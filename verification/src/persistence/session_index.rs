//! Paging over the rebuildable session index: the per-project cursor codec
//! and the checks on stored project folder names.

use vstd::prelude::*;

use crate::codes::Code;
use crate::persistence::project_index::{
    is_stale, optional_view, DecodedCursor, ProjectPage, MAX_PAGE_LIMIT,
};
use crate::persistence::session_store::SessionStoreError;
use crate::persistence::transcript_service::lemma_no_colon_in_decimal;
use crate::text::{
    lemma_split_append, lemma_split_whole,
    chars_equal, decimal, ends_with_chars, ends_with_seq, lemma_parse_decimal, parse_unsigned,
    parse_unsigned_spec, push_char, push_decimal, push_str, slice_chars, split_chars, split_spec,
    starts_with_chars, starts_with_seq, to_chars, utf8_byte_len, utf8_count,
};

verus! {

/// `s` without its hyphens (`str::replace('-', "")`).
pub open spec fn without_hyphens(s: Seq<char>) -> Seq<char>
    decreases s.len(),
{
    if s.len() == 0 {
        seq![]
    } else {
        without_hyphens(s.drop_last()) + if s.last() == '-' {
            seq![]
        } else {
            seq![s.last()]
        }
    }
}

/// A character a project folder name may hold.
pub open spec fn folder_char(c: char) -> bool {
    ('a' <= c && c <= 'z') || ('0' <= c && c <= '9') || c == '-'
}

/// The folder is a non-empty, at most 128-byte run of lower-case letters,
/// digits and hyphens.
pub open spec fn folder_shape_ok(folder: Seq<char>) -> bool {
    &&& folder.len() > 0
    &&& utf8_count(folder) <= 128
    &&& forall|i: int| 0 <= i < folder.len() ==> folder_char(#[trigger] folder[i])
}

/// Where the first eight bytes of `s` end, as a character count, if that
/// falls between characters.
pub open spec fn eight_byte_boundary(s: Seq<char>) -> Option<int> {
    if exists|j: int| 0 <= j <= s.len() && utf8_count(s.take(j)) == 8 {
        Some(choose|j: int| 0 <= j <= s.len() && utf8_count(s.take(j)) == 8)
    } else {
        None
    }
}

/// The project folder a stored session row names is well formed and ends
/// with `--` and the first eight bytes of the project's id without hyphens.
pub open spec fn valid_project_folder_spec(folder: Seq<char>, project_id: Seq<char>) -> bool {
    let compact = without_hyphens(project_id);
    &&& utf8_count(compact) >= 8
    &&& folder_shape_ok(folder)
    &&& ends_with_seq(folder, seq!['-', '-'] + compact.take(eight_byte_boundary(compact)->0))
}

proof fn lemma_prefix_bytes_increase(s: Seq<char>, a: int, b: int)
    requires
        0 <= a < b <= s.len(),
    ensures
        utf8_count(s.take(a)) < utf8_count(s.take(b)),
    decreases b - a,
{
    assert(s.take(b).drop_last() =~= s.take(b - 1));
    if a < b - 1 {
        lemma_prefix_bytes_increase(s, a, b - 1);
    }
}

/// Removes the hyphens of `s`.
fn strip_hyphens(s: &[char]) -> (r: Vec<char>)
    ensures
        r@ == without_hyphens(s@),
{
    let mut out: Vec<char> = Vec::new();
    let n = s.len();
    for i in 0..n
        invariant
            n == s@.len(),
            out@ == without_hyphens(s@.take(i as int)),
    {
        if s[i] != '-' {
            out.push(s[i]);
        }
        proof {
            assert(s@.take(i + 1).drop_last() =~= s@.take(i as int));
            assert(out@ =~= without_hyphens(s@.take(i + 1)));
        }
    }
    proof {
        assert(s@.take(n as int) =~= s@);
    }
    out
}

/// Whether a stored project folder name is well formed and belongs to the
/// project: lower-case letters, digits and hyphens, at most 128 bytes,
/// ending with `--` and the first eight bytes of the compact project id.
pub fn valid_project_folder(folder: &str, project_id: &str) -> (r: bool)
    requires
        ({
            let compact = without_hyphens(project_id@);
            utf8_count(compact) >= 8 && folder_shape_ok(folder@) ==> eight_byte_boundary(
                compact,
            ) is Some
        }),
    ensures
        r == valid_project_folder_spec(folder@, project_id@),
{
    let compact = strip_hyphens(to_chars(project_id).as_slice());
    let chars = to_chars(folder);
    if utf8_byte_len(compact.as_slice()) < 8 || chars.len() == 0 || utf8_byte_len(chars.as_slice())
        > 128 {
        return false;
    }
    let n = chars.len();
    for i in 0..n
        invariant
            n == chars@.len(),
            chars@ == folder@,
            forall|j: int| 0 <= j < i ==> folder_char(#[trigger] chars@[j]),
    {
        let c = chars[i];
        if !(('a' <= c && c <= 'z') || ('0' <= c && c <= '9') || c == '-') {
            return false;
        }
    }
    let ghost target = eight_byte_boundary(compact@)->0;
    let mut j: usize = 0;
    let mut bytes: usize = 0;
    proof {
        assert(compact@.take(0) =~= Seq::<char>::empty());
        if target > 0 {
            lemma_prefix_bytes_increase(compact@, 0, target);
        }
    }
    while bytes < 8
        invariant
            0 <= target <= compact@.len(),
            utf8_count(compact@.take(target)) == 8,
            j <= target,
            bytes == utf8_count(compact@.take(j as int)),
            bytes <= 8,
        decreases target - j,
    {
        proof {
            if j == target {
                assert(false);
            }
            assert(compact@.take(j + 1).drop_last() =~= compact@.take(j as int));
            if j + 1 < target {
                lemma_prefix_bytes_increase(compact@, j + 1, target);
            }
        }
        bytes = bytes + crate::text::utf8_len(compact[j]);
        j = j + 1;
    }
    proof {
        if (j as int) < target {
            lemma_prefix_bytes_increase(compact@, j as int, target);
        }
    }
    let mut suffix: Vec<char> = Vec::new();
    suffix.push('-');
    suffix.push('-');
    let head = slice_chars(compact.as_slice(), 0, j);
    for k in 0..j
        invariant
            j <= head@.len(),
            head@ == compact@.subrange(0, j as int),
            suffix@ == seq!['-', '-'] + head@.take(k as int),
    {
        suffix.push(head[k]);
        proof {
            assert(head@.take(k + 1) =~= head@.take(k as int).push(head@[k as int]));
        }
    }
    proof {
        assert(head@.take(j as int) =~= compact@.take(target));
    }
    ends_with_chars(chars.as_slice(), suffix.as_slice())
}

pub open spec fn session_cursor_prefix() -> Seq<char> {
    seq!['s', '1', ':']
}

/// `s1:{generation}:{offset}`, the cursor over all sessions.
pub open spec fn session_cursor_text(generation: nat, offset: nat) -> Seq<char> {
    session_cursor_prefix() + decimal(generation) + seq![':'] + decimal(offset)
}

/// What a cursor over all sessions decodes to: exactly two fields after
/// `s1:`, a generation of at least one and an offset.
pub open spec fn decode_session_cursor_spec(cursor: Option<Seq<char>>, limit: u16) -> Result<
    DecodedCursor,
    Code,
> {
    if limit == 0 || limit > MAX_PAGE_LIMIT {
        Err(Code::SessionPageInvalid)
    } else {
        match cursor {
            None => Ok(DecodedCursor { generation: None, offset: 0 }),
            Some(c) => {
                let parts = split_spec(c.skip(3), ':');
                let generation = parse_unsigned_spec(parts[0], u64::MAX as nat);
                let offset = parse_unsigned_spec(parts[1], u32::MAX as nat);
                if starts_with_seq(c, session_cursor_prefix()) && parts.len() == 2 && generation
                    is Some && generation->0 >= 1 && offset is Some {
                    Ok(
                        DecodedCursor {
                            generation: Some(generation->0 as u64),
                            offset: offset->0 as u32,
                        },
                    )
                } else {
                    Err(Code::SessionPageInvalid)
                }
            },
        }
    }
}

/// Validates the page size and decodes a cursor over all sessions.
pub fn decode_session_cursor(cursor: Option<&str>, limit: u16) -> (r: Result<
    DecodedCursor,
    SessionStoreError,
>)
    ensures
        ({
            let c = match cursor {
                Some(c) => Some(c@),
                None => None,
            };
            &&& r matches Ok(d) ==> decode_session_cursor_spec(c, limit) == Ok::<
                DecodedCursor,
                Code,
            >(d)
            &&& r matches Err(e) ==> decode_session_cursor_spec(c, limit) == Err::<
                DecodedCursor,
                Code,
            >(e.code)
        }),
{
    if limit == 0 || limit > MAX_PAGE_LIMIT {
        return Err(SessionStoreError::new(Code::SessionPageInvalid));
    }
    let cursor = match cursor {
        None => return Ok(DecodedCursor { generation: None, offset: 0 }),
        Some(c) => c,
    };
    let chars = to_chars(cursor);
    let prefix = ['s', '1', ':'];
    proof {
        assert(prefix@ =~= session_cursor_prefix());
    }
    if !starts_with_chars(chars.as_slice(), &prefix) {
        return Err(SessionStoreError::new(Code::SessionPageInvalid));
    }
    let rest = slice_chars(chars.as_slice(), 3, chars.len());
    proof {
        assert(rest@ =~= cursor@.skip(3));
    }
    let parts = split_chars(rest.as_slice(), ':');
    if parts.len() != 2 {
        return Err(SessionStoreError::new(Code::SessionPageInvalid));
    }
    let generation = match parse_unsigned(parts[0].as_slice(), u64::MAX) {
        Some(g) => g,
        None => return Err(SessionStoreError::new(Code::SessionPageInvalid)),
    };
    if generation < 1 {
        return Err(SessionStoreError::new(Code::SessionPageInvalid));
    }
    let offset = match parse_unsigned(parts[1].as_slice(), 4_294_967_295) {
        Some(o) => o,
        None => return Err(SessionStoreError::new(Code::SessionPageInvalid)),
    };
    Ok(DecodedCursor { generation: Some(generation), offset: offset as u32 })
}

/// The cursor of the next page over all sessions.
pub fn encode_session_cursor(generation: u64, offset: u32) -> (r: String)
    ensures
        r@ == session_cursor_text(generation as nat, offset as nat),
{
    let mut r = String::new();
    push_str(&mut r, "s1:");
    push_decimal(&mut r, generation);
    push_char(&mut r, ':');
    push_decimal(&mut r, offset as u64);
    proof {
        reveal_strlit("s1:");
        assert(r@ =~= session_cursor_text(generation as nat, offset as nat));
    }
    r
}

/// A cursor over all sessions decodes to the generation it was issued at
/// and the offset of the next page.
pub proof fn session_cursor_round_trip(generation: u64, offset: u32, limit: u16)
    requires
        generation >= 1,
        1 <= limit <= MAX_PAGE_LIMIT,
    ensures
        decode_session_cursor_spec(
            Some(session_cursor_text(generation as nat, offset as nat)),
            limit,
        ) == Ok::<DecodedCursor, Code>(DecodedCursor { generation: Some(generation), offset }),
{
    let g = decimal(generation as nat);
    let o = decimal(offset as nat);
    let c = session_cursor_text(generation as nat, offset as nat);
    assert(c.skip(3) =~= g + seq![':'] + o);
    assert(starts_with_seq(c, session_cursor_prefix())) by {
        assert(c.subrange(0, 3) =~= session_cursor_prefix());
    }
    lemma_no_colon_in_decimal(generation as nat);
    lemma_no_colon_in_decimal(offset as nat);
    lemma_split_whole(g, ':');
    lemma_split_append(g, o, ':');
    lemma_parse_decimal(generation as nat, u64::MAX as nat);
    lemma_parse_decimal(offset as nat, u32::MAX as nat);
    assert(split_spec(c.skip(3), ':') =~= seq![g, o]);
}


/// `s1:{generation}:{project}:{offset}`.
pub open spec fn project_cursor_text(generation: nat, project_id: Seq<char>, offset: nat) -> Seq<
    char,
> {
    session_cursor_prefix() + decimal(generation) + seq![':'] + project_id + seq![':'] + decimal(
        offset,
    )
}

/// What a per-project session cursor decodes to: exactly three fields after
/// `s1:`, a generation of at least one, this project, and an offset.
pub open spec fn decode_project_cursor_spec(
    cursor: Option<Seq<char>>,
    limit: u16,
    project_id: Seq<char>,
) -> Result<DecodedCursor, Code> {
    if limit == 0 || limit > MAX_PAGE_LIMIT {
        Err(Code::SessionPageInvalid)
    } else {
        match cursor {
            None => Ok(DecodedCursor { generation: None, offset: 0 }),
            Some(c) => {
                let parts = split_spec(c.skip(3), ':');
                let generation = parse_unsigned_spec(parts[0], u64::MAX as nat);
                let offset = parse_unsigned_spec(parts[2], u32::MAX as nat);
                if starts_with_seq(c, session_cursor_prefix()) && parts.len() == 3 && generation
                    is Some && generation->0 >= 1 && parts[1] == project_id && offset is Some {
                    Ok(
                        DecodedCursor {
                            generation: Some(generation->0 as u64),
                            offset: offset->0 as u32,
                        },
                    )
                } else {
                    Err(Code::SessionPageInvalid)
                }
            },
        }
    }
}

/// Decodes a cursor over one project's sessions.
pub fn decode_project_cursor(cursor: Option<&str>, limit: u16, project_id: &str) -> (r: Result<
    DecodedCursor,
    SessionStoreError,
>)
    ensures
        ({
            let c = match cursor {
                Some(c) => Some(c@),
                None => None,
            };
            &&& r matches Ok(d) ==> decode_project_cursor_spec(c, limit, project_id@) == Ok::<
                DecodedCursor,
                Code,
            >(d)
            &&& r matches Err(e) ==> decode_project_cursor_spec(c, limit, project_id@) == Err::<
                DecodedCursor,
                Code,
            >(e.code)
        }),
{
    if limit == 0 || limit > MAX_PAGE_LIMIT {
        return Err(SessionStoreError::new(Code::SessionPageInvalid));
    }
    let cursor = match cursor {
        None => return Ok(DecodedCursor { generation: None, offset: 0 }),
        Some(c) => c,
    };
    let chars = to_chars(cursor);
    let prefix = ['s', '1', ':'];
    proof {
        assert(prefix@ =~= session_cursor_prefix());
    }
    if !starts_with_chars(chars.as_slice(), &prefix) {
        return Err(SessionStoreError::new(Code::SessionPageInvalid));
    }
    let rest = slice_chars(chars.as_slice(), 3, chars.len());
    proof {
        assert(rest@ =~= cursor@.skip(3));
    }
    let parts = split_chars(rest.as_slice(), ':');
    if parts.len() != 3 {
        return Err(SessionStoreError::new(Code::SessionPageInvalid));
    }
    let generation = match parse_unsigned(parts[0].as_slice(), u64::MAX) {
        Some(g) => g,
        None => return Err(SessionStoreError::new(Code::SessionPageInvalid)),
    };
    if generation < 1 || !chars_equal(parts[1].as_slice(), to_chars(project_id).as_slice()) {
        return Err(SessionStoreError::new(Code::SessionPageInvalid));
    }
    let offset = match parse_unsigned(parts[2].as_slice(), 4_294_967_295) {
        Some(o) => o,
        None => return Err(SessionStoreError::new(Code::SessionPageInvalid)),
    };
    Ok(DecodedCursor { generation: Some(generation), offset: offset as u32 })
}

/// The cursor of the next page over one project's sessions.
pub fn encode_project_cursor(generation: u64, project_id: &str, offset: u32) -> (r: String)
    ensures
        r@ == project_cursor_text(generation as nat, project_id@, offset as nat),
{
    let mut r = String::new();
    push_str(&mut r, "s1:");
    push_decimal(&mut r, generation);
    push_char(&mut r, ':');
    push_str(&mut r, project_id);
    push_char(&mut r, ':');
    push_decimal(&mut r, offset as u64);
    proof {
        reveal_strlit("s1:");
        assert(r@ =~= project_cursor_text(generation as nat, project_id@, offset as nat));
    }
    r
}

/// A per-project cursor decodes, for the same project, to the generation it
/// was issued at and the offset of the next page.
pub proof fn project_cursor_round_trip(
    generation: u64,
    project_id: Seq<char>,
    offset: u32,
    limit: u16,
)
    requires
        generation >= 1,
        1 <= limit <= MAX_PAGE_LIMIT,
        !project_id.contains(':'),
    ensures
        decode_project_cursor_spec(
            Some(project_cursor_text(generation as nat, project_id, offset as nat)),
            limit,
            project_id,
        ) == Ok::<DecodedCursor, Code>(DecodedCursor { generation: Some(generation), offset }),
{
    let g = decimal(generation as nat);
    let o = decimal(offset as nat);
    let c = project_cursor_text(generation as nat, project_id, offset as nat);
    assert(c.skip(3) =~= g + seq![':'] + project_id + seq![':'] + o);
    assert(starts_with_seq(c, session_cursor_prefix())) by {
        assert(c.subrange(0, 3) =~= session_cursor_prefix());
    }
    lemma_no_colon_in_decimal(generation as nat);
    lemma_no_colon_in_decimal(offset as nat);
    lemma_split_whole(g, ':');
    lemma_split_append(g, project_id, ':');
    lemma_split_append(g + seq![':'] + project_id, o, ':');
    lemma_parse_decimal(generation as nat, u64::MAX as nat);
    lemma_parse_decimal(offset as nat, u32::MAX as nat);
    assert(split_spec(c.skip(3), ':') =~= seq![g, project_id, o]);
}

/// Points in a session index rebuild where a test may inject a failure.
#[derive(Debug, Clone, Copy, PartialEq, Eq, Structural)]
pub enum SessionRebuildFault {
    AfterDelete,
    AfterInsert,
}

/// Fails with `session_index_fault_injected` exactly at the configured
/// point.
pub fn inject_fault(configured: Option<SessionRebuildFault>, current: SessionRebuildFault) -> (r:
    Result<(), SessionStoreError>)
    ensures
        r is Err <==> configured == Some(current),
        r matches Err(e) ==> e.code == Code::SessionIndexFaultInjected,
{
    match configured {
        Some(c) => if c == current {
            Err(SessionStoreError::new(Code::SessionIndexFaultInjected))
        } else {
            Ok(())
        },
        None => Ok(()),
    }
}

/// The text an optional stored member holds, if any.
pub open spec fn optional_text(value: Option<&str>) -> Option<Seq<char>> {
    match value {
        Some(v) => Some(v@),
        None => None,
    }
}

/// A stored session row is consistent: the session it holds has the row's
/// session and project identifiers and folder, the row's project folder
/// belongs to that project, and the snapshot fingerprint has 32 bytes.
pub open spec fn session_row_ok(
    row_session_id: Seq<char>,
    row_project_id: Seq<char>,
    project_folder: Seq<char>,
    session_folder: Seq<char>,
    session_id: Option<Seq<char>>,
    session_project_id: Option<Seq<char>>,
    folder_name: Seq<char>,
    fingerprint_len: nat,
) -> bool {
    &&& session_id == Some(row_session_id)
    &&& session_project_id == Some(row_project_id)
    &&& folder_name == session_folder
    &&& valid_project_folder_spec(project_folder, row_project_id)
    &&& fingerprint_len == 32
}

/// Whether `value` is present and equal to `expected`.
fn stored_text_is(value: Option<&str>, expected: &str) -> (r: bool)
    ensures
        r == (optional_text(value) == Some(expected@)),
{
    match value {
        Some(v) => chars_equal(to_chars(v).as_slice(), to_chars(expected).as_slice()),
        None => false,
    }
}

/// Checks one stored row of the session index against the session it
/// holds; an inconsistent row makes the index invalid.
pub fn check_session_row(
    row_session_id: &str,
    row_project_id: &str,
    project_folder: &str,
    session_folder: &str,
    session_id: Option<&str>,
    session_project_id: Option<&str>,
    folder_name: &str,
    fingerprint_len: usize,
) -> (r: Result<(), SessionStoreError>)
    requires
        ({
            let compact = without_hyphens(row_project_id@);
            utf8_count(compact) >= 8 && folder_shape_ok(project_folder@) ==> eight_byte_boundary(
                compact,
            ) is Some
        }),
    ensures
        r is Ok <==> session_row_ok(
            row_session_id@,
            row_project_id@,
            project_folder@,
            session_folder@,
            optional_text(session_id),
            optional_text(session_project_id),
            folder_name@,
            fingerprint_len as nat,
        ),
        r matches Err(e) ==> e.code == Code::SessionIndexInvalid,
{
    if !stored_text_is(session_id, row_session_id) || !stored_text_is(
        session_project_id,
        row_project_id,
    ) || !chars_equal(to_chars(folder_name).as_slice(), to_chars(session_folder).as_slice())
        || !valid_project_folder(project_folder, row_project_id) || fingerprint_len != 32 {
        return Err(SessionStoreError::new(Code::SessionIndexInvalid));
    }
    Ok(())
}

/// The cursor text of the page after `offset`: over all sessions, or over
/// one project's sessions.
pub open spec fn next_session_cursor_text(
    generation: nat,
    project_id: Option<Seq<char>>,
    offset: nat,
) -> Seq<char> {
    match project_id {
        Some(p) => project_cursor_text(generation, p, offset),
        None => session_cursor_text(generation, offset),
    }
}

/// Assembles a page of sessions from the rows read at the cursor's offset
/// (the index reads up to `limit + 1`): a cursor from another generation is
/// stale, and more than `limit` rows means another page follows, whose
/// cursor is scoped like this one, to all sessions or to `project_id`.
pub fn assemble_session_page<T>(
    generation: i64,
    cursor: DecodedCursor,
    limit: u16,
    items: Vec<T>,
    project_id: Option<&str>,
) -> (r: Result<ProjectPage<T>, SessionStoreError>)
    requires
        items@.len() > limit ==> cursor.offset + limit <= u32::MAX,
    ensures
        generation < 0 ==> (r matches Err(e) && e.code == Code::SessionIndexInvalid),
        generation >= 0 && is_stale(cursor, generation as int) ==> (r matches Err(e) && e.code
            == Code::SessionPageStale),
        generation >= 0 && !is_stale(cursor, generation as int) ==> (r matches Ok(page) && {
            &&& items@.len() > limit ==> page.items@ == items@.drop_last() && optional_view(
                page.next_cursor,
            ) == Some(
                next_session_cursor_text(
                    generation as nat,
                    optional_text(project_id),
                    (cursor.offset + limit) as nat,
                ),
            )
            &&& items@.len() <= limit ==> page.items@ == items@ && page.next_cursor is None
        }),
{
    if generation < 0 {
        return Err(SessionStoreError::new(Code::SessionIndexInvalid));
    }
    let generation = generation as u64;
    match cursor.generation {
        Some(g) => {
            if g != generation {
                return Err(SessionStoreError::new(Code::SessionPageStale));
            }
        },
        None => {},
    }
    let mut items = items;
    let has_more = items.len() > limit as usize;
    if has_more {
        items.pop();
    }
    let next_cursor = if has_more {
        let offset = cursor.offset + limit as u32;
        match project_id {
            Some(p) => Some(encode_project_cursor(generation, p, offset)),
            None => Some(encode_session_cursor(generation, offset)),
        }
    } else {
        None
    };
    Ok(ProjectPage { items, next_cursor })
}

/// After a session was written, the index counts as refreshed only when it
/// was rebuilt and the rebuilt projection holds that session; otherwise the
/// refresh is left pending.
pub fn refresh_outcome(rebuilt: bool, indexed: &[u128], session_id: u128) -> (r: Result<
    (),
    SessionStoreError,
>)
    ensures
        r is Ok <==> (rebuilt && indexed@.contains(session_id)),
        r matches Err(e) ==> e.code == Code::SessionProjectionRefreshPending,
{
    if !rebuilt {
        return Err(SessionStoreError::new(Code::SessionProjectionRefreshPending));
    }
    let n = indexed.len();
    for i in 0..n
        invariant
            rebuilt,
            n == indexed@.len(),
            forall|j: int| 0 <= j < i ==> indexed@[j] != session_id,
    {
        if indexed[i] == session_id {
            assert(indexed@[i as int] == session_id);
            return Ok(());
        }
    }
    Err(SessionStoreError::new(Code::SessionProjectionRefreshPending))
}

} // verus!
