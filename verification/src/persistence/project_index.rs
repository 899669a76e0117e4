//! Paging over the rebuildable project index: cursor codec, page assembly and
//! the index database's file family.

use vstd::prelude::*;

use crate::codes::Code;
use crate::persistence::project_store::ProjectStoreError;
use crate::text::{
    decimal, lemma_next_index_of_bounds, lemma_parse_decimal, next_index_of, parse_unsigned,
    parse_unsigned_spec, push_decimal, push_str, slice_chars, starts_with_chars,
    starts_with_seq, to_chars, index_of_char,
};

verus! {

/// Largest page a caller may request.
pub const MAX_PAGE_LIMIT: u16 = 100;

/// A page request: an optional cursor from a previous page and a page size.
#[derive(Debug)]
pub struct ProjectPageRequest {
    pub cursor: Option<String>,
    pub limit: u16,
}

/// A decoded cursor: the index generation it belongs to and where the page starts.
#[derive(Debug, Clone, Copy, PartialEq, Eq, Structural)]
pub struct DecodedCursor {
    pub generation: Option<u64>,
    pub offset: u32,
}

/// One page of items and the cursor of the next page, if any.
#[derive(Debug)]
pub struct ProjectPage<T> {
    pub items: Vec<T>,
    pub next_cursor: Option<String>,
}

pub open spec fn cursor_prefix() -> Seq<char> {
    seq!['p', '1', ':']
}

/// The cursor text `p1:{generation}:{offset}`.
pub open spec fn cursor_text(generation: nat, offset: nat) -> Seq<char> {
    cursor_prefix() + decimal(generation) + seq![':'] + decimal(offset)
}

/// What `decode_cursor` yields for the cursor text `c`.
pub open spec fn decode_cursor_text(c: Seq<char>) -> Option<DecodedCursor> {
    let rest = c.skip(3);
    let colon = next_index_of(rest, ':', 0);
    let generation = parse_unsigned_spec(rest.take(colon), u64::MAX as nat);
    let offset = parse_unsigned_spec(rest.skip(colon + 1), u32::MAX as nat);
    if !starts_with_seq(c, cursor_prefix()) || colon >= rest.len() || generation is None
        || generation->0 < 1 || offset is None {
        None
    } else {
        Some(DecodedCursor { generation: Some(generation->0 as u64), offset: offset->0 as u32 })
    }
}

/// Verdict of `decode_cursor` on a request.
pub open spec fn decode_cursor_spec(cursor: Option<Seq<char>>, limit: u16) -> Result<
    DecodedCursor,
    Code,
> {
    if limit == 0 || limit > MAX_PAGE_LIMIT {
        Err(Code::ProjectPageInvalid)
    } else {
        match cursor {
            None => Ok(DecodedCursor { generation: None, offset: 0 }),
            Some(c) => match decode_cursor_text(c) {
                Some(d) => Ok(d),
                None => Err(Code::ProjectPageInvalid),
            },
        }
    }
}

pub open spec fn optional_view(s: Option<String>) -> Option<Seq<char>> {
    match s {
        Some(t) => Some(t@),
        None => None,
    }
}

/// Parses `p1:{generation}:{offset}`.
pub fn decode_cursor_chars(c: &[char]) -> (r: Option<DecodedCursor>)
    ensures
        r == decode_cursor_text(c@),
{
    let prefix = ['p', '1', ':'];
    assert(prefix@ =~= cursor_prefix());
    if !starts_with_chars(c, &prefix) {
        return None;
    }
    let rest = slice_chars(c, 3, c.len());
    assert(rest@ =~= c@.skip(3));
    let colon = index_of_char(rest.as_slice(), ':', 0);
    proof {
        lemma_next_index_of_bounds(rest@, ':', 0);
    }
    if colon >= rest.len() {
        return None;
    }
    let gen_text = slice_chars(rest.as_slice(), 0, colon);
    let off_text = slice_chars(rest.as_slice(), colon + 1, rest.len());
    assert(gen_text@ =~= rest@.take(colon as int));
    assert(off_text@ =~= rest@.skip(colon + 1));
    let generation = match parse_unsigned(gen_text.as_slice(), u64::MAX) {
        Some(g) => g,
        None => return None,
    };
    if generation < 1 {
        return None;
    }
    let offset = match parse_unsigned(off_text.as_slice(), u32::MAX as u64) {
        Some(o) => o,
        None => return None,
    };
    Some(DecodedCursor { generation: Some(generation), offset: offset as u32 })
}

/// Validates the page size and decodes the request's cursor.
pub fn decode_cursor(request: &ProjectPageRequest) -> (r: Result<DecodedCursor, ProjectStoreError>)
    ensures
        r matches Ok(d) ==> decode_cursor_spec(optional_view(request.cursor), request.limit)
            == Ok::<DecodedCursor, Code>(d),
        r matches Err(e) ==> decode_cursor_spec(optional_view(request.cursor), request.limit)
            == Err::<DecodedCursor, Code>(e.code),
{
    if request.limit == 0 || request.limit > MAX_PAGE_LIMIT {
        return Err(ProjectStoreError::new(Code::ProjectPageInvalid));
    }
    match &request.cursor {
        None => Ok(DecodedCursor { generation: None, offset: 0 }),
        Some(text) => {
            let c = to_chars(text.as_str());
            match decode_cursor_chars(c.as_slice()) {
                Some(d) => Ok(d),
                None => Err(ProjectStoreError::new(Code::ProjectPageInvalid)),
            }
        },
    }
}

/// The cursor of the page that starts `limit` items after `offset`.
pub fn encode_cursor(generation: u64, offset: u32, limit: u16) -> (r: String)
    requires
        offset + limit <= u32::MAX,
    ensures
        r@ == cursor_text(generation as nat, (offset + limit) as nat),
{
    let mut r = String::new();
    push_str(&mut r, "p1:");
    push_decimal(&mut r, generation);
    push_str(&mut r, ":");
    push_decimal(&mut r, (offset + limit as u32) as u64);
    proof {
        reveal_strlit("p1:");
        reveal_strlit(":");
        assert(r@ =~= cursor_text(generation as nat, (offset + limit) as nat));
    }
    r
}

/// The page that a cursor from `encode_cursor` decodes to: the same
/// generation, and the offset it names.
pub proof fn cursor_round_trip(generation: u64, offset: u32)
    requires
        generation >= 1,
    ensures
        decode_cursor_text(cursor_text(generation as nat, offset as nat)) == Some(
            DecodedCursor { generation: Some(generation), offset },
        ),
{
    let c = cursor_text(generation as nat, offset as nat);
    let g = decimal(generation as nat);
    let o = decimal(offset as nat);
    let rest = c.skip(3);
    assert(rest =~= g + seq![':'] + o);
    lemma_parse_decimal(generation as nat, u64::MAX as nat);
    lemma_parse_decimal(offset as nat, u32::MAX as nat);
    crate::text::lemma_decimal_digits(generation as nat);
    lemma_colon_after_digits(g, o);
    assert(rest.take(g.len() as int) =~= g);
    assert(rest.skip(g.len() as int + 1) =~= o);
    assert(starts_with_seq(c, cursor_prefix())) by {
        assert(c.subrange(0, 3) =~= cursor_prefix());
    }
}

/// In `digits + ":" + rest`, the first colon follows the digits.
pub proof fn lemma_colon_after_digits(g: Seq<char>, o: Seq<char>)
    requires
        crate::text::all_digits(g),
    ensures
        next_index_of(g + seq![':'] + o, ':', 0) == g.len(),
{
    let s = g + seq![':'] + o;
    lemma_next_index_of_from(s, g.len() as int, 0);
}

proof fn lemma_next_index_of_from(s: Seq<char>, target: int, t: int)
    requires
        0 <= t <= target < s.len(),
        s[target] == ':',
        forall|k: int| t <= k < target ==> s[k] != ':',
    ensures
        next_index_of(s, ':', t) == target,
    decreases target - t,
{
    if t < target {
        lemma_next_index_of_from(s, target, t + 1);
    }
}

/// The cursor names a generation other than the index's current one.
pub open spec fn is_stale(cursor: DecodedCursor, generation: int) -> bool {
    cursor.generation is Some && cursor.generation->0 != generation
}

/// Assembles a page from the items read at the cursor's offset (the index
/// reads up to `limit + 1`): a cursor from another generation is stale, and
/// more than `limit` items means another page follows, so the last is held
/// back.
pub fn assemble_page<T>(generation: i64, cursor: DecodedCursor, limit: u16, items: Vec<T>) -> (r:
    Result<ProjectPage<T>, ProjectStoreError>)
    requires
        items@.len() > limit ==> cursor.offset + limit <= u32::MAX,
    ensures
        generation < 0 ==> (r matches Err(e) && e.code == Code::ProjectIndexInvalid),
        generation >= 0 && is_stale(cursor, generation as int) ==> (r matches Err(e) && e.code
            == Code::ProjectPageStale),
        generation >= 0 && !is_stale(cursor, generation as int) ==> (r matches Ok(page) && {
            &&& items@.len() > limit ==> page.items@ == items@.drop_last()
                && optional_view(page.next_cursor) == Some(
                cursor_text(generation as nat, (cursor.offset + limit) as nat),
            )
            &&& items@.len() <= limit ==> page.items@ == items@ && page.next_cursor is None
        }),
{
    if generation < 0 {
        return Err(ProjectStoreError::new(Code::ProjectIndexInvalid));
    }
    let generation = generation as u64;
    match cursor.generation {
        Some(g) => {
            if g != generation {
                return Err(ProjectStoreError::new(Code::ProjectPageStale));
            }
        },
        None => {},
    }
    let mut items = items;
    let has_more = items.len() > limit as usize;
    if has_more {
        items.pop();
    }
    let next_cursor = if has_more {
        Some(encode_cursor(generation, cursor.offset, limit))
    } else {
        None
    };
    Ok(ProjectPage { items, next_cursor })
}

/// The database file and its write-ahead-log and shared-memory siblings.
pub fn database_family_paths(database_path: &str) -> (r: [String; 3])
    ensures
        r[0]@ == database_path@,
        r[1]@ == database_path@ + "-wal"@,
        r[2]@ == database_path@ + "-shm"@,
{
    let mut wal = String::new();
    push_str(&mut wal, database_path);
    push_str(&mut wal, "-wal");
    let mut shm = String::new();
    push_str(&mut shm, database_path);
    push_str(&mut shm, "-shm");
    let mut main = String::new();
    push_str(&mut main, database_path);
    [main, wal, shm]
}

/// Points in a rebuild where a test may inject a failure.
#[derive(Debug, Clone, Copy, PartialEq, Eq, Structural)]
pub enum RebuildFault {
    AfterDelete,
    AfterInsert,
}

/// Fails with `project_index_fault_injected` exactly at the configured point.
pub fn inject_rebuild_fault(configured: Option<RebuildFault>, current: RebuildFault) -> (r: Result<
    (),
    ProjectStoreError,
>)
    ensures
        r is Err <==> configured == Some(current),
        r matches Err(e) ==> e.code == Code::ProjectIndexFaultInjected,
{
    match configured {
        Some(f) if f == current => Err(ProjectStoreError::new(Code::ProjectIndexFaultInjected)),
        _ => Ok(()),
    }
}

} // verus!
