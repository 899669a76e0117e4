//! Bookkeeping of the rebuildable SQLite indexes: schema versions, rebuild
//! generations, and the digest that ties the transcript search index to the
//! rows it was built from.

use vstd::prelude::*;

use crate::codes::Code;
use crate::outside::{sha256, sha256_digest};
use crate::persistence::transcript_service::{encode_hex, hex_text};
use crate::text::to_chars;

verus! {

/// Schema version every index database of this release is written with.
pub const INDEX_SCHEMA_VERSION: u32 = 1;

/// What opening an index database does about its schema.
#[derive(Debug, Clone, Copy, PartialEq, Eq, Structural)]
pub enum SchemaStep {
    /// The database already has the supported schema.
    Current,
    /// The database is older and is migrated in one transaction.
    Migrate,
}

/// Decides the schema step for a database at version `found`: a newer
/// database than this release supports is refused with `future`.
pub fn schema_step(found: u32, supported: u32, future: Code) -> (r: Result<SchemaStep, Code>)
    ensures
        found > supported ==> r == Err::<SchemaStep, Code>(future),
        found == supported ==> r == Ok::<SchemaStep, Code>(SchemaStep::Current),
        found < supported ==> r == Ok::<SchemaStep, Code>(SchemaStep::Migrate),
{
    if found > supported {
        Err(future)
    } else if found == supported {
        Ok(SchemaStep::Current)
    } else {
        Ok(SchemaStep::Migrate)
    }
}

/// An index holds a projection once a rebuild has committed generation one
/// or later.
pub fn has_projection(generation: Option<i64>) -> (r: bool)
    ensures
        r == (generation matches Some(g) && g >= 1),
{
    match generation {
        Some(g) => g >= 1,
        None => false,
    }
}

/// The generation a rebuild commits: one past the stored one (none counts
/// as zero); when that no longer fits, the index is exhausted.
pub fn next_generation(current: Option<i64>, exhausted: Code) -> (r: Result<i64, Code>)
    ensures
        ({
            let base = match current {
                Some(g) => g as int,
                None => 0,
            };
            &&& base < i64::MAX ==> r == Ok::<i64, Code>((base + 1) as i64)
            &&& base == i64::MAX ==> r == Err::<i64, Code>(exhausted)
        }),
{
    let base: i64 = match current {
        Some(g) => g,
        None => 0,
    };
    match base.checked_add(1) {
        Some(g) => Ok(g),
        None => Err(exhausted),
    }
}

/// A column value as the search index stores it.
#[derive(Debug, Clone)]
pub enum IndexValue {
    Integer(i64),
    Text(Vec<u8>),
    Blob(Vec<u8>),
    Null,
}

/// One row of the search index, as the projection digest reads it: the
/// segment's columns in order, then the snapshot fingerprint.
#[derive(Debug, Clone)]
pub struct ProjectionRow {
    pub columns: Vec<IndexValue>,
    pub fingerprint: IndexValue,
}

/// The first `n` little-endian bytes of `x`.
pub open spec fn le_bytes(x: nat, n: nat) -> Seq<u8>
    decreases n,
{
    if n == 0 {
        seq![]
    } else {
        seq![(x % 256) as u8] + le_bytes(x / 256, (n - 1) as nat)
    }
}

/// The eight little-endian bytes of `x`.
pub fn le_u64_bytes(x: u64) -> (r: Vec<u8>)
    ensures
        r@ == le_bytes(x as nat, 8),
{
    let mut out: Vec<u8> = Vec::new();
    let mut rest: u64 = x;
    for k in 0..8
        invariant
            out@ + le_bytes(rest as nat, (8 - k) as nat) == le_bytes(x as nat, 8),
    {
        proof {
            assert(out@.push((rest % 256) as u8) + le_bytes((rest / 256) as nat, (8 - k - 1) as nat)
                =~= out@ + le_bytes(rest as nat, (8 - k) as nat));
        }
        out.push((rest % 256) as u8);
        rest = rest / 256;
    }
    proof {
        assert(out@ + le_bytes(rest as nat, 0) =~= out@);
    }
    out
}

/// `bytes` preceded by their length as eight little-endian bytes.
pub open spec fn framed(bytes: Seq<u8>) -> Seq<u8> {
    le_bytes(bytes.len(), 8) + bytes
}

/// The bytes a column contributes: an integer as its eight little-endian
/// two's-complement bytes, a text as its UTF-8 bytes; any other value makes
/// the index invalid.
pub open spec fn column_bytes(v: IndexValue) -> Option<Seq<u8>> {
    match v {
        IndexValue::Integer(i) => Some(le_bytes((i as u64) as nat, 8)),
        IndexValue::Text(t) => Some(t@),
        _ => None,
    }
}

/// The framed bytes of the first `n` columns, when each has bytes.
pub open spec fn columns_stream(columns: Seq<IndexValue>, n: nat) -> Option<Seq<u8>>
    decreases n,
{
    if n == 0 || n > columns.len() {
        Some(seq![])
    } else {
        match (columns_stream(columns, (n - 1) as nat), column_bytes(columns[n - 1])) {
            (Some(s), Some(b)) => Some(s + framed(b)),
            _ => None,
        }
    }
}

/// The framed bytes of a row: its columns, then the fingerprint, which must
/// be a blob.
pub open spec fn row_stream(row: ProjectionRow) -> Option<Seq<u8>> {
    match (columns_stream(row.columns@, row.columns@.len()), row.fingerprint) {
        (Some(s), IndexValue::Blob(f)) => Some(s + framed(f@)),
        _ => None,
    }
}

/// The framed bytes of the first `n` rows, in order.
pub open spec fn rows_stream(rows: Seq<ProjectionRow>, n: nat) -> Option<Seq<u8>>
    decreases n,
{
    if n == 0 || n > rows.len() {
        Some(seq![])
    } else {
        match (rows_stream(rows, (n - 1) as nat), row_stream(rows[n - 1])) {
            (Some(s), Some(b)) => Some(s + b),
            _ => None,
        }
    }
}

/// Appends `bytes` to `out` behind their length.
fn push_framed(out: &mut Vec<u8>, bytes: &[u8])
    ensures
        final(out)@ == old(out)@ + framed(bytes@),
{
    let mut length = le_u64_bytes(bytes.len() as u64);
    out.append(&mut length);
    let n = bytes.len();
    let ghost start = out@;
    for i in 0..n
        invariant
            n == bytes@.len(),
            out@ == start + bytes@.take(i as int),
    {
        out.push(bytes[i]);
        proof {
            assert(bytes@.take(i + 1) =~= bytes@.take(i as int).push(bytes@[i as int]));
            assert(out@ =~= start + bytes@.take(i + 1));
        }
    }
    proof {
        assert(bytes@.take(n as int) =~= bytes@);
        assert(out@ =~= old(out)@ + framed(bytes@));
    }
}

/// The bytes the projection digest is taken over: every row's framed
/// columns and fingerprint, in row order; `None` when a column is neither
/// an integer nor a text, or a fingerprint is no blob.
pub fn projection_stream(rows: &Vec<ProjectionRow>) -> (r: Option<Vec<u8>>)
    ensures
        match r {
            Some(s) => rows_stream(rows@, rows@.len()) == Some(s@),
            None => rows_stream(rows@, rows@.len()) is None,
        },
{
    let mut out: Vec<u8> = Vec::new();
    let n = rows.len();
    for i in 0..n
        invariant
            n == rows@.len(),
            rows_stream(rows@, i as nat) == Some(out@),
    {
        let row = &rows[i];
        let ghost before = out@;
        let m = row.columns.len();
        for j in 0..m
            invariant
                m == row.columns@.len(),
                n == rows@.len(),
                i < n,
                *row == rows@[i as int],
                rows_stream(rows@, i as nat) == Some(before),
                columns_stream(row.columns@, j as nat) matches Some(s) && out@ == before + s,
        {
            match &row.columns[j] {
                IndexValue::Integer(v) => {
                    let bytes = le_u64_bytes(*v as u64);
                    push_framed(&mut out, bytes.as_slice());
                },
                IndexValue::Text(t) => {
                    push_framed(&mut out, t.as_slice());
                },
                _ => {
                    proof {
                        lemma_columns_stream_none(row.columns@, (j + 1) as nat, m as nat);
                        lemma_rows_stream_none(rows@, (i + 1) as nat, n as nat);
                    }
                    return None;
                },
            }
            proof {
                assert(out@ =~= before + columns_stream(row.columns@, (j + 1) as nat)->0);
            }
        }
        match &row.fingerprint {
            IndexValue::Blob(f) => {
                push_framed(&mut out, f.as_slice());
            },
            _ => {
                proof {
                    lemma_rows_stream_none(rows@, (i + 1) as nat, n as nat);
                }
                return None;
            },
        }
        proof {
            assert(out@ =~= rows_stream(rows@, i as nat)->0 + row_stream(rows@[i as int])->0);
        }
    }
    Some(out)
}

proof fn lemma_columns_stream_none(columns: Seq<IndexValue>, k: nat, n: nat)
    requires
        k <= n <= columns.len(),
        columns_stream(columns, k) is None,
    ensures
        columns_stream(columns, n) is None,
    decreases n - k,
{
    if k < n {
        lemma_columns_stream_none(columns, k + 1, n);
    }
}

proof fn lemma_rows_stream_none(rows: Seq<ProjectionRow>, k: nat, n: nat)
    requires
        1 <= k <= n <= rows.len(),
        row_stream(rows[k - 1]) is None,
    ensures
        rows_stream(rows, n) is None,
    decreases n - k,
{
    if k < n {
        lemma_rows_stream_none(rows, k, (n - 1) as nat);
    }
}

/// The lower-case hexadecimal SHA-256 of the index rows' framed bytes,
/// which the index stores beside its generation and checks on open.
pub fn projection_digest(rows: &Vec<ProjectionRow>) -> (r: Result<String, Code>)
    ensures
        match rows_stream(rows@, rows@.len()) {
            Some(s) => r matches Ok(d) && d@ == hex_text(sha256_digest(s)@),
            None => r == Err::<String, Code>(Code::TranscriptSearchIndexInvalid),
        },
{
    match projection_stream(rows) {
        Some(stream) => {
            let digest = sha256(stream.as_slice());
            Ok(encode_hex(&digest))
        },
        None => Err(Code::TranscriptSearchIndexInvalid),
    }
}

/// Whether the search index's stored metadata names a usable projection of
/// this workspace: generation one or later, and the workspace's key.
pub fn search_meta_usable(meta: &Option<(i64, String, String)>, workspace_key: &str) -> (r: bool)
    ensures
        r == (meta matches Some(m) && m.0 >= 1 && m.1@ == workspace_key@),
{
    match meta {
        Some(m) => {
            if m.0 < 1 {
                return false;
            }
            let stored = to_chars(m.1.as_str());
            let key = to_chars(workspace_key);
            crate::text::chars_equal(stored.as_slice(), key.as_slice())
        },
        None => false,
    }
}

/// Checks a usable search index against its rows: as many full-text
/// entries as segment rows, and the stored digest equal to the rows' own.
pub fn check_search_projection(
    segment_rows: i64,
    fts_rows: i64,
    stored_digest: &str,
    actual_digest: &str,
) -> (r: Result<(), Code>)
    ensures
        r is Ok <==> (segment_rows == fts_rows && segment_rows >= 0 && stored_digest@
            == actual_digest@),
        r matches Err(c) ==> c == Code::TranscriptSearchIndexInvalid,
{
    if segment_rows != fts_rows || segment_rows < 0 {
        return Err(Code::TranscriptSearchIndexInvalid);
    }
    let stored = to_chars(stored_digest);
    let actual = to_chars(actual_digest);
    if !crate::text::chars_equal(stored.as_slice(), actual.as_slice()) {
        return Err(Code::TranscriptSearchIndexInvalid);
    }
    Ok(())
}

} // verus!
