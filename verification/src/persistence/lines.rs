//! Line handling shared by the document parsers.

use vstd::prelude::*;

use crate::text::{
    decimal, is_digit_spec, lemma_decimal_digits, starts_with_seq,
    index_of_char, lemma_next_index_of_bounds, lemma_split_append, lemma_split_nonempty,
    lemma_split_whole, next_index_of, slice_chars, split_chars, split_spec,
};

verus! {

/// `s` with every `\r\n` replaced by `\n` (`str::replace`, left to right).
pub open spec fn crlf_normalize(s: Seq<char>) -> Seq<char>
    decreases s.len(),
{
    if s.len() == 0 {
        seq![]
    } else if s.len() >= 2 && s[0] == '\r' && s[1] == '\n' {
        seq!['\n'] + crlf_normalize(s.skip(2))
    } else {
        seq![s[0]] + crlf_normalize(s.skip(1))
    }
}

/// The lines of a text without carriage returns (`str::lines`): the pieces
/// between newlines, without the empty piece after a final newline.
pub open spec fn lines_spec(s: Seq<char>) -> Seq<Seq<char>> {
    let p = split_spec(s, '\n');
    if p.last().len() == 0 {
        p.drop_last()
    } else {
        p
    }
}

/// `s` holds neither a newline nor a carriage return.
pub open spec fn line_free(s: Seq<char>) -> bool {
    forall|i: int| 0 <= i < s.len() ==> #[trigger] s[i] != '\n' && s[i] != '\r'
}

/// The text made of `lines`, each followed by a newline.
pub open spec fn text_of_lines(lines: Seq<Seq<char>>) -> Seq<char>
    decreases lines.len(),
{
    if lines.len() == 0 {
        seq![]
    } else {
        text_of_lines(lines.drop_last()) + lines.last() + seq!['\n']
    }
}

/// `s` with every newline written as `\r\n`.
pub open spec fn crlf_text(s: Seq<char>) -> Seq<char>
    decreases s.len(),
{
    if s.len() == 0 {
        seq![]
    } else if s[0] == '\n' {
        seq!['\r', '\n'] + crlf_text(s.skip(1))
    } else {
        seq![s[0]] + crlf_text(s.skip(1))
    }
}

pub proof fn lemma_text_of_lines_append(a: Seq<Seq<char>>, b: Seq<Seq<char>>)
    ensures
        text_of_lines(a + b) == text_of_lines(a) + text_of_lines(b),
    decreases b.len(),
{
    if b.len() == 0 {
        assert(a + b =~= a);
    } else {
        assert((a + b).drop_last() =~= a + b.drop_last());
        lemma_text_of_lines_append(a, b.drop_last());
        assert((a + b).last() == b.last());
    }
}

/// Splitting the lines' text, its final newline set aside, gives back the
/// lines.
proof fn lemma_split_text_of_lines(lines: Seq<Seq<char>>)
    requires
        lines.len() > 0,
        forall|k: int| 0 <= k < lines.len() ==> line_free(#[trigger] lines[k]),
    ensures
        split_spec(text_of_lines(lines).drop_last(), '\n') == lines,
    decreases lines.len(),
{
    let t = text_of_lines(lines);
    let last = lines.last();
    assert(line_free(lines[lines.len() - 1]));
    assert(!last.contains('\n')) by {
        if last.contains('\n') {
            let i = choose|i: int| 0 <= i < last.len() && last[i] == '\n';
            assert(lines[lines.len() - 1][i] != '\n');
        }
    }
    let front = text_of_lines(lines.drop_last());
    assert(t.drop_last() =~= front + last);
    if lines.len() == 1 {
        assert(front =~= Seq::<char>::empty());
        assert(front + last =~= last);
        lemma_split_whole(last, '\n');
        assert(lines =~= seq![last]);
    } else {
        let rest = lines.drop_last();
        assert forall|k: int| 0 <= k < rest.len() implies line_free(#[trigger] rest[k]) by {
            assert(rest[k] == lines[k]);
        }
        lemma_split_text_of_lines(rest);
        assert(front =~= front.drop_last() + seq!['\n']);
        assert(front + last =~= front.drop_last() + seq!['\n'] + last);
        lemma_split_append(front.drop_last(), last, '\n');
        assert(rest.push(last) =~= lines);
    }
}

/// A text made of line-free lines has those lines, no carriage return, and
/// reads the same after CRLF normalization, as does its CRLF copy.
pub proof fn lemma_lines_of_text(lines: Seq<Seq<char>>)
    requires
        lines.len() > 0,
        forall|k: int| 0 <= k < lines.len() ==> line_free(#[trigger] lines[k]),
    ensures
        lines_spec(text_of_lines(lines)) == lines,
        !text_of_lines(lines).contains('\r'),
        crlf_normalize(text_of_lines(lines)) == text_of_lines(lines),
        crlf_normalize(crlf_text(text_of_lines(lines))) == text_of_lines(lines),
{
    let t = text_of_lines(lines);
    lemma_split_text_of_lines(lines);
    assert(t.last() == '\n');
    assert(t.drop_last() + seq!['\n'] =~= t);
    assert(split_spec(t, '\n') == lines.push(seq![]));
    assert(lines.push(seq![]).drop_last() =~= lines);
    lemma_text_of_lines_plain(lines);
    lemma_crlf_normalize_plain(t);
    lemma_crlf_round_trip(t);
}

proof fn lemma_text_of_lines_plain(lines: Seq<Seq<char>>)
    requires
        forall|k: int| 0 <= k < lines.len() ==> line_free(#[trigger] lines[k]),
    ensures
        !text_of_lines(lines).contains('\r'),
    decreases lines.len(),
{
    if lines.len() > 0 {
        let rest = lines.drop_last();
        assert forall|k: int| 0 <= k < rest.len() implies line_free(#[trigger] rest[k]) by {
            assert(rest[k] == lines[k]);
        }
        lemma_text_of_lines_plain(rest);
        let t = text_of_lines(lines);
        let front = text_of_lines(rest);
        let last = lines.last();
        assert(line_free(lines[lines.len() - 1]));
        if t.contains('\r') {
            let i = choose|i: int| 0 <= i < t.len() && t[i] == '\r';
            if i < front.len() {
                assert(front[i] == '\r');
            } else if i < front.len() + last.len() {
                assert(last[i - front.len()] == t[i]);
                assert(lines[lines.len() - 1][i - front.len()] != '\r');
            }
        }
    }
}

/// Normalizing a text without carriage returns changes nothing.
pub proof fn lemma_crlf_normalize_plain(s: Seq<char>)
    requires
        !s.contains('\r'),
    ensures
        crlf_normalize(s) == s,
    decreases s.len(),
{
    if s.len() > 0 {
        assert(!s.skip(1).contains('\r')) by {
            if s.skip(1).contains('\r') {
                let i = choose|i: int| 0 <= i < s.skip(1).len() && s.skip(1)[i] == '\r';
                assert(s[i + 1] == '\r');
            }
        }
        lemma_crlf_normalize_plain(s.skip(1));
        assert(s[0] != '\r');
        assert(seq![s[0]] + s.skip(1) =~= s);
    }
}

/// The CRLF copy of a text without carriage returns normalizes back to it.
pub proof fn lemma_crlf_round_trip(s: Seq<char>)
    requires
        !s.contains('\r'),
    ensures
        crlf_normalize(crlf_text(s)) == s,
    decreases s.len(),
{
    if s.len() > 0 {
        assert(!s.skip(1).contains('\r')) by {
            if s.skip(1).contains('\r') {
                let i = choose|i: int| 0 <= i < s.skip(1).len() && s.skip(1)[i] == '\r';
                assert(s[i + 1] == '\r');
            }
        }
        lemma_crlf_round_trip(s.skip(1));
        let c = crlf_text(s);
        let rest = crlf_text(s.skip(1));
        if s[0] == '\n' {
            assert(c =~= seq!['\r', '\n'] + rest);
            assert(c.skip(2) =~= rest);
        } else {
            assert(s[0] != '\r');
            assert(c =~= seq![s[0]] + rest);
            assert(c.skip(1) =~= rest);
        }
        assert(seq![s[0]] + s.skip(1) =~= s);
    }
}

/// The first `c` at or after `p` is at `q` when `q` holds `c` and nothing
/// in between does.
proof fn lemma_next_index_of_exact(s: Seq<char>, c: char, p: int, q: int)
    requires
        0 <= p <= q < s.len(),
        s[q] == c,
        forall|i: int| p <= i < q ==> s[i] != c,
    ensures
        next_index_of(s, c, p) == q,
    decreases q - p,
{
    if p < q {
        lemma_next_index_of_exact(s, c, p + 1, q);
    }
}

/// In a text that starts with line-free `lines`, line `j` sits right after
/// the first `j` lines and ends at the next newline.
proof fn lemma_line_at(lines: Seq<Seq<char>>, rest: Seq<char>, j: int)
    requires
        0 <= j < lines.len(),
        forall|i: int| 0 <= i < lines.len() ==> line_free(#[trigger] lines[i]),
    ensures
        ({
            let s = text_of_lines(lines) + rest;
            let p = text_of_lines(lines.take(j)).len() as int;
            &&& text_of_lines(lines.take(j + 1)).len() == p + lines[j].len() + 1
            &&& next_index_of(s, '\n', p) == p + lines[j].len()
            &&& s.subrange(p, p + lines[j].len()) == lines[j]
        }),
{
    let s = text_of_lines(lines) + rest;
    let front = text_of_lines(lines.take(j));
    let p = front.len() as int;
    let line = lines[j];
    let after = lines.skip(j + 1);
    assert(lines.take(j + 1) + after =~= lines);
    lemma_text_of_lines_append(lines.take(j + 1), after);
    assert(lines.take(j + 1).drop_last() =~= lines.take(j));
    assert(lines.take(j + 1).last() == line);
    let t = text_of_lines(lines.take(j + 1));
    assert(t == front + line + seq!['\n']);
    assert(s =~= front + line + seq!['\n'] + (text_of_lines(after) + rest));
    assert(line_free(lines[j]));
    assert forall|i: int| p <= i < p + line.len() implies s[i] != '\n' by {
        assert(s[i] == line[i - p]);
    }
    assert(s[p + line.len()] == '\n');
    lemma_next_index_of_exact(s, '\n', p, p + line.len());
    assert(s.subrange(p, p + line.len()) =~= line);
}

/// In a text that starts with line-free `lines`, line `k` starts where the
/// first `k` lines end, and reads as line `k`.
pub proof fn lemma_leading_lines_of_text(lines: Seq<Seq<char>>, rest: Seq<char>, k: nat)
    requires
        k <= lines.len(),
        forall|j: int| 0 <= j < lines.len() ==> line_free(#[trigger] lines[j]),
    ensures
        line_start(text_of_lines(lines) + rest, k) == text_of_lines(lines.take(k as int)).len(),
        k < lines.len() ==> text_line(text_of_lines(lines) + rest, k) == lines[k as int],
    decreases k,
{
    let s = text_of_lines(lines) + rest;
    if k > 0 {
        lemma_leading_lines_of_text(lines, rest, (k - 1) as nat);
        lemma_line_at(lines, rest, k - 1);
        lemma_next_index_of_bounds(s, '\n', text_of_lines(lines.take(k - 1)).len() as int);
    } else {
        assert(lines.take(0) =~= Seq::<Seq<char>>::empty());
    }
    if k < lines.len() {
        lemma_line_at(lines, rest, k as int);
    }
}

/// The decimal text of a number is line-free.
pub proof fn lemma_decimal_line_free(n: nat)
    ensures
        line_free(decimal(n)),
{
    lemma_decimal_digits(n);
    assert forall|i: int| 0 <= i < decimal(n).len() implies #[trigger] decimal(n)[i] != '\n'
        && decimal(n)[i] != '\r' by {
        assert(is_digit_spec(decimal(n)[i]));
    }
}

/// A value written after a prefix starts with the prefix and reads back
/// after it.
pub proof fn lemma_prefixed(p: Seq<char>, v: Seq<char>)
    ensures
        starts_with_seq(p + v, p),
        (p + v).skip(p.len() as int) == v,
{
    assert((p + v).subrange(0, p.len() as int) =~= p);
    assert((p + v).skip(p.len() as int) =~= v);
}

/// Replaces every `\r\n` of `s` by `\n`.
pub fn normalize_crlf(s: &[char]) -> (r: Vec<char>)
    ensures
        r@ == crlf_normalize(s@),
{
    let n = s.len();
    let mut out: Vec<char> = Vec::new();
    let mut i: usize = 0;
    proof {
        assert(s@.skip(0) =~= s@);
        assert(out@ + crlf_normalize(s@) =~= crlf_normalize(s@));
    }
    while i < n
        invariant
            i <= n,
            n == s@.len(),
            out@ + crlf_normalize(s@.skip(i as int)) == crlf_normalize(s@),
        decreases n - i,
    {
        let ghost rest = s@.skip(i as int);
        if i + 1 < n && s[i] == '\r' && s[i + 1] == '\n' {
            out.push('\n');
            proof {
                assert(rest.skip(2) =~= s@.skip(i + 2));
                assert(out@ + crlf_normalize(s@.skip(i + 2)) =~= crlf_normalize(s@));
            }
            i = i + 2;
        } else {
            out.push(s[i]);
            proof {
                assert(rest.skip(1) =~= s@.skip(i + 1));
                assert(out@ + crlf_normalize(s@.skip(i + 1)) =~= crlf_normalize(s@));
            }
            i = i + 1;
        }
    }
    proof {
        assert(s@.skip(n as int) =~= Seq::<char>::empty());
        assert(out@ =~= crlf_normalize(s@));
    }
    out
}

/// The lines of `s` (which holds no carriage return).
pub fn split_lines(s: &[char]) -> (r: Vec<Vec<char>>)
    ensures
        r@.len() == lines_spec(s@).len(),
        forall|k: int| 0 <= k < r@.len() ==> (#[trigger] r@[k])@ == lines_spec(s@)[k],
{
    let mut parts = split_chars(s, '\n');
    proof {
        lemma_split_nonempty(s@, '\n');
    }
    let last = parts.len() - 1;
    if parts[last].len() == 0 {
        parts.pop();
    }
    parts
}

/// Start of line `k` of `s` (lines end after each `\n`), or `s.len()`.
pub open spec fn line_start(s: Seq<char>, k: nat) -> int
    decreases k,
{
    if k == 0 {
        0
    } else {
        let p = line_start(s, (k - 1) as nat);
        let e = next_index_of(s, '\n', p);
        if e < s.len() {
            e + 1
        } else {
            s.len() as int
        }
    }
}

/// Line `k` of `s` without its newline.
pub open spec fn text_line(s: Seq<char>, k: nat) -> Seq<char> {
    s.subrange(line_start(s, k), next_index_of(s, '\n', line_start(s, k)))
}

pub proof fn lemma_line_start_bounds(s: Seq<char>, k: nat)
    ensures
        0 <= line_start(s, k) <= s.len(),
        k > 0 ==> line_start(s, (k - 1) as nat) <= line_start(s, k),
    decreases k,
{
    if k > 0 {
        lemma_line_start_bounds(s, (k - 1) as nat);
        lemma_next_index_of_bounds(s, '\n', line_start(s, (k - 1) as nat));
    }
}

pub proof fn lemma_line_start_monotone(s: Seq<char>, a: nat, b: nat)
    requires
        a <= b,
    ensures
        line_start(s, a) <= line_start(s, b),
    decreases b - a,
{
    if a < b {
        lemma_line_start_monotone(s, a, (b - 1) as nat);
        lemma_line_start_bounds(s, b);
    }
}


/// The first `count` lines of `s`, without their newlines, when `s` has that
/// many lines (`str::lines` on text without carriage returns), and where
/// the line after them starts.
pub fn leading_lines(s: &[char], count: usize) -> (r: Option<(Vec<Vec<char>>, usize)>)
    ensures
        r is Some <==> (count == 0 || line_start(s@, (count - 1) as nat) < s@.len()),
        r matches Some((lines, next)) ==> {
            &&& lines@.len() == count
            &&& next == line_start(s@, count as nat)
            &&& forall|k: int| 0 <= k < count ==> (#[trigger] lines@[k])@ == text_line(s@, k as nat)
        },
{
    let n = s.len();
    let mut lines: Vec<Vec<char>> = Vec::new();
    let mut start: usize = 0;
    for j in 0..count
        invariant
            n == s@.len(),
            lines@.len() == j,
            start == line_start(s@, j as nat),
            forall|m: int| 0 <= m < j ==> (#[trigger] lines@[m])@ == text_line(s@, m as nat),
            j > 0 ==> line_start(s@, (j - 1) as nat) < s@.len(),
    {
        proof {
            lemma_line_start_bounds(s@, j as nat);
        }
        if start >= n {
            proof {
                if j < count - 1 {
                    lemma_line_start_monotone(s@, j as nat, (count - 1) as nat);
                }
            }
            return None;
        }
        let end = index_of_char(s, '\n', start);
        proof {
            lemma_next_index_of_bounds(s@, '\n', start as int);
        }
        lines.push(slice_chars(s, start, end));
        start = if end < n {
            end + 1
        } else {
            n
        };
    }
    Some((lines, start))
}

} // verus!
