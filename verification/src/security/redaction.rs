//! Redaction of diagnostics: control characters are neutralized, the detail is
//! bounded, and paths, OpenRouter keys and bearer tokens are replaced.

use vstd::prelude::*;

use crate::text::{
    chars_equal, contains_chars, contains_seq, from_chars, is_control, is_control_spec,
    is_whitespace, is_whitespace_spec, matches_at, occurs_at, push_char, push_chars, push_str,
    slice_chars, starts_with_chars, starts_with_seq, to_chars, utf16_len, utf16_len_spec,
};

verus! {

/// Upper bound, in UTF-16 code units, of a sanitized technical detail.
pub const MAX_TECHNICAL_DETAIL_CHARS: usize = 512;

/// Index of the first whitespace character at or after `t`, or `s.len()`.
pub open spec fn next_ws(s: Seq<char>, t: int) -> int
    decreases s.len() - t,
{
    if t < 0 || t >= s.len() {
        s.len() as int
    } else if is_whitespace_spec(s[t]) {
        t
    } else {
        next_ws(s, t + 1)
    }
}

pub proof fn lemma_next_ws_bounds(s: Seq<char>, t: int)
    requires
        0 <= t <= s.len(),
    ensures
        t <= next_ws(s, t) <= s.len(),
        next_ws(s, t) < s.len() ==> is_whitespace_spec(s[next_ws(s, t)]),
        forall|k: int| t <= k < next_ws(s, t) ==> !is_whitespace_spec(#[trigger] s[k]),
    decreases s.len() - t,
{
    if t < s.len() && !is_whitespace_spec(s[t]) {
        lemma_next_ws_bounds(s, t + 1);
    }
}

/// The marker that replaces a redacted token.
pub open spec fn redacted_marker() -> Seq<char> {
    seq!['[', 'R', 'E', 'D', 'A', 'C', 'T', 'E', 'D', ']']
}

/// Scanning from position `i`, with `s[start..]` not yet emitted: every
/// occurrence of `p` and the token that follows it up to the next whitespace
/// become the redaction marker.
pub open spec fn redact_scan(s: Seq<char>, p: Seq<char>, start: int, i: int) -> Seq<char>
    decreases s.len() - i,
{
    if p.len() == 0 || start < 0 || i < start || i + p.len() > s.len() {
        s.subrange(start, s.len() as int)
    } else if occurs_at(s, p, i) {
        let e = next_ws(s, i + p.len());
        proof {
            lemma_next_ws_bounds(s, i + p.len());
        }
        s.subrange(start, i) + redacted_marker() + redact_scan(s, p, e, e)
    } else {
        redact_scan(s, p, start, i + 1)
    }
}

/// `s` with every `p` and the token that follows it replaced by the marker.
pub open spec fn redact_token_after_spec(s: Seq<char>, p: Seq<char>) -> Seq<char> {
    redact_scan(s, p, 0, 0)
}

/// Index of the first whitespace character at or after `t`.
fn next_whitespace(s: &[char], t: usize) -> (r: usize)
    requires
        t <= s@.len(),
    ensures
        r == next_ws(s@, t as int),
{
    let n = s.len();
    let mut k = t;
    proof {
        lemma_next_ws_bounds(s@, t as int);
    }
    while k < n
        invariant
            t <= k <= n,
            n == s@.len(),
            next_ws(s@, t as int) == next_ws(s@, k as int),
        decreases n - k,
    {
        if is_whitespace(s[k]) {
            return k;
        }
        k = k + 1;
    }
    k
}

/// Replaces each occurrence of `prefix`, together with the token that follows
/// it up to the next whitespace, by `[REDACTED]`.
pub fn redact_token_after(value: &str, prefix: &str) -> (r: String)
    requires
        prefix@.len() > 0,
    ensures
        r@ == redact_token_after_spec(value@, prefix@),
{
    let s = to_chars(value);
    let p = to_chars(prefix);
    let n = s.len();
    let m = p.len();
    let mut out = String::new();
    let mut start: usize = 0;
    let mut i: usize = 0;
    let marker = "[REDACTED]";
    proof {
        reveal_strlit("[REDACTED]");
        assert(marker@ =~= redacted_marker());
    }
    while i <= n && m <= n - i
        invariant
            start <= i <= n,
            n == s@.len(),
            m == p@.len(),
            m > 0,
            s@ == value@,
            p@ == prefix@,
            marker@ == redacted_marker(),
            out@ + redact_scan(s@, p@, start as int, i as int) == redact_token_after_spec(
                value@,
                prefix@,
            ),
        decreases n - i,
    {
        if matches_at(s.as_slice(), p.as_slice(), i) {
            let before = slice_chars(s.as_slice(), start, i);
            push_chars(&mut out, before.as_slice());
            push_str(&mut out, marker);
            proof {
                lemma_next_ws_bounds(s@, (i + m) as int);
            }
            let e = next_whitespace(s.as_slice(), i + m);
            proof {
                assert(out@ + redact_scan(s@, p@, e as int, e as int) =~= redact_token_after_spec(
                    value@,
                    prefix@,
                ));
            }
            start = e;
            i = e;
        } else {
            i = i + 1;
        }
    }
    let rest = slice_chars(s.as_slice(), start, n);
    push_chars(&mut out, rest.as_slice());
    proof {
        assert(out@ =~= redact_token_after_spec(value@, prefix@));
    }
    out
}

/// `s` with every OpenRouter key (`sk-or-...`) redacted.
pub open spec fn redact_openrouter_keys_spec(s: Seq<char>) -> Seq<char> {
    redact_token_after_spec(s, seq!['s', 'k', '-', 'o', 'r', '-'])
}

/// Redacts OpenRouter API keys.
pub fn redact_openrouter_keys(value: &str) -> (r: String)
    ensures
        r@ == redact_openrouter_keys_spec(value@),
{
    let prefix = "sk-or-";
    proof {
        reveal_strlit("sk-or-");
        assert(prefix@ =~= seq!['s', 'k', '-', 'o', 'r', '-']);
    }
    redact_token_after(value, prefix)
}

/// Whitespace-separated tokens of `s` (`str::split_whitespace`).
pub open spec fn split_whitespace_spec(s: Seq<char>) -> Seq<Seq<char>>
    decreases s.len(),
{
    if s.len() == 0 {
        seq![]
    } else {
        let t = split_whitespace_spec(s.drop_last());
        let c = s.last();
        if is_whitespace_spec(c) {
            t
        } else if s.len() >= 2 && !is_whitespace_spec(s[s.len() - 2]) {
            t.update(t.len() - 1, t.last().push(c))
        } else {
            t.push(seq![c])
        }
    }
}

/// `parts` joined with `sep` between consecutive parts (`[T]::join`).
pub open spec fn join_spec(parts: Seq<Seq<char>>, sep: Seq<char>) -> Seq<char>
    decreases parts.len(),
{
    if parts.len() == 0 {
        seq![]
    } else if parts.len() == 1 {
        parts[0]
    } else {
        join_spec(parts.drop_last(), sep) + sep + parts.last()
    }
}

/// A token that looks like a local or network path.
pub open spec fn is_path_token(t: Seq<char>) -> bool {
    ||| contains_seq(t, seq![':', '\\'])
    ||| contains_seq(t, seq![':', '/'])
    ||| starts_with_seq(t, seq!['\\', '\\'])
}

pub open spec fn path_marker() -> Seq<char> {
    seq!['[', 'P', 'A', 'T', 'H', ']']
}

pub open spec fn redact_path_token(t: Seq<char>) -> Seq<char> {
    if is_path_token(t) {
        path_marker()
    } else {
        t
    }
}

/// Tokens of `s` rejoined with single spaces, path-like tokens replaced by `[PATH]`.
pub open spec fn redact_path_tokens_spec(s: Seq<char>) -> Seq<char> {
    join_spec(split_whitespace_spec(s).map_values(|t: Seq<char>| redact_path_token(t)), seq![' '])
}

/// Whether a token (as characters) looks like a path.
fn path_like(t: &[char]) -> (r: bool)
    ensures
        r == is_path_token(t@),
{
    let a = [':', '\\'];
    let b = [':', '/'];
    let c = ['\\', '\\'];
    proof {
        assert(a@ =~= seq![':', '\\']);
        assert(b@ =~= seq![':', '/']);
        assert(c@ =~= seq!['\\', '\\']);
    }
    contains_chars(t, &a) || contains_chars(t, &b) || starts_with_chars(t, &c)
}

/// Splits `s` into its whitespace-separated tokens.
pub fn split_whitespace(s: &[char]) -> (r: Vec<Vec<char>>)
    ensures
        r@.len() == split_whitespace_spec(s@).len(),
        forall|k: int| 0 <= k < r@.len() ==> (#[trigger] r@[k])@ == split_whitespace_spec(s@)[k],
{
    let n = s.len();
    let mut tokens: Vec<Vec<char>> = Vec::new();
    let mut in_token = false;
    for i in 0..n
        invariant
            n == s@.len(),
            tokens@.len() == split_whitespace_spec(s@.take(i as int)).len(),
            forall|k: int|
                0 <= k < tokens@.len() ==> (#[trigger] tokens@[k])@ == split_whitespace_spec(
                    s@.take(i as int),
                )[k],
            in_token == (i > 0 && !is_whitespace_spec(s@[i - 1])),
            in_token ==> tokens@.len() > 0,
    {
        let c = s[i];
        let ghost prev = split_whitespace_spec(s@.take(i as int));
        proof {
            assert(s@.take(i + 1).drop_last() =~= s@.take(i as int));
            assert(s@.take(i + 1).last() == c);
            if i >= 1 {
                assert(s@.take(i + 1)[i - 1] == s@[i - 1]);
            }
        }
        if is_whitespace(c) {
            in_token = false;
        } else if in_token {
            let last = tokens.len() - 1;
            let mut t = tokens.pop().unwrap();
            t.push(c);
            tokens.push(t);
            proof {
                assert forall|k: int| 0 <= k < tokens@.len() implies (#[trigger] tokens@[k])@
                    == split_whitespace_spec(s@.take(i + 1))[k] by {
                    if k == last {
                        assert(tokens@[k]@ =~= prev.last().push(c));
                    }
                }
            }
        } else {
            let mut t: Vec<char> = Vec::new();
            t.push(c);
            tokens.push(t);
            proof {
                assert forall|k: int| 0 <= k < tokens@.len() implies (#[trigger] tokens@[k])@
                    == split_whitespace_spec(s@.take(i + 1))[k] by {
                    if k == tokens@.len() - 1 {
                        assert(tokens@[k]@ =~= seq![c]);
                    }
                }
            }
            in_token = true;
        }
    }
    proof {
        assert(s@.take(n as int) =~= s@);
    }
    tokens
}

/// Replaces every path-looking token by `[PATH]` and normalizes whitespace
/// runs to single spaces.
pub fn redact_path_tokens(value: &str) -> (r: String)
    ensures
        r@ == redact_path_tokens_spec(value@),
{
    let s = to_chars(value);
    let tokens = split_whitespace(s.as_slice());
    let ghost mapped = split_whitespace_spec(value@).map_values(
        |t: Seq<char>| redact_path_token(t),
    );
    let marker = "[PATH]";
    proof {
        reveal_strlit("[PATH]");
        assert(marker@ =~= path_marker());
    }
    let mut out = String::new();
    let n = tokens.len();
    for k in 0..n
        invariant
            n == tokens@.len(),
            n == mapped.len(),
            s@ == value@,
            marker@ == path_marker(),
            mapped == split_whitespace_spec(value@).map_values(
                |t: Seq<char>| redact_path_token(t),
            ),
            forall|j: int| 0 <= j < n ==> (#[trigger] tokens@[j])@ == split_whitespace_spec(s@)[j],
            out@ == join_spec(mapped.take(k as int), seq![' ']),
    {
        let t = &tokens[k];
        if k > 0 {
            push_char(&mut out, ' ');
        }
        if path_like(t.as_slice()) {
            push_str(&mut out, marker);
        } else {
            push_chars(&mut out, t.as_slice());
        }
        proof {
            assert(mapped.take(k + 1).drop_last() =~= mapped.take(k as int));
            assert(mapped[k as int] == redact_path_token(t@));
            if k == 0 {
                assert(out@ =~= join_spec(mapped.take(1), seq![' ']));
            } else {
                assert(out@ =~= join_spec(mapped.take(k + 1), seq![' ']));
            }
        }
    }
    proof {
        assert(mapped.take(n as int) =~= mapped);
    }
    out
}

/// Characters of `s` with every control character replaced by a space.
pub open spec fn neutralize_controls(s: Seq<char>) -> Seq<char> {
    s.map_values(|c: char| if is_control_spec(c) { ' ' } else { c })
}

/// Length of the longest prefix of `s[i..]`, reached from index `i` with `used`
/// UTF-16 units already spent, whose total stays within `budget`: scanning
/// stops at the first character that would exceed it.
pub open spec fn budget_end(s: Seq<char>, i: int, used: nat, budget: nat) -> int
    decreases s.len() - i,
{
    if i < 0 || i >= s.len() {
        i
    } else if used + utf16_len_spec(s[i]) > budget {
        i
    } else {
        budget_end(s, i + 1, used + utf16_len_spec(s[i]), budget)
    }
}

/// The detail after neutralizing control characters and bounding it to
/// `MAX_TECHNICAL_DETAIL_CHARS` UTF-16 units.
pub open spec fn bounded_detail(s: Seq<char>) -> Seq<char> {
    let m = neutralize_controls(s);
    m.take(budget_end(m, 0, 0, MAX_TECHNICAL_DETAIL_CHARS as nat))
}

/// What `sanitize_technical_detail` returns.
pub open spec fn sanitize_technical_detail_spec(s: Seq<char>) -> Seq<char> {
    redact_token_after_spec(
        redact_openrouter_keys_spec(redact_path_tokens_spec(bounded_detail(s))),
        seq!['B', 'e', 'a', 'r', 'e', 'r', ' '],
    )
}

proof fn lemma_budget_end_bounds(s: Seq<char>, i: int, used: nat, budget: nat)
    requires
        0 <= i <= s.len(),
    ensures
        i <= budget_end(s, i, used, budget) <= s.len(),
    decreases s.len() - i,
{
    if i < s.len() && used + utf16_len_spec(s[i]) <= budget {
        lemma_budget_end_bounds(s, i + 1, used + utf16_len_spec(s[i]), budget);
    }
}

/// Neutralizes control characters, bounds the detail to 512 UTF-16 units, and
/// redacts paths, OpenRouter keys and bearer tokens.
pub fn sanitize_technical_detail(value: &str) -> (r: String)
    ensures
        r@ == sanitize_technical_detail_spec(value@),
{
    let s = to_chars(value);
    let n = s.len();
    let mut normalized: Vec<char> = Vec::new();
    let mut used: usize = 0;
    let ghost m = neutralize_controls(value@);
    let mut i: usize = 0;
    proof {
        lemma_budget_end_bounds(m, 0, 0, MAX_TECHNICAL_DETAIL_CHARS as nat);
    }
    while i < n
        invariant
            i <= n,
            n == s@.len(),
            s@ == value@,
            m == neutralize_controls(value@),
            m.len() == n,
            used <= MAX_TECHNICAL_DETAIL_CHARS,
            normalized@ == m.take(i as int),
            budget_end(m, 0, 0, MAX_TECHNICAL_DETAIL_CHARS as nat) == budget_end(
                m,
                i as int,
                used as nat,
                MAX_TECHNICAL_DETAIL_CHARS as nat,
            ),
        ensures
            i <= n,
            normalized@ == m.take(i as int),
            budget_end(m, 0, 0, MAX_TECHNICAL_DETAIL_CHARS as nat) == i,
        decreases n - i,
    {
        let c = if is_control(s[i]) {
            ' '
        } else {
            s[i]
        };
        proof {
            assert(m[i as int] == c);
        }
        let w = utf16_len(c);
        if used + w > MAX_TECHNICAL_DETAIL_CHARS {
            break;
        }
        used = used + w;
        normalized.push(c);
        i = i + 1;
        proof {
            assert(normalized@ =~= m.take(i as int));
        }
    }
    let normalized_text = from_chars(normalized.as_slice());
    let without_paths = redact_path_tokens(normalized_text.as_str());
    let without_keys = redact_openrouter_keys(without_paths.as_str());
    let bearer = "Bearer ";
    proof {
        reveal_strlit("Bearer ");
        assert(bearer@ =~= seq!['B', 'e', 'a', 'r', 'e', 'r', ' ']);
    }
    redact_token_after(without_keys.as_str(), bearer)
}

/// A text ending in a non-whitespace character has at least one token.
pub proof fn lemma_token_after_nonspace(s: Seq<char>)
    requires
        s.len() > 0,
        !is_whitespace_spec(s.last()),
    ensures
        split_whitespace_spec(s).len() > 0,
    decreases s.len(),
{
    if s.len() >= 2 && !is_whitespace_spec(s[s.len() - 2]) {
        assert(s.drop_last().last() == s[s.len() - 2]);
        lemma_token_after_nonspace(s.drop_last());
    }
}

/// `s` holds no control character.
pub open spec fn control_free(s: Seq<char>) -> bool {
    forall|i: int| 0 <= i < s.len() ==> !is_control_spec(#[trigger] s[i])
}

proof fn lemma_control_free_concat(a: Seq<char>, b: Seq<char>)
    requires
        control_free(a),
        control_free(b),
    ensures
        control_free(a + b),
{
    assert forall|i: int| 0 <= i < (a + b).len() implies !is_control_spec(#[trigger] (a + b)[i]) by {
        if i < a.len() {
            assert((a + b)[i] == a[i]);
        } else {
            assert((a + b)[i] == b[i - a.len()]);
        }
    }
}

proof fn lemma_control_free_subrange(s: Seq<char>, x: int, y: int)
    requires
        control_free(s),
        0 <= x <= y <= s.len(),
    ensures
        control_free(s.subrange(x, y)),
{
    assert forall|i: int| 0 <= i < s.subrange(x, y).len() implies !is_control_spec(
        #[trigger] s.subrange(x, y)[i],
    ) by {
        assert(s.subrange(x, y)[i] == s[x + i]);
    }
}

proof fn lemma_tokens_control_free(s: Seq<char>)
    requires
        control_free(s),
    ensures
        forall|k: int|
            0 <= k < split_whitespace_spec(s).len() ==> control_free(
                #[trigger] split_whitespace_spec(s)[k],
            ),
    decreases s.len(),
{
    if s.len() > 0 {
        let front = s.drop_last();
        assert(control_free(front)) by {
            assert forall|i: int| 0 <= i < front.len() implies !is_control_spec(#[trigger] front[i]) by {
                assert(front[i] == s[i]);
            }
        }
        lemma_tokens_control_free(front);
        let t = split_whitespace_spec(front);
        let c = s.last();
        assert(!is_control_spec(s[s.len() - 1]));
        if !is_whitespace_spec(c) {
            if s.len() >= 2 && !is_whitespace_spec(s[s.len() - 2]) {
                if t.len() > 0 {
                    let u = t.update(t.len() - 1, t.last().push(c));
                    assert(control_free(t[t.len() - 1]));
                    assert forall|k: int| 0 <= k < u.len() implies control_free(#[trigger] u[k]) by {
                        if k == t.len() - 1 {
                            assert forall|i: int| 0 <= i < u[k].len() implies !is_control_spec(
                                #[trigger] u[k][i],
                            ) by {
                                if i < t.last().len() {
                                    assert(u[k][i] == t.last()[i]);
                                }
                            }
                        } else {
                            assert(u[k] == t[k]);
                        }
                    }
                } else {
                    assert(front.last() == s[s.len() - 2]);
                    lemma_token_after_nonspace(front);
                }
            } else {
                let u = t.push(seq![c]);
                assert forall|k: int| 0 <= k < u.len() implies control_free(#[trigger] u[k]) by {
                    if k < t.len() {
                        assert(u[k] == t[k]);
                    }
                }
            }
        }
    }
}

proof fn lemma_join_control_free(parts: Seq<Seq<char>>, sep: Seq<char>)
    requires
        control_free(sep),
        forall|k: int| 0 <= k < parts.len() ==> control_free(#[trigger] parts[k]),
    ensures
        control_free(join_spec(parts, sep)),
    decreases parts.len(),
{
    if parts.len() == 1 {
        assert(control_free(parts[0]));
    } else if parts.len() > 1 {
        let front = parts.drop_last();
        assert forall|k: int| 0 <= k < front.len() implies control_free(#[trigger] front[k]) by {
            assert(front[k] == parts[k]);
        }
        lemma_join_control_free(front, sep);
        assert(control_free(parts[parts.len() - 1]));
        lemma_control_free_concat(join_spec(front, sep), sep);
        lemma_control_free_concat(join_spec(front, sep) + sep, parts.last());
    }
}

proof fn lemma_redact_scan_control_free(s: Seq<char>, p: Seq<char>, start: int, i: int)
    requires
        control_free(s),
        0 <= start <= s.len(),
    ensures
        control_free(redact_scan(s, p, start, i)),
    decreases s.len() - i,
{
    if p.len() == 0 || start < 0 || i < start || i + p.len() > s.len() {
        lemma_control_free_subrange(s, start, s.len() as int);
    } else if occurs_at(s, p, i) {
        let e = next_ws(s, i + p.len());
        lemma_next_ws_bounds(s, i + p.len());
        lemma_redact_scan_control_free(s, p, e, e);
        lemma_control_free_subrange(s, start, i);
        assert(control_free(redacted_marker()));
        lemma_control_free_concat(s.subrange(start, i), redacted_marker());
        lemma_control_free_concat(s.subrange(start, i) + redacted_marker(), redact_scan(s, p, e, e));
    } else {
        lemma_redact_scan_control_free(s, p, start, i + 1);
    }
}

/// A sanitized technical detail holds no control character: controls are
/// neutralized first, and neither path nor key redaction brings one back.
pub proof fn sanitized_details_hold_no_control_character(s: Seq<char>)
    ensures
        control_free(sanitize_technical_detail_spec(s)),
{
    let m = neutralize_controls(s);
    assert(control_free(m)) by {
        assert forall|i: int| 0 <= i < m.len() implies !is_control_spec(#[trigger] m[i]) by {
            assert(!is_control_spec(' '));
        }
    }
    lemma_budget_end_bounds(m, 0, 0, MAX_TECHNICAL_DETAIL_CHARS as nat);
    let b = bounded_detail(s);
    lemma_control_free_subrange(m, 0, budget_end(m, 0, 0, MAX_TECHNICAL_DETAIL_CHARS as nat));
    assert(b =~= m.subrange(0, budget_end(m, 0, 0, MAX_TECHNICAL_DETAIL_CHARS as nat)));
    lemma_tokens_control_free(b);
    let tokens = split_whitespace_spec(b);
    let mapped = tokens.map_values(|t: Seq<char>| redact_path_token(t));
    assert forall|k: int| 0 <= k < mapped.len() implies control_free(#[trigger] mapped[k]) by {
        assert(control_free(tokens[k]));
        assert(control_free(path_marker()));
    }
    assert(control_free(seq![' ']));
    lemma_join_control_free(mapped, seq![' ']);
    let paths = redact_path_tokens_spec(b);
    lemma_redact_scan_control_free(paths, seq!['s', 'k', '-', 'o', 'r', '-'], 0, 0);
    let keys = redact_openrouter_keys_spec(paths);
    lemma_redact_scan_control_free(keys, seq!['B', 'e', 'a', 'r', 'e', 'r', ' '], 0, 0);
}

/// No character of `q` occurs in `m`.
pub open spec fn apart(q: Seq<char>, m: Seq<char>) -> bool {
    forall|j: int| 0 <= j < q.len() ==> !m.contains(#[trigger] q[j])
}

/// No character of `q` occurs in the redaction marker.
pub open spec fn apart_from_marker(q: Seq<char>) -> bool {
    apart(q, redacted_marker())
}

proof fn lemma_no_occurrence_subrange(s: Seq<char>, q: Seq<char>, a: int, b: int)
    requires
        0 <= a <= b <= s.len(),
        forall|k: int| a <= k && k + q.len() <= b ==> !occurs_at(s, q, k),
    ensures
        !contains_seq(s.subrange(a, b), q),
{
    let t = s.subrange(a, b);
    if contains_seq(t, q) {
        let k = choose|k: int| occurs_at(t, q, k);
        assert(t.subrange(k, k + q.len()) =~= s.subrange(a + k, a + k + q.len()));
        assert(occurs_at(s, q, a + k));
    }
}

proof fn lemma_no_occurrence_across(x: Seq<char>, m: Seq<char>, y: Seq<char>, q: Seq<char>)
    requires
        q.len() > 0,
        m.len() > 0,
        !contains_seq(x, q),
        !contains_seq(y, q),
        apart(q, m),
    ensures
        !contains_seq(x + m + y, q),
{
    let t = x + m + y;
    if contains_seq(t, q) {
        let k = choose|k: int| occurs_at(t, q, k);
        let ql = q.len() as int;
        assert(t.subrange(k, k + ql) == q);
        if k + ql <= x.len() {
            assert(x.subrange(k, k + ql) =~= t.subrange(k, k + ql));
            assert(occurs_at(x, q, k));
        } else if k >= x.len() + m.len() {
            let k2 = k - x.len() - m.len();
            assert(y.subrange(k2, k2 + ql) =~= t.subrange(k, k + ql));
            assert(occurs_at(y, q, k2));
        } else {
            let pos = if k >= x.len() { k } else { x.len() as int };
            assert(t[pos] == m[pos - x.len()]);
            assert(t.subrange(k, k + ql)[pos - k] == t[pos]);
            assert(q[pos - k] == m[pos - x.len()]);
            assert(m.contains(q[pos - k]));
        }
    }
}

proof fn lemma_scan_removes_pattern(s: Seq<char>, p: Seq<char>, start: int, i: int)
    requires
        p.len() > 0,
        0 <= start <= i,
        start <= s.len(),
        apart_from_marker(p),
        forall|k: int| start <= k < i ==> !occurs_at(s, p, k),
    ensures
        !contains_seq(redact_scan(s, p, start, i), p),
    decreases s.len() - i,
{
    if i + p.len() > s.len() {
        lemma_no_occurrence_subrange(s, p, start, s.len() as int);
    } else if occurs_at(s, p, i) {
        let e = next_ws(s, i + p.len());
        lemma_next_ws_bounds(s, i + p.len());
        lemma_scan_removes_pattern(s, p, e, e);
        lemma_no_occurrence_subrange(s, p, start, i);
        lemma_no_occurrence_across(s.subrange(start, i), redacted_marker(), redact_scan(s, p, e, e), p);
    } else {
        lemma_scan_removes_pattern(s, p, start, i + 1);
    }
}

proof fn lemma_scan_adds_no_pattern(s: Seq<char>, p: Seq<char>, q: Seq<char>, start: int, i: int)
    requires
        q.len() > 0,
        0 <= start <= s.len(),
        apart_from_marker(q),
        !contains_seq(s, q),
    ensures
        !contains_seq(redact_scan(s, p, start, i), q),
    decreases s.len() - i,
{
    if p.len() == 0 || start < 0 || i < start || i + p.len() > s.len() {
        lemma_no_occurrence_subrange(s, q, start, s.len() as int);
    } else if occurs_at(s, p, i) {
        let e = next_ws(s, i + p.len());
        lemma_next_ws_bounds(s, i + p.len());
        lemma_scan_adds_no_pattern(s, p, q, e, e);
        lemma_no_occurrence_subrange(s, q, start, i);
        lemma_no_occurrence_across(s.subrange(start, i), redacted_marker(), redact_scan(s, p, e, e), q);
    } else {
        lemma_scan_adds_no_pattern(s, p, q, start, i + 1);
    }
}

proof fn lemma_scan_keeps_clean_text(s: Seq<char>, p: Seq<char>, start: int, i: int)
    requires
        p.len() > 0,
        0 <= start <= i,
        start <= s.len(),
        !contains_seq(s, p),
    ensures
        redact_scan(s, p, start, i) == s.subrange(start, s.len() as int),
    decreases s.len() - i,
{
    if i + p.len() <= s.len() {
        assert(!occurs_at(s, p, i));
        lemma_scan_keeps_clean_text(s, p, start, i + 1);
    }
}

/// Redacting the tokens after `prefix` leaves no `prefix` behind, and gives
/// a text without `prefix` back unchanged; the prefix shares no character
/// with the marker, as `sk-or-` and `Bearer ` do not.
pub proof fn redaction_removes_prefix_and_keeps_clean_text(s: Seq<char>, prefix: Seq<char>)
    requires
        prefix.len() > 0,
        apart_from_marker(prefix),
    ensures
        !contains_seq(redact_token_after_spec(s, prefix), prefix),
        !contains_seq(s, prefix) ==> redact_token_after_spec(s, prefix) == s,
{
    lemma_scan_removes_pattern(s, prefix, 0, 0);
    if !contains_seq(s, prefix) {
        lemma_scan_keeps_clean_text(s, prefix, 0, 0);
        assert(s.subrange(0, s.len() as int) =~= s);
    }
}

/// No credential survives sanitization: a sanitized technical detail holds
/// neither an OpenRouter key prefix `sk-or-` nor a `Bearer ` token prefix,
/// since each is replaced, with the token after it, by the marker.
pub proof fn sanitized_details_hold_no_credential_prefix(s: Seq<char>)
    ensures
        !contains_seq(sanitize_technical_detail_spec(s), seq!['s', 'k', '-', 'o', 'r', '-']),
        !contains_seq(
            sanitize_technical_detail_spec(s),
            seq!['B', 'e', 'a', 'r', 'e', 'r', ' '],
        ),
{
    let key = seq!['s', 'k', '-', 'o', 'r', '-'];
    let bearer = seq!['B', 'e', 'a', 'r', 'e', 'r', ' '];
    let m = redacted_marker();
    assert(apart_from_marker(key)) by {
        assert forall|j: int| 0 <= j < key.len() implies !m.contains(#[trigger] key[j]) by {
            if m.contains(key[j]) {
                let k = choose|k: int| 0 <= k < m.len() && m[k] == key[j];
            }
        }
    }
    assert(apart_from_marker(bearer)) by {
        assert forall|j: int| 0 <= j < bearer.len() implies !m.contains(#[trigger] bearer[j]) by {
            if m.contains(bearer[j]) {
                let k = choose|k: int| 0 <= k < m.len() && m[k] == bearer[j];
            }
        }
    }
    let paths = redact_path_tokens_spec(bounded_detail(s));
    lemma_scan_removes_pattern(paths, key, 0, 0);
    let keys = redact_openrouter_keys_spec(paths);
    lemma_scan_removes_pattern(keys, bearer, 0, 0);
    lemma_scan_adds_no_pattern(keys, bearer, key, 0, 0);
}

proof fn lemma_join_adds_no_pattern(parts: Seq<Seq<char>>, q: Seq<char>)
    requires
        q.len() > 0,
        apart(q, seq![' ']),
        forall|k: int| 0 <= k < parts.len() ==> !contains_seq(#[trigger] parts[k], q),
    ensures
        !contains_seq(join_spec(parts, seq![' ']), q),
    decreases parts.len(),
{
    if parts.len() == 0 {
        let e = join_spec(parts, seq![' ']);
        if contains_seq(e, q) {
            let k = choose|k: int| occurs_at(e, q, k);
        }
    } else if parts.len() == 1 {
        assert(!contains_seq(parts[0], q));
    } else {
        let front = parts.drop_last();
        assert forall|k: int| 0 <= k < front.len() implies !contains_seq(#[trigger] front[k], q) by {
            assert(front[k] == parts[k]);
        }
        lemma_join_adds_no_pattern(front, q);
        assert(!contains_seq(parts[parts.len() - 1], q));
        lemma_no_occurrence_across(join_spec(front, seq![' ']), seq![' '], parts.last(), q);
    }
}

/// No absolute path survives sanitization: a sanitized technical detail
/// holds no drive path (`:\` or `:/`), since every whitespace-separated
/// token that holds one is replaced by the path marker.
pub proof fn sanitized_details_hold_no_drive_path(s: Seq<char>)
    ensures
        !contains_seq(sanitize_technical_detail_spec(s), seq![':', '\\']),
        !contains_seq(sanitize_technical_detail_spec(s), seq![':', '/']),
{
    let key = seq!['s', 'k', '-', 'o', 'r', '-'];
    let bearer = seq!['B', 'e', 'a', 'r', 'e', 'r', ' '];
    let m = redacted_marker();
    let space = seq![' '];
    let b = bounded_detail(s);
    let tokens = split_whitespace_spec(b);
    let mapped = tokens.map_values(|t: Seq<char>| redact_path_token(t));
    let paths = redact_path_tokens_spec(b);
    let keys = redact_openrouter_keys_spec(paths);
    let pm = path_marker();
    let qs = seq![seq![':', '\\'], seq![':', '/']];
    assert forall|n: int| 0 <= n < 2 implies !contains_seq(
        sanitize_technical_detail_spec(s),
        #[trigger] qs[n],
    ) by {
        let q = qs[n];
        assert(apart(q, m)) by {
            assert forall|j: int| 0 <= j < q.len() implies !m.contains(#[trigger] q[j]) by {
                if m.contains(q[j]) {
                    let k = choose|k: int| 0 <= k < m.len() && m[k] == q[j];
                }
            }
        }
        assert(apart(q, space)) by {
            assert forall|j: int| 0 <= j < q.len() implies !space.contains(#[trigger] q[j]) by {
                if space.contains(q[j]) {
                    let k = choose|k: int| 0 <= k < space.len() && space[k] == q[j];
                }
            }
        }
        assert forall|k: int| 0 <= k < mapped.len() implies !contains_seq(#[trigger] mapped[k], q) by {
            let t = tokens[k];
            if is_path_token(t) {
                assert(mapped[k] == pm);
                if contains_seq(pm, q) {
                    let i = choose|i: int| occurs_at(pm, q, i);
                    assert(pm.subrange(i, i + 2)[0] == pm[i]);
                }
            } else {
                assert(mapped[k] == t);
            }
        }
        lemma_join_adds_no_pattern(mapped, q);
        lemma_scan_adds_no_pattern(paths, key, q, 0, 0);
        lemma_scan_adds_no_pattern(keys, bearer, q, 0, 0);
    }
    assert(qs[0] == seq![':', '\\']);
    assert(qs[1] == seq![':', '/']);
}

} // verus!
