//! The order in which discovery reports list projects and sessions: the
//! most recent first, then by folder name.

use vstd::prelude::*;

use crate::outside::{parse_rfc3339, rfc3339_instant};
use crate::text::to_chars;

verus! {

/// `a` sorts before `b` when compared character by character, a proper
/// prefix first. On UTF-8 strings this is the byte order `str` compares by.
pub open spec fn seq_lt(a: Seq<char>, b: Seq<char>) -> bool
    decreases a.len(),
{
    if a.len() == 0 {
        b.len() > 0
    } else if b.len() == 0 {
        false
    } else if a[0] != b[0] {
        (a[0] as u32) < (b[0] as u32)
    } else {
        seq_lt(a.drop_first(), b.drop_first())
    }
}

pub proof fn lemma_seq_lt_irreflexive(a: Seq<char>)
    ensures
        !seq_lt(a, a),
    decreases a.len(),
{
    if a.len() > 0 {
        lemma_seq_lt_irreflexive(a.drop_first());
    }
}

pub proof fn lemma_seq_lt_transitive(a: Seq<char>, b: Seq<char>, c: Seq<char>)
    requires
        seq_lt(a, b),
        seq_lt(b, c),
    ensures
        seq_lt(a, c),
    decreases a.len(),
{
    if a.len() > 0 && b.len() > 0 && c.len() > 0 && a[0] == b[0] && b[0] == c[0] {
        lemma_seq_lt_transitive(a.drop_first(), b.drop_first(), c.drop_first());
    }
}

/// Compares two character sequences in the order of `seq_lt`.
pub fn chars_lt(a: &[char], b: &[char]) -> (r: bool)
    ensures
        r == seq_lt(a@, b@),
{
    let mut i: usize = 0;
    proof {
        assert(a@.skip(0) =~= a@);
        assert(b@.skip(0) =~= b@);
    }
    while i < a.len() && i < b.len()
        invariant
            i <= a.len(),
            i <= b.len(),
            seq_lt(a@, b@) == seq_lt(a@.skip(i as int), b@.skip(i as int)),
        decreases a.len() - i,
    {
        if a[i] != b[i] {
            return (a[i] as u32) < (b[i] as u32);
        }
        proof {
            assert(a@.skip(i as int).drop_first() =~= a@.skip(i + 1));
            assert(b@.skip(i as int).drop_first() =~= b@.skip(i + 1));
        }
        i += 1;
    }
    i == a.len() && i < b.len()
}

/// What a discovered project or session is listed by: two instants, the
/// later first, then two folder names in order.
#[derive(Debug, Clone)]
pub struct DiscoveryOrderKey {
    pub primary_instant: i128,
    pub secondary_instant: i128,
    pub folder: Vec<char>,
    pub subfolder: Vec<char>,
}

/// `a` is listed before `b`.
pub open spec fn listed_before(a: DiscoveryOrderKey, b: DiscoveryOrderKey) -> bool {
    a.primary_instant > b.primary_instant || (a.primary_instant == b.primary_instant && (
    a.secondary_instant > b.secondary_instant || (a.secondary_instant == b.secondary_instant && (
    seq_lt(a.folder@, b.folder@) || (a.folder@ == b.folder@ && seq_lt(
        a.subfolder@,
        b.subfolder@,
    ))))))
}

/// Listing order is a strict order: nothing is listed before itself, and
/// it is transitive.
pub proof fn listing_order_is_strict(a: DiscoveryOrderKey, b: DiscoveryOrderKey, c: DiscoveryOrderKey)
    ensures
        !listed_before(a, a),
        listed_before(a, b) && listed_before(b, c) ==> listed_before(a, c),
{
    lemma_seq_lt_irreflexive(a.folder@);
    lemma_seq_lt_irreflexive(a.subfolder@);
    if listed_before(a, b) && listed_before(b, c) {
        if seq_lt(a.folder@, b.folder@) && seq_lt(b.folder@, c.folder@) {
            lemma_seq_lt_transitive(a.folder@, b.folder@, c.folder@);
        }
        if seq_lt(a.subfolder@, b.subfolder@) && seq_lt(b.subfolder@, c.subfolder@) {
            lemma_seq_lt_transitive(a.subfolder@, b.subfolder@, c.subfolder@);
        }
    }
}

/// Decides `listed_before`.
pub fn key_listed_before(a: &DiscoveryOrderKey, b: &DiscoveryOrderKey) -> (r: bool)
    ensures
        r == listed_before(*a, *b),
{
    if a.primary_instant != b.primary_instant {
        return a.primary_instant > b.primary_instant;
    }
    if a.secondary_instant != b.secondary_instant {
        return a.secondary_instant > b.secondary_instant;
    }
    if chars_lt(a.folder.as_slice(), b.folder.as_slice()) {
        return true;
    }
    if chars_lt(b.folder.as_slice(), a.folder.as_slice()) {
        proof {
            lemma_seq_lt_irreflexive(a.folder@);
        }
        return false;
    }
    proof {
        lemma_seq_lt_total(a.folder@, b.folder@);
    }
    chars_lt(a.subfolder.as_slice(), b.subfolder.as_slice())
}

proof fn lemma_seq_lt_total(a: Seq<char>, b: Seq<char>)
    ensures
        a == b || seq_lt(a, b) || seq_lt(b, a),
    decreases a.len(),
{
    if a.len() > 0 && b.len() > 0 {
        vstd::utf8::char_u32_cast(a[0], a[0] as u32);
        vstd::utf8::char_u32_cast(b[0], b[0] as u32);
    }
    if a.len() > 0 && b.len() > 0 && a[0] == b[0] {
        lemma_seq_lt_total(a.drop_first(), b.drop_first());
        if a.drop_first() == b.drop_first() {
            assert(a =~= seq![a[0]] + a.drop_first());
            assert(b =~= seq![b[0]] + b.drop_first());
        }
    } else if a.len() == 0 && b.len() == 0 {
        assert(a =~= b);
    }
}

/// The key a project is listed by: last updated first, then last created,
/// then by folder name.
pub fn project_order_key(updated_at: &str, created_at: &str, folder_name: &str) -> (r: Option<
    DiscoveryOrderKey,
>)
    ensures
        r is Some <==> (rfc3339_instant(updated_at@) is Some && rfc3339_instant(created_at@) is Some),
        r matches Some(k) ==> {
            &&& Some(k.primary_instant as int) == rfc3339_instant(updated_at@)
            &&& Some(k.secondary_instant as int) == rfc3339_instant(created_at@)
            &&& k.folder@ == folder_name@
            &&& k.subfolder@ == Seq::<char>::empty()
        },
{
    let updated = parse_rfc3339(updated_at)?;
    let created = parse_rfc3339(created_at)?;
    Some(
        DiscoveryOrderKey {
            primary_instant: updated,
            secondary_instant: created,
            folder: to_chars(folder_name),
            subfolder: Vec::new(),
        },
    )
}

/// The key a session is listed by: its meeting time (when it started, or
/// else when it was created) latest first, then last updated, then by
/// project folder and session folder.
pub fn session_order_key(
    started_at: Option<&str>,
    created_at: &str,
    updated_at: &str,
    project_folder: &str,
    session_folder: &str,
) -> (r: Option<DiscoveryOrderKey>)
    ensures
        ({
            let meeting = match started_at {
                Some(s) => s@,
                None => created_at@,
            };
            &&& r is Some <==> (rfc3339_instant(meeting) is Some && rfc3339_instant(updated_at@) is Some)
            &&& r matches Some(k) ==> {
                &&& Some(k.primary_instant as int) == rfc3339_instant(meeting)
                &&& Some(k.secondary_instant as int) == rfc3339_instant(updated_at@)
                &&& k.folder@ == project_folder@
                &&& k.subfolder@ == session_folder@
            }
        }),
{
    let meeting_text = match started_at {
        Some(s) => s,
        None => created_at,
    };
    let meeting = parse_rfc3339(meeting_text)?;
    let updated = parse_rfc3339(updated_at)?;
    Some(
        DiscoveryOrderKey {
            primary_instant: meeting,
            secondary_instant: updated,
            folder: to_chars(project_folder),
            subfolder: to_chars(session_folder),
        },
    )
}

/// `order` lists positions of `keys` so that no key is listed before one
/// that precedes it.
pub open spec fn listed_in_order(keys: Seq<DiscoveryOrderKey>, order: Seq<usize>) -> bool {
    forall|x: int, y: int|
        0 <= x < y < order.len() ==> !listed_before(
            #[trigger] keys[order[y] as int],
            #[trigger] keys[order[x] as int],
        )
}

/// The listing order of the discovered items with these keys: every
/// position exactly once, none listed after one it is listed before.
pub fn discovery_order(keys: &Vec<DiscoveryOrderKey>) -> (r: Vec<usize>)
    ensures
        r@.len() == keys@.len(),
        r@.no_duplicates(),
        forall|i: int| 0 <= i < r@.len() ==> r@[i] < keys@.len(),
        forall|k: usize| k < keys@.len() ==> r@.contains(k),
        listed_in_order(keys@, r@),
{
    let n = keys.len();
    let mut order: Vec<usize> = Vec::new();
    for i in 0..n
        invariant
            n == keys@.len(),
            order@.len() == i,
            order@.no_duplicates(),
            forall|a: int| 0 <= a < order@.len() ==> order@[a] < i,
            forall|k: usize| k < i ==> order@.contains(k),
            listed_in_order(keys@, order@),
    {
        let mut p: usize = 0;
        while p < order.len() && !key_listed_before(&keys[i], &keys[order[p]])
            invariant
                p <= order@.len(),
                i < keys@.len(),
                n == keys@.len(),
                order@.len() == i,
                order@.no_duplicates(),
                forall|a: int| 0 <= a < order@.len() ==> order@[a] < i,
                forall|k: usize| k < i ==> order@.contains(k),
                listed_in_order(keys@, order@),
                forall|q: int| 0 <= q < p ==> !listed_before(keys@[i as int], keys@[order@[q] as int]),
            decreases order@.len() - p,
        {
            p += 1;
        }
        let ghost before = order@;
        proof {
            if p < before.len() {
                assert(listed_before(keys@[i as int], keys@[before[p as int] as int]));
            }
        }
        order.insert(p, i);
        proof {
            before.insert_ensures(p as int, i);
            let after = order@;
            assert forall|a: int, b: int|
                0 <= a < after.len() && 0 <= b < after.len() && a != b implies after[a]
                != after[b] by {
                if a != p && b != p {
                    let a0 = if a < p { a } else { a - 1 };
                    let b0 = if b < p { b } else { b - 1 };
                    assert(after[a] == before[a0]);
                    assert(after[b] == before[b0]);
                } else if a == p {
                    let b0 = if b < p { b } else { b - 1 };
                    assert(after[b] == before[b0]);
                } else {
                    let a0 = if a < p { a } else { a - 1 };
                    assert(after[a] == before[a0]);
                }
            }
            assert forall|a: int| 0 <= a < after.len() implies after[a] < i + 1 by {
                if a < p {
                    assert(after[a] == before[a]);
                } else if a > p {
                    assert(after[a] == before[a - 1]);
                }
            }
            assert forall|k: usize| k < i + 1 implies after.contains(k) by {
                if k == i {
                    assert(after[p as int] == k);
                } else {
                    assert(before.contains(k));
                    let q = choose|q: int| 0 <= q < before.len() && before[q] == k;
                    if q < p {
                        assert(after[q] == k);
                    } else {
                        assert(after[q + 1] == k);
                    }
                }
            }
            assert forall|x: int, y: int| 0 <= x < y < after.len() implies !listed_before(
                #[trigger] keys@[after[y] as int],
                #[trigger] keys@[after[x] as int],
            ) by {
                let ki = keys@[i as int];
                if y < p {
                    assert(after[x] == before[x] && after[y] == before[y]);
                } else if x > p {
                    assert(after[x] == before[x - 1] && after[y] == before[y - 1]);
                } else if x < p && y > p {
                    assert(after[x] == before[x] && after[y] == before[y - 1]);
                } else if y == p {
                    assert(after[x] == before[x]);
                } else {
                    assert(after[y] == before[y - 1]);
                    let kp = keys@[before[p as int] as int];
                    let ky = keys@[before[y - 1] as int];
                    listing_order_is_strict(ky, ki, kp);
                    listing_order_is_strict(ki, kp, ki);
                    listing_order_is_strict(kp, ki, kp);
                }
            }
        }
    }
    order
}

} // verus!
