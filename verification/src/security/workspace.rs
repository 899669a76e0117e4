//! Syntax rules for a workspace folder path: an absolute path on a local
//! Windows drive, without traversal, alternate data streams or reserved names.

use vstd::prelude::*;

use crate::errors::{AppError, WorkspaceProblem};
use crate::text::{
    ascii_upper, ascii_upper_spec, chars_equal, ends_with_chars, from_chars, index_of_char,
    is_control, is_control_spec, lemma_next_index_of_bounds, next_index_of, slice_chars,
    split_chars, split_spec, starts_with_chars, starts_with_seq, to_chars, utf16_count, utf16_len,
    utf16_len_spec,
};

verus! {

/// The longest path Windows accepts, in UTF-16 code units.
pub const MAX_WORKSPACE_PATH_UTF16: usize = 32_767;

/// Characters a Windows path component may not hold.
pub open spec fn forbidden_path_char(c: char) -> bool {
    is_control_spec(c) || c == '<' || c == '>' || c == '"' || c == '|' || c == '?' || c == '*'
        || c == '/'
}

/// The path holds a character Windows paths cannot hold, or is too long.
pub open spec fn unsupported_path_text(s: Seq<char>) -> bool {
    utf16_count(s) > MAX_WORKSPACE_PATH_UTF16 || exists|i: int|
        0 <= i < s.len() && forbidden_path_char(#[trigger] s[i])
}

/// `C:`-style drive prefix (`Prefix::Disk`).
pub open spec fn has_disk_prefix(s: Seq<char>) -> bool {
    s.len() >= 2 && (('a' <= s[0] && s[0] <= 'z') || ('A' <= s[0] && s[0] <= 'Z')) && s[1] == ':'
}

/// `\\.\device` or `\\server\share`: a non-disk prefix that makes the path
/// absolute (`Prefix::DeviceNS`, `Prefix::UNC`). Verbatim prefixes contain `?`
/// and are refused before this point.
pub open spec fn has_rooted_network_prefix(s: Seq<char>) -> bool {
    starts_with_seq(s, seq!['\\', '\\']) && {
        let r = s.subrange(2, s.len() as int);
        ||| starts_with_seq(r, seq!['.', '\\'])
        ||| {
            let server_end = next_index_of(r, '\\', 0);
            &&& server_end > 0
            &&& server_end < r.len()
            &&& server_end + 1 < r.len()
            &&& r[server_end + 1] != '\\'
        }
    }
}

/// The first piece of `value` before any `.`, upper-cased in ASCII.
pub open spec fn reserved_base(value: Seq<char>) -> Seq<char> {
    value.take(next_index_of(value, '.', 0)).map_values(|c: char| ascii_upper_spec(c))
}

/// Windows device names that cannot be used as file names.
pub open spec fn is_reserved_windows_name_spec(value: Seq<char>) -> bool {
    let base = reserved_base(value);
    ||| base == seq!['C', 'O', 'N']
    ||| base == seq!['P', 'R', 'N']
    ||| base == seq!['A', 'U', 'X']
    ||| base == seq!['N', 'U', 'L']
    ||| (base.len() == 4 && (base.take(3) == seq!['C', 'O', 'M'] || base.take(3) == seq![
        'L',
        'P',
        'T',
    ]) && '1' <= base[3] && base[3] <= '9')
}

/// Verdict on the components after `C:\`: empty and `.` components are
/// skipped, the first offending component decides, and at least one normal
/// component must remain.
pub open spec fn components_verdict(parts: Seq<Seq<char>>, normals: nat) -> Result<
    (),
    WorkspaceProblem,
>
    decreases parts.len(),
{
    if parts.len() == 0 {
        if normals == 0 {
            Err(WorkspaceProblem::DriveRoot)
        } else {
            Ok(())
        }
    } else {
        let c = parts[0];
        if c.len() == 0 || c == seq!['.'] {
            components_verdict(parts.drop_first(), normals)
        } else if c == seq!['.', '.'] {
            Err(WorkspaceProblem::Traversal)
        } else if exists|i: int| 0 <= i < c.len() && c[i] == ':' {
            Err(WorkspaceProblem::AlternateDataStream)
        } else if c.last() == '.' || c.last() == ' ' || is_reserved_windows_name_spec(c) {
            Err(WorkspaceProblem::ReservedName)
        } else {
            components_verdict(parts.drop_first(), normals + 1)
        }
    }
}

/// Verdict of `validate_workspace_path_syntax` on a path.
pub open spec fn workspace_path_verdict(s: Seq<char>) -> Result<(), WorkspaceProblem> {
    if unsupported_path_text(s) {
        Err(WorkspaceProblem::UnsupportedCharacters)
    } else if has_rooted_network_prefix(s) {
        Err(WorkspaceProblem::NotLocalPrefix)
    } else if !(has_disk_prefix(s) && s.len() >= 3 && s[2] == '\\') {
        Err(WorkspaceProblem::NotAbsolute)
    } else {
        components_verdict(split_spec(s.subrange(3, s.len() as int), '\\'), 0)
    }
}

/// Whether `value` (a path component) is a reserved Windows device name.
pub fn is_reserved_windows_name(value: &str) -> (r: bool)
    ensures
        r == is_reserved_windows_name_spec(value@),
{
    let v = to_chars(value);
    reserved_name_chars(v.as_slice())
}

fn reserved_name_chars(v: &[char]) -> (r: bool)
    ensures
        r == is_reserved_windows_name_spec(v@),
{
    let end = index_of_char(v, '.', 0);
    proof {
        lemma_next_index_of_bounds(v@, '.', 0);
    }
    let mut base: Vec<char> = Vec::new();
    let mut i: usize = 0;
    while i < end
        invariant
            i <= end <= v@.len(),
            end == next_index_of(v@, '.', 0),
            base@ == v@.take(i as int).map_values(|c: char| ascii_upper_spec(c)),
        decreases end - i,
    {
        base.push(ascii_upper(v[i]));
        i = i + 1;
        proof {
            assert(base@ =~= v@.take(i as int).map_values(|c: char| ascii_upper_spec(c)));
        }
    }
    let ghost b = reserved_base(v@);
    assert(base@ == b);
    let con = ['C', 'O', 'N'];
    let prn = ['P', 'R', 'N'];
    let aux = ['A', 'U', 'X'];
    let nul = ['N', 'U', 'L'];
    let com = ['C', 'O', 'M'];
    let lpt = ['L', 'P', 'T'];
    proof {
        assert(con@ =~= seq!['C', 'O', 'N']);
        assert(prn@ =~= seq!['P', 'R', 'N']);
        assert(aux@ =~= seq!['A', 'U', 'X']);
        assert(nul@ =~= seq!['N', 'U', 'L']);
        assert(com@ =~= seq!['C', 'O', 'M']);
        assert(lpt@ =~= seq!['L', 'P', 'T']);
    }
    if chars_equal(base.as_slice(), &con) || chars_equal(base.as_slice(), &prn) || chars_equal(
        base.as_slice(),
        &aux,
    ) || chars_equal(base.as_slice(), &nul) {
        return true;
    }
    if base.len() == 4 {
        let head = slice_chars(base.as_slice(), 0, 3);
        proof {
            assert(head@ =~= b.take(3));
        }
        let d = base[3];
        (chars_equal(head.as_slice(), &com) || chars_equal(head.as_slice(), &lpt)) && '1' <= d
            && d <= '9'
    } else {
        false
    }
}

/// Whether the path text is too long or holds a forbidden character.
fn unsupported_text(s: &[char]) -> (r: bool)
    ensures
        r == unsupported_path_text(s@),
{
    let n = s.len();
    let mut units: usize = 0;
    let mut i: usize = 0;
    while i < n
        invariant
            i <= n,
            n == s@.len(),
            units == utf16_count(s@.take(i as int)),
            units <= MAX_WORKSPACE_PATH_UTF16,
            forall|j: int| 0 <= j < i ==> !forbidden_path_char(#[trigger] s@[j]),
        decreases n - i,
    {
        let c = s[i];
        proof {
            assert(s@.take(i + 1).drop_last() =~= s@.take(i as int));
        }
        if is_control(c) || c == '<' || c == '>' || c == '"' || c == '|' || c == '?' || c == '*'
            || c == '/' {
            return true;
        }
        units = units + utf16_len(c);
        i = i + 1;
        if units > MAX_WORKSPACE_PATH_UTF16 {
            proof {
                lemma_utf16_count_prefix_mono(s@, i as int);
            }
            return true;
        }
    }
    proof {
        assert(s@.take(n as int) =~= s@);
    }
    false
}

proof fn lemma_utf16_count_prefix_mono(s: Seq<char>, i: int)
    requires
        0 <= i <= s.len(),
    ensures
        utf16_count(s.take(i)) <= utf16_count(s),
    decreases s.len() - i,
{
    if i < s.len() {
        lemma_utf16_count_prefix_mono(s, i + 1);
        assert(s.take(i + 1).drop_last() =~= s.take(i));
    } else {
        assert(s.take(i) =~= s);
    }
}

/// Whether the path starts with a device or UNC prefix.
fn rooted_network_prefix(s: &[char]) -> (r: bool)
    ensures
        r == has_rooted_network_prefix(s@),
{
    let two = ['\\', '\\'];
    let dot = ['.', '\\'];
    proof {
        assert(two@ =~= seq!['\\', '\\']);
        assert(dot@ =~= seq!['.', '\\']);
    }
    if !starts_with_chars(s, &two) {
        return false;
    }
    let rest = slice_chars(s, 2, s.len());
    if starts_with_chars(rest.as_slice(), &dot) {
        return true;
    }
    let server_end = index_of_char(rest.as_slice(), '\\', 0);
    server_end > 0 && server_end < rest.len() && server_end + 1 < rest.len() && rest[server_end
        + 1] != '\\'
}

/// Applies the component rules to the pieces after the root.
fn check_components(parts: &Vec<Vec<char>>) -> (r: Result<(), WorkspaceProblem>)
    ensures
        r == components_verdict(parts@.map_values(|p: Vec<char>| p@), 0),
{
    let n = parts.len();
    let ghost all = parts@.map_values(|p: Vec<char>| p@);
    let mut normals: usize = 0;
    let dot = ['.'];
    let dotdot = ['.', '.'];
    proof {
        assert(dot@ =~= seq!['.']);
        assert(dotdot@ =~= seq!['.', '.']);
        assert(all.skip(0) =~= all);
    }
    for i in 0..n
        invariant
            n == parts@.len(),
            dot@ == seq!['.'],
            dotdot@ == seq!['.', '.'],
            all == parts@.map_values(|p: Vec<char>| p@),
            normals <= i,
            components_verdict(all, 0) == components_verdict(all.skip(i as int), normals as nat),
    {
        let c = &parts[i];
        let ghost rest = all.skip(i as int);
        proof {
            assert(rest[0] == c@);
            assert(rest.drop_first() =~= all.skip(i + 1));
        }
        if c.len() == 0 || chars_equal(c.as_slice(), &dot) {
        } else if chars_equal(c.as_slice(), &dotdot) {
            return Err(WorkspaceProblem::Traversal);
        } else {
            let colon = index_of_char(c.as_slice(), ':', 0);
            proof {
                lemma_next_index_of_bounds(c@, ':', 0);
            }
            if colon < c.len() {
                return Err(WorkspaceProblem::AlternateDataStream);
            }
            let last = c[c.len() - 1];
            if last == '.' || last == ' ' || reserved_name_chars(c.as_slice()) {
                return Err(WorkspaceProblem::ReservedName);
            }
            normals = normals + 1;
        }
    }
    proof {
        assert(all.skip(n as int) =~= Seq::<Seq<char>>::empty());
    }
    if normals == 0 {
        Err(WorkspaceProblem::DriveRoot)
    } else {
        Ok(())
    }
}

/// Accepts only an absolute path on a local Windows drive whose components
/// are neither traversal, alternate data streams nor reserved names, and which
/// is not the drive root itself.
pub fn validate_workspace_path_syntax(path: &str) -> (r: Result<(), AppError>)
    ensures
        r is Ok <==> workspace_path_verdict(path@) is Ok,
        r matches Err(e) ==> workspace_path_verdict(path@) matches Err(p)
            && e == AppError::workspace_invalid_spec(p),
{
    let s = to_chars(path);
    if unsupported_text(s.as_slice()) {
        return Err(AppError::workspace_invalid(WorkspaceProblem::UnsupportedCharacters));
    }
    if rooted_network_prefix(s.as_slice()) {
        return Err(AppError::workspace_invalid(WorkspaceProblem::NotLocalPrefix));
    }
    let disk = s.len() >= 3 && (('a' <= s[0] && s[0] <= 'z') || ('A' <= s[0] && s[0] <= 'Z'))
        && s[1] == ':' && s[2] == '\\';
    if !disk {
        return Err(AppError::workspace_invalid(WorkspaceProblem::NotAbsolute));
    }
    let rest = slice_chars(s.as_slice(), 3, s.len());
    let parts = split_chars(rest.as_slice(), '\\');
    proof {
        assert(parts@.map_values(|p: Vec<char>| p@) =~= split_spec(
            s@.subrange(3, s@.len() as int),
            '\\',
        ));
    }
    match check_components(&parts) {
        Ok(()) => Ok(()),
        Err(p) => Err(AppError::workspace_invalid(p)),
    }
}

/// The display form of a canonical path: the verbatim `\\?\` prefix removed.
pub open spec fn display_path_spec(s: Seq<char>) -> Seq<char> {
    if starts_with_seq(s, seq!['\\', '\\', '?', '\\']) {
        s.subrange(4, s.len() as int)
    } else {
        s
    }
}

/// Strips the verbatim prefix that canonicalization adds on Windows.
pub fn display_canonical_path(path: &str) -> (r: String)
    ensures
        r@ == display_path_spec(path@),
{
    let s = to_chars(path);
    let verbatim = ['\\', '\\', '?', '\\'];
    proof {
        assert(verbatim@ =~= seq!['\\', '\\', '?', '\\']);
    }
    if starts_with_chars(s.as_slice(), &verbatim) {
        let rest = slice_chars(s.as_slice(), 4, s.len());
        from_chars(rest.as_slice())
    } else {
        from_chars(s.as_slice())
    }
}

/// The drive letter of a path with a `C:` prefix, upper-cased.
pub fn workspace_drive_letter(path: &str) -> (r: Option<char>)
    ensures
        r is Some <==> has_disk_prefix(path@),
        r matches Some(d) ==> d == ascii_upper_spec(path@[0]),
{
    let s = to_chars(path);
    if s.len() >= 2 && (('a' <= s[0] && s[0] <= 'z') || ('A' <= s[0] && s[0] <= 'Z')) && s[1]
        == ':' {
        Some(ascii_upper(s[0]))
    } else {
        None
    }
}

/// Below this many free bytes a workspace is reported with a warning.
pub const LOW_DISK_WARNING_BYTES: u64 = 1_073_741_824;

/// Largest integer a JSON number carries exactly.
pub const WORKSPACE_JSON_SAFE_INTEGER_MAX: u64 = 9_007_199_254_740_991;

/// The free space a workspace reports, capped at the largest exact JSON
/// integer, and whether it is low enough to warn about.
pub fn free_space_report(available: u64) -> (r: (u64, bool))
    ensures
        r.0 == if available <= WORKSPACE_JSON_SAFE_INTEGER_MAX {
            available
        } else {
            WORKSPACE_JSON_SAFE_INTEGER_MAX
        },
        r.1 == (r.0 < LOW_DISK_WARNING_BYTES),
{
    let free = if available <= WORKSPACE_JSON_SAFE_INTEGER_MAX {
        available
    } else {
        WORKSPACE_JSON_SAFE_INTEGER_MAX
    };
    (free, free < LOW_DISK_WARNING_BYTES)
}

/// Whether a missing workspace folder may be created automatically: only
/// the default leaf `KokoroKoe`.
pub fn may_create_workspace_leaf(leaf: Option<&str>) -> (r: bool)
    ensures
        r == (leaf matches Some(name) && name@ == "KokoroKoe"@),
{
    match leaf {
        Some(name) => crate::text::chars_equal(
            crate::text::to_chars(name).as_slice(),
            crate::text::to_chars("KokoroKoe").as_slice(),
        ),
        None => false,
    }
}

} // verus!
