//! Rules of the project snapshot store: error codes, identity, fingerprints,
//! update validation and discovery bookkeeping.

use vstd::prelude::*;

use crate::codes::Code;
use crate::persistence::discovery_order::{discovery_order, listed_in_order, DiscoveryOrderKey};
use crate::persistence::layout::{record_folder_ok, record_folder_valid};
use crate::outside::{join_path, joined_path, plain_file_name};
use crate::outside::{parse_rfc3339, rfc3339_instant, sha256, sha256_digest};
use crate::text::{chars_equal, is_control, is_control_spec, push_str, to_chars, utf8_byte_len, utf8_count};

verus! {

/// Largest accepted `project.md`, in bytes.
pub const MAX_PROJECT_DOCUMENT_BYTES: u64 = 131_072;

/// Most discovery issues kept in a report; further ones only set
/// `issues_truncated`.
pub const MAX_DISCOVERY_ISSUES: usize = 256;

/// Most entries of `projects/` that discovery scans.
pub const MAX_DISCOVERY_ENTRIES: usize = 4_096;

/// A project store failure.
#[derive(Debug, Clone, Copy, PartialEq, Eq, Structural)]
pub struct ProjectStoreError {
    pub code: Code,
}

impl ProjectStoreError {
    /// An error with `code`.
    pub fn new(code: Code) -> (r: Self)
        ensures
            r.code == code,
    {
        Self { code }
    }

    pub open spec fn is_recoverable_spec(self) -> bool {
        self.code == Code::ProjectSnapshotMissing || self.code == Code::ProjectSnapshotInvalid
            || self.code == Code::ProjectSnapshotTooLarge
    }

    /// A missing, malformed or oversized snapshot may be recovered from its backup.
    pub fn is_recoverable_snapshot_failure(self) -> (r: bool)
        ensures
            r == self.is_recoverable_spec(),
    {
        match self.code {
            Code::ProjectSnapshotMissing | Code::ProjectSnapshotInvalid
            | Code::ProjectSnapshotTooLarge => true,
            _ => false,
        }
    }
}

/// What the store rules read of a project record.
#[derive(Debug)]
pub struct ProjectIdentity {
    pub id: u128,
    pub folder_name: String,
    pub created_at: String,
    pub updated_at: String,
    pub revision: u64,
}

/// Where a project lives: its identifier and folder name.
#[derive(Debug)]
pub struct ProjectLocator {
    pub id: u128,
    pub folder_name: String,
}

impl ProjectLocator {
    /// The locator of `project`; a record whose folder name breaks the
    /// records' folder-name rule is refused as `project_contract_invalid`.
    pub fn from_project(project: &ProjectIdentity) -> (r: Result<ProjectLocator, ProjectStoreError>)
        ensures
            r is Ok <==> record_folder_ok(project.folder_name@),
            r matches Err(e) ==> e.code == Code::ProjectContractInvalid,
            r matches Ok(l) ==> l.id == project.id && l.folder_name@ == project.folder_name@,
    {
        if !record_folder_valid(project.folder_name.as_str()) {
            return Err(ProjectStoreError::new(Code::ProjectContractInvalid));
        }
        Ok(ProjectLocator { id: project.id, folder_name: project.folder_name.clone() })
    }
}

/// SHA-256 of the exact bytes of a `project.md`.
#[derive(Debug, Clone, Copy)]
pub struct ProjectSnapshotFingerprint(pub [u8; 32]);

impl ProjectSnapshotFingerprint {
    /// The fingerprint of the document `bytes`.
    pub fn of_document(bytes: &[u8]) -> (r: Self)
        ensures
            r.0 == sha256_digest(bytes@),
    {
        ProjectSnapshotFingerprint(sha256(bytes))
    }

    /// The digest bytes.
    pub fn as_bytes(self) -> (r: [u8; 32])
        ensures
            r == self.0,
    {
        self.0
    }
}

/// Whether two 32-byte digests are equal.
pub fn digests_equal(a: &[u8; 32], b: &[u8; 32]) -> (r: bool)
    ensures
        r == (a@ == b@),
{
    let mut i: usize = 0;
    while i < 32
        invariant
            i <= 32,
            a@.len() == 32,
            b@.len() == 32,
            forall|j: int| 0 <= j < i ==> a@[j] == b@[j],
        decreases 32 - i,
    {
        if a[i] != b[i] {
            return false;
        }
        i = i + 1;
    }
    proof {
        assert(a@ =~= b@);
    }
    true
}

/// Verdict of `validate_project_update`.
pub open spec fn project_update_verdict(
    current: ProjectIdentity,
    updated: ProjectIdentity,
    expected_revision: u64,
    expected_fingerprint: Seq<u8>,
    current_fingerprint: Seq<u8>,
) -> Result<(), Code> {
    if current.revision != expected_revision {
        Err(Code::ProjectRevisionConflict)
    } else if expected_fingerprint != current_fingerprint {
        Err(Code::ProjectExternalModification)
    } else if current.id != updated.id || current.folder_name@ != updated.folder_name@
        || current.created_at@ != updated.created_at@ {
        Err(Code::ProjectSnapshotIdentityMismatch)
    } else if expected_revision + 1 > u64::MAX || expected_revision + 1 != updated.revision {
        Err(Code::ProjectRevisionInvalid)
    } else if rfc3339_instant(current.updated_at@) is None {
        Err(Code::ProjectSnapshotInvalid)
    } else if rfc3339_instant(updated.updated_at@) is None {
        Err(Code::ProjectContractInvalid)
    } else if rfc3339_instant(updated.updated_at@)->0 < rfc3339_instant(current.updated_at@)->0 {
        Err(Code::ProjectRevisionInvalid)
    } else {
        Ok(())
    }
}

/// An update is accepted only against the revision and the exact snapshot
/// it was made from: a stale revision is a conflict, a snapshot edited since
/// is an external modification, a changed identity is refused as such, and
/// an accepted update keeps the identity,
/// advances the revision by one and does not move `updated_at` back.
pub proof fn accepted_project_updates_are_current_and_unmodified(
    current: ProjectIdentity,
    updated: ProjectIdentity,
    expected_revision: u64,
    expected_fingerprint: Seq<u8>,
    current_fingerprint: Seq<u8>,
)
    ensures
        ({
            let v = project_update_verdict(
                current,
                updated,
                expected_revision,
                expected_fingerprint,
                current_fingerprint,
            );
            &&& current.revision != expected_revision ==> v == Err::<(), Code>(
                Code::ProjectRevisionConflict,
            )
            &&& current.revision == expected_revision && expected_fingerprint != current_fingerprint
                ==> v == Err::<(), Code>(Code::ProjectExternalModification)
            &&& current.revision == expected_revision && expected_fingerprint == current_fingerprint
                && (current.id != updated.id || current.folder_name@ != updated.folder_name@
                || current.created_at@ != updated.created_at@) ==> v == Err::<(), Code>(
                Code::ProjectSnapshotIdentityMismatch,
            )
            &&& v is Ok ==> {
                &&& current.revision == expected_revision
                &&& expected_fingerprint == current_fingerprint
                &&& updated.id == current.id
                &&& updated.folder_name@ == current.folder_name@
                &&& updated.created_at@ == current.created_at@
                &&& updated.revision == current.revision + 1
                &&& rfc3339_instant(current.updated_at@)->0 <= rfc3339_instant(
                    updated.updated_at@,
                )->0
            }
        }),
{
}

/// An update must name the acknowledged revision and snapshot, keep the
/// project's identity, advance the revision by exactly one, and not move
/// `updated_at` backwards.
pub fn validate_project_update(
    current: &ProjectIdentity,
    updated: &ProjectIdentity,
    expected_revision: u64,
    expected_fingerprint: ProjectSnapshotFingerprint,
    current_fingerprint: ProjectSnapshotFingerprint,
) -> (r: Result<(), ProjectStoreError>)
    ensures
        r matches Ok(()) ==> project_update_verdict(
            *current,
            *updated,
            expected_revision,
            expected_fingerprint.0@,
            current_fingerprint.0@,
        ) is Ok,
        r matches Err(e) ==> project_update_verdict(
            *current,
            *updated,
            expected_revision,
            expected_fingerprint.0@,
            current_fingerprint.0@,
        ) == Err::<(), Code>(e.code),
{
    if current.revision != expected_revision {
        return Err(ProjectStoreError::new(Code::ProjectRevisionConflict));
    }
    if !digests_equal(&expected_fingerprint.0, &current_fingerprint.0) {
        return Err(ProjectStoreError::new(Code::ProjectExternalModification));
    }
    if current.id != updated.id || current.folder_name != updated.folder_name
        || current.created_at != updated.created_at {
        return Err(ProjectStoreError::new(Code::ProjectSnapshotIdentityMismatch));
    }
    if expected_revision == u64::MAX || expected_revision + 1 != updated.revision {
        return Err(ProjectStoreError::new(Code::ProjectRevisionInvalid));
    }
    let current_updated = match parse_rfc3339(current.updated_at.as_str()) {
        Some(v) => v,
        None => return Err(ProjectStoreError::new(Code::ProjectSnapshotInvalid)),
    };
    let next_updated = match parse_rfc3339(updated.updated_at.as_str()) {
        Some(v) => v,
        None => return Err(ProjectStoreError::new(Code::ProjectContractInvalid)),
    };
    if next_updated < current_updated {
        return Err(ProjectStoreError::new(Code::ProjectRevisionInvalid));
    }
    Ok(())
}

/// Checks a project read during discovery against the folder it was found
/// in: the record must name that folder.
pub fn check_discovered_project(folder: &str, identity: &ProjectIdentity) -> (r: Result<
    (),
    ProjectStoreError,
>)
    ensures
        r is Ok <==> identity.folder_name@ == folder@,
        r matches Err(e) ==> e.code == Code::ProjectSnapshotIdentityMismatch,
{
    if !chars_equal(to_chars(identity.folder_name.as_str()).as_slice(), to_chars(folder).as_slice()) {
        return Err(ProjectStoreError::new(Code::ProjectSnapshotIdentityMismatch));
    }
    Ok(())
}

/// One problem found while discovering projects.
#[derive(Debug)]
pub struct ProjectDiscoveryIssue {
    pub entry_name: Option<String>,
    pub code: Code,
}

/// The result of discovering projects: the snapshots found (of type `P`)
/// and bounded issue details.
#[derive(Debug)]
pub struct ProjectDiscoveryReport<P> {
    pub projects: Vec<P>,
    pub issues: Vec<ProjectDiscoveryIssue>,
    pub scanned_entries: u32,
    pub truncated: bool,
    pub issues_truncated: bool,
}

/// The issue list after recording `code` for `entry_name`: the issue is
/// appended while fewer than `MAX_DISCOVERY_ISSUES` are kept.
pub open spec fn with_issue(
    issues: Seq<ProjectDiscoveryIssue>,
    entry_name: Option<String>,
    code: Code,
) -> Seq<ProjectDiscoveryIssue> {
    if issues.len() < MAX_DISCOVERY_ISSUES {
        issues.push(ProjectDiscoveryIssue { entry_name, code })
    } else {
        issues
    }
}

/// The issues that record `code` for each of `names`, in order.
pub open spec fn issues_for(names: Seq<Option<String>>, code: Code) -> Seq<ProjectDiscoveryIssue> {
    names.map_values(|name: Option<String>| ProjectDiscoveryIssue { entry_name: name, code })
}

/// The issue list after recording `code` for each of `names`, in order:
/// the new issues are appended while fewer than `MAX_DISCOVERY_ISSUES` are kept.
pub open spec fn with_issues(
    issues: Seq<ProjectDiscoveryIssue>,
    names: Seq<Option<String>>,
    code: Code,
) -> Seq<ProjectDiscoveryIssue> {
    if issues.len() >= MAX_DISCOVERY_ISSUES {
        issues
    } else if issues.len() + names.len() <= MAX_DISCOVERY_ISSUES {
        issues + issues_for(names, code)
    } else {
        issues + issues_for(names, code).take(MAX_DISCOVERY_ISSUES - issues.len())
    }
}

/// Recording the issue of one more name extends the list of the earlier
/// ones by `with_issue`.
proof fn lemma_with_issues_step(
    issues: Seq<ProjectDiscoveryIssue>,
    names: Seq<Option<String>>,
    code: Code,
    k: int,
)
    requires
        0 <= k < names.len(),
    ensures
        with_issues(issues, names.take(k + 1), code) == with_issue(
            with_issues(issues, names.take(k), code),
            names[k],
            code,
        ),
{
    let before = with_issues(issues, names.take(k), code);
    let after = with_issues(issues, names.take(k + 1), code);
    if issues.len() < MAX_DISCOVERY_ISSUES {
        if issues.len() + k < MAX_DISCOVERY_ISSUES {
            assert(after =~= before.push(ProjectDiscoveryIssue { entry_name: names[k], code }));
        } else {
            assert(after =~= before);
        }
    }
}

/// Records an issue while fewer than `MAX_DISCOVERY_ISSUES` are kept;
/// afterwards only marks the issues as truncated.
pub fn push_discovery_issue<P>(
    report: &mut ProjectDiscoveryReport<P>,
    entry_name: Option<String>,
    code: Code,
)
    ensures
        final(report).projects@ == old(report).projects@,
        final(report).scanned_entries == old(report).scanned_entries,
        final(report).truncated == old(report).truncated,
        old(report).issues@.len() < MAX_DISCOVERY_ISSUES ==> {
            &&& final(report).issues@.len() == old(report).issues@.len() + 1
            &&& final(report).issues@.take(old(report).issues@.len() as int)
                == old(report).issues@
            &&& final(report).issues@.last().code == code
            &&& final(report).issues@.last().entry_name == entry_name
            &&& final(report).issues_truncated == old(report).issues_truncated
        },
        old(report).issues@.len() >= MAX_DISCOVERY_ISSUES ==> {
            &&& final(report).issues@ == old(report).issues@
            &&& final(report).issues_truncated
        },
        final(report).issues@ == with_issue(old(report).issues@, entry_name, code),
        final(report).issues_truncated == (old(report).issues_truncated || old(report).issues@.len()
            >= MAX_DISCOVERY_ISSUES),
{
    if report.issues.len() < MAX_DISCOVERY_ISSUES {
        report.issues.push(ProjectDiscoveryIssue { entry_name, code });
        proof {
            assert(report.issues@.take(old(report).issues@.len() as int) =~= old(
                report,
            ).issues@);
        }
    } else {
        report.issues_truncated = true;
    }
}

/// A folder name that may be echoed in an issue: non-empty, at most 128 UTF-8
/// bytes, no control characters.
pub open spec fn safe_entry_name_spec(name: Seq<char>) -> bool {
    name.len() > 0 && utf8_count(name) <= 128 && forall|i: int|
        0 <= i < name.len() ==> !is_control_spec(#[trigger] name[i])
}

/// The entry name when it may be reported, otherwise `None`.
pub fn safe_discovery_entry_name(name: &str) -> (r: Option<String>)
    ensures
        r is Some <==> safe_entry_name_spec(name@),
        r matches Some(s) ==> s@ == name@,
{
    let chars = to_chars(name);
    if chars.len() == 0 || utf8_byte_len(chars.as_slice()) > 128 {
        return None;
    }
    let n = chars.len();
    for i in 0..n
        invariant
            n == chars@.len(),
            chars@ == name@,
            forall|j: int| 0 <= j < i ==> !is_control_spec(#[trigger] chars@[j]),
    {
        if is_control(chars[i]) {
            return None;
        }
    }
    let mut r = String::new();
    push_str(&mut r, name);
    Some(r)
}

/// The directory a discovery scans.
#[derive(Debug, Clone, Copy, PartialEq, Eq, Structural)]
pub enum DiscoveryScope {
    Projects,
    Sessions,
}

/// The issue code of an entry whose metadata cannot be read.
pub open spec fn metadata_code(scope: DiscoveryScope) -> Code {
    match scope {
        DiscoveryScope::Projects => Code::ProjectEntryMetadataUnavailable,
        DiscoveryScope::Sessions => Code::SessionEntryMetadataUnavailable,
    }
}

/// The issue code of an entry that is no plain directory.
pub open spec fn not_directory_code(scope: DiscoveryScope) -> Code {
    match scope {
        DiscoveryScope::Projects => Code::ProjectEntryNotDirectory,
        DiscoveryScope::Sessions => Code::SessionEntryNotDirectory,
    }
}

/// The issue code of an entry whose name cannot name a folder.
pub open spec fn name_invalid_code(scope: DiscoveryScope) -> Code {
    match scope {
        DiscoveryScope::Projects => Code::ProjectEntryNameInvalid,
        DiscoveryScope::Sessions => Code::SessionEntryNameInvalid,
    }
}

/// Checks one directory entry before its document is read: its type must
/// be known (`file_type` holds whether it is a directory and whether it is
/// a symbolic link), it must be a directory and no link, and its name must
/// be Unicode (`folder_name` is `None` otherwise), non-empty, at most 128
/// UTF-8 bytes and free of control characters.
pub fn check_discovery_entry(
    scope: DiscoveryScope,
    file_type: Option<(bool, bool)>,
    folder_name: Option<&str>,
) -> (r: Result<(), Code>)
    ensures
        file_type is None ==> r == Err::<(), Code>(metadata_code(scope)),
        (file_type matches Some((is_dir, is_link)) && (!is_dir || is_link)) ==> r == Err::<
            (),
            Code,
        >(not_directory_code(scope)),
        (file_type == Some((true, false)) && !(folder_name matches Some(n) && safe_entry_name_spec(
            n@,
        ))) ==> r == Err::<(), Code>(name_invalid_code(scope)),
        r is Ok <==> file_type == Some((true, false)) && (folder_name matches Some(n)
            && safe_entry_name_spec(n@)),
{
    let (is_dir, is_link) = match file_type {
        Some(t) => t,
        None => {
            return Err(
                match scope {
                    DiscoveryScope::Projects => Code::ProjectEntryMetadataUnavailable,
                    DiscoveryScope::Sessions => Code::SessionEntryMetadataUnavailable,
                },
            )
        },
    };
    if !is_dir || is_link {
        return Err(
            match scope {
                DiscoveryScope::Projects => Code::ProjectEntryNotDirectory,
                DiscoveryScope::Sessions => Code::SessionEntryNotDirectory,
            },
        );
    }
    let name_ok = match folder_name {
        Some(n) => safe_discovery_entry_name(n).is_some(),
        None => false,
    };
    if !name_ok {
        return Err(
            match scope {
                DiscoveryScope::Projects => Code::ProjectEntryNameInvalid,
                DiscoveryScope::Sessions => Code::SessionEntryNameInvalid,
            },
        );
    }
    Ok(())
}

/// The report of a project scan that met more than `MAX_DISCOVERY_ENTRIES`
/// entries: nothing listed, one issue, and the scan marked truncated.
pub fn project_limit_report<P>() -> (r: ProjectDiscoveryReport<P>)
    ensures
        r.projects@.len() == 0,
        r.issues@.len() == 1,
        r.issues@[0].entry_name is None,
        r.issues@[0].code == Code::ProjectDiscoveryLimitExceeded,
        r.scanned_entries == MAX_DISCOVERY_ENTRIES + 1,
        r.truncated,
        !r.issues_truncated,
{
    ProjectDiscoveryReport {
        projects: Vec::new(),
        issues: vec![ProjectDiscoveryIssue { entry_name: None, code: Code::ProjectDiscoveryLimitExceeded }],
        scanned_entries: (MAX_DISCOVERY_ENTRIES + 1) as u32,
        truncated: true,
        issues_truncated: false,
    }
}

/// Identity of a candidate found by discovery.
#[derive(Debug)]
pub struct DiscoveryCandidate<P> {
    pub snapshot: P,
    pub id: u128,
    pub entry_name: Option<String>,
}

/// How many candidates carry `id`.
pub open spec fn id_count<P>(candidates: Seq<DiscoveryCandidate<P>>, id: u128) -> nat
    decreases candidates.len(),
{
    if candidates.len() == 0 {
        0
    } else {
        id_count(candidates.drop_last(), id) + if candidates.last().id == id {
            1nat
        } else {
            0nat
        }
    }
}

/// Number of candidates, among the first `n`, that carry `id`.
fn count_id<P>(candidates: &Vec<DiscoveryCandidate<P>>, id: u128) -> (r: usize)
    ensures
        r as nat == id_count(candidates@, id),
{
    let n = candidates.len();
    let mut k: usize = 0;
    for i in 0..n
        invariant
            n == candidates@.len(),
            k as nat == id_count(candidates@.take(i as int), id),
            k <= i,
    {
        proof {
            assert(candidates@.take(i + 1).drop_last() =~= candidates@.take(i as int));
        }
        if candidates[i].id == id {
            k = k + 1;
        }
    }
    proof {
        assert(candidates@.take(n as int) =~= candidates@);
    }
    k
}

/// The snapshots, in order, of those among the first `n` candidates whose
/// identifier no other candidate claims.
pub open spec fn unique_snapshots<P>(c: Seq<DiscoveryCandidate<P>>, n: nat) -> Seq<P>
    decreases n,
{
    if n == 0 || n > c.len() {
        seq![]
    } else if id_count(c, c[n - 1].id) == 1 {
        unique_snapshots(c, (n - 1) as nat).push(c[n - 1].snapshot)
    } else {
        unique_snapshots(c, (n - 1) as nat)
    }
}

/// The entry names, in order, of those among the first `n` candidates whose
/// identifier another candidate claims too.
pub open spec fn duplicate_entry_names<P>(c: Seq<DiscoveryCandidate<P>>, n: nat) -> Seq<
    Option<String>,
>
    decreases n,
{
    if n == 0 || n > c.len() {
        seq![]
    } else if id_count(c, c[n - 1].id) == 1 {
        duplicate_entry_names(c, (n - 1) as nat)
    } else {
        duplicate_entry_names(c, (n - 1) as nat).push(c[n - 1].entry_name)
    }
}

/// Splits discovery candidates into the snapshots whose identifier exactly
/// one candidate carries and the entry names of all candidates that share an
/// identifier, both in discovery order.
pub fn split_duplicate_ids<P>(candidates: Vec<DiscoveryCandidate<P>>) -> (r: (
    Vec<P>,
    Vec<Option<String>>,
))
    ensures
        r.0@ == unique_snapshots(candidates@, candidates@.len() as nat),
        r.1@ == duplicate_entry_names(candidates@, candidates@.len() as nat),
{
    let ghost all = candidates@;
    let n = candidates.len();
    let mut counts: Vec<usize> = Vec::new();
    for i in 0..n
        invariant
            n == candidates@.len(),
            all == candidates@,
            counts@.len() == i,
            forall|j: int| 0 <= j < i ==> counts@[j] as nat == id_count(all, #[trigger] all[j].id),
    {
        let c = count_id(&candidates, candidates[i].id);
        counts.push(c);
    }
    let mut kept: Vec<P> = Vec::new();
    let mut duplicates: Vec<Option<String>> = Vec::new();
    let mut rest = candidates;
    let mut i: usize = 0;
    while i < n
        invariant
            i <= n,
            n == all.len(),
            counts@.len() == n,
            forall|j: int| 0 <= j < n ==> counts@[j] as nat == id_count(all, #[trigger] all[j].id),
            rest@ == all.skip(i as int),
            kept@ == unique_snapshots(all, i as nat),
            duplicates@ == duplicate_entry_names(all, i as nat),
        decreases n - i,
    {
        let ghost old_rest = rest@;
        let candidate = rest.remove(0);
        proof {
            assert(candidate == all[i as int]);
            assert(rest@ =~= all.skip(i + 1));
        }
        if counts[i] == 1 {
            kept.push(candidate.snapshot);
        } else {
            duplicates.push(candidate.entry_name);
        }
        proof {
            assert(kept@ =~= unique_snapshots(all, (i + 1) as nat));
            assert(duplicates@ =~= duplicate_entry_names(all, (i + 1) as nat));
        }
        i = i + 1;
    }
    (kept, duplicates)
}

/// Records a `project_duplicate_id` issue for each of `names`, in order.
fn push_duplicate_issues<P>(report: &mut ProjectDiscoveryReport<P>, names: Vec<Option<String>>)
    ensures
        final(report).projects@ == old(report).projects@,
        final(report).scanned_entries == old(report).scanned_entries,
        final(report).truncated == old(report).truncated,
        final(report).issues@ == with_issues(old(report).issues@, names@, Code::ProjectDuplicateId),
        final(report).issues_truncated == (old(report).issues_truncated || (names@.len() > 0
            && old(report).issues@.len() + names@.len() > MAX_DISCOVERY_ISSUES)),
{
    let ghost all = names@;
    let ghost start = report.issues@;
    let ghost mut k: int = 0;
    let mut rest = names;
    proof {
        assert(with_issues(start, all.take(0), Code::ProjectDuplicateId) =~= start);
    }
    while rest.len() > 0
        invariant
            report.projects@ == old(report).projects@,
            report.scanned_entries == old(report).scanned_entries,
            report.truncated == old(report).truncated,
            start == old(report).issues@,
            0 <= k <= all.len(),
            rest@ == all.skip(k),
            report.issues@ == with_issues(start, all.take(k), Code::ProjectDuplicateId),
            report.issues_truncated == (old(report).issues_truncated || (k > 0 && start.len() + k
                > MAX_DISCOVERY_ISSUES)),
        decreases rest@.len(),
    {
        let name = rest.remove(0);
        proof {
            assert(name == all[k]);
            lemma_with_issues_step(start, all, Code::ProjectDuplicateId, k);
        }
        push_discovery_issue(report, name, Code::ProjectDuplicateId);
        proof {
            k = k + 1;
            assert(rest@ =~= all.skip(k));
        }
    }
    proof {
        assert(all.take(k) =~= all);
    }
}

/// Keeps, in order, only the candidates whose identifier no other candidate
/// claims; each candidate that shares an identifier is reported, in order,
/// as `project_duplicate_id` instead.
pub fn exclude_duplicate_ids<P>(
    report: &mut ProjectDiscoveryReport<P>,
    candidates: Vec<DiscoveryCandidate<P>>,
)
    ensures
        final(report).projects@ == old(report).projects@ + unique_snapshots(
            candidates@,
            candidates@.len() as nat,
        ),
        final(report).scanned_entries == old(report).scanned_entries,
        final(report).truncated == old(report).truncated,
        ({
            let names = duplicate_entry_names(candidates@, candidates@.len() as nat);
            &&& final(report).issues@ == with_issues(
                old(report).issues@,
                names,
                Code::ProjectDuplicateId,
            )
            &&& final(report).issues_truncated == (old(report).issues_truncated || (names.len() > 0
                && old(report).issues@.len() + names.len() > MAX_DISCOVERY_ISSUES))
        }),
{
    let (mut kept, duplicates) = split_duplicate_ids(candidates);
    report.projects.append(&mut kept);
    push_duplicate_issues(report, duplicates);
}

proof fn lemma_id_count_positive<P>(c: Seq<DiscoveryCandidate<P>>, i: int)
    requires
        0 <= i < c.len(),
    ensures
        id_count(c, c[i].id) >= 1,
    decreases c.len(),
{
    if i < c.len() - 1 {
        assert(c.drop_last()[i] == c[i]);
        lemma_id_count_positive(c.drop_last(), i);
    }
}

proof fn lemma_id_count_two<P>(c: Seq<DiscoveryCandidate<P>>, i: int, j: int)
    requires
        0 <= i < c.len(),
        0 <= j < c.len(),
        i != j,
        c[i].id == c[j].id,
    ensures
        id_count(c, c[i].id) >= 2,
    decreases c.len(),
{
    let n = c.len() - 1;
    let front = c.drop_last();
    if i == n {
        assert(front[j] == c[j]);
        lemma_id_count_positive(front, j);
    } else if j == n {
        assert(front[i] == c[i]);
        lemma_id_count_positive(front, i);
    } else {
        assert(front[i] == c[i] && front[j] == c[j]);
        lemma_id_count_two(front, i, j);
    }
}

/// Discovery keeps a folder's project only when no other folder claims its
/// identifier: a kept candidate's identifier is carried by no other one.
pub proof fn kept_ids_are_claimed_once<P>(candidates: Seq<DiscoveryCandidate<P>>, i: int, j: int)
    requires
        0 <= i < candidates.len(),
        0 <= j < candidates.len(),
        i != j,
        id_count(candidates, candidates[i].id) == 1,
    ensures
        candidates[j].id != candidates[i].id,
{
    if candidates[j].id == candidates[i].id {
        lemma_id_count_two(candidates, i, j);
    }
}

/// The candidates, among the first `n`, whose identifier no other candidate
/// claims, in order.
pub open spec fn kept_candidates<P>(c: Seq<DiscoveryCandidate<P>>, n: nat) -> Seq<
    DiscoveryCandidate<P>,
>
    decreases n,
{
    if n == 0 || n > c.len() {
        seq![]
    } else if id_count(c, c[n - 1].id) == 1 {
        kept_candidates(c, (n - 1) as nat).push(c[n - 1])
    } else {
        kept_candidates(c, (n - 1) as nat)
    }
}

proof fn lemma_kept_snapshots<P>(c: Seq<DiscoveryCandidate<P>>, n: nat)
    ensures
        unique_snapshots(c, n) == kept_candidates(c, n).map_values(
            |x: DiscoveryCandidate<P>| x.snapshot,
        ),
    decreases n,
{
    if n > 0 && n <= c.len() {
        lemma_kept_snapshots(c, (n - 1) as nat);
    }
    assert(unique_snapshots(c, n) =~= kept_candidates(c, n).map_values(
        |x: DiscoveryCandidate<P>| x.snapshot,
    ));
}

proof fn lemma_kept_claimed_once<P>(c: Seq<DiscoveryCandidate<P>>, n: nat)
    ensures
        forall|i: int|
            0 <= i < kept_candidates(c, n).len() ==> id_count(c, (#[trigger] kept_candidates(c, n)[i]).id)
                == 1,
    decreases n,
{
    if n > 0 && n <= c.len() {
        lemma_kept_claimed_once(c, (n - 1) as nat);
    }
}

proof fn lemma_kept_count<P>(c: Seq<DiscoveryCandidate<P>>, n: nat, id: u128)
    requires
        n <= c.len(),
    ensures
        id_count(kept_candidates(c, n), id) <= id_count(c.take(n as int), id),
    decreases n,
{
    if n > 0 {
        lemma_kept_count(c, (n - 1) as nat, id);
        let k = kept_candidates(c, (n - 1) as nat);
        assert(c.take(n as int).drop_last() =~= c.take(n - 1));
        if id_count(c, c[n - 1].id) == 1 {
            assert(k.push(c[n - 1]).drop_last() =~= k);
        }
    }
}

/// The kept candidates carry pairwise distinct identifiers, each claimed by
/// no other candidate.
pub proof fn kept_candidates_are_distinct<P>(c: Seq<DiscoveryCandidate<P>>)
    ensures
        forall|i: int|
            0 <= i < kept_candidates(c, c.len()).len() ==> id_count(
                c,
                (#[trigger] kept_candidates(c, c.len())[i]).id,
            ) == 1,
        forall|i: int, j: int|
            0 <= i < j < kept_candidates(c, c.len()).len() ==> (#[trigger] kept_candidates(
                c,
                c.len(),
            )[i]).id != (#[trigger] kept_candidates(c, c.len())[j]).id,
{
    let kept = kept_candidates(c, c.len());
    lemma_kept_claimed_once(c, c.len());
    assert(c.take(c.len() as int) =~= c);
    assert forall|i: int, j: int| 0 <= i < j < kept.len() implies (#[trigger] kept[i]).id
        != (#[trigger] kept[j]).id by {
        if kept[i].id == kept[j].id {
            lemma_kept_count(c, c.len(), kept[i].id);
            lemma_id_count_two(kept, i, j);
        }
    }
}

/// `listed` is the snapshots of `kept` in the listing order of their keys
/// (each kept candidate carries one):
/// `order` names each kept candidate once, and no candidate is listed after
/// one it is listed before.
pub open spec fn is_listing<P>(
    kept: Seq<DiscoveryCandidate<(P, Option<DiscoveryOrderKey>)>>,
    listed: Seq<P>,
    order: Seq<usize>,
) -> bool {
    &&& order.len() == kept.len()
    &&& listed.len() == kept.len()
    &&& order.no_duplicates()
    &&& forall|i: int| 0 <= i < order.len() ==> (#[trigger] order[i]) < kept.len()
    &&& forall|i: int| 0 <= i < listed.len() ==> #[trigger] listed[i] == kept[order[i] as int].snapshot.0
    &&& listed_in_order(
        kept.map_values(|x: DiscoveryCandidate<(P, Option<DiscoveryOrderKey>)>| x.snapshot.1->Some_0),
        order,
    )
}

/// `listed` is the snapshots of `kept` in some listing order of their keys.
pub open spec fn listing_of<P>(kept: Seq<DiscoveryCandidate<(P, Option<DiscoveryOrderKey>)>>, listed: Seq<P>) -> bool {
    exists|order: Seq<usize>| #[trigger] is_listing(kept, listed, order)
}

/// Lists discovery candidates: the snapshots of those whose identifier no
/// other candidate claims, in the listing order of their keys, and the entry
/// names, in discovery order, of those that share an identifier; `None` when
/// a kept candidate has no order key.
pub fn list_discovered<P>(candidates: Vec<DiscoveryCandidate<(P, Option<DiscoveryOrderKey>)>>) -> (r:
    Option<(Vec<P>, Vec<Option<String>>)>)
    ensures
        ({
            let kept = kept_candidates(candidates@, candidates@.len() as nat);
            &&& r is Some <==> forall|i: int| 0 <= i < kept.len() ==> (#[trigger] kept[i]).snapshot.1 is Some
            &&& r matches Some(v) ==> v.1@ == duplicate_entry_names(
                candidates@,
                candidates@.len() as nat,
            ) && listing_of(kept, v.0@)
        }),
{
    let ghost all = candidates@;
    let ghost kept = kept_candidates(all, all.len() as nat);
    proof {
        lemma_kept_snapshots(all, all.len() as nat);
    }
    let (mut pairs, duplicates) = split_duplicate_ids(candidates);
    let ghost pv = pairs@;
    let m = pairs.len();
    let mut slots: Vec<Option<P>> = Vec::new();
    let mut keys: Vec<DiscoveryOrderKey> = Vec::new();
    let mut taken: usize = 0;
    while taken < m
        invariant
            m == pv.len(),
            pv == kept.map_values(|x: DiscoveryCandidate<(P, Option<DiscoveryOrderKey>)>| x.snapshot),
            taken <= m,
            pairs@ == pv.skip(taken as int),
            slots@.len() == taken,
            keys@.len() == taken,
            forall|j: int| 0 <= j < taken ==> #[trigger] slots@[j] == Some(pv[j].0),
            forall|j: int| 0 <= j < taken ==> (#[trigger] pv[j]).1 is Some,
            forall|j: int| 0 <= j < taken ==> #[trigger] keys@[j] == pv[j].1->Some_0,
            kept == kept_candidates(candidates@, candidates@.len() as nat),
        decreases m - taken,
    {
        let pair = pairs.remove(0);
        proof {
            assert(pair == pv[taken as int]);
            assert(pairs@ =~= pv.skip(taken + 1));
            assert(kept[taken as int].snapshot.1 == pv[taken as int].1);
        }
        match pair {
            (p, Some(k)) => {
                slots.push(Some(p));
                keys.push(k);
                proof {
                    assert(pv[taken as int].1 is Some);
                    assert(keys@[taken as int] == pv[taken as int].1->Some_0);
                }
            },
            (_, None) => {
                proof {
                    assert(!(kept[taken as int].snapshot.1 is Some));
                    assert(!(forall|i: int| 0 <= i < kept.len() ==> (#[trigger] kept[i]).snapshot.1 is Some));
                }
                return None;
            },
        }
        taken = taken + 1;
    }
    proof {
        assert forall|i: int| 0 <= i < kept.len() implies (#[trigger] kept[i]).snapshot.1 is Some by {
            assert(kept[i].snapshot.1 == pv[i].1);
            assert(pv[i].1 is Some);
        }
    }
    proof {
        assert(keys@ =~= kept.map_values(
            |x: DiscoveryCandidate<(P, Option<DiscoveryOrderKey>)>| x.snapshot.1->Some_0,
        ));
    }
    let order = discovery_order(&keys);
    let mut listed: Vec<P> = Vec::new();
    let mut x: usize = 0;
    while x < m
        invariant
            m == pv.len(),
            m == kept.len(),
            pv == kept.map_values(|x: DiscoveryCandidate<(P, Option<DiscoveryOrderKey>)>| x.snapshot),
            order@.len() == m,
            order@.no_duplicates(),
            forall|i: int| 0 <= i < m ==> (#[trigger] order@[i]) < m,
            x <= m,
            slots@.len() == m,
            forall|j: int|
                0 <= j < m && !order@.take(x as int).contains(j as usize) ==> #[trigger] slots@[j]
                    == Some(pv[j].0),
            listed@.len() == x,
            forall|y: int| 0 <= y < x ==> #[trigger] listed@[y] == pv[order@[y] as int].0,
        decreases m - x,
    {
        let idx = order[x];
        proof {
            if order@.take(x as int).contains(idx) {
                let y = choose|y: int| 0 <= y < x && order@.take(x as int)[y] == idx;
                assert(order@[y] == order@[x as int]);
            }
        }
        let item = slots.remove(idx);
        slots.insert(idx, None);
        proof {
            assert forall|j: int|
                0 <= j < m && !order@.take(x + 1).contains(j as usize) implies #[trigger] slots@[j]
                == Some(pv[j].0) by {
                assert(order@.take(x + 1)[x as int] == idx);
                if j != idx as int {
                    assert(!order@.take(x as int).contains(j as usize)) by {
                        if order@.take(x as int).contains(j as usize) {
                            let y = choose|y: int| 0 <= y < x && order@.take(x as int)[y] == j as usize;
                            assert(order@.take(x + 1)[y] == j as usize);
                        }
                    }
                }
            }
        }
        match item {
            Some(p) => listed.push(p),
            None => {},
        }
        x = x + 1;
    }
    proof {
        assert(is_listing(kept, listed@, order@));
        assert(listing_of(kept, listed@));
    }
    Some((listed, duplicates))
}

/// A discovery listing holds no identifier twice: the candidates behind any
/// two of its entries carry different identifiers, each claimed by that
/// candidate alone.
pub proof fn listed_entries_have_distinct_ids<P>(
    c: Seq<DiscoveryCandidate<(P, Option<DiscoveryOrderKey>)>>,
    listed: Seq<P>,
    order: Seq<usize>,
)
    requires
        is_listing(kept_candidates(c, c.len()), listed, order),
    ensures
        forall|x: int|
            0 <= x < listed.len() ==> id_count(c, kept_candidates(c, c.len())[#[trigger] order[x] as int].id)
                == 1,
        forall|x: int, y: int|
            0 <= x < y < listed.len() ==> kept_candidates(c, c.len())[#[trigger] order[x] as int].id
                != kept_candidates(c, c.len())[#[trigger] order[y] as int].id,
{
    let kept = kept_candidates(c, c.len());
    kept_candidates_are_distinct(c);
    assert forall|x: int| 0 <= x < listed.len() implies id_count(c, kept[#[trigger] order[x] as int].id)
        == 1 by {
        assert(order[x] < kept.len());
    }
    assert forall|x: int, y: int| 0 <= x < y < listed.len() implies kept[#[trigger] order[x] as int].id
        != kept[#[trigger] order[y] as int].id by {
        let a = order[x] as int;
        let b = order[y] as int;
        assert(order[x] != order[y]);
        assert(0 <= a < kept.len() && 0 <= b < kept.len());
        if a < b {
            assert(kept[a].id != kept[b].id);
        } else {
            assert(kept[b].id != kept[a].id);
        }
    }
}

/// Completes a project discovery report from the candidates read, each with
/// its order key where one could be formed: the projects are those whose
/// identifier no other candidate claims, in listing order, and each
/// candidate sharing an identifier is reported as `project_duplicate_id`. A
/// kept project without an order key fails discovery as
/// `project_snapshot_invalid`, leaving the report as it was.
pub fn finish_project_discovery<P>(
    report: &mut ProjectDiscoveryReport<P>,
    candidates: Vec<DiscoveryCandidate<(P, Option<DiscoveryOrderKey>)>>,
) -> (r: Result<(), ProjectStoreError>)
    requires
        old(report).projects@.len() == 0,
        !old(report).truncated,
    ensures
        ({
            let kept = kept_candidates(candidates@, candidates@.len() as nat);
            let names = duplicate_entry_names(candidates@, candidates@.len() as nat);
            &&& r is Ok <==> forall|i: int| 0 <= i < kept.len() ==> (#[trigger] kept[i]).snapshot.1 is Some
            &&& r matches Err(e) ==> e.code == Code::ProjectSnapshotInvalid && *final(report) == *old(
                report,
            )
            &&& r is Ok ==> {
                &&& listing_of(kept, final(report).projects@)
                &&& final(report).issues@ == with_issues(
                    old(report).issues@,
                    names,
                    Code::ProjectDuplicateId,
                )
                &&& final(report).issues_truncated == (old(report).issues_truncated || (names.len()
                    > 0 && old(report).issues@.len() + names.len() > MAX_DISCOVERY_ISSUES))
                &&& old(report).issues@.len() <= MAX_DISCOVERY_ISSUES ==> final(report).issues@.len()
                    <= MAX_DISCOVERY_ISSUES
                &&& final(report).scanned_entries == old(report).scanned_entries
                &&& !final(report).truncated
            }
        }),
{
    let (listed, duplicates) = match list_discovered(candidates) {
        Some(v) => v,
        None => return Err(ProjectStoreError::new(Code::ProjectSnapshotInvalid)),
    };
    report.projects = listed;
    push_duplicate_issues(report, duplicates);
    Ok(())
}

/// Whether a configurable fault point is the one being crossed.
#[derive(Debug, Clone, Copy, PartialEq, Eq, Structural)]
pub enum UpdateFault {
    TemporarySynced,
    Replaced,
}

#[derive(Debug, Clone, Copy, PartialEq, Eq, Structural)]
pub enum CreateFault {
    ProjectDirectory,
    TempSynced,
    Published,
}

/// Fails with `project_update_fault_injected` exactly at the configured point.
pub fn inject_update_fault(configured: Option<UpdateFault>, current: UpdateFault) -> (r: Result<
    (),
    ProjectStoreError,
>)
    ensures
        r is Err <==> configured == Some(current),
        r matches Err(e) ==> e.code == Code::ProjectUpdateFaultInjected,
{
    match configured {
        Some(f) if f == current => Err(ProjectStoreError::new(Code::ProjectUpdateFaultInjected)),
        _ => Ok(()),
    }
}

/// Fails with `project_create_fault_injected` exactly at the configured point.
pub fn inject_fault(configured: Option<CreateFault>, current: CreateFault) -> (r: Result<
    (),
    ProjectStoreError,
>)
    ensures
        r is Err <==> configured == Some(current),
        r matches Err(e) ==> e.code == Code::ProjectCreateFaultInjected,
{
    match configured {
        Some(f) if f == current => Err(ProjectStoreError::new(Code::ProjectCreateFaultInjected)),
        _ => Ok(()),
    }
}

/// The files of one document: the document, its temporary sibling and its
/// backup.
#[derive(Debug)]
pub struct ProjectDocumentPaths {
    pub document: String,
    pub temporary: String,
    pub backup: String,
}

impl ProjectDocumentPaths {
    /// `project.md`, its temporary sibling and its backup inside `project_directory`.
    pub fn new(project_directory: &str) -> (r: Self)
        ensures
            joined_path(project_directory@, "project.md"@, r.document@),
            joined_path(project_directory@, ".project.md.tmp"@, r.temporary@),
            joined_path(project_directory@, "project.md.bak"@, r.backup@),
    {
        proof {
            reveal_strlit("project.md");
            reveal_strlit(".project.md.tmp");
            reveal_strlit("project.md.bak");
            assert(plain_file_name("project.md"@)) by {
                assert("project.md"@.len() == 10);
            }
            assert(plain_file_name(".project.md.tmp"@)) by {
                assert(".project.md.tmp"@.len() == 15);
                assert(".project.md.tmp"@ != seq!['.']);
            }
            assert(plain_file_name("project.md.bak"@)) by {
                assert("project.md.bak"@.len() == 14);
            }
        }
        ProjectDocumentPaths {
            document: join_path(project_directory, "project.md"),
            temporary: join_path(project_directory, ".project.md.tmp"),
            backup: join_path(project_directory, "project.md.bak"),
        }
    }
}

} // verus!
