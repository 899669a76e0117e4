//! Rules of the session snapshot store: error codes and their mapping from
//! project store failures, identity, fingerprints, update validation and
//! discovery bookkeeping.

use vstd::prelude::*;

use crate::codes::Code;
use crate::persistence::discovery_order::DiscoveryOrderKey;
use crate::persistence::layout::{record_folder_ok, record_folder_valid};
use crate::outside::{join_path, joined_path, plain_file_name};
use crate::outside::{parse_rfc3339, rfc3339_instant, sha256, sha256_digest};
use crate::persistence::project_store::{
    digests_equal, duplicate_entry_names, kept_candidates, list_discovered, listing_of,
    split_duplicate_ids, unique_snapshots, DiscoveryCandidate, ProjectIdentity,
    ProjectLocator, ProjectStoreError,
};
use crate::text::{chars_equal, is_control, is_control_spec, push_char, push_str, to_chars, utf8_byte_len, utf8_count};

verus! {

/// Largest accepted `session.md`, in bytes.
pub const MAX_SESSION_DOCUMENT_BYTES: u64 = 524_288;

/// Most discovery issues kept in a report.
pub const MAX_SESSION_DISCOVERY_ISSUES: usize = 256;

/// A session store failure.
#[derive(Debug, Clone, Copy, PartialEq, Eq, Structural)]
pub struct SessionStoreError {
    pub code: Code,
}

impl SessionStoreError {
    /// An error with `code`.
    pub fn new(code: Code) -> (r: Self)
        ensures
            r.code == code,
    {
        Self { code }
    }

    pub open spec fn is_recoverable_spec(self) -> bool {
        self.code == Code::SessionSnapshotMissing || self.code == Code::SessionSnapshotInvalid
            || self.code == Code::SessionSnapshotTooLarge
    }

    /// A missing, malformed or oversized snapshot may be recovered from its backup.
    pub fn is_recoverable_snapshot_failure(self) -> (r: bool)
        ensures
            r == self.is_recoverable_spec(),
    {
        match self.code {
            Code::SessionSnapshotMissing | Code::SessionSnapshotInvalid
            | Code::SessionSnapshotTooLarge => true,
            _ => false,
        }
    }
}

/// What the store rules read of a session record.
#[derive(Debug)]
pub struct SessionIdentity {
    pub id: u128,
    pub project_id: u128,
    pub folder_name: String,
    pub created_at: String,
    pub updated_at: String,
    pub revision: u64,
}

/// Where a session lives: its project, its identifier and its folder.
#[derive(Debug)]
pub struct SessionLocator {
    pub project: ProjectLocator,
    pub project_id: u128,
    pub id: u128,
    pub folder_name: String,
}

impl SessionLocator {
    /// The locator of `session` in `project`: a project whose folder name
    /// breaks the records' folder-name rule is refused first, then such a
    /// session, then a session of another project.
    pub fn from_records(project: &ProjectIdentity, session: &SessionIdentity) -> (r: Result<
        SessionLocator,
        SessionStoreError,
    >)
        ensures
            r is Ok <==> record_folder_ok(project.folder_name@) && record_folder_ok(
                session.folder_name@,
            ) && session.project_id == project.id,
            r matches Err(e) ==> e.code == if !record_folder_ok(project.folder_name@) {
                Code::SessionProjectInvalid
            } else if !record_folder_ok(session.folder_name@) {
                Code::SessionContractInvalid
            } else {
                Code::SessionProjectIdentityMismatch
            },
            r matches Ok(l) ==> l.project.id == project.id && l.project.folder_name@
                == project.folder_name@ && l.project_id == project.id && l.id == session.id
                && l.folder_name@ == session.folder_name@,
    {
        if !record_folder_valid(project.folder_name.as_str()) {
            return Err(SessionStoreError::new(Code::SessionProjectInvalid));
        }
        if !record_folder_valid(session.folder_name.as_str()) {
            return Err(SessionStoreError::new(Code::SessionContractInvalid));
        }
        if session.project_id != project.id {
            return Err(map_contract_error(Code::SessionProjectIdentityMismatch));
        }
        let project_locator = match ProjectLocator::from_project(project) {
            Ok(l) => l,
            Err(e) => return Err(map_project_error(e)),
        };
        Ok(SessionLocator {
            project: project_locator,
            project_id: project.id,
            id: session.id,
            folder_name: session.folder_name.clone(),
        })
    }

    /// The session's identifier.
    pub fn session_id(&self) -> (r: u128)
        ensures
            r == self.id,
    {
        self.id
    }
}

/// SHA-256 of the exact bytes of a `session.md`.
#[derive(Debug, Clone, Copy)]
pub struct SessionSnapshotFingerprint(pub [u8; 32]);

impl SessionSnapshotFingerprint {
    /// The fingerprint of the document `bytes`.
    pub fn of_document(bytes: &[u8]) -> (r: Self)
        ensures
            r.0 == sha256_digest(bytes@),
    {
        SessionSnapshotFingerprint(sha256(bytes))
    }

    /// The digest bytes.
    pub fn as_bytes(self) -> (r: [u8; 32])
        ensures
            r == self.0,
    {
        self.0
    }
}

/// Verdict of `validate_session_update`.
pub open spec fn session_update_verdict(
    current: SessionIdentity,
    updated: SessionIdentity,
    expected_revision: u64,
    expected_fingerprint: Seq<u8>,
    current_fingerprint: Seq<u8>,
) -> Result<(), Code> {
    if current.revision != expected_revision {
        Err(Code::SessionRevisionConflict)
    } else if expected_fingerprint != current_fingerprint {
        Err(Code::SessionExternalModification)
    } else if current.id != updated.id || current.project_id != updated.project_id
        || current.folder_name@ != updated.folder_name@ || current.created_at@
        != updated.created_at@ {
        Err(Code::SessionSnapshotIdentityMismatch)
    } else if expected_revision + 1 > u64::MAX || expected_revision + 1 != updated.revision {
        Err(Code::SessionRevisionInvalid)
    } else if rfc3339_instant(current.updated_at@) is None {
        Err(Code::SessionSnapshotInvalid)
    } else if rfc3339_instant(updated.updated_at@) is None {
        Err(Code::SessionContractInvalid)
    } else if rfc3339_instant(updated.updated_at@)->0 < rfc3339_instant(current.updated_at@)->0 {
        Err(Code::SessionRevisionInvalid)
    } else {
        Ok(())
    }
}

/// An update is accepted only against the revision and the exact snapshot
/// it was made from: a stale revision is a conflict, a snapshot edited since
/// is an external modification, a changed identity is refused as such, and
/// an accepted update keeps the identity and project, advances the revision by one and does not move `updated_at`
/// back.
pub proof fn accepted_session_updates_are_current_and_unmodified(
    current: SessionIdentity,
    updated: SessionIdentity,
    expected_revision: u64,
    expected_fingerprint: Seq<u8>,
    current_fingerprint: Seq<u8>,
)
    ensures
        ({
            let v = session_update_verdict(
                current,
                updated,
                expected_revision,
                expected_fingerprint,
                current_fingerprint,
            );
            &&& current.revision != expected_revision ==> v == Err::<(), Code>(
                Code::SessionRevisionConflict,
            )
            &&& current.revision == expected_revision && expected_fingerprint != current_fingerprint
                ==> v == Err::<(), Code>(Code::SessionExternalModification)
            &&& current.revision == expected_revision && expected_fingerprint == current_fingerprint
                && (current.id != updated.id || current.project_id != updated.project_id || current.folder_name@ != updated.folder_name@
                || current.created_at@ != updated.created_at@) ==> v == Err::<(), Code>(
                Code::SessionSnapshotIdentityMismatch,
            )
            &&& v is Ok ==> {
                &&& current.revision == expected_revision
                &&& expected_fingerprint == current_fingerprint
                &&& updated.id == current.id
                &&& updated.project_id == current.project_id
                &&& updated.folder_name@ == current.folder_name@
                &&& updated.created_at@ == current.created_at@
                &&& updated.revision == current.revision + 1
                &&& rfc3339_instant(current.updated_at@)->0 <= rfc3339_instant(
                    updated.updated_at@,
                )->0
            }
        }),
{
}

/// An update must name the acknowledged revision and snapshot, keep the
/// session's identity and project, advance the revision by exactly one, and
/// not move `updated_at` backwards.
pub fn validate_session_update(
    current: &SessionIdentity,
    updated: &SessionIdentity,
    expected_revision: u64,
    expected_fingerprint: SessionSnapshotFingerprint,
    current_fingerprint: SessionSnapshotFingerprint,
) -> (r: Result<(), SessionStoreError>)
    ensures
        r matches Ok(()) ==> session_update_verdict(
            *current,
            *updated,
            expected_revision,
            expected_fingerprint.0@,
            current_fingerprint.0@,
        ) is Ok,
        r matches Err(e) ==> session_update_verdict(
            *current,
            *updated,
            expected_revision,
            expected_fingerprint.0@,
            current_fingerprint.0@,
        ) == Err::<(), Code>(e.code),
{
    if current.revision != expected_revision {
        return Err(SessionStoreError::new(Code::SessionRevisionConflict));
    }
    if !digests_equal(&expected_fingerprint.0, &current_fingerprint.0) {
        return Err(SessionStoreError::new(Code::SessionExternalModification));
    }
    if current.id != updated.id || current.project_id != updated.project_id || current.folder_name
        != updated.folder_name || current.created_at != updated.created_at {
        return Err(SessionStoreError::new(Code::SessionSnapshotIdentityMismatch));
    }
    if expected_revision == u64::MAX || expected_revision + 1 != updated.revision {
        return Err(SessionStoreError::new(Code::SessionRevisionInvalid));
    }
    let current_updated = match parse_rfc3339(current.updated_at.as_str()) {
        Some(v) => v,
        None => return Err(SessionStoreError::new(Code::SessionSnapshotInvalid)),
    };
    let next_updated = match parse_rfc3339(updated.updated_at.as_str()) {
        Some(v) => v,
        None => return Err(SessionStoreError::new(Code::SessionContractInvalid)),
    };
    if next_updated < current_updated {
        return Err(SessionStoreError::new(Code::SessionRevisionInvalid));
    }
    Ok(())
}

/// Appends the front-matter line `name: value`.
pub fn push_yaml_field(document: &mut String, name: &str, value: &str)
    ensures
        final(document)@ == old(document)@ + name@ + seq![':', ' '] + value@ + seq!['\n'],
{
    push_str(document, name);
    push_str(document, ": ");
    push_str(document, value);
    push_char(document, '\n');
    proof {
        reveal_strlit(": ");
        assert(document@ =~= old(document)@ + name@ + seq![':', ' '] + value@ + seq!['\n']);
    }
}

/// One problem found while discovering sessions.
#[derive(Debug)]
pub struct SessionDiscoveryIssue {
    pub entry_name: Option<String>,
    pub code: Code,
}

/// The result of discovering sessions: the sessions found (of type `S`) and
/// bounded issue details.
#[derive(Debug)]
pub struct SessionDiscoveryReport<S> {
    pub sessions: Vec<S>,
    pub issues: Vec<SessionDiscoveryIssue>,
    pub scanned_entries: u32,
    pub truncated: bool,
    pub issues_truncated: bool,
}

/// The issue list after recording `code` for `entry_name`: the issue is
/// appended while fewer than `MAX_SESSION_DISCOVERY_ISSUES` are kept.
pub open spec fn with_issue(
    issues: Seq<SessionDiscoveryIssue>,
    entry_name: Option<String>,
    code: Code,
) -> Seq<SessionDiscoveryIssue> {
    if issues.len() < MAX_SESSION_DISCOVERY_ISSUES {
        issues.push(SessionDiscoveryIssue { entry_name, code })
    } else {
        issues
    }
}

/// The issues that record `code` for each of `names`, in order.
pub open spec fn issues_for(names: Seq<Option<String>>, code: Code) -> Seq<SessionDiscoveryIssue> {
    names.map_values(|name: Option<String>| SessionDiscoveryIssue { entry_name: name, code })
}

/// The issue list after recording `code` for each of `names`, in order:
/// the new issues are appended while fewer than `MAX_SESSION_DISCOVERY_ISSUES` are kept.
pub open spec fn with_issues(
    issues: Seq<SessionDiscoveryIssue>,
    names: Seq<Option<String>>,
    code: Code,
) -> Seq<SessionDiscoveryIssue> {
    if issues.len() >= MAX_SESSION_DISCOVERY_ISSUES {
        issues
    } else if issues.len() + names.len() <= MAX_SESSION_DISCOVERY_ISSUES {
        issues + issues_for(names, code)
    } else {
        issues + issues_for(names, code).take(MAX_SESSION_DISCOVERY_ISSUES - issues.len())
    }
}

/// Recording the issue of one more name extends the list of the earlier
/// ones by `with_issue`.
proof fn lemma_with_issues_step(
    issues: Seq<SessionDiscoveryIssue>,
    names: Seq<Option<String>>,
    code: Code,
    k: int,
)
    requires
        0 <= k < names.len(),
    ensures
        with_issues(issues, names.take(k + 1), code) == with_issue(
            with_issues(issues, names.take(k), code),
            names[k],
            code,
        ),
{
    let before = with_issues(issues, names.take(k), code);
    let after = with_issues(issues, names.take(k + 1), code);
    if issues.len() < MAX_SESSION_DISCOVERY_ISSUES {
        if issues.len() + k < MAX_SESSION_DISCOVERY_ISSUES {
            assert(after =~= before.push(SessionDiscoveryIssue { entry_name: names[k], code }));
        } else {
            assert(after =~= before);
        }
    }
}

/// Records an issue while fewer than `MAX_SESSION_DISCOVERY_ISSUES` are kept;
/// afterwards only marks the issues as truncated.
pub fn push_discovery_issue<S>(
    report: &mut SessionDiscoveryReport<S>,
    entry_name: Option<String>,
    code: Code,
)
    ensures
        final(report).sessions@ == old(report).sessions@,
        final(report).scanned_entries == old(report).scanned_entries,
        final(report).truncated == old(report).truncated,
        old(report).issues@.len() < MAX_SESSION_DISCOVERY_ISSUES ==> {
            &&& final(report).issues@.len() == old(report).issues@.len() + 1
            &&& final(report).issues@.take(old(report).issues@.len() as int)
                == old(report).issues@
            &&& final(report).issues@.last().code == code
            &&& final(report).issues@.last().entry_name == entry_name
            &&& final(report).issues_truncated == old(report).issues_truncated
        },
        old(report).issues@.len() >= MAX_SESSION_DISCOVERY_ISSUES ==> {
            &&& final(report).issues@ == old(report).issues@
            &&& final(report).issues_truncated
        },
        final(report).issues@ == with_issue(old(report).issues@, entry_name, code),
        final(report).issues_truncated == (old(report).issues_truncated || old(report).issues@.len()
            >= MAX_SESSION_DISCOVERY_ISSUES),
{
    if report.issues.len() < MAX_SESSION_DISCOVERY_ISSUES {
        report.issues.push(SessionDiscoveryIssue { entry_name, code });
        proof {
            assert(report.issues@.take(old(report).issues@.len() as int) =~= old(
                report,
            ).issues@);
        }
    } else {
        report.issues_truncated = true;
    }
}

/// Records a `session_duplicate_id` issue for each of `names`, in order.
fn push_duplicate_issues<S>(report: &mut SessionDiscoveryReport<S>, names: Vec<Option<String>>)
    ensures
        final(report).sessions@ == old(report).sessions@,
        final(report).scanned_entries == old(report).scanned_entries,
        final(report).truncated == old(report).truncated,
        final(report).issues@ == with_issues(old(report).issues@, names@, Code::SessionDuplicateId),
        final(report).issues_truncated == (old(report).issues_truncated || (names@.len() > 0
            && old(report).issues@.len() + names@.len() > MAX_SESSION_DISCOVERY_ISSUES)),
{
    let ghost all = names@;
    let ghost start = report.issues@;
    let ghost mut k: int = 0;
    let mut rest = names;
    proof {
        assert(with_issues(start, all.take(0), Code::SessionDuplicateId) =~= start);
    }
    while rest.len() > 0
        invariant
            report.sessions@ == old(report).sessions@,
            report.scanned_entries == old(report).scanned_entries,
            report.truncated == old(report).truncated,
            start == old(report).issues@,
            0 <= k <= all.len(),
            rest@ == all.skip(k),
            report.issues@ == with_issues(start, all.take(k), Code::SessionDuplicateId),
            report.issues_truncated == (old(report).issues_truncated || (k > 0 && start.len() + k
                > MAX_SESSION_DISCOVERY_ISSUES)),
        decreases rest@.len(),
    {
        let name = rest.remove(0);
        proof {
            assert(name == all[k]);
            lemma_with_issues_step(start, all, Code::SessionDuplicateId, k);
        }
        push_discovery_issue(report, name, Code::SessionDuplicateId);
        proof {
            k = k + 1;
            assert(rest@ =~= all.skip(k));
        }
    }
    proof {
        assert(all.take(k) =~= all);
    }
}

/// Keeps, in order, only the candidates whose session identifier no other
/// candidate claims; each candidate that shares an identifier is reported,
/// in order, as `session_duplicate_id` instead.
pub fn exclude_duplicate_session_ids<S>(
    report: &mut SessionDiscoveryReport<S>,
    candidates: Vec<DiscoveryCandidate<S>>,
)
    ensures
        final(report).sessions@ == old(report).sessions@ + unique_snapshots(
            candidates@,
            candidates@.len() as nat,
        ),
        final(report).scanned_entries == old(report).scanned_entries,
        final(report).truncated == old(report).truncated,
        ({
            let names = duplicate_entry_names(candidates@, candidates@.len() as nat);
            &&& final(report).issues@ == with_issues(
                old(report).issues@,
                names,
                Code::SessionDuplicateId,
            )
            &&& final(report).issues_truncated == (old(report).issues_truncated || (names.len() > 0
                && old(report).issues@.len() + names.len() > MAX_SESSION_DISCOVERY_ISSUES))
        }),
{
    let (mut kept, duplicates) = split_duplicate_ids(candidates);
    report.sessions.append(&mut kept);
    push_duplicate_issues(report, duplicates);
}

/// Completes a session discovery report from the candidates read, each with
/// its order key where one could be formed: the sessions are those whose
/// identifier no other candidate claims, in listing order, and each
/// candidate sharing an identifier is reported as `session_duplicate_id`. A
/// kept session without an order key fails discovery as
/// `session_snapshot_invalid`, leaving the report as it was.
pub fn finish_session_discovery<S>(
    report: &mut SessionDiscoveryReport<S>,
    candidates: Vec<DiscoveryCandidate<(S, Option<DiscoveryOrderKey>)>>,
) -> (r: Result<(), SessionStoreError>)
    requires
        old(report).sessions@.len() == 0,
        !old(report).truncated,
    ensures
        ({
            let kept = kept_candidates(candidates@, candidates@.len() as nat);
            let names = duplicate_entry_names(candidates@, candidates@.len() as nat);
            &&& r is Ok <==> forall|i: int| 0 <= i < kept.len() ==> (#[trigger] kept[i]).snapshot.1 is Some
            &&& r matches Err(e) ==> e.code == Code::SessionSnapshotInvalid && *final(report) == *old(
                report,
            )
            &&& r is Ok ==> {
                &&& listing_of(kept, final(report).sessions@)
                &&& final(report).issues@ == with_issues(
                    old(report).issues@,
                    names,
                    Code::SessionDuplicateId,
                )
                &&& final(report).issues_truncated == (old(report).issues_truncated || (names.len()
                    > 0 && old(report).issues@.len() + names.len() > MAX_SESSION_DISCOVERY_ISSUES))
                &&& old(report).issues@.len() <= MAX_SESSION_DISCOVERY_ISSUES
                    ==> final(report).issues@.len() <= MAX_SESSION_DISCOVERY_ISSUES
                &&& final(report).scanned_entries == old(report).scanned_entries
                &&& !final(report).truncated
            }
        }),
{
    let (listed, duplicates) = match list_discovered(candidates) {
        Some(v) => v,
        None => return Err(SessionStoreError::new(Code::SessionSnapshotInvalid)),
    };
    report.sessions = listed;
    push_duplicate_issues(report, duplicates);
    Ok(())
}

/// Checks a session read during discovery against where it was found: it
/// must belong to the project whose `sessions` folder holds it and name the
/// folder it was read from.
pub fn check_discovered_session(project_id: u128, folder: &str, identity: &SessionIdentity) -> (r:
    Result<(), Code>)
    ensures
        r is Ok <==> identity.project_id == project_id && identity.folder_name@ == folder@,
        r matches Err(code) ==> code == Code::SessionSnapshotIdentityMismatch,
{
    if identity.project_id != project_id || !chars_equal(
        to_chars(identity.folder_name.as_str()).as_slice(),
        to_chars(folder).as_slice(),
    ) {
        return Err(Code::SessionSnapshotIdentityMismatch);
    }
    Ok(())
}

/// Most directory entries a session scan reads, over all projects.
pub const MAX_SESSION_DISCOVERY_ENTRIES: usize = 4_096;

/// Counts the entries of one more `sessions` directory into the scan. Past
/// `MAX_SESSION_DISCOVERY_ENTRIES` the sessions found so far are dropped,
/// the scan is marked truncated with a `session_discovery_limit_exceeded`
/// issue, and `true` tells the caller to stop.
pub fn count_scanned_entries<S>(report: &mut SessionDiscoveryReport<S>, entries: usize) -> (stop:
    bool)
    ensures
        ({
            let added = if entries <= u32::MAX { entries as int } else { u32::MAX as int };
            let total = if old(report).scanned_entries + added <= u32::MAX {
                old(report).scanned_entries + added
            } else {
                u32::MAX as int
            };
            &&& final(report).scanned_entries == total
            &&& stop <==> total > MAX_SESSION_DISCOVERY_ENTRIES
            &&& stop ==> final(report).sessions@.len() == 0 && final(report).truncated
            &&& stop ==> final(report).issues@ == with_issue(
                old(report).issues@,
                None,
                Code::SessionDiscoveryLimitExceeded,
            ) && final(report).issues_truncated == (old(report).issues_truncated || old(
                report,
            ).issues@.len() >= MAX_SESSION_DISCOVERY_ISSUES)
            &&& !stop ==> final(report).sessions@ == old(report).sessions@ && final(report).truncated
                == old(report).truncated && final(report).issues@ == old(report).issues@
                && final(report).issues_truncated == old(report).issues_truncated
        }),
{
    let added: u32 = if entries <= u32::MAX as usize {
        entries as u32
    } else {
        u32::MAX
    };
    report.scanned_entries = report.scanned_entries.saturating_add(added);
    if report.scanned_entries as usize > MAX_SESSION_DISCOVERY_ENTRIES {
        report.sessions.clear();
        report.truncated = true;
        push_discovery_issue(report, None, Code::SessionDiscoveryLimitExceeded);
        return true;
    }
    false
}

/// `project/session` when both names are free of control characters, the
/// session name is non-empty and at most 128 bytes, and the whole is at most
/// 257 bytes.
pub open spec fn session_entry_name_spec(project_folder: Seq<char>, name: Seq<char>) -> Option<
    Seq<char>,
> {
    let combined = project_folder + seq!['/'] + name;
    if name.len() == 0 || utf8_count(name) > 128 || (exists|i: int|
        0 <= i < name.len() && is_control_spec(#[trigger] name[i])) || (exists|i: int|
        0 <= i < project_folder.len() && is_control_spec(#[trigger] project_folder[i]))
        || utf8_count(combined) > 257 {
        None
    } else {
        Some(combined)
    }
}

fn has_control(s: &[char]) -> (r: bool)
    ensures
        r == exists|i: int| 0 <= i < s@.len() && is_control_spec(#[trigger] s@[i]),
{
    let n = s.len();
    for i in 0..n
        invariant
            n == s@.len(),
            forall|j: int| 0 <= j < i ==> !is_control_spec(#[trigger] s@[j]),
    {
        if is_control(s[i]) {
            return true;
        }
    }
    false
}

/// The reportable name of a discovered session folder.
pub fn safe_discovery_entry_name(project_folder: &str, name: &str) -> (r: Option<String>)
    ensures
        r matches Some(s) ==> session_entry_name_spec(project_folder@, name@) == Some(s@),
        r is None ==> session_entry_name_spec(project_folder@, name@) is None,
{
    let n = to_chars(name);
    let p = to_chars(project_folder);
    if n.len() == 0 || utf8_byte_len(n.as_slice()) > 128 || has_control(n.as_slice())
        || has_control(p.as_slice()) {
        return None;
    }
    let mut combined = String::new();
    push_str(&mut combined, project_folder);
    push_char(&mut combined, '/');
    push_str(&mut combined, name);
    assert(combined@ =~= project_folder@ + seq!['/'] + name@);
    let c = to_chars(combined.as_str());
    if utf8_byte_len(c.as_slice()) > 257 {
        return None;
    }
    Some(combined)
}

/// A contract refusal: a session of another project keeps its code, anything
/// else is `session_contract_invalid`.
pub fn map_contract_error(code: Code) -> (r: SessionStoreError)
    ensures
        r.code == if code == Code::SessionProjectIdentityMismatch {
            Code::SessionProjectIdentityMismatch
        } else {
            Code::SessionContractInvalid
        },
{
    match code {
        Code::SessionProjectIdentityMismatch => SessionStoreError::new(
            Code::SessionProjectIdentityMismatch,
        ),
        _ => SessionStoreError::new(Code::SessionContractInvalid),
    }
}

/// Any workspace failure is `session_workspace_invalid`.
pub fn map_workspace_error(error: ProjectStoreError) -> (r: SessionStoreError)
    ensures
        r.code == Code::SessionWorkspaceInvalid,
{
    SessionStoreError::new(Code::SessionWorkspaceInvalid)
}

pub open spec fn map_path_code(code: Code) -> Code {
    if code == Code::ProjectPathUnsafe {
        Code::SessionPathUnsafe
    } else if code == Code::ProjectPathIdentityChanged {
        Code::SessionPathIdentityChanged
    } else {
        Code::SessionPathOpenFailed
    }
}

/// Translates a pinned-path failure of the project store.
pub fn map_path_error(error: ProjectStoreError) -> (r: SessionStoreError)
    ensures
        r.code == map_path_code(error.code),
{
    match error.code {
        Code::ProjectPathUnsafe => SessionStoreError::new(Code::SessionPathUnsafe),
        Code::ProjectPathIdentityChanged => SessionStoreError::new(Code::SessionPathIdentityChanged),
        _ => SessionStoreError::new(Code::SessionPathOpenFailed),
    }
}

pub open spec fn map_project_code(code: Code) -> Code {
    if code == Code::ProjectContractInvalid {
        Code::SessionProjectInvalid
    } else if code == Code::ProjectSnapshotMissing || code == Code::ProjectPathOpenFailed {
        Code::SessionProjectNotFound
    } else if code == Code::ProjectPathUnsafe || code == Code::ProjectPathIdentityChanged {
        map_path_code(code)
    } else {
        Code::SessionProjectUnavailable
    }
}

/// Translates a failure to read the parent project.
pub fn map_project_error(error: ProjectStoreError) -> (r: SessionStoreError)
    ensures
        r.code == map_project_code(error.code),
{
    match error.code {
        Code::ProjectContractInvalid => SessionStoreError::new(Code::SessionProjectInvalid),
        Code::ProjectSnapshotMissing => SessionStoreError::new(Code::SessionProjectNotFound),
        Code::ProjectPathUnsafe | Code::ProjectPathIdentityChanged => map_path_error(error),
        Code::ProjectPathOpenFailed => SessionStoreError::new(Code::SessionProjectNotFound),
        _ => SessionStoreError::new(Code::SessionProjectUnavailable),
    }
}

pub open spec fn map_snapshot_open_code(code: Code) -> Code {
    if code == Code::ProjectSnapshotMissing {
        Code::SessionSnapshotMissing
    } else if code == Code::ProjectPathUnsafe {
        Code::SessionPathUnsafe
    } else if code == Code::ProjectPathIdentityUnavailable {
        Code::SessionPathIdentityUnavailable
    } else {
        Code::SessionSnapshotReadFailed
    }
}

/// Translates a failure to open a snapshot file.
pub fn map_snapshot_open_error(error: ProjectStoreError) -> (r: SessionStoreError)
    ensures
        r.code == map_snapshot_open_code(error.code),
{
    match error.code {
        Code::ProjectSnapshotMissing => SessionStoreError::new(Code::SessionSnapshotMissing),
        Code::ProjectPathUnsafe => SessionStoreError::new(Code::SessionPathUnsafe),
        Code::ProjectPathIdentityUnavailable => SessionStoreError::new(
            Code::SessionPathIdentityUnavailable,
        ),
        _ => SessionStoreError::new(Code::SessionSnapshotReadFailed),
    }
}

/// Any publication failure is `session_snapshot_publish_failed`.
pub fn map_snapshot_publish_error(error: ProjectStoreError) -> (r: SessionStoreError)
    ensures
        r.code == Code::SessionSnapshotPublishFailed,
{
    SessionStoreError::new(Code::SessionSnapshotPublishFailed)
}

/// Points in an update where a test may inject a failure.
#[derive(Debug, Clone, Copy, PartialEq, Eq, Structural)]
pub enum UpdateFault {
    TemporarySynced,
    Replaced,
}

/// Points in a creation where a test may inject a failure.
#[derive(Debug, Clone, Copy, PartialEq, Eq, Structural)]
pub enum CreateFault {
    SessionDirectory,
    TemporarySynced,
    Published,
}

/// Fails with `session_update_fault_injected` exactly at the configured point.
pub fn inject_update_fault(configured: Option<UpdateFault>, current: UpdateFault) -> (r: Result<
    (),
    SessionStoreError,
>)
    ensures
        r is Err <==> configured == Some(current),
        r matches Err(e) ==> e.code == Code::SessionUpdateFaultInjected,
{
    match configured {
        Some(f) if f == current => Err(SessionStoreError::new(Code::SessionUpdateFaultInjected)),
        _ => Ok(()),
    }
}

/// Fails with `session_create_fault_injected` exactly at the configured point.
pub fn inject_fault(configured: Option<CreateFault>, current: CreateFault) -> (r: Result<
    (),
    SessionStoreError,
>)
    ensures
        r is Err <==> configured == Some(current),
        r matches Err(e) ==> e.code == Code::SessionCreateFaultInjected,
{
    match configured {
        Some(f) if f == current => Err(SessionStoreError::new(Code::SessionCreateFaultInjected)),
        _ => Ok(()),
    }
}

/// The files of one document: the document, its temporary sibling and its
/// backup.
#[derive(Debug)]
pub struct SessionDocumentPaths {
    pub document: String,
    pub temporary: String,
    pub backup: String,
}

impl SessionDocumentPaths {
    /// `session.md`, its temporary sibling and its backup inside `session_directory`.
    pub fn new(session_directory: &str) -> (r: Self)
        ensures
            joined_path(session_directory@, "session.md"@, r.document@),
            joined_path(session_directory@, ".session.md.tmp"@, r.temporary@),
            joined_path(session_directory@, "session.md.bak"@, r.backup@),
    {
        proof {
            reveal_strlit("session.md");
            reveal_strlit(".session.md.tmp");
            reveal_strlit("session.md.bak");
            assert(plain_file_name("session.md"@)) by {
                assert("session.md"@.len() == 10);
            }
            assert(plain_file_name(".session.md.tmp"@)) by {
                assert(".session.md.tmp"@.len() == 15);
                assert(".session.md.tmp"@ != seq!['.']);
            }
            assert(plain_file_name("session.md.bak"@)) by {
                assert("session.md.bak"@.len() == 14);
            }
        }
        SessionDocumentPaths {
            document: join_path(session_directory, "session.md"),
            temporary: join_path(session_directory, ".session.md.tmp"),
            backup: join_path(session_directory, "session.md.bak"),
        }
    }
}

} // verus!
