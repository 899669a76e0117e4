use kokorokoe::codes::Code;
use kokorokoe::persistence::front_matter::JsonValue;
use kokorokoe::persistence::project_document::{parse_project_document, render_project_document};
use kokorokoe::persistence::discovery_order::{
    DiscoveryOrderKey,
    discovery_order, project_order_key, session_order_key,
};
use kokorokoe::persistence::project_store::{
    check_discovered_project, check_discovery_entry, exclude_duplicate_ids, finish_project_discovery,
    project_limit_report,
    validate_project_update,
    DiscoveryCandidate, DiscoveryScope, ProjectDiscoveryReport, ProjectIdentity, ProjectLocator,
    ProjectSnapshotFingerprint,
};
use kokorokoe::persistence::transcript_store::{
    check_snapshot_consistency, count_discovered, publish_mode, verify_published, DiscoveryBudget,
    PublishMode, PublishedSnapshot, TranscriptSnapshotFingerprint,
};
use kokorokoe::persistence::session_document::{parse_session_document, render_session_document};
use kokorokoe::persistence::session_store::{
    check_discovered_session, count_scanned_entries, exclude_duplicate_session_ids,
    finish_session_discovery,
    validate_session_update,
    SessionDiscoveryReport, SessionIdentity, SessionLocator, SessionSnapshotFingerprint,
};

fn text(value: &str) -> JsonValue {
    JsonValue::Str(value.to_owned())
}

fn number(value: &str) -> JsonValue {
    JsonValue::Number(value.to_owned())
}

fn object(fields: Vec<(&str, JsonValue)>) -> JsonValue {
    JsonValue::Object(fields.into_iter().map(|(name, value)| (name.to_owned(), value)).collect())
}

fn fields(value: JsonValue) -> Vec<(String, JsonValue)> {
    match value {
        JsonValue::Object(fields) => fields,
        _ => unreachable!(),
    }
}

fn set(record: &mut Vec<(String, JsonValue)>, name: &str, value: JsonValue) {
    for field in record.iter_mut() {
        if field.0 == name {
            field.1 = value;
            return;
        }
    }
    record.push((name.to_owned(), value));
}

/// A project as `serde_json` serializes it.
fn project() -> Vec<(String, JsonValue)> {
    fields(object(vec![
        ("schemaVersion", number("1")),
        ("id", text("aaaaaaaa-aaaa-4aaa-8aaa-aaaaaaaaaaaa")),
        ("name", text("Weekly product meetings")),
        ("folderName", text("weekly-product-meetings--aaaaaaaa")),
        ("description", text("Decisions and follow-ups.")),
        ("globalContext", text("Product team context.")),
        ("participants", JsonValue::Array(vec![text("Ana"), text("Ben")])),
        ("tags", JsonValue::Array(vec![text("product")])),
        ("defaultPresetId", JsonValue::Null),
        ("defaultTranscriptionModelId", text("whisper-tiny-multilingual")),
        ("preferredLlmModels", object(vec![("insight", text("example/insight"))])),
        ("createdAt", text("2026-08-11T08:00:00Z")),
        ("updatedAt", text("2026-08-11T09:00:00Z")),
        ("revision", number("2")),
    ]))
}

/// A session as `serde_json` serializes it.
fn session() -> Vec<(String, JsonValue)> {
    fields(object(vec![
        ("schemaVersion", number("1")),
        ("id", text("cccccccc-cccc-4ccc-8ccc-cccccccccccc")),
        ("projectId", text("aaaaaaaa-aaaa-4aaa-8aaa-aaaaaaaaaaaa")),
        ("folderName", text("2026-08-11-sprint-planning--cccccccc")),
        ("title", text("Sprint planning")),
        ("objective", text("Agree the sprint scope.")),
        ("sessionContext", text("")),
        ("preset", object(vec![("assistantRole", text("Facilitator")), ("name", text("Planning"))])),
        ("language", text("en-GB")),
        ("microphone", object(vec![("enabled", JsonValue::Bool(true))])),
        ("systemOutput", object(vec![("enabled", JsonValue::Bool(false))])),
        ("transcriptionEngine", text("local")),
        ("transcriptionModelId", text("whisper-tiny-multilingual")),
        ("llmModels", object(vec![("summary", text("example/summary"))])),
        ("retainAudio", JsonValue::Bool(false)),
        ("state", text("completed")),
        ("channelHealth", object(vec![])),
        ("summaryStatus", text("none")),
        ("usage", object(vec![("inputTokens", number("0"))])),
        ("createdAt", text("2026-08-11T08:45:00Z")),
        ("startedAt", text("2026-08-11T09:00:00Z")),
        ("endedAt", text("2026-08-11T09:01:00Z")),
        ("updatedAt", text("2026-08-11T09:02:00Z")),
        ("revision", number("3")),
    ]))
}

fn encoded(document: &str) -> Vec<(String, String)> {
    parse_project_document(document)
        .unwrap()
        .into_iter()
        .map(|field| (field.json_name.to_owned(), field.encoded))
        .collect()
}

#[test]
fn yaml_scalars_cannot_escape_the_front_matter_shape() {
    let mut value = project();
    set(&mut value, "description", text("---\nname: !!unsafe payload"));
    set(&mut value, "globalContext", text("quoted: \"value\"\n# not a comment"));
    let document = render_project_document(&value).unwrap();

    assert_eq!(document.matches("\n---\n").count(), 1);
    assert!(document.contains("description: \"---\\nname: !!unsafe payload\""));
    assert!(document.contains("global_context: \"quoted: \\\"value\\\"\\n# not a comment\""));
}

#[test]
fn strict_front_matter_parser_round_trips_lf_and_crlf() {
    let document = render_project_document(&project()).unwrap();
    let lf = encoded(&document);
    assert_eq!(lf.len(), 14);
    assert_eq!(lf[0], ("schemaVersion".to_owned(), "1".to_owned()));
    assert_eq!(lf[2], ("name".to_owned(), "\"Weekly product meetings\"".to_owned()));
    assert_eq!(lf[6], ("participants".to_owned(), "[\"Ana\", \"Ben\"]".to_owned()));
    assert_eq!(lf[10], ("preferredLlmModels".to_owned(), "{\"insight\": \"example/insight\"}".to_owned()));
    assert_eq!(lf[13], ("revision".to_owned(), "2".to_owned()));
    let crlf = document.replace('\n', "\r\n");
    assert_eq!(encoded(&crlf), lf);
}

#[test]
fn strict_front_matter_parser_rejects_shape_and_payload_changes() {
    let document = render_project_document(&project()).unwrap();
    for invalid in [
        document.replacen("name: ", "unknown: ", 1),
        document.replacen("name: ", "id: ", 1),
        document.replacen("name: \"", "name: !!tag \"", 1),
        format!("{document}# trailing body\n"),
        document.replacen("document_type: \"project\"", "document_type: \"session\"", 1),
    ] {
        assert_eq!(parse_project_document(&invalid).unwrap_err().code, Code::ProjectSnapshotInvalid);
    }
}

fn project_identity(created_at: &str, updated_at: &str, revision: u64) -> ProjectIdentity {
    ProjectIdentity {
        id: 0xaaaaaaaa_aaaa_4aaa_8aaa_aaaaaaaaaaaa,
        folder_name: "weekly-product-meetings--aaaaaaaa".to_owned(),
        created_at: created_at.to_owned(),
        updated_at: updated_at.to_owned(),
        revision,
    }
}

#[test]
fn immutable_identity_and_revision_progression_are_enforced() {
    let initial = project_identity("2026-08-11T08:00:00Z", "2026-08-11T09:00:00Z", 2);
    let fingerprint = ProjectSnapshotFingerprint([7; 32]);
    let identity_change = project_identity("2026-08-10T08:00:00Z", "2026-08-11T10:00:00Z", 3);
    assert_eq!(
        validate_project_update(&initial, &identity_change, 2, fingerprint, fingerprint).unwrap_err().code,
        Code::ProjectSnapshotIdentityMismatch
    );
    let skipped_revision = project_identity("2026-08-11T08:00:00Z", "2026-08-11T10:00:00Z", 4);
    assert_eq!(
        validate_project_update(&initial, &skipped_revision, 2, fingerprint, fingerprint).unwrap_err().code,
        Code::ProjectRevisionInvalid
    );
    let next = project_identity("2026-08-11T08:00:00Z", "2026-08-11T10:00:00Z", 3);
    assert!(validate_project_update(&initial, &next, 2, fingerprint, fingerprint).is_ok());
}

#[test]
fn discovery_excludes_every_folder_that_claims_a_duplicate_project_id() {
    let id = 0xaaaaaaaa_aaaa_4aaa_8aaa_aaaaaaaaaaaa;
    let mut report = ProjectDiscoveryReport::<&str> {
        projects: Vec::new(),
        issues: Vec::new(),
        scanned_entries: 2,
        truncated: false,
        issues_truncated: false,
    };
    exclude_duplicate_ids(
        &mut report,
        vec![
            DiscoveryCandidate {
                snapshot: "duplicate-identity--aaaaaaaa",
                id,
                entry_name: Some("duplicate-identity--aaaaaaaa".to_owned()),
            },
            DiscoveryCandidate {
                snapshot: "weekly-product-meetings--aaaaaaaa",
                id,
                entry_name: Some("weekly-product-meetings--aaaaaaaa".to_owned()),
            },
        ],
    );
    assert!(report.projects.is_empty());
    assert_eq!(report.issues.len(), 2);
    assert!(report.issues.iter().all(|issue| issue.code == Code::ProjectDuplicateId));
}

#[test]
fn hostile_nested_scalars_cannot_escape_session_front_matter() {
    let mut value = session();
    set(&mut value, "objective", text("Review\n---\ndocument_type: hacked # tag"));
    set(
        &mut value,
        "preset",
        object(vec![("assistantRole", text("Do this\n---\n!!python/object payload")), ("name", text("Planning"))]),
    );
    let document = render_session_document(&value).unwrap();

    assert_eq!(document.lines().filter(|line| *line == "---").count(), 2);
    assert_eq!(document.matches("document_type: \"session\"").count(), 1);
    assert!(document.contains("Review\\n---\\ndocument_type: hacked # tag"));
    assert!(document.contains("Do this\\n---\\n!!python/object payload"));
}

fn session_fields(document: &str) -> Vec<(String, String)> {
    parse_session_document(document)
        .unwrap()
        .into_iter()
        .map(|field| (field.json_name.to_owned(), field.encoded))
        .collect()
}

#[test]
fn strict_session_parser_accepts_only_the_canonical_lf_or_crlf_shape() {
    let document = render_session_document(&session()).unwrap();
    let lf = session_fields(&document);
    assert_eq!(lf.len(), 24);
    assert_eq!(lf[20], ("startedAt".to_owned(), "\"2026-08-11T09:00:00Z\"".to_owned()));
    assert_eq!(lf[23], ("revision".to_owned(), "3".to_owned()));
    let crlf = document.replace('\n', "\r\n");
    assert_eq!(session_fields(&crlf), lf);

    let invalid = [
        document.replace("document_type: \"session\"", "document_type: \"project\""),
        document.replace("title: ", "unexpected_title: "),
        document.replace("started_at: \"2026-08-11T09:00:00Z\"", "started_at: null"),
        format!("{document}trailing"),
        document.replace("\nrevision: 3\n", "\nrevision: 3\nunknown: true\n"),
    ];
    for value in invalid {
        assert_eq!(parse_session_document(&value).unwrap_err().code, Code::SessionSnapshotInvalid);
    }
}

#[test]
fn a_session_without_start_or_end_leaves_both_lines_out() {
    let mut value = session();
    value.retain(|field| field.0 != "startedAt");
    set(&mut value, "endedAt", JsonValue::Null);
    let document = render_session_document(&value).unwrap();
    assert!(!document.contains("started_at"));
    assert!(!document.contains("ended_at"));
    let parsed = session_fields(&document);
    assert_eq!(parsed.len(), 22);
    assert_eq!(parsed[20].0, "updatedAt");
}

fn session_identity(created_at: &str, updated_at: &str, revision: u64) -> SessionIdentity {
    SessionIdentity {
        id: 0xcccccccc_cccc_4ccc_8ccc_cccccccccccc,
        project_id: 0xaaaaaaaa_aaaa_4aaa_8aaa_aaaaaaaaaaaa,
        folder_name: "2026-08-11-sprint-planning--cccccccc".to_owned(),
        created_at: created_at.to_owned(),
        updated_at: updated_at.to_owned(),
        revision,
    }
}

#[test]
fn immutable_identity_revision_progression_and_time_order_are_enforced() {
    let initial = session_identity("2026-08-11T08:45:00Z", "2026-08-11T09:02:00Z", 3);
    let fingerprint = SessionSnapshotFingerprint([9; 32]);
    let identity_change = session_identity("2026-08-11T08:44:00Z", "2026-08-11T09:05:00Z", 4);
    assert_eq!(
        validate_session_update(&initial, &identity_change, 3, fingerprint, fingerprint).unwrap_err().code,
        Code::SessionSnapshotIdentityMismatch
    );
    let skipped_revision = session_identity("2026-08-11T08:45:00Z", "2026-08-11T09:05:00Z", 5);
    assert_eq!(
        validate_session_update(&initial, &skipped_revision, 3, fingerprint, fingerprint).unwrap_err().code,
        Code::SessionRevisionInvalid
    );
    let backwards_time = session_identity("2026-08-11T08:45:00Z", "2026-08-11T09:00:01Z", 4);
    assert_eq!(
        validate_session_update(&initial, &backwards_time, 3, fingerprint, fingerprint).unwrap_err().code,
        Code::SessionRevisionInvalid
    );
}

#[test]
fn missing_or_cross_project_parent_is_rejected_before_mutation() {
    let project = project_identity("2026-08-11T08:00:00Z", "2026-08-11T09:00:00Z", 2);
    let mut other = session_identity("2026-08-11T08:45:00Z", "2026-08-11T09:02:00Z", 3);
    other.project_id = 0xbbbbbbbb_bbbb_4bbb_8bbb_bbbbbbbbbbbb;
    assert_eq!(
        SessionLocator::from_records(&project, &other).unwrap_err().code,
        Code::SessionProjectIdentityMismatch
    );
}

#[test]
fn discovery_excludes_every_candidate_with_a_duplicate_global_session_id() {
    let id = 0xcccccccc_cccc_4ccc_8ccc_cccccccccccc;
    let mut report = SessionDiscoveryReport::<&str> {
        sessions: Vec::new(),
        issues: Vec::new(),
        scanned_entries: 2,
        truncated: false,
        issues_truncated: false,
    };
    exclude_duplicate_session_ids(
        &mut report,
        vec![
            DiscoveryCandidate {
                snapshot: "first",
                id,
                entry_name: Some("weekly-product-meetings--aaaaaaaa/2026-08-11-sprint-planning--cccccccc".to_owned()),
            },
            DiscoveryCandidate {
                snapshot: "second",
                id,
                entry_name: Some("second-project--bbbbbbbb/2026-08-11-sprint-planning--cccccccc".to_owned()),
            },
        ],
    );
    assert!(report.sessions.is_empty());
    assert_eq!(
        report.issues.iter().filter(|issue| issue.code == Code::SessionDuplicateId).count(),
        2
    );
}

#[test]
fn projects_are_listed_most_recently_updated_first() {
    let keys = vec![
        project_order_key("2026-08-11T10:00:00Z", "2026-08-11T10:00:00Z", "first--11111111").unwrap(),
        project_order_key("2026-08-11T12:00:00Z", "2026-08-11T12:00:00Z", "second--22222222").unwrap(),
        project_order_key("2026-08-11T11:00:00Z", "2026-08-11T11:00:00Z", "third--33333333").unwrap(),
        project_order_key("2026-08-11T11:00:00Z", "2026-08-11T09:00:00Z", "older--44444444").unwrap(),
        project_order_key("2026-08-11T11:00:00Z", "2026-08-11T09:00:00Z", "alpha--55555555").unwrap(),
    ];
    assert_eq!(discovery_order(&keys), vec![1, 2, 4, 3, 0]);
    assert!(project_order_key("yesterday", "2026-08-11T09:00:00Z", "x").is_none());
}

#[test]
fn sessions_are_listed_by_meeting_time() {
    let keys = vec![
        session_order_key(None, "2026-08-11T10:00:00Z", "2026-08-11T10:00:00Z", "p", "first").unwrap(),
        session_order_key(Some("2026-08-11T12:00:00Z"), "2026-08-11T08:00:00Z", "2026-08-11T12:00:00Z", "p", "second").unwrap(),
        session_order_key(None, "2026-08-11T11:00:00Z", "2026-08-11T11:00:00Z", "p", "third").unwrap(),
        session_order_key(None, "2026-08-11T11:00:00Z", "2026-08-11T11:00:00Z", "a", "zeta").unwrap(),
        session_order_key(None, "2026-08-11T11:00:00Z", "2026-08-11T11:00:00Z", "a", "beta").unwrap(),
    ];
    assert_eq!(discovery_order(&keys), vec![1, 4, 3, 2, 0]);
    assert_eq!(discovery_order(&Vec::new()), Vec::<usize>::new());
}

#[test]
fn discovery_entries_must_be_plain_directories_with_usable_names() {
    assert_eq!(check_discovery_entry(DiscoveryScope::Projects, None, Some("a")), Err(Code::ProjectEntryMetadataUnavailable));
    assert_eq!(
        check_discovery_entry(DiscoveryScope::Projects, Some((false, false)), Some("unexpected.txt")),
        Err(Code::ProjectEntryNotDirectory)
    );
    assert_eq!(
        check_discovery_entry(DiscoveryScope::Sessions, Some((true, true)), Some("linked")),
        Err(Code::SessionEntryNotDirectory)
    );
    assert_eq!(check_discovery_entry(DiscoveryScope::Sessions, Some((true, false)), None), Err(Code::SessionEntryNameInvalid));
    assert_eq!(
        check_discovery_entry(DiscoveryScope::Projects, Some((true, false)), Some(&"x".repeat(129))),
        Err(Code::ProjectEntryNameInvalid)
    );
    assert_eq!(check_discovery_entry(DiscoveryScope::Projects, Some((true, false)), Some("bad\u{7}")), Err(Code::ProjectEntryNameInvalid));
    assert_eq!(check_discovery_entry(DiscoveryScope::Projects, Some((true, false)), Some("weekly--aaaaaaaa")), Ok(()));
}

#[test]
fn discovery_limits_stop_the_scan_without_a_partial_catalog() {
    let report = project_limit_report::<()>();
    assert!(report.projects.is_empty());
    assert!(report.truncated);
    assert_eq!(report.scanned_entries, 4_097);
    assert_eq!(report.issues[0].code, Code::ProjectDiscoveryLimitExceeded);

    let mut sessions = SessionDiscoveryReport::<u8> {
        sessions: vec![1, 2],
        issues: Vec::new(),
        scanned_entries: 4_000,
        truncated: false,
        issues_truncated: false,
    };
    assert!(!count_scanned_entries(&mut sessions, 96));
    assert_eq!(sessions.scanned_entries, 4_096);
    assert_eq!(sessions.sessions, vec![1, 2]);
    assert!(count_scanned_entries(&mut sessions, 1));
    assert!(sessions.sessions.is_empty());
    assert!(sessions.truncated);
    assert_eq!(sessions.issues[0].code, Code::SessionDiscoveryLimitExceeded);
}

#[test]
fn a_rebuilt_transcript_never_overwrites_an_external_edit() {
    let seen = TranscriptSnapshotFingerprint([1; 32]);
    let edited = TranscriptSnapshotFingerprint([2; 32]);
    assert_eq!(publish_mode(&PublishedSnapshot::Missing, &None), Ok(PublishMode::New));
    assert_eq!(publish_mode(&PublishedSnapshot::Present(seen), &Some(seen)), Ok(PublishMode::Replace));
    assert_eq!(
        publish_mode(&PublishedSnapshot::Present(edited), &Some(seen)).unwrap_err().code,
        Code::TranscriptSnapshotConflict
    );
    assert_eq!(
        publish_mode(&PublishedSnapshot::Present(seen), &None).unwrap_err().code,
        Code::TranscriptSnapshotConflict
    );
    assert_eq!(
        publish_mode(&PublishedSnapshot::Missing, &Some(seen)).unwrap_err().code,
        Code::TranscriptSnapshotConflict
    );
    assert_eq!(
        publish_mode(&PublishedSnapshot::Unreadable(Code::TranscriptSnapshotInvalid), &Some(seen)).unwrap_err().code,
        Code::TranscriptSnapshotConflict
    );
    assert_eq!(
        publish_mode(&PublishedSnapshot::Unreadable(Code::TranscriptSnapshotReadFailed), &None).unwrap_err().code,
        Code::TranscriptSnapshotReadFailed
    );
    assert_eq!(verify_published(b"abc", b"abc"), Ok(()));
    assert_eq!(verify_published(b"abc", b"abd").unwrap_err().code, Code::TranscriptSnapshotVerifyFailed);
    let checksum = Some("c".repeat(64));
    assert_eq!(check_snapshot_consistency(b"doc", b"doc", &checksum, &checksum), Ok(()));
    assert_eq!(
        check_snapshot_consistency(b"doc", b"doc\n", &checksum, &checksum).unwrap_err().code,
        Code::TranscriptSnapshotInvalid
    );
    assert_eq!(
        check_snapshot_consistency(b"doc", b"doc", &checksum, &None).unwrap_err().code,
        Code::TranscriptSnapshotInvalid
    );
}

#[test]
fn transcript_discovery_is_bounded_in_segments_and_text() {
    let mut budget = DiscoveryBudget { segments: 0, text_bytes: 0 };
    count_discovered(&mut budget, &[10, 20]).unwrap();
    assert_eq!((budget.segments, budget.text_bytes), (2, 30));
    let mut full = DiscoveryBudget { segments: 99_999, text_bytes: 0 };
    count_discovered(&mut full, &[1]).unwrap();
    assert_eq!(count_discovered(&mut full, &[1]).unwrap_err().code, Code::TranscriptDiscoveryLimitExceeded);
    let mut large = DiscoveryBudget { segments: 0, text_bytes: 67_108_860 };
    assert_eq!(count_discovered(&mut large, &[2, 3]).unwrap_err().code, Code::TranscriptDiscoveryLimitExceeded);
}

#[test]
fn records_with_unsafe_folder_names_are_refused_before_any_path_is_built() {
    let mut escaping = project_identity("2026-08-11T08:00:00Z", "2026-08-11T09:00:00Z", 2);
    escaping.folder_name = "../outside".to_owned();
    assert_eq!(ProjectLocator::from_project(&escaping).unwrap_err().code, Code::ProjectContractInvalid);
    let session = session_identity("2026-08-11T08:45:00Z", "2026-08-11T09:02:00Z", 3);
    assert_eq!(
        SessionLocator::from_records(&escaping, &session).unwrap_err().code,
        Code::SessionProjectInvalid
    );
    let project = project_identity("2026-08-11T08:00:00Z", "2026-08-11T09:00:00Z", 2);
    let mut bad_session = session_identity("2026-08-11T08:45:00Z", "2026-08-11T09:02:00Z", 3);
    bad_session.folder_name = "C:\\sessions".to_owned();
    assert_eq!(
        SessionLocator::from_records(&project, &bad_session).unwrap_err().code,
        Code::SessionContractInvalid
    );
    let locator = ProjectLocator::from_project(&project).unwrap();
    assert_eq!(locator.folder_name, "weekly-product-meetings--aaaaaaaa");
    let located = SessionLocator::from_records(&project, &session).unwrap();
    assert_eq!(located.session_id(), 0xcccccccc_cccc_4ccc_8ccc_cccccccccccc);
}

#[test]
fn discovered_records_must_name_the_folder_they_were_found_in() {
    let project = project_identity("2026-08-11T08:00:00Z", "2026-08-11T09:00:00Z", 2);
    assert!(check_discovered_project("weekly-product-meetings--aaaaaaaa", &project).is_ok());
    assert_eq!(
        check_discovered_project("renamed--aaaaaaaa", &project).unwrap_err().code,
        Code::ProjectSnapshotIdentityMismatch
    );
    let session = session_identity("2026-08-11T08:45:00Z", "2026-08-11T09:02:00Z", 3);
    assert!(check_discovered_session(project.id, "2026-08-11-sprint-planning--cccccccc", &session).is_ok());
    assert_eq!(
        check_discovered_session(0xbbbbbbbb_bbbb_4bbb_8bbb_bbbbbbbbbbbb, "2026-08-11-sprint-planning--cccccccc", &session),
        Err(Code::SessionSnapshotIdentityMismatch)
    );
    assert_eq!(
        check_discovered_session(project.id, "other--cccccccc", &session),
        Err(Code::SessionSnapshotIdentityMismatch)
    );
}

fn order_key(primary: i128, folder: &str) -> Option<DiscoveryOrderKey> {
    Some(DiscoveryOrderKey {
        primary_instant: primary,
        secondary_instant: 0,
        folder: folder.chars().collect(),
        subfolder: Vec::new(),
    })
}

#[test]
fn finished_project_discovery_lists_unique_projects_newest_first_and_reports_duplicates() {
    let mut report = ProjectDiscoveryReport::<&str> {
        projects: Vec::new(),
        issues: Vec::new(),
        scanned_entries: 4,
        truncated: false,
        issues_truncated: false,
    };
    let candidate = |name: &'static str, id: u128, at: i128| DiscoveryCandidate {
        snapshot: (name, order_key(at, name)),
        id,
        entry_name: Some(name.to_owned()),
    };
    finish_project_discovery(
        &mut report,
        vec![
            candidate("older--aaaaaaaa", 1, 10),
            candidate("copy--bbbbbbbb", 2, 50),
            candidate("newer--cccccccc", 3, 30),
            candidate("original--bbbbbbbb", 2, 40),
        ],
    )
    .unwrap();
    assert_eq!(report.projects, vec!["newer--cccccccc", "older--aaaaaaaa"]);
    assert_eq!(report.issues.len(), 2);
    assert_eq!(report.issues[0].entry_name.as_deref(), Some("copy--bbbbbbbb"));
    assert_eq!(report.issues[1].entry_name.as_deref(), Some("original--bbbbbbbb"));
    assert!(report.issues.iter().all(|issue| issue.code == Code::ProjectDuplicateId));
    assert!(!report.truncated);

    let mut unkeyed = ProjectDiscoveryReport::<&str> {
        projects: Vec::new(),
        issues: Vec::new(),
        scanned_entries: 1,
        truncated: false,
        issues_truncated: false,
    };
    let result = finish_project_discovery(
        &mut unkeyed,
        vec![DiscoveryCandidate { snapshot: ("bad--aaaaaaaa", None), id: 1, entry_name: None }],
    );
    assert_eq!(result.unwrap_err().code, Code::ProjectSnapshotInvalid);
    assert!(unkeyed.projects.is_empty() && unkeyed.issues.is_empty());
}

#[test]
fn finished_session_discovery_excludes_every_session_sharing_an_id() {
    let mut report = SessionDiscoveryReport::<u32> {
        sessions: Vec::new(),
        issues: Vec::new(),
        scanned_entries: 3,
        truncated: false,
        issues_truncated: false,
    };
    finish_session_discovery(
        &mut report,
        vec![
            DiscoveryCandidate { snapshot: (1, order_key(5, "a")), id: 7, entry_name: Some("a/x".to_owned()) },
            DiscoveryCandidate { snapshot: (2, order_key(9, "b")), id: 7, entry_name: Some("b/y".to_owned()) },
            DiscoveryCandidate { snapshot: (3, order_key(1, "c")), id: 8, entry_name: Some("c/z".to_owned()) },
        ],
    )
    .unwrap();
    assert_eq!(report.sessions, vec![3]);
    assert_eq!(report.issues.len(), 2);
    assert!(report.issues.iter().all(|issue| issue.code == Code::SessionDuplicateId));
}
