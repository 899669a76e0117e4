use kokorokoe::codes::Code;
use kokorokoe::persistence::session_journal::{
    AudioSource, FinalizedTranscriptSegment, JournalReplay, SessionState,
};
use kokorokoe::persistence::summary_store::{
    inert_block, inert_line, map_session_error, parse_summary, prepare_summary, render_document,
    render_summary_body, SessionSummaryContent, SessionSummaryDocument, SummaryActionItem,
    SummaryPaths,
};
use kokorokoe::persistence::session_store::SessionStoreError;
use kokorokoe::persistence::transcript_store::{
    format_timestamp, map_open_error, parse_checkpoint, render_transcript, safe_entry_name,
    TranscriptOwner, TranscriptStoreError,
};

const PROJECT: u128 = 0xaaaaaaaa_aaaa_4aaa_8aaa_aaaaaaaaaaaa;
const SESSION: u128 = 0xcccccccc_cccc_4ccc_8ccc_cccccccccccc;

fn content() -> SessionSummaryContent {
    SessionSummaryContent {
        executive_summary: "The team kept the transcript local.".to_owned(),
        main_topics: vec!["Transcript storage".to_owned()],
        decisions: vec!["Keep the transcript local.".to_owned()],
        action_items: vec![SummaryActionItem {
            text: "Confirm the retention window.".to_owned(),
            owner: Some("Product lead".to_owned()),
            deadline: Some("2026-08-29T17:00:00Z".to_owned()),
        }],
        risks: vec![],
        open_questions: vec!["How long may audio be kept?".to_owned()],
        next_steps: vec!["Bring the proposal to review.".to_owned()],
    }
}

#[test]
fn generated_markdown_structure_cannot_be_forged_by_model_output() {
    let mut hostile = content();
    hostile.executive_summary =
        "# Injected heading\n\n<script>alert(1)</script> [link](http://example.com)".to_owned();
    hostile.decisions = vec!["- nested\n## fake heading".to_owned()];

    let body = render_summary_body(&hostile);

    assert!(!body.contains("\n# Injected heading"));
    assert!(!body.contains("\n## fake heading"));
    assert!(!body.contains("<script>"));
    assert!(body.contains("\\#"));
    assert!(body.contains("\\<script\\>"));
    assert_eq!(body.matches("\n# ").count(), 1);
    assert_eq!(body.matches("\n## ").count(), 7);
}

#[test]
fn inert_line_collapses_whitespace_and_escapes_structure() {
    assert_eq!(inert_line("  a\tb \n c  "), "a b c");
    assert_eq!(inert_line("# x_y *z* `c` [l] <t> |p| ~s~"), "\\# x\\_y \\*z\\* \\`c\\` \\[l\\] \\<t\\> \\|p\\| \\~s\\~");
    assert_eq!(inert_line("back\\slash"), "back\\\\slash");
    assert_eq!(inert_block("one\ntwo"), "one two\n");
    assert_eq!(inert_line(" \n\t "), "");
}

#[test]
fn summary_body_has_the_exact_section_layout() {
    let body = render_summary_body(&content());
    let expected = "\n# Session summary\n\n## Executive summary\n\nThe team kept the transcript local.\n\n## Main topics\n\n- Transcript storage\n\n## Decisions\n\n- Keep the transcript local.\n\n## Action items\n\n- Confirm the retention window. (Owner: Product lead; Due: 2026-08-29T17:00:00Z)\n\n## Risks\n\n_None recorded._\n\n## Open questions\n\n- How long may audio be kept?\n\n## Next steps\n\n- Bring the proposal to review.\n";
    assert_eq!(body, expected);
}

#[test]
fn action_items_show_only_the_parts_they_have() {
    let mut c = content();
    c.action_items = vec![
        SummaryActionItem { text: "a".to_owned(), owner: None, deadline: Some("soon".to_owned()) },
        SummaryActionItem { text: "b".to_owned(), owner: Some("me".to_owned()), deadline: None },
        SummaryActionItem { text: "c".to_owned(), owner: None, deadline: None },
    ];
    let body = render_summary_body(&c);
    assert!(body.contains("- a (Due: soon)\n- b (Owner: me)\n- c\n"));
}

fn document() -> SessionSummaryDocument {
    SessionSummaryDocument {
        schema_version: 1,
        project_id: PROJECT,
        session_id: SESSION,
        generated_at: "2026-08-22T18:30:00Z".to_owned(),
        model_id: "example/text-model".to_owned(),
        markdown: render_summary_body(&content()),
        segments_considered: 42,
        segments_included: 40,
    }
}

#[test]
fn summary_document_renders_canonical_front_matter_and_reads_back() {
    let bytes = render_document(&document()).unwrap();
    let text = String::from_utf8(bytes.clone()).unwrap();
    assert!(text.starts_with("---\nschema_version: 1\ndocument_type: \"summary\"\nproject_id: \"aaaaaaaa-aaaa-4aaa-8aaa-aaaaaaaaaaaa\"\nsession_id: \"cccccccc-cccc-4ccc-8ccc-cccccccccccc\"\ngenerated_at: \"2026-08-22T18:30:00Z\"\nmodel_id: \"example/text-model\"\nsegments_considered: 42\nsegments_included: 40\n---\n"));
    let read = parse_summary(&bytes, PROJECT, SESSION).unwrap();
    assert_eq!(read.segments_considered, 42);
    assert_eq!(read.segments_included, 40);
    assert_eq!(read.generated_at, "2026-08-22T18:30:00Z");
    assert_eq!(read.model_id, "example/text-model");
    assert_eq!(read.markdown, document().markdown);
    assert!(read.markdown.contains("## Decisions"));
    assert!(read.markdown.contains("Owner: Product lead"));
}

#[test]
fn a_foreign_or_malformed_summary_is_rejected() {
    let bytes = render_document(&document()).unwrap();
    let foreign = 0xbbbbbbbb_bbbb_4bbb_8bbb_bbbbbbbbbbbb;
    assert_eq!(
        parse_summary(&bytes, foreign, SESSION).unwrap_err().code,
        Code::SummaryDocumentIdentityMismatch
    );
    assert_eq!(
        parse_summary(b"not a summary document", PROJECT, SESSION).unwrap_err().code,
        Code::SummaryDocumentInvalid
    );
    let crlf = String::from_utf8(bytes.clone()).unwrap().replace('\n', "\r\n");
    assert_eq!(
        parse_summary(crlf.as_bytes(), PROJECT, SESSION).unwrap_err().code,
        Code::SummaryDocumentInvalid
    );
    let bad_count = String::from_utf8(bytes).unwrap().replace("segments_included: 40", "segments_included: x");
    assert_eq!(
        parse_summary(bad_count.as_bytes(), PROJECT, SESSION).unwrap_err().code,
        Code::SummaryDocumentInvalid
    );
    assert_eq!(
        parse_summary(&[0xff, 0xfe], PROJECT, SESSION).unwrap_err().code,
        Code::SummaryDocumentInvalid
    );
}

#[test]
fn summary_session_errors_map_to_summary_codes() {
    assert_eq!(
        map_session_error(SessionStoreError::new(Code::SessionSnapshotMissing)).code,
        Code::SummarySessionMissing
    );
    assert_eq!(
        map_session_error(SessionStoreError::new(Code::WorkspaceRequired)).code,
        Code::WorkspaceRequired
    );
    assert_eq!(
        map_session_error(SessionStoreError::new(Code::SessionPathUnsafe)).code,
        Code::SummarySessionUnavailable
    );
}

#[test]
fn summary_paths_end_with_their_file_names() {
    let paths = SummaryPaths::new("workspace");
    assert!(paths.document.ends_with("summary.md"));
    assert!(paths.temporary.ends_with(".summary.md.tmp"));
    assert!(paths.backup.ends_with("summary.md.bak"));
    assert!(paths.document.starts_with("workspace"));
    assert_ne!(paths.document, "workspace");
}

#[test]
fn timestamps_are_zero_padded_and_grow_past_99_hours() {
    assert_eq!(format_timestamp(0), "00:00:00.000");
    assert_eq!(format_timestamp(3_723_004), "01:02:03.004");
    assert_eq!(format_timestamp(360_000_000), "100:00:00.000");
}

#[test]
fn entry_names_are_bounded_and_control_free() {
    assert_eq!(safe_entry_name("p", "s"), Some("p/s".to_owned()));
    assert_eq!(safe_entry_name("p\n", "s"), None);
    assert_eq!(safe_entry_name(&"a".repeat(200), &"b".repeat(56)), Some(format!("{}/{}", "a".repeat(200), "b".repeat(56))));
    assert_eq!(safe_entry_name(&"a".repeat(200), &"b".repeat(57)), None);
}

fn replay(segments: Vec<FinalizedTranscriptSegment>, sequence: u64) -> JournalReplay {
    JournalReplay {
        last_sequence: sequence,
        last_checksum: if sequence == 0 { None } else { Some("a".repeat(64)) },
        last_recorded_at: if sequence == 0 { None } else { Some("2026-08-11T10:00:00Z".to_owned()) },
        applied_events: sequence as usize,
        ignored_duplicate_events: 0,
        discarded_torn_tail: false,
        state: SessionState::Transcribing,
        finalized_segments: segments,
    }
}

fn owner() -> TranscriptOwner {
    TranscriptOwner { project_id: PROJECT, session_id: SESSION, created_at: "2026-08-11T09:00:00Z".to_owned() }
}

#[test]
fn transcript_renders_sections_and_a_checkpoint_that_reads_back() {
    let segment = FinalizedTranscriptSegment {
        id: 0x11111111_1111_4111_8111_111111111111,
        source: AudioSource::SystemOutput,
        start_ms: 1_200,
        end_ms: 1_700,
        text: "We agreed.".to_owned(),
        language: "en-GB".to_owned(),
    };
    let bytes = render_transcript(&owner(), &replay(vec![segment], 2)).unwrap();
    let text = String::from_utf8(bytes.clone()).unwrap();
    let expected = format!(
        "---\nschema_version: 1\ndocument_type: \"transcript\"\nproject_id: \"aaaaaaaa-aaaa-4aaa-8aaa-aaaaaaaaaaaa\"\nsession_id: \"cccccccc-cccc-4ccc-8ccc-cccccccccccc\"\ncreated_at: \"2026-08-11T09:00:00Z\"\nupdated_at: \"2026-08-11T10:00:00Z\"\njournal_sequence: 2\njournal_checksum: \"{}\"\n---\n\n## 00:00:01.200 — System output\n\nWe agreed.\n\n<!--\nsegment_id: 11111111-1111-4111-8111-111111111111\nsource: system_output\nstart_ms: 1200\nend_ms: 1700\nstatus: final\nlanguage: \"en-GB\"\n-->\n",
        "a".repeat(64)
    );
    assert_eq!(text, expected);
    assert_eq!(parse_checkpoint(&bytes).unwrap(), (2, Some("a".repeat(64))));
}

#[test]
fn an_empty_transcript_records_a_null_checkpoint() {
    let bytes = render_transcript(&owner(), &replay(vec![], 0)).unwrap();
    let text = String::from_utf8(bytes.clone()).unwrap();
    assert!(text.contains("updated_at: \"2026-08-11T09:00:00Z\"\njournal_sequence: 0\njournal_checksum: null\n---\n"));
    assert_eq!(parse_checkpoint(&bytes).unwrap(), (0, None));
}

#[test]
fn inconsistent_checkpoints_are_refused() {
    let bytes = render_transcript(&owner(), &replay(vec![], 0)).unwrap();
    let text = String::from_utf8(bytes).unwrap();
    let with_sequence = text.replace("journal_sequence: 0", "journal_sequence: 3");
    assert_eq!(
        parse_checkpoint(with_sequence.as_bytes()).unwrap_err().code,
        Code::TranscriptCheckpointInvalid
    );
    let upper = text.replace("journal_checksum: null", &format!("journal_checksum: \"{}\"", "A".repeat(64)));
    assert_eq!(parse_checkpoint(upper.as_bytes()).unwrap_err().code, Code::TranscriptCheckpointInvalid);
    let reshaped = text.replace("document_type: \"transcript\"", "document_type: \"summary\"");
    assert_eq!(parse_checkpoint(reshaped.as_bytes()).unwrap_err().code, Code::TranscriptSnapshotInvalid);
    assert_eq!(parse_checkpoint(b"---\n").unwrap_err().code, Code::TranscriptSnapshotInvalid);
}

#[test]
fn transcript_open_errors_map_to_transcript_codes() {
    assert_eq!(map_open_error(Code::ProjectSnapshotMissing).code, Code::TranscriptSnapshotMissing);
    assert_eq!(map_open_error(Code::ProjectPathUnsafe).code, Code::TranscriptPathUnsafe);
    assert_eq!(map_open_error(Code::ProjectSnapshotInvalid).code, Code::TranscriptSnapshotReadFailed);
    assert!(TranscriptStoreError::new(Code::TranscriptSnapshotTooLarge).recoverable());
    assert!(!TranscriptStoreError::new(Code::TranscriptSnapshotConflict).recoverable());
}

#[test]
fn an_absent_summary_reads_as_none_and_a_written_one_round_trips() {
    let (written, bytes) = prepare_summary(
        PROJECT,
        SESSION,
        "2026-08-22T18:30:00Z".to_owned(),
        "example/text-model".to_owned(),
        &content(),
        42,
        40,
    )
    .unwrap();
    let read = parse_summary(&bytes, PROJECT, SESSION).unwrap();

    assert_eq!(read.schema_version, written.schema_version);
    assert_eq!(read.project_id, written.project_id);
    assert_eq!(read.session_id, written.session_id);
    assert_eq!(read.generated_at, written.generated_at);
    assert_eq!(read.model_id, written.model_id);
    assert_eq!(read.markdown, written.markdown);
    assert_eq!(read.segments_considered, 42);
    assert_eq!(read.segments_included, 40);
    assert!(read.markdown.contains("## Decisions"));
    assert!(read.markdown.contains("Owner: Product lead"));
    assert!(read.markdown.contains("_None recorded._"));
}

#[test]
fn regeneration_replaces_the_document_and_retains_a_backup() {
    let (first, _) = prepare_summary(
        PROJECT,
        SESSION,
        "2026-08-22T18:30:00Z".to_owned(),
        "example/text-model".to_owned(),
        &content(),
        42,
        40,
    )
    .unwrap();
    let mut second = content();
    second.executive_summary = "A regenerated summary.".to_owned();
    let (replaced, bytes) = prepare_summary(
        PROJECT,
        SESSION,
        "2026-08-22T19:00:00Z".to_owned(),
        "example/text-model".to_owned(),
        &second,
        50,
        48,
    )
    .unwrap();

    assert!(replaced.markdown.contains("A regenerated summary."));
    assert_ne!(replaced.markdown, first.markdown);
    let read = parse_summary(&bytes, PROJECT, SESSION).unwrap();
    assert_eq!(read.markdown, replaced.markdown);
    assert_eq!(read.generated_at, "2026-08-22T19:00:00Z");
    assert_eq!(read.segments_considered, 50);
    assert_eq!(read.segments_included, 48);
}
