use kokorokoe::codes::Code;
use kokorokoe::persistence::session_journal::{
    check_encoded_record, check_record_slot, frame_journal, plan_append, record_checksum,
    replay_records, valid_transition, AppendPlan, AudioSource, FinalizedTranscriptSegment,
    JournalAppend, JournalMutation, JournalRecord, LifecycleChange, SessionState,
};

const SESSION: u128 = 0xcccccccc_cccc_4ccc_8ccc_cccccccccccc;

fn lifecycle(previous: SessionState, current: SessionState) -> JournalMutation {
    JournalMutation::LifecycleChange(LifecycleChange {
        previous,
        current,
        occurred_at: "2026-08-11T10:00:00Z".to_owned(),
    })
}

fn segment(id: u128, text: &str) -> JournalMutation {
    JournalMutation::FinalizedTranscriptSegment(FinalizedTranscriptSegment {
        id,
        source: AudioSource::Microphone,
        start_ms: 100,
        end_ms: 200,
        text: text.to_owned(),
        language: "en".to_owned(),
    })
}

fn record(sequence: u64, event_id: u128, mutation: JournalMutation) -> JournalRecord {
    JournalRecord {
        schema_version: 1,
        session_id: SESSION,
        sequence,
        event_id,
        recorded_at: "2026-08-11T10:00:00Z".to_owned(),
        mutation,
        checksum: format!("{:064x}", sequence),
    }
}

#[test]
fn replay_applies_lifecycle_and_segments_in_order() {
    let records = vec![
        record(1, 1, lifecycle(SessionState::Idle, SessionState::Preparing)),
        record(2, 2, lifecycle(SessionState::Preparing, SessionState::Capturing)),
        record(3, 3, segment(10, "hello")),
        record(4, 4, lifecycle(SessionState::Capturing, SessionState::Transcribing)),
    ];
    let replay = replay_records(&records, true).unwrap();
    assert_eq!(replay.state, SessionState::Transcribing);
    assert_eq!(replay.applied_events, 4);
    assert_eq!(replay.ignored_duplicate_events, 0);
    assert_eq!(replay.last_sequence, 4);
    assert_eq!(replay.last_checksum, Some(format!("{:064x}", 4)));
    assert!(replay.discarded_torn_tail);
    assert_eq!(replay.finalized_segments.len(), 1);
    assert_eq!(replay.finalized_segments[0].text, "hello");
}

#[test]
fn an_empty_journal_replays_to_idle() {
    let replay = replay_records(&[], false).unwrap();
    assert_eq!(replay.state, SessionState::Idle);
    assert_eq!(replay.last_sequence, 0);
    assert_eq!(replay.last_checksum, None);
    assert_eq!(replay.last_recorded_at, None);
    assert_eq!(replay.applied_events, 0);
}

#[test]
fn retried_events_are_ignored_and_conflicting_reuse_fails() {
    let mut records = vec![
        record(1, 1, lifecycle(SessionState::Idle, SessionState::Preparing)),
        record(2, 1, lifecycle(SessionState::Idle, SessionState::Preparing)),
    ];
    let replay = replay_records(&records, false).unwrap();
    assert_eq!(replay.state, SessionState::Preparing);
    assert_eq!(replay.ignored_duplicate_events, 1);
    assert_eq!(replay.applied_events, 1);

    records.push(record(3, 1, lifecycle(SessionState::Idle, SessionState::Failed)));
    assert_eq!(
        replay_records(&records, false).unwrap_err().code,
        Code::SessionJournalEventConflict
    );
}

#[test]
fn a_segment_id_is_finalized_once_and_lifecycle_must_chain() {
    let records = vec![
        record(1, 1, segment(10, "a")),
        record(2, 2, segment(10, "b")),
    ];
    assert_eq!(
        replay_records(&records, false).unwrap_err().code,
        Code::SessionJournalSegmentConflict
    );
    let records = vec![record(1, 1, lifecycle(SessionState::Paused, SessionState::Preparing))];
    assert_eq!(
        replay_records(&records, false).unwrap_err().code,
        Code::SessionJournalLifecycleConflict
    );
}

#[test]
fn only_the_documented_lifecycle_moves_are_valid() {
    assert!(valid_transition(SessionState::Idle, SessionState::Preparing));
    assert!(valid_transition(SessionState::Transcribing, SessionState::Paused));
    assert!(valid_transition(SessionState::Failed, SessionState::Preparing));
    assert!(!valid_transition(SessionState::Idle, SessionState::Transcribing));
    assert!(!valid_transition(SessionState::Completed, SessionState::Preparing));
}

#[test]
fn framing_sets_aside_only_a_torn_final_record() {
    let frame = frame_journal(b"{\"a\":1}\n\n{\"b\":2}\n{\"torn");
    assert!(frame.discarded_torn_tail);
    assert_eq!(frame.valid_bytes, 17);
    assert_eq!(frame.lines, vec![b"{\"a\":1}".to_vec(), b"{\"b\":2}".to_vec()]);

    let whole = frame_journal(b"x\ny\n");
    assert!(!whole.discarded_torn_tail);
    assert_eq!(whole.valid_bytes, 4);
    assert_eq!(whole.lines.len(), 2);

    let torn_only = frame_journal(b"partial");
    assert!(torn_only.discarded_torn_tail);
    assert_eq!(torn_only.valid_bytes, 0);
    assert!(torn_only.lines.is_empty());

    let empty = frame_journal(b"");
    assert!(!empty.discarded_torn_tail);
    assert_eq!(empty.valid_bytes, 0);
}

#[test]
fn record_and_journal_limits_are_enforced() {
    assert!(check_record_slot(65_535, 0).is_ok());
    assert_eq!(check_record_slot(65_536, 0).unwrap_err().code, Code::SessionJournalLimitExceeded);
    assert_eq!(check_record_slot(10, 100_000).unwrap_err().code, Code::SessionJournalLimitExceeded);
    assert!(check_encoded_record(65_536, 0).is_ok());
    assert!(check_encoded_record(65_537, 0).is_err());
    assert!(check_encoded_record(100, 67_108_864 - 100).is_ok());
    assert!(check_encoded_record(100, 67_108_864 - 99).is_err());
}

#[test]
fn appends_are_planned_against_the_replayed_journal() {
    let records = vec![record(1, 7, lifecycle(SessionState::Idle, SessionState::Preparing))];
    let retry = JournalAppend {
        event_id: 7,
        recorded_at: "2026-08-11T10:00:00Z".to_owned(),
        mutation: lifecycle(SessionState::Idle, SessionState::Preparing),
    };
    match plan_append(&records, &retry, true).unwrap() {
        AppendPlan::AlreadyCommitted { sequence, checksum, repair_tail } => {
            assert_eq!(sequence, 1);
            assert_eq!(checksum, format!("{:064x}", 1));
            assert!(repair_tail);
        }
        other => panic!("unexpected plan {other:?}"),
    }
    let conflict = JournalAppend {
        event_id: 7,
        recorded_at: "2026-08-11T11:00:00Z".to_owned(),
        mutation: lifecycle(SessionState::Idle, SessionState::Preparing),
    };
    assert_eq!(plan_append(&records, &conflict, false).unwrap_err().code, Code::SessionJournalEventConflict);
    let fresh = JournalAppend {
        event_id: 8,
        recorded_at: "2026-08-11T10:00:01Z".to_owned(),
        mutation: lifecycle(SessionState::Preparing, SessionState::Capturing),
    };
    match plan_append(&records, &fresh, false).unwrap() {
        AppendPlan::Write { sequence } => assert_eq!(sequence, 2),
        other => panic!("unexpected plan {other:?}"),
    }
}

#[test]
fn record_checksums_are_lower_case_sha256_hex() {
    assert_eq!(
        record_checksum(b"abc"),
        "ba7816bf8f01cfea414140de5dae2223b00361a396177a9cb410ff61f20015ad"
    );
    assert_eq!(
        record_checksum(b""),
        "e3b0c44298fc1c149afbf4c8996fb92427ae41e4649b934ca495991b7852b855"
    );
}

#[test]
fn stored_records_are_checked_in_full() {
    let unsigned = b"{\"schemaVersion\":1}";
    let mut good = record(1, 1, lifecycle(SessionState::Idle, SessionState::Preparing));
    good.checksum = record_checksum(unsigned);
    assert!(good.validate(SESSION, 1, unsigned).is_ok());
    assert_eq!(good.validate(SESSION, 2, unsigned).unwrap_err().code, Code::SessionJournalRecordInvalid);
    assert_eq!(
        good.validate(SESSION, 1, b"{\"schemaVersion\":2}").unwrap_err().code,
        Code::SessionJournalChecksumMismatch
    );
    let mut bad_mutation = record(1, 1, lifecycle(SessionState::Idle, SessionState::Completed));
    bad_mutation.checksum = record_checksum(unsigned);
    assert_eq!(
        bad_mutation.validate(SESSION, 1, unsigned).unwrap_err().code,
        Code::SessionJournalMutationInvalid
    );
    let mut bad_time = good;
    bad_time.recorded_at = "yesterday".to_owned();
    assert_eq!(bad_time.validate(SESSION, 1, unsigned).unwrap_err().code, Code::SessionJournalRecordInvalid);
}

#[test]
fn appends_and_segments_are_validated() {
    let append = JournalAppend {
        event_id: 0,
        recorded_at: "2026-08-11T10:00:00Z".to_owned(),
        mutation: segment(1, "x"),
    };
    assert_eq!(append.validate().unwrap_err().code, Code::SessionJournalAppendInvalid);
    let carriage = JournalAppend { event_id: 1, recorded_at: "2026-08-11T10:00:00Z".to_owned(), mutation: segment(1, "a\rb") };
    assert_eq!(carriage.validate().unwrap_err().code, Code::SessionJournalMutationInvalid);
    let multi_line = JournalAppend { event_id: 1, recorded_at: "2026-08-11T10:00:00Z".to_owned(), mutation: segment(1, "a\nb\tc") };
    assert!(multi_line.validate().is_ok());
    let nil_segment = JournalAppend { event_id: 1, recorded_at: "2026-08-11T10:00:00Z".to_owned(), mutation: segment(0, "a") };
    assert_eq!(nil_segment.validate().unwrap_err().code, Code::SessionJournalMutationInvalid);
}
