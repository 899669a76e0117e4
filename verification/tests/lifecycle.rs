use kokorokoe::codes::Code;
use kokorokoe::errors::AppErrorCode;
use kokorokoe::persistence::layout::PortableFolderContract;
use kokorokoe::persistence::project_store::ProjectIdentity;
use kokorokoe::persistence::session_journal::SessionState;
use kokorokoe::persistence::session_journal::{AudioSource, FinalizedTranscriptSegment, JournalMutation};
use kokorokoe::persistence::session_lifecycle::{
    check_active_run, check_boundary_session, check_start, elapsed_ms, failed_status,
    failed_start_boundary, failure_boundary, final_segment_append, finish_boundaries, lifecycle_append,
    paused_stop_boundaries, persistence_status, pump_step, recovery_change, recovery_decision,
    start_boundaries, stop_route, PersistenceState, PumpStep, RecoveryDecision, StopRoute,
};
use kokorokoe::persistence::session_store::SessionIdentity;
use kokorokoe::persistence::session_writer::{
    inject_fault, validate_initial_tick, SessionWriterProjection, WriterAction, WriterFault,
    WriterState,
};
use kokorokoe::persistence::settings::{
    check_settings_revision, next_revision, settings_recovery, version_usable, SettingsRecovery,
    StoredSettingsVersion,
};
use kokorokoe::prompts::catalog::{prompt_specification, prompt_specifications, PromptPurpose};

fn project() -> ProjectIdentity {
    ProjectIdentity {
        id: 1,
        folder_name: "weekly-product-meetings--aaaaaaaa".to_owned(),
        created_at: "2026-08-11T09:00:00Z".to_owned(),
        updated_at: "2026-08-11T09:00:00Z".to_owned(),
        revision: 0,
    }
}

fn session(project_id: u128) -> SessionIdentity {
    SessionIdentity {
        id: 2,
        project_id,
        folder_name: "2026-08-11-kickoff--cccccccc".to_owned(),
        created_at: "2026-08-11T09:00:00Z".to_owned(),
        updated_at: "2026-08-11T09:00:00Z".to_owned(),
        revision: 0,
    }
}

#[test]
fn layout_contains_only_fixed_relative_descendants() {
    let contract = PortableFolderContract::for_records(&project(), &session(1)).unwrap();
    let paths = [
        &contract.project_directory,
        &contract.project_document,
        &contract.presets_directory,
        &contract.sessions_directory,
        &contract.session_directory,
        &contract.session_document,
        &contract.transcript_document,
        &contract.summary_document,
        &contract.insights_document,
        &contract.actions_document,
        &contract.questions_document,
        &contract.recovery_journal,
        &contract.audio_directory,
    ];
    for path in paths {
        assert!(path.starts_with("projects/"));
        assert!(!path.contains(".."));
        assert!(!path.contains('\\'));
        assert!(!path.contains(':'));
    }
    assert_eq!(
        contract.transcript_document,
        "projects/weekly-product-meetings--aaaaaaaa/sessions/2026-08-11-kickoff--cccccccc/transcript.md"
    );
}

#[test]
fn layout_rejects_a_session_from_another_project() {
    assert_eq!(
        PortableFolderContract::for_records(&project(), &session(99)).unwrap_err(),
        Code::SessionProjectIdentityMismatch
    );
}

fn opened() -> WriterState {
    WriterState::opened(1_000, Some(([7; 32], 4))).unwrap()
}

#[test]
fn the_fifth_final_segment_makes_a_snapshot_due() {
    let mut writer = opened();
    for k in 0..4 {
        writer.record_append(true, false, 1_000);
        assert_eq!(writer.after_append_action(false, 1_000), WriterAction::Nothing, "segment {k}");
    }
    writer.record_append(true, false, 1_000);
    assert_eq!(writer.pending_final_segments, 5);
    assert_eq!(writer.after_append_action(false, 1_000), WriterAction::MaterializeSnapshot);
    writer.record_append(true, false, 1_000);
    assert_eq!(writer.pending_final_segments, 5);
}

#[test]
fn the_two_second_deadline_and_lifecycle_boundaries_flush() {
    let mut writer = opened();
    writer.record_append(true, false, 1_000);
    assert_eq!(
        writer.projection(),
        SessionWriterProjection::Deferred {
            checkpoint_sequence: 4,
            pending_final_segments: 1,
            flush_deadline_ms: 3_000,
        }
    );
    writer.advance_tick(2_999).unwrap();
    assert_eq!(writer.poll_action(2_999), WriterAction::Nothing);
    writer.advance_tick(3_000).unwrap();
    assert_eq!(writer.poll_action(3_000), WriterAction::MaterializeSnapshot);
    assert_eq!(writer.after_append_action(true, 3_000), WriterAction::MaterializeSnapshot);
    writer.snapshot_published([9; 32], 6);
    assert_eq!(writer.poll_action(3_000), WriterAction::RefreshIndex);
    writer.index_refreshed(2);
    assert_eq!(
        writer.projection(),
        SessionWriterProjection::Current { checkpoint_sequence: 6, index_generation: Some(2) }
    );
}

#[test]
fn retries_do_not_advance_the_batch_and_clock_rollback_is_refused() {
    let mut writer = opened();
    writer.record_append(true, true, 1_000);
    writer.record_append(false, false, 1_000);
    assert_eq!(writer.pending_final_segments, 0);
    assert_eq!(writer.advance_tick(999).unwrap_err().code, Code::SessionWriterClockInvalid);
    assert_eq!(writer.last_tick_ms, 1_000);
    assert!(validate_initial_tick(9_007_199_254_740_992).is_err());
    assert!(WriterState::opened(9_007_199_254_740_992, None).is_err());
}

#[test]
fn failures_are_reported_until_a_later_attempt_succeeds() {
    let mut writer = opened();
    writer.snapshot_failed(Code::TranscriptSnapshotConflict);
    let status = persistence_status(1, 2, 9, &writer.projection());
    assert_eq!(status.state, PersistenceState::Conflict);
    assert_eq!(status.code, Some(Code::TranscriptSnapshotConflict));
    assert_eq!(status.snapshot_sequence, 4);
    assert_eq!(status.journal_sequence, 9);
    writer.snapshot_published([1; 32], 9);
    writer.index_refresh_failed(Code::TranscriptSearchUnavailable);
    let status = persistence_status(1, 2, 9, &writer.projection());
    assert_eq!(status.state, PersistenceState::Failed);
    assert_eq!(status.code, Some(Code::TranscriptSearchUnavailable));
    assert_eq!(writer.poll_action(1_000), WriterAction::RefreshIndex);
    assert_eq!(writer.reopen_action(9), WriterAction::RefreshIndex);
    assert_eq!(writer.reopen_action(10), WriterAction::MaterializeSnapshot);
    assert!(inject_fault(Some(WriterFault::BeforeIndexRefresh), WriterFault::BeforeIndexRefresh).is_err());
    assert!(inject_fault(None, WriterFault::BeforeIndexRefresh).is_ok());
}

#[test]
fn interrupted_sessions_recover_to_paused_or_failed() {
    assert_eq!(recovery_decision(SessionState::Idle, SessionState::Idle), RecoveryDecision::Skip);
    assert_eq!(recovery_decision(SessionState::Paused, SessionState::Paused), RecoveryDecision::Skip);
    assert_eq!(
        recovery_decision(SessionState::Transcribing, SessionState::Idle),
        RecoveryDecision::Recover { target: SessionState::Paused }
    );
    assert_eq!(
        recovery_decision(SessionState::Capturing, SessionState::Transcribing),
        RecoveryDecision::Recover { target: SessionState::Failed }
    );
    assert_eq!(
        recovery_decision(SessionState::Completed, SessionState::Stopping),
        RecoveryDecision::Recover { target: SessionState::Completed }
    );
    assert_eq!(recovery_decision(SessionState::ProcessingSummary, SessionState::Idle), RecoveryDecision::Skip);
    assert_eq!(
        recovery_change(SessionState::Transcribing, SessionState::Paused),
        Some((SessionState::Transcribing, SessionState::Paused))
    );
    assert_eq!(recovery_change(SessionState::Completed, SessionState::Completed), None);
}

#[test]
fn consent_and_revision_are_checked_before_start() {
    assert_eq!(check_start(false, false, 1, 1, SessionState::Idle, SessionState::Idle), Err(Code::LiveTranscriptionConsentRequired));
    assert_eq!(check_start(true, true, 1, 1, SessionState::Idle, SessionState::Idle), Err(Code::SessionAlreadyRunning));
    assert_eq!(check_start(true, false, 2, 1, SessionState::Idle, SessionState::Idle), Err(Code::SessionRevisionConflict));
    assert_eq!(check_start(true, false, 1, 1, SessionState::Paused, SessionState::Idle), Err(Code::SessionLifecycleInvalid));
    assert_eq!(check_start(true, false, 1, 1, SessionState::Idle, SessionState::Idle), Ok(()));
    assert_eq!(
        start_boundaries(SessionState::Paused),
        [
            (SessionState::Paused, SessionState::Preparing),
            (SessionState::Preparing, SessionState::Capturing),
            (SessionState::Capturing, SessionState::Transcribing),
        ]
    );
    assert_eq!(failure_boundary(SessionState::Capturing), (SessionState::Capturing, SessionState::Failed));
    assert_eq!(elapsed_ms(1_234), 1_234);
    assert_eq!(elapsed_ms(u128::MAX), 9_007_199_254_740_991);
}

#[test]
fn settings_revisions_stay_json_safe_and_only_grow() {
    assert_eq!(next_revision(0).unwrap(), 1);
    assert_eq!(next_revision(9_007_199_254_740_990).unwrap(), 9_007_199_254_740_991);
    assert_eq!(next_revision(9_007_199_254_740_991).unwrap_err().code, AppErrorCode::SettingsRevisionExhausted);
    assert_eq!(next_revision(u64::MAX).unwrap_err().code, AppErrorCode::SettingsRevisionExhausted);

    let version = |revision: i64, usable: bool| StoredSettingsVersion { revision, usable };
    assert_eq!(settings_recovery(&[version(5, true), version(4, true)], Some(5)).unwrap(), SettingsRecovery::UseNewest);
    assert_eq!(
        settings_recovery(&[version(5, false), version(4, true)], Some(5)).unwrap(),
        SettingsRecovery::Restore { index: 1, revision: 6 }
    );
    assert_eq!(
        settings_recovery(&[version(5, false), version(4, false)], Some(5)).unwrap(),
        SettingsRecovery::Reset { revision: 6 }
    );
    assert_eq!(settings_recovery(&[], Some(7)).unwrap(), SettingsRecovery::Reset { revision: 8 });
    assert_eq!(settings_recovery(&[], None).unwrap(), SettingsRecovery::Reset { revision: 0 });
    assert_eq!(settings_recovery(&[version(-1, true)], None).unwrap_err().code, AppErrorCode::SettingsUnavailable);
}

#[test]
fn every_purpose_resolves_its_frozen_ceilings() {
    let insight = prompt_specification(PromptPurpose::Insight);
    assert_eq!(insight.id, "kokorokoe.insight.recent");
    assert_eq!(insight.approximate_request_token_limit, 8_192);
    assert_eq!(insight.maximum_output_tokens, 1_024);
    let summary = prompt_specification(PromptPurpose::Summary);
    assert_eq!(summary.approximate_request_token_limit, 16_384);
    assert_eq!(summary.maximum_output_tokens, 4_096);
    let manual = prompt_specification(PromptPurpose::ManualQuestion);
    assert_eq!(manual.approximate_request_token_limit, 8_192);
    assert_eq!(manual.maximum_output_tokens, 2_048);
    assert_eq!(manual.variables.len(), 6);
    let all = prompt_specifications();
    assert_eq!(all[1].output_schema_id, "session_summary_v1");
    for specification in all {
        assert!(specification.maximum_output_tokens <= specification.approximate_request_token_limit / 2);
        let schema: serde_json::Value = serde_json::from_str(specification.output_schema).unwrap();
        assert_eq!(schema["type"], "object");
        assert_eq!(schema["additionalProperties"], false);
    }
}

#[test]
fn consent_and_revision_are_rejected_before_runtime_start() {
    let revision = 0;
    let mut runtime_starts = 0;
    let error = check_start(false, false, revision, revision, SessionState::Idle, SessionState::Idle)
        .unwrap_err();
    assert_eq!(error, Code::LiveTranscriptionConsentRequired);
    let error = check_start(true, false, revision, revision + 1, SessionState::Idle, SessionState::Idle)
        .unwrap_err();
    assert_eq!(error, Code::SessionRevisionConflict);
    for (consent, expected) in [(false, revision), (true, revision + 1)] {
        if check_start(consent, false, revision, expected, SessionState::Idle, SessionState::Idle).is_ok() {
            runtime_starts += 1;
        }
    }
    assert_eq!(runtime_starts, 0);
}

#[test]
fn startup_recovery_reconciles_a_journal_ahead_of_idle_markdown() {
    let journaled = [
        (SessionState::Idle, SessionState::Preparing),
        (SessionState::Preparing, SessionState::Capturing),
        (SessionState::Capturing, SessionState::Transcribing),
    ];
    let replayed = journaled.last().unwrap().1;
    let recorded = SessionState::Idle;
    let mut recovered = 0;
    let mut state = recorded;
    if let RecoveryDecision::Recover { target } = recovery_decision(replayed, recorded) {
        assert_eq!(recovery_change(replayed, target), Some((SessionState::Transcribing, SessionState::Paused)));
        state = target;
        recovered += 1;
    }
    assert_eq!(recovered, 1);
    assert_eq!(state, SessionState::Paused);
}

#[test]
fn corrupted_settings_record_recovers_to_private_defaults() {
    let stored = [StoredSettingsVersion { revision: 0, usable: false }];
    assert_eq!(settings_recovery(&stored, Some(0)).unwrap(), SettingsRecovery::Reset { revision: 1 });
}

#[test]
fn a_corrupt_newest_version_recovers_from_the_previous_revision() {
    let stored = [
        StoredSettingsVersion { revision: 1, usable: false },
        StoredSettingsVersion { revision: 0, usable: true },
    ];
    assert_eq!(
        settings_recovery(&stored, Some(1)).unwrap(),
        SettingsRecovery::Restore { index: 1, revision: 2 }
    );
}

#[test]
fn empty_version_history_recovers_monotonically() {
    let recovered = match settings_recovery(&[], Some(2)).unwrap() {
        SettingsRecovery::Reset { revision } => revision,
        other => panic!("unexpected recovery {other:?}"),
    };
    assert_eq!(recovered, 3);
    assert_eq!(
        check_settings_revision(recovered, 1).unwrap_err().code,
        AppErrorCode::SettingsRevisionConflict
    );
}

#[test]
fn updates_are_persistent_and_revision_checked() {
    check_settings_revision(0, 0).unwrap();
    let updated = next_revision(0).unwrap();
    assert_eq!(updated, 1);
    let error = check_settings_revision(updated, 0).unwrap_err();
    assert_eq!(error.code, AppErrorCode::SettingsRevisionConflict);
    assert!(!error.retryable);
}

#[test]
fn stops_pauses_and_boundaries_follow_the_active_run() {
    assert_eq!(stop_route(Some((1, 2)), 1, 2), Ok(StopRoute::Running));
    assert_eq!(stop_route(None, 1, 2), Ok(StopRoute::Paused));
    assert_eq!(stop_route(Some((1, 3)), 1, 2), Err(Code::SessionNotRunning));
    assert_eq!(check_active_run(Some((1, 2)), 1, 2), Ok(()));
    assert_eq!(check_active_run(Some((1, 3)), 1, 2), Err(Code::SessionNotRunning));
    assert_eq!(check_active_run(None, 1, 2), Err(Code::SessionNotRunning));
    assert_eq!(
        finish_boundaries(SessionState::Completed),
        vec![
            (SessionState::Transcribing, SessionState::Stopping),
            (SessionState::Stopping, SessionState::Completed),
        ]
    );
    assert_eq!(finish_boundaries(SessionState::Paused), vec![(SessionState::Transcribing, SessionState::Paused)]);
    assert_eq!(
        paused_stop_boundaries(),
        vec![
            (SessionState::Paused, SessionState::Stopping),
            (SessionState::Stopping, SessionState::Completed),
        ]
    );
    assert_eq!(
        check_boundary_session(3, 2, SessionState::Transcribing, SessionState::Transcribing, Code::SessionLifecycleInvalid),
        Err(Code::SessionRevisionConflict)
    );
    assert_eq!(
        check_boundary_session(2, 2, SessionState::Idle, SessionState::Paused, Code::SessionNotRunning),
        Err(Code::SessionNotRunning)
    );
    assert_eq!(
        check_boundary_session(2, 2, SessionState::Paused, SessionState::Paused, Code::SessionNotRunning),
        Ok(())
    );
}

#[test]
fn journal_entries_carry_their_event_and_timestamp() {
    let entry = lifecycle_append(7, SessionState::Idle, SessionState::Preparing, "2026-08-12T10:00:00Z".to_owned());
    assert_eq!(entry.event_id, 7);
    assert_eq!(entry.recorded_at, "2026-08-12T10:00:00Z");
    match entry.mutation {
        JournalMutation::LifecycleChange(change) => {
            assert_eq!(change.previous, SessionState::Idle);
            assert_eq!(change.current, SessionState::Preparing);
            assert_eq!(change.occurred_at, "2026-08-12T10:00:00Z");
        }
        _ => panic!("expected a lifecycle change"),
    }
    let segment = FinalizedTranscriptSegment {
        id: 42,
        source: AudioSource::Microphone,
        start_ms: 0,
        end_ms: 500,
        text: "final".to_owned(),
        language: "en-GB".to_owned(),
    };
    let entry = final_segment_append(segment, "2026-08-12T10:00:01Z".to_owned());
    assert_eq!(entry.event_id, 42);
    assert!(matches!(entry.mutation, JournalMutation::FinalizedTranscriptSegment(ref s) if s.id == 42 && s.text == "final"));
}

#[test]
fn the_pump_reports_each_projection_once_and_stops_on_failure() {
    let current = SessionWriterProjection::Current { checkpoint_sequence: 3, index_generation: Some(1) };
    let report = pump_step(1, 2, 3, None, Ok(current));
    assert_eq!(report, PumpStep::Report(persistence_status(1, 2, 3, &current)));
    assert_eq!(pump_step(1, 2, 3, Some(current), Ok(current)), PumpStep::Quiet);
    let stop = pump_step(1, 2, 3, Some(current), Err(Code::SessionWriterStateUnavailable));
    assert_eq!(stop, PumpStep::Stop(failed_status(1, 2, 3, Code::SessionWriterStateUnavailable)));
    let failed = failed_status(1, 2, 3, Code::SessionWriterClockUnavailable);
    assert_eq!(failed.snapshot_sequence, 0);
    assert_eq!(failed.state, PersistenceState::Failed);
    assert_eq!(failed.code, Some(Code::SessionWriterClockUnavailable));
}

#[test]
fn a_settings_version_is_usable_only_at_its_own_revision_with_a_valid_workspace() {
    assert!(version_usable(3, Some(3), Some("C:\\Users\\me\\Documents\\KokoroKoe")));
    assert!(!version_usable(3, Some(2), Some("C:\\Users\\me\\Documents\\KokoroKoe")));
    assert!(!version_usable(3, None, Some("C:\\Users\\me\\Documents\\KokoroKoe")));
    assert!(!version_usable(-1, Some(0), Some("C:\\Users\\me\\Documents\\KokoroKoe")));
    assert!(!version_usable(3, Some(3), Some("relative\\folder")));
    assert!(!version_usable(3, Some(3), None));
}

#[test]
fn layout_refuses_folder_names_outside_the_record_rule() {
    let mut project = project();
    project.folder_name = "..".to_owned();
    assert_eq!(
        PortableFolderContract::for_records(&project, &session(1)).unwrap_err(),
        Code::ProjectContractInvalid
    );
    let mut session = session(1);
    session.folder_name = "Sessions/Kickoff".to_owned();
    assert_eq!(
        PortableFolderContract::for_records(&self::project(), &session).unwrap_err(),
        Code::SessionContractInvalid
    );
}

#[test]
fn a_failed_start_falls_back_from_the_state_it_durably_reached() {
    assert_eq!(failed_start_boundary(0), None);
    assert_eq!(failed_start_boundary(1), Some((SessionState::Preparing, SessionState::Failed)));
    assert_eq!(failed_start_boundary(2), Some((SessionState::Capturing, SessionState::Failed)));
    assert_eq!(failed_start_boundary(3), Some((SessionState::Transcribing, SessionState::Failed)));
}
