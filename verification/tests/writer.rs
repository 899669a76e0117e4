use kokorokoe::codes::Code;
use kokorokoe::persistence::session_writer::{
    inject_fault, SessionWriterError, SessionWriterProjection, WriterAction, WriterFault,
    WriterState,
};

/// A writer driven the way the session runtime drives it, with the journal,
/// the transcript materializer and the search index stood in for by counters:
/// every materialization publishes the journal's last sequence, and every
/// index rebuild commits the next generation.
struct Writer {
    state: WriterState,
    journal_sequence: u64,
    generation: u64,
    last_event: Option<u128>,
}

struct Receipt {
    sequence: u64,
    already_committed: bool,
    projection: SessionWriterProjection,
}

enum Append {
    Segment(u128),
    Lifecycle(u128),
}

impl Writer {
    fn open(now_ms: u64) -> Self {
        Self::reopen(now_ms, None, 0, 0)
    }

    fn reopen(now_ms: u64, snapshot: Option<u64>, journal_sequence: u64, generation: u64) -> Self {
        let existing = snapshot.map(|checkpoint| ([checkpoint as u8; 32], checkpoint));
        let state = WriterState::opened(now_ms, existing).unwrap();
        let mut writer = Writer { state, journal_sequence, generation, last_event: None };
        let action = writer.state.reopen_action(journal_sequence);
        writer.run(action, None).unwrap();
        writer
    }

    fn run(&mut self, action: WriterAction, fault: Option<WriterFault>) -> Result<(), SessionWriterError> {
        match action {
            WriterAction::MaterializeSnapshot => {
                let sequence = self.journal_sequence;
                self.state.snapshot_published([sequence as u8; 32], sequence);
                inject_fault(fault, WriterFault::AfterSnapshotAcknowledged)?;
                self.refresh(fault)
            }
            WriterAction::RefreshIndex => self.refresh(fault),
            WriterAction::Nothing => Ok(()),
        }
    }

    fn refresh(&mut self, fault: Option<WriterFault>) -> Result<(), SessionWriterError> {
        inject_fault(fault, WriterFault::BeforeIndexRefresh)?;
        self.generation += 1;
        self.state.index_refreshed(self.generation);
        Ok(())
    }

    fn append(&mut self, append: Append, now_ms: u64) -> Result<Receipt, SessionWriterError> {
        self.append_with_fault(append, now_ms, None)
    }

    fn append_with_fault(
        &mut self,
        append: Append,
        now_ms: u64,
        fault: Option<WriterFault>,
    ) -> Result<Receipt, SessionWriterError> {
        self.state.advance_tick(now_ms)?;
        let (event, finalized_segment) = match append {
            Append::Segment(event) => (event, true),
            Append::Lifecycle(event) => (event, false),
        };
        let already_committed = self.last_event == Some(event);
        if !already_committed {
            self.journal_sequence += 1;
            self.last_event = Some(event);
        }
        inject_fault(fault, WriterFault::AfterJournalAcknowledged)?;
        self.state.record_append(finalized_segment, already_committed, now_ms);
        let action = self.state.after_append_action(!finalized_segment, now_ms);
        self.run(action, fault)?;
        Ok(Receipt {
            sequence: self.journal_sequence,
            already_committed,
            projection: self.state.projection(),
        })
    }

    fn poll(&mut self, now_ms: u64) -> Result<SessionWriterProjection, SessionWriterError> {
        self.state.advance_tick(now_ms)?;
        let action = self.state.poll_action(now_ms);
        self.run(action, None)?;
        Ok(self.state.projection())
    }

    fn flush(&mut self, now_ms: u64) -> Result<SessionWriterProjection, SessionWriterError> {
        self.state.advance_tick(now_ms)?;
        self.run(WriterAction::MaterializeSnapshot, None)?;
        Ok(self.state.projection())
    }
}

#[test]
fn fifth_final_segment_materializes_and_refreshes_search() {
    let mut writer = Writer::open(10);
    for index in 0..4u128 {
        let receipt = writer.append(Append::Segment(index + 1), 10).unwrap();
        assert!(matches!(
            receipt.projection,
            SessionWriterProjection::Deferred { pending_final_segments, .. }
                if pending_final_segments == index as u8 + 1
        ));
    }
    let receipt = writer.append(Append::Segment(5), 10).unwrap();
    assert!(matches!(
        receipt.projection,
        SessionWriterProjection::Current { checkpoint_sequence: 5, .. }
    ));
}

#[test]
fn two_second_deadline_and_explicit_flush_are_deterministic() {
    let mut writer = Writer::open(100);
    writer.append(Append::Segment(1), 100).unwrap();
    assert!(matches!(writer.poll(2_099).unwrap(), SessionWriterProjection::Deferred { .. }));
    assert!(matches!(
        writer.poll(2_100).unwrap(),
        SessionWriterProjection::Current { checkpoint_sequence: 1, .. }
    ));
    writer.append(Append::Segment(2), 2_101).unwrap();
    assert!(matches!(
        writer.flush(2_101).unwrap(),
        SessionWriterProjection::Current { checkpoint_sequence: 2, .. }
    ));
}

#[test]
fn lifecycle_boundary_flushes_below_the_segment_threshold() {
    let mut writer = Writer::open(0);
    writer.append(Append::Segment(1), 1).unwrap();
    let receipt = writer.append(Append::Lifecycle(2), 2).unwrap();
    assert!(matches!(
        receipt.projection,
        SessionWriterProjection::Current { checkpoint_sequence: 2, .. }
    ));
}

#[test]
fn identical_retry_does_not_advance_the_batch_or_duplicate_content() {
    let mut writer = Writer::open(0);
    writer.append(Append::Segment(1), 1).unwrap();
    let retry = writer.append(Append::Segment(1), 2).unwrap();
    assert!(retry.already_committed);
    assert_eq!(retry.sequence, 1);
    assert!(matches!(
        retry.projection,
        SessionWriterProjection::Deferred { pending_final_segments: 1, .. }
    ));
    assert!(matches!(
        writer.flush(2).unwrap(),
        SessionWriterProjection::Current { checkpoint_sequence: 1, .. }
    ));
}

#[test]
fn reopen_repairs_a_crash_after_the_journal_acknowledgement() {
    let mut writer = Writer::open(0);
    let error = writer
        .append_with_fault(Append::Segment(1), 1, Some(WriterFault::AfterJournalAcknowledged))
        .err()
        .unwrap();
    assert_eq!(error.code, Code::SessionWriterFaultInjected);
    let reopened = Writer::reopen(2, Some(0), writer.journal_sequence, writer.generation);
    assert!(matches!(
        reopened.state.projection(),
        SessionWriterProjection::Current { checkpoint_sequence: 1, .. }
    ));
}

#[test]
fn reopen_refreshes_index_after_a_snapshot_boundary_crash() {
    let mut writer = Writer::open(0);
    let error = writer
        .append_with_fault(Append::Lifecycle(1), 1, Some(WriterFault::AfterSnapshotAcknowledged))
        .err()
        .unwrap();
    assert_eq!(error.code, Code::SessionWriterFaultInjected);
    let reopened = Writer::reopen(2, Some(1), writer.journal_sequence, writer.generation);
    assert_eq!(reopened.state.reopen_action(1), WriterAction::RefreshIndex);
    assert!(matches!(
        reopened.state.projection(),
        SessionWriterProjection::Current { checkpoint_sequence: 1, index_generation: Some(_) }
    ));
}

#[test]
fn index_refresh_failure_is_retryable_without_rewriting_the_snapshot() {
    let mut writer = Writer::open(0);
    let error = writer
        .append_with_fault(Append::Lifecycle(1), 1, Some(WriterFault::BeforeIndexRefresh))
        .err()
        .unwrap();
    assert_eq!(error.code, Code::SessionWriterFaultInjected);
    let published = writer.state.snapshot_fingerprint;
    assert_eq!(writer.state.poll_action(2), WriterAction::RefreshIndex);
    assert!(matches!(
        writer.poll(2).unwrap(),
        SessionWriterProjection::Current { checkpoint_sequence: 1, .. }
    ));
    assert_eq!(writer.state.snapshot_fingerprint, published);
}

#[test]
fn external_markdown_conflict_keeps_journaling_and_never_overwrites() {
    let mut writer = Writer::open(0);
    for index in 0..5u128 {
        writer.state.advance_tick(1).unwrap();
        writer.journal_sequence += 1;
        writer.state.record_append(true, false, 1);
        if writer.state.after_append_action(false, 1) == WriterAction::MaterializeSnapshot {
            writer.state.snapshot_failed(Code::TranscriptSnapshotConflict);
        }
        assert_eq!(writer.journal_sequence, index as u64 + 1);
    }
    assert_eq!(
        writer.state.projection(),
        SessionWriterProjection::SnapshotPending {
            checkpoint_sequence: 0,
            pending_final_segments: 5,
            code: Code::TranscriptSnapshotConflict,
        }
    );
    assert_eq!(writer.journal_sequence, 5);
}

#[test]
fn clock_rollback_is_rejected_before_any_journal_write() {
    let mut writer = Writer::open(10);
    let error = writer.append(Append::Segment(1), 9).err().unwrap();
    assert_eq!(error.code, Code::SessionWriterClockInvalid);
    assert_eq!(writer.journal_sequence, 0);
}
