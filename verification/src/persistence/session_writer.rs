//! The decisions of the live session writer: when the journal's derived
//! transcript snapshot and search index are brought up to date, and what
//! state the projection reports in between. The journal append, the
//! materialization and the index rebuild themselves are performed by the
//! caller, which reports each outcome back.

use vstd::prelude::*;

use crate::codes::Code;
use crate::persistence::session_journal::SessionJournalError;
use crate::persistence::transcript_store::TranscriptStoreError;

verus! {

/// Longest time final segments wait before the snapshot is refreshed.
pub const SNAPSHOT_INTERVAL_MS: u64 = 2_000;

/// Final segments that trigger a snapshot refresh at once.
pub const SNAPSHOT_SEGMENT_BATCH: u8 = 5;

/// Largest clock value the writer accepts (the largest JSON-safe integer).
pub const MAX_SAFE_TICK_MS: u64 = 9_007_199_254_740_991;

/// A writer failure.
#[derive(Debug, Clone, Copy, PartialEq, Eq, Structural)]
pub struct SessionWriterError {
    pub code: Code,
}

impl SessionWriterError {
    /// An error with `code`.
    pub fn new(code: Code) -> (r: Self)
        ensures
            r.code == code,
    {
        Self { code }
    }
}

/// How current the derived transcript snapshot and search index are.
#[derive(Debug, Clone, Copy, PartialEq, Eq, Structural)]
pub enum SessionWriterProjection {
    Current { checkpoint_sequence: u64, index_generation: Option<u64> },
    Deferred { checkpoint_sequence: u64, pending_final_segments: u8, flush_deadline_ms: u64 },
    SnapshotPending { checkpoint_sequence: u64, pending_final_segments: u8, code: Code },
    IndexPending { checkpoint_sequence: u64, code: Code },
}

/// What the writer's owner should do next.
#[derive(Debug, Clone, Copy, PartialEq, Eq, Structural)]
pub enum WriterAction {
    MaterializeSnapshot,
    RefreshIndex,
    Nothing,
}

/// The writer's bookkeeping between outside operations.
#[derive(Debug, Clone, Copy)]
pub struct WriterState {
    pub snapshot_fingerprint: Option<[u8; 32]>,
    pub checkpoint_sequence: u64,
    pub pending_final_segments: u8,
    pub pending_since_ms: Option<u64>,
    pub last_tick_ms: u64,
    pub index_dirty: bool,
    pub index_generation: Option<u64>,
    pub snapshot_error: Option<Code>,
    pub index_error: Option<Code>,
}

/// Rejects a clock value past the JSON-safe range.
pub fn validate_initial_tick(now_ms: u64) -> (r: Result<(), SessionWriterError>)
    ensures
        r is Ok <==> now_ms <= MAX_SAFE_TICK_MS,
        r matches Err(e) ==> e.code == Code::SessionWriterClockInvalid,
{
    if now_ms > MAX_SAFE_TICK_MS {
        return Err(SessionWriterError::new(Code::SessionWriterClockInvalid));
    }
    Ok(())
}

/// A journal failure keeps its code.
pub fn map_journal_error(error: SessionJournalError) -> (r: SessionWriterError)
    ensures
        r.code == error.code,
{
    SessionWriterError::new(error.code)
}

/// A transcript store failure keeps its code.
pub fn map_transcript_error(error: TranscriptStoreError) -> (r: SessionWriterError)
    ensures
        r.code == error.code,
{
    SessionWriterError::new(error.code)
}

/// Points where a test may make the writer fail.
#[derive(Debug, Clone, Copy, PartialEq, Eq, Structural)]
pub enum WriterFault {
    AfterJournalAcknowledged,
    AfterSnapshotAcknowledged,
    BeforeIndexRefresh,
}

/// Fails with `session_writer_fault_injected` exactly at the requested point.
pub fn inject_fault(requested: Option<WriterFault>, checkpoint: WriterFault) -> (r: Result<
    (),
    SessionWriterError,
>)
    ensures
        r is Err <==> requested == Some(checkpoint),
        r matches Err(e) ==> e.code == Code::SessionWriterFaultInjected,
{
    match requested {
        Some(f) => if f == checkpoint {
            Err(SessionWriterError::new(Code::SessionWriterFaultInjected))
        } else {
            Ok(())
        },
        None => Ok(()),
    }
}

impl WriterState {
    /// The bookkeeping every writer keeps: the batch counter never passes
    /// the batch size, a pending batch has a start time, and the clock stays
    /// in range.
    pub open spec fn wf(&self) -> bool {
        &&& self.pending_final_segments <= SNAPSHOT_SEGMENT_BATCH
        &&& self.last_tick_ms <= MAX_SAFE_TICK_MS
        &&& (self.pending_since_ms matches Some(t) ==> t <= self.last_tick_ms)
    }

    /// What the projection reports for this state.
    pub open spec fn projection_spec(&self) -> SessionWriterProjection {
        if self.snapshot_error is Some {
            SessionWriterProjection::SnapshotPending {
                checkpoint_sequence: self.checkpoint_sequence,
                pending_final_segments: self.pending_final_segments,
                code: self.snapshot_error->0,
            }
        } else if self.pending_since_ms is Some {
            SessionWriterProjection::Deferred {
                checkpoint_sequence: self.checkpoint_sequence,
                pending_final_segments: self.pending_final_segments,
                flush_deadline_ms: if self.pending_since_ms->0 + SNAPSHOT_INTERVAL_MS
                    <= u64::MAX {
                    (self.pending_since_ms->0 + SNAPSHOT_INTERVAL_MS) as u64
                } else {
                    u64::MAX
                },
            }
        } else if self.index_error is Some {
            SessionWriterProjection::IndexPending {
                checkpoint_sequence: self.checkpoint_sequence,
                code: self.index_error->0,
            }
        } else {
            SessionWriterProjection::Current {
                checkpoint_sequence: self.checkpoint_sequence,
                index_generation: self.index_generation,
            }
        }
    }

    /// A freshly opened writer: the snapshot on disk, if any, is its
    /// checkpoint, nothing is pending and the index is to be refreshed.
    pub fn opened(now_ms: u64, existing: Option<([u8; 32], u64)>) -> (r: Result<
        Self,
        SessionWriterError,
    >)
        ensures
            r is Ok <==> now_ms <= MAX_SAFE_TICK_MS,
            r matches Err(e) ==> e.code == Code::SessionWriterClockInvalid,
            r matches Ok(w) ==> {
                &&& w.wf()
                &&& w.last_tick_ms == now_ms
                &&& w.pending_final_segments == 0
                &&& w.pending_since_ms is None
                &&& w.index_dirty
                &&& w.snapshot_error is None
                &&& w.index_error is None
                &&& w.index_generation is None
                &&& match existing {
                    Some((f, s)) => w.snapshot_fingerprint == Some(f) && w.checkpoint_sequence == s,
                    None => w.snapshot_fingerprint is None && w.checkpoint_sequence == 0,
                }
            },
    {
        validate_initial_tick(now_ms)?;
        let (snapshot_fingerprint, checkpoint_sequence) = match existing {
            Some((f, s)) => (Some(f), s),
            None => (None, 0),
        };
        Ok(
            WriterState {
                snapshot_fingerprint,
                checkpoint_sequence,
                pending_final_segments: 0,
                pending_since_ms: None,
                last_tick_ms: now_ms,
                index_dirty: true,
                index_generation: None,
                snapshot_error: None,
                index_error: None,
            },
        )
    }

    /// On reopening, any journal gap or a missing snapshot is materialized
    /// at once; otherwise only the index is refreshed.
    pub fn reopen_action(&self, replay_last_sequence: u64) -> (r: WriterAction)
        ensures
            r == if replay_last_sequence != self.checkpoint_sequence
                || self.snapshot_fingerprint is None {
                WriterAction::MaterializeSnapshot
            } else {
                WriterAction::RefreshIndex
            },
    {
        if replay_last_sequence != self.checkpoint_sequence || self.snapshot_fingerprint.is_none() {
            WriterAction::MaterializeSnapshot
        } else {
            WriterAction::RefreshIndex
        }
    }

    /// The projection: a failed snapshot first, then a pending batch with
    /// its deadline, then a failed index refresh, else current.
    pub fn projection(&self) -> (r: SessionWriterProjection)
        ensures
            r == self.projection_spec(),
    {
        match self.snapshot_error {
            Some(code) => {
                return SessionWriterProjection::SnapshotPending {
                    checkpoint_sequence: self.checkpoint_sequence,
                    pending_final_segments: self.pending_final_segments,
                    code,
                };
            },
            None => {},
        }
        match self.pending_since_ms {
            Some(since) => {
                return SessionWriterProjection::Deferred {
                    checkpoint_sequence: self.checkpoint_sequence,
                    pending_final_segments: self.pending_final_segments,
                    flush_deadline_ms: since.saturating_add(SNAPSHOT_INTERVAL_MS),
                };
            },
            None => {},
        }
        match self.index_error {
            Some(code) => SessionWriterProjection::IndexPending {
                checkpoint_sequence: self.checkpoint_sequence,
                code,
            },
            None => SessionWriterProjection::Current {
                checkpoint_sequence: self.checkpoint_sequence,
                index_generation: self.index_generation,
            },
        }
    }

    /// Moves the clock forward; a value past the JSON-safe range or behind
    /// the last one is refused and leaves the state unchanged.
    pub fn advance_tick(&mut self, now_ms: u64) -> (r: Result<(), SessionWriterError>)
        requires
            old(self).wf(),
        ensures
            final(self).wf(),
            r is Ok <==> (now_ms <= MAX_SAFE_TICK_MS && now_ms >= old(self).last_tick_ms),
            r matches Err(e) ==> e.code == Code::SessionWriterClockInvalid && *final(self)
                == *old(self),
            r is Ok ==> *final(self) == (WriterState { last_tick_ms: now_ms, ..*old(self) }),
    {
        if now_ms > MAX_SAFE_TICK_MS || now_ms < self.last_tick_ms {
            return Err(SessionWriterError::new(Code::SessionWriterClockInvalid));
        }
        self.last_tick_ms = now_ms;
        Ok(())
    }

    pub open spec fn snapshot_due_spec(&self, now_ms: u64) -> bool {
        self.pending_final_segments >= SNAPSHOT_SEGMENT_BATCH || (self.pending_since_ms matches Some(
            started,
        ) && now_ms >= started && now_ms - started >= SNAPSHOT_INTERVAL_MS)
    }

    /// A snapshot is due once five final segments wait, or once the oldest
    /// has waited two seconds.
    pub fn snapshot_due(&self, now_ms: u64) -> (r: bool)
        ensures
            r == self.snapshot_due_spec(now_ms),
    {
        self.pending_final_segments >= SNAPSHOT_SEGMENT_BATCH || match self.pending_since_ms {
            Some(started) => now_ms.saturating_sub(started) >= SNAPSHOT_INTERVAL_MS,
            None => false,
        }
    }

    /// Counts a newly committed final segment into the pending batch; a
    /// retried event or another kind of mutation changes nothing.
    pub fn record_append(&mut self, finalized_segment: bool, already_committed: bool, now_ms: u64)
        requires
            old(self).wf(),
            old(self).last_tick_ms == now_ms,
        ensures
            final(self).wf(),
            (finalized_segment && !already_committed) ==> *final(self) == (WriterState {
                pending_final_segments: if old(self).pending_final_segments < SNAPSHOT_SEGMENT_BATCH {
                    (old(self).pending_final_segments + 1) as u8
                } else {
                    SNAPSHOT_SEGMENT_BATCH
                },
                pending_since_ms: match old(self).pending_since_ms {
                    Some(t) => Some(t),
                    None => Some(now_ms),
                },
                ..*old(self)
            }),
            !(finalized_segment && !already_committed) ==> *final(self) == *old(self),
    {
        if finalized_segment && !already_committed {
            let next = self.pending_final_segments.saturating_add(1);
            self.pending_final_segments = if next < SNAPSHOT_SEGMENT_BATCH {
                next
            } else {
                SNAPSHOT_SEGMENT_BATCH
            };
            if self.pending_since_ms.is_none() {
                self.pending_since_ms = Some(now_ms);
            }
        }
    }

    /// After an append, a lifecycle change or a due snapshot asks for the
    /// snapshot to be materialized.
    pub fn after_append_action(&self, lifecycle_boundary: bool, now_ms: u64) -> (r: WriterAction)
        ensures
            r == if lifecycle_boundary || self.snapshot_due_spec(now_ms) {
                WriterAction::MaterializeSnapshot
            } else {
                WriterAction::Nothing
            },
    {
        if lifecycle_boundary || self.snapshot_due(now_ms) {
            WriterAction::MaterializeSnapshot
        } else {
            WriterAction::Nothing
        }
    }

    /// On a poll: a due snapshot is materialized; otherwise a stale index
    /// with nothing pending is refreshed.
    pub fn poll_action(&self, now_ms: u64) -> (r: WriterAction)
        ensures
            r == if self.snapshot_due_spec(now_ms) {
                WriterAction::MaterializeSnapshot
            } else if self.index_dirty && self.pending_final_segments == 0 {
                WriterAction::RefreshIndex
            } else {
                WriterAction::Nothing
            },
    {
        if self.snapshot_due(now_ms) {
            WriterAction::MaterializeSnapshot
        } else if self.index_dirty && self.pending_final_segments == 0 {
            WriterAction::RefreshIndex
        } else {
            WriterAction::Nothing
        }
    }

    /// A snapshot was published: it becomes the checkpoint, the batch is
    /// cleared and the index is to be refreshed.
    pub fn snapshot_published(&mut self, fingerprint: [u8; 32], checkpoint_sequence: u64)
        requires
            old(self).wf(),
        ensures
            final(self).wf(),
            *final(self) == (WriterState {
                snapshot_fingerprint: Some(fingerprint),
                checkpoint_sequence,
                pending_final_segments: 0,
                pending_since_ms: None,
                snapshot_error: None,
                index_dirty: true,
                ..*old(self)
            }),
    {
        self.snapshot_fingerprint = Some(fingerprint);
        self.checkpoint_sequence = checkpoint_sequence;
        self.pending_final_segments = 0;
        self.pending_since_ms = None;
        self.snapshot_error = None;
        self.index_dirty = true;
    }

    /// Materializing failed: the batch stays pending and the failure is
    /// reported until a later attempt succeeds.
    pub fn snapshot_failed(&mut self, code: Code)
        requires
            old(self).wf(),
        ensures
            final(self).wf(),
            *final(self) == (WriterState { snapshot_error: Some(code), ..*old(self) }),
    {
        self.snapshot_error = Some(code);
    }

    /// The index was rebuilt at `generation`.
    pub fn index_refreshed(&mut self, generation: u64)
        requires
            old(self).wf(),
        ensures
            final(self).wf(),
            *final(self) == (WriterState {
                index_generation: Some(generation),
                index_dirty: false,
                index_error: None,
                ..*old(self)
            }),
    {
        self.index_generation = Some(generation);
        self.index_dirty = false;
        self.index_error = None;
    }

    /// The index rebuild failed: it stays dirty and the failure is reported.
    pub fn index_refresh_failed(&mut self, code: Code)
        requires
            old(self).wf(),
        ensures
            final(self).wf(),
            *final(self) == (WriterState { index_dirty: true, index_error: Some(code), ..*old(self) }),
    {
        self.index_dirty = true;
        self.index_error = Some(code);
    }
}

/// After a snapshot is published and the index rebuilt, the projection is
/// current at the new checkpoint and generation.
pub proof fn publish_then_refresh_is_current(
    state: WriterState,
    fingerprint: [u8; 32],
    checkpoint_sequence: u64,
    generation: u64,
)
    requires
        state.wf(),
    ensures
        ({
            let published = WriterState {
                snapshot_fingerprint: Some(fingerprint),
                checkpoint_sequence,
                pending_final_segments: 0,
                pending_since_ms: None,
                snapshot_error: None,
                index_dirty: true,
                ..state
            };
            let refreshed = WriterState {
                index_generation: Some(generation),
                index_dirty: false,
                index_error: None,
                ..published
            };
            refreshed.projection_spec() == SessionWriterProjection::Current {
                checkpoint_sequence,
                index_generation: Some(generation),
            }
        }),
{
}

/// Once five final segments wait, a snapshot is due whatever the clock says.
pub proof fn full_batch_is_always_due(state: WriterState, now_ms: u64)
    requires
        state.wf(),
        state.pending_final_segments == SNAPSHOT_SEGMENT_BATCH,
    ensures
        state.snapshot_due_spec(now_ms),
{
}

} // verus!
