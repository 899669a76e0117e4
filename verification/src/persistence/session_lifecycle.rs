//! Lifecycle decisions of persisted sessions: the boundaries a start or
//! resume journals, the recovery of sessions interrupted by a crash, and the
//! persistence status reported to the user interface.

use vstd::prelude::*;

use crate::codes::Code;
use crate::persistence::session_journal::{
    valid_transition_spec, FinalizedTranscriptSegment, JournalAppend, JournalMutation,
    LifecycleChange, SessionState,
};
use crate::persistence::session_writer::SessionWriterProjection;

verus! {

/// What recovery does with one discovered session, given the state its
/// journal replays to and the state its document records.
#[derive(Debug, Clone, Copy, PartialEq, Eq, Structural)]
pub enum RecoveryDecision {
    Skip,
    Recover { target: SessionState },
}

pub open spec fn recovery_decision_spec(replayed: SessionState, recorded: SessionState) -> RecoveryDecision {
    if replayed == SessionState::Idle || (replayed == recorded && (replayed
        == SessionState::Paused || replayed == SessionState::Completed || replayed
        == SessionState::Failed)) {
        RecoveryDecision::Skip
    } else {
        match replayed {
            SessionState::Transcribing => RecoveryDecision::Recover { target: SessionState::Paused },
            SessionState::Preparing | SessionState::Capturing | SessionState::Stopping => {
                RecoveryDecision::Recover { target: SessionState::Failed }
            },
            SessionState::Paused | SessionState::Completed | SessionState::Failed => {
                RecoveryDecision::Recover { target: replayed }
            },
            _ => RecoveryDecision::Skip,
        }
    }
}

/// Decides how a session interrupted by a crash is recovered: a journal
/// still idle, or already settled where the document says, is left alone; a
/// session that was transcribing is paused; one caught preparing, capturing
/// or stopping is failed; a settled journal state the document lags behind
/// is written back to the document.
pub fn recovery_decision(replayed: SessionState, recorded: SessionState) -> (r: RecoveryDecision)
    ensures
        r == recovery_decision_spec(replayed, recorded),
{
    if replayed == SessionState::Idle || (replayed == recorded && (replayed == SessionState::Paused
        || replayed == SessionState::Completed || replayed == SessionState::Failed)) {
        return RecoveryDecision::Skip;
    }
    match replayed {
        SessionState::Transcribing => RecoveryDecision::Recover { target: SessionState::Paused },
        SessionState::Preparing | SessionState::Capturing | SessionState::Stopping => {
            RecoveryDecision::Recover { target: SessionState::Failed }
        },
        SessionState::Paused | SessionState::Completed | SessionState::Failed => {
            RecoveryDecision::Recover { target: replayed }
        },
        _ => RecoveryDecision::Skip,
    }
}

pub open spec fn recovery_change_spec(current: SessionState, target: SessionState) -> Option<
    (SessionState, SessionState),
> {
    if (current == SessionState::Transcribing && target == SessionState::Paused) || (target
        == SessionState::Failed && (current == SessionState::Preparing || current
        == SessionState::Capturing || current == SessionState::Stopping)) {
        Some((current, target))
    } else {
        None
    }
}

/// The lifecycle change recovery journals, when the target differs from
/// the replayed state.
pub fn recovery_change(current: SessionState, target: SessionState) -> (r: Option<
    (SessionState, SessionState),
>)
    ensures
        r == recovery_change_spec(current, target),
{
    match (current, target) {
        (SessionState::Transcribing, SessionState::Paused)
        | (SessionState::Preparing, SessionState::Failed)
        | (SessionState::Capturing, SessionState::Failed)
        | (SessionState::Stopping, SessionState::Failed) => Some((current, target)),
        _ => None,
    }
}

/// Recovery only ever journals a lifecycle change the journal accepts, and
/// journals one exactly when it moves the replayed state.
pub proof fn recovery_journals_only_valid_transitions(replayed: SessionState, recorded: SessionState)
    ensures
        recovery_decision_spec(replayed, recorded) matches RecoveryDecision::Recover { target }
            ==> (recovery_change_spec(replayed, target) matches Some((from, to)) ==> from
            == replayed && to == target && valid_transition_spec(from, to)),
        recovery_decision_spec(replayed, recorded) matches RecoveryDecision::Recover { target }
            ==> (recovery_change_spec(replayed, target) is Some <==> target != replayed),
{
}

/// Every session a crash interrupted mid-activity is recovered: one caught
/// preparing, capturing or stopping is failed, one transcribing is paused;
/// a settled journal state (paused, completed, failed) is left alone exactly
/// when the document already records it and is otherwise written back; a
/// journal still idle, or processing a summary, is left alone. Whatever is
/// recovered ends in a settled state.
pub proof fn interrupted_sessions_are_recovered(replayed: SessionState, recorded: SessionState)
    ensures
        (replayed == SessionState::Preparing || replayed == SessionState::Capturing || replayed
            == SessionState::Stopping) ==> recovery_decision_spec(replayed, recorded)
            == (RecoveryDecision::Recover { target: SessionState::Failed }),
        replayed == SessionState::Transcribing ==> recovery_decision_spec(replayed, recorded)
            == (RecoveryDecision::Recover { target: SessionState::Paused }),
        (replayed == SessionState::Paused || replayed == SessionState::Completed || replayed
            == SessionState::Failed) ==> (recovery_decision_spec(replayed, recorded)
            == RecoveryDecision::Skip <==> recorded == replayed),
        (replayed == SessionState::Paused || replayed == SessionState::Completed || replayed
            == SessionState::Failed) && recorded != replayed ==> recovery_decision_spec(
            replayed,
            recorded,
        ) == (RecoveryDecision::Recover { target: replayed }),
        (replayed == SessionState::Idle || replayed == SessionState::ProcessingSummary)
            ==> recovery_decision_spec(replayed, recorded) == RecoveryDecision::Skip,
        recovery_decision_spec(replayed, recorded) matches RecoveryDecision::Recover { target }
            ==> (target == SessionState::Paused || target == SessionState::Completed || target
            == SessionState::Failed),
{
}

/// Checks made before a start or resume touches the capture runtime: the
/// user acknowledged capture consent, no session is running, the document
/// is at the expected revision and in the expected state.
pub fn check_start(
    acknowledged_capture_consent: bool,
    session_running: bool,
    revision: u64,
    expected_revision: u64,
    state: SessionState,
    expected_state: SessionState,
) -> (r: Result<(), Code>)
    ensures
        !acknowledged_capture_consent ==> r == Err::<(), Code>(
            Code::LiveTranscriptionConsentRequired,
        ),
        acknowledged_capture_consent && session_running ==> r == Err::<(), Code>(
            Code::SessionAlreadyRunning,
        ),
        acknowledged_capture_consent && !session_running && revision != expected_revision ==> r
            == Err::<(), Code>(Code::SessionRevisionConflict),
        acknowledged_capture_consent && !session_running && revision == expected_revision && state
            != expected_state ==> r == Err::<(), Code>(Code::SessionLifecycleInvalid),
        r is Ok <==> (acknowledged_capture_consent && !session_running && revision
            == expected_revision && state == expected_state),
{
    if !acknowledged_capture_consent {
        return Err(Code::LiveTranscriptionConsentRequired);
    }
    if session_running {
        return Err(Code::SessionAlreadyRunning);
    }
    if revision != expected_revision {
        return Err(Code::SessionRevisionConflict);
    }
    if state != expected_state {
        return Err(Code::SessionLifecycleInvalid);
    }
    Ok(())
}

/// The boundaries a start (from idle) or resume (from paused) journals, in
/// order: into preparing, capturing, then transcribing.
pub fn start_boundaries(expected_state: SessionState) -> (r: [(SessionState, SessionState); 3])
    ensures
        r[0] == (expected_state, SessionState::Preparing),
        r[1] == (SessionState::Preparing, SessionState::Capturing),
        r[2] == (SessionState::Capturing, SessionState::Transcribing),
{
    [
        (expected_state, SessionState::Preparing),
        (SessionState::Preparing, SessionState::Capturing),
        (SessionState::Capturing, SessionState::Transcribing),
    ]
}

/// The boundary journaled when a start fails after `durable` was reached.
pub fn failure_boundary(durable: SessionState) -> (r: (SessionState, SessionState))
    ensures
        r == (durable, SessionState::Failed),
{
    (durable, SessionState::Failed)
}

/// The state a start has durably reached once `journaled` of its three
/// boundaries are in the journal.
pub open spec fn durable_start_state(journaled: nat) -> SessionState {
    if journaled == 1 {
        SessionState::Preparing
    } else if journaled == 2 {
        SessionState::Capturing
    } else {
        SessionState::Transcribing
    }
}

/// What a start that fails journals, after `journaled` of its boundaries
/// were journaled: nothing when even the first failed, otherwise a failure
/// from the state it durably reached. A start that journaled all three and
/// then failed to record the session falls back from `transcribing`.
pub fn failed_start_boundary(journaled: usize) -> (r: Option<(SessionState, SessionState)>)
    requires
        journaled <= 3,
    ensures
        journaled == 0 ==> r is None,
        journaled > 0 ==> r == Some((durable_start_state(journaled as nat), SessionState::Failed)),
{
    if journaled == 0 {
        None
    } else if journaled == 1 {
        Some(failure_boundary(SessionState::Preparing))
    } else if journaled == 2 {
        Some(failure_boundary(SessionState::Capturing))
    } else {
        Some(failure_boundary(SessionState::Transcribing))
    }
}

/// Every boundary a start or resume journals is a transition the journal
/// accepts, each one starts where the previous ended, and a failure from
/// any state a start reaches is accepted too.
pub proof fn start_boundaries_are_valid_transitions(expected_state: SessionState)
    requires
        expected_state == SessionState::Idle || expected_state == SessionState::Paused,
    ensures
        valid_transition_spec(expected_state, SessionState::Preparing),
        valid_transition_spec(SessionState::Preparing, SessionState::Capturing),
        valid_transition_spec(SessionState::Capturing, SessionState::Transcribing),
        valid_transition_spec(SessionState::Preparing, SessionState::Failed),
        valid_transition_spec(SessionState::Capturing, SessionState::Failed),
        valid_transition_spec(SessionState::Transcribing, SessionState::Failed),
{
}

/// How the derived files stand, as the user interface shows it.
#[derive(Debug, Clone, Copy, PartialEq, Eq, Structural)]
pub enum PersistenceState {
    Clean,
    Deferred,
    Conflict,
    Failed,
}

/// The persistence status event of a running session.
#[derive(Debug, Clone, Copy, PartialEq, Eq, Structural)]
pub struct PersistenceStatus {
    pub schema_version: u8,
    pub project_id: u128,
    pub session_id: u128,
    pub journal_sequence: u64,
    pub snapshot_sequence: u64,
    pub state: PersistenceState,
    pub code: Option<Code>,
}

pub open spec fn persistence_status_spec(
    project_id: u128,
    session_id: u128,
    journal_sequence: u64,
    projection: SessionWriterProjection,
) -> PersistenceStatus {
    let (snapshot_sequence, state, code) = match projection {
        SessionWriterProjection::Current { checkpoint_sequence, .. } => (
            checkpoint_sequence,
            PersistenceState::Clean,
            None,
        ),
        SessionWriterProjection::Deferred { checkpoint_sequence, .. } => (
            checkpoint_sequence,
            PersistenceState::Deferred,
            None,
        ),
        SessionWriterProjection::SnapshotPending { checkpoint_sequence, code, .. } => (
            checkpoint_sequence,
            if code == Code::TranscriptSnapshotConflict {
                PersistenceState::Conflict
            } else {
                PersistenceState::Failed
            },
            Some(code),
        ),
        SessionWriterProjection::IndexPending { checkpoint_sequence, code } => (
            checkpoint_sequence,
            PersistenceState::Failed,
            Some(code),
        ),
    };
    PersistenceStatus {
        schema_version: 1,
        project_id,
        session_id,
        journal_sequence,
        snapshot_sequence,
        state,
        code,
    }
}

/// The status reported after a journal append: the writer's checkpoint,
/// and clean, deferred, conflicting (an external edit of the transcript) or
/// failed with the failure's code.
pub fn persistence_status(
    project_id: u128,
    session_id: u128,
    journal_sequence: u64,
    projection: &SessionWriterProjection,
) -> (r: PersistenceStatus)
    ensures
        r == persistence_status_spec(project_id, session_id, journal_sequence, *projection),
{
    let (snapshot_sequence, state, code) = match projection {
        SessionWriterProjection::Current { checkpoint_sequence, .. } => (
            *checkpoint_sequence,
            PersistenceState::Clean,
            None,
        ),
        SessionWriterProjection::Deferred { checkpoint_sequence, .. } => (
            *checkpoint_sequence,
            PersistenceState::Deferred,
            None,
        ),
        SessionWriterProjection::SnapshotPending { checkpoint_sequence, code, .. } => (
            *checkpoint_sequence,
            match code {
                Code::TranscriptSnapshotConflict => PersistenceState::Conflict,
                _ => PersistenceState::Failed,
            },
            Some(*code),
        ),
        SessionWriterProjection::IndexPending { checkpoint_sequence, code } => (
            *checkpoint_sequence,
            PersistenceState::Failed,
            Some(*code),
        ),
    };
    PersistenceStatus {
        schema_version: 1,
        project_id,
        session_id,
        journal_sequence,
        snapshot_sequence,
        state,
        code,
    }
}

/// Milliseconds since a run's epoch, as the writer's clock reads them: a
/// count that does not fit 64 bits reads as the largest JSON-safe integer.
pub fn elapsed_ms(elapsed_millis: u128) -> (r: u64)
    ensures
        r == if elapsed_millis <= u64::MAX { elapsed_millis as u64 } else { 9_007_199_254_740_991u64 },
{
    if elapsed_millis <= u64::MAX as u128 {
        elapsed_millis as u64
    } else {
        9_007_199_254_740_991
    }
}

/// Checks a session read for a lifecycle boundary: the document must be at
/// the revision the caller saw, then in the state the boundary starts from;
/// `wrong_state` is the code a session in another state is refused with.
pub fn check_boundary_session(
    revision: u64,
    expected_revision: u64,
    state: SessionState,
    expected_state: SessionState,
    wrong_state: Code,
) -> (r: Result<(), Code>)
    ensures
        revision != expected_revision ==> r == Err::<(), Code>(Code::SessionRevisionConflict),
        revision == expected_revision && state != expected_state ==> r == Err::<(), Code>(
            wrong_state,
        ),
        r is Ok <==> revision == expected_revision && state == expected_state,
{
    if revision != expected_revision {
        return Err(Code::SessionRevisionConflict);
    }
    if state != expected_state {
        return Err(wrong_state);
    }
    Ok(())
}

/// Whether a boundary may take the active run of a session: only the run of
/// that very session can be paused or stopped.
pub fn check_active_run(active: Option<(u128, u128)>, project_id: u128, session_id: u128) -> (r:
    Result<(), Code>)
    ensures
        r is Ok <==> active == Some((project_id, session_id)),
        r matches Err(c) ==> c == Code::SessionNotRunning,
{
    match active {
        Some((p, s)) => {
            if p == project_id && s == session_id {
                Ok(())
            } else {
                Err(Code::SessionNotRunning)
            }
        },
        None => Err(Code::SessionNotRunning),
    }
}

/// How a stop reaches its session.
#[derive(Debug, Clone, Copy, PartialEq, Eq, Structural)]
pub enum StopRoute {
    /// The session is capturing: stop the runtime, then journal the stop.
    Running,
    /// Nothing captures: the session can only be stopped from paused.
    Paused,
}

/// Routes a stop: the active run of this session is stopped; while another
/// session runs nothing is stopped; with no run the session is completed
/// from paused.
pub fn stop_route(active: Option<(u128, u128)>, project_id: u128, session_id: u128) -> (r: Result<
    StopRoute,
    Code,
>)
    ensures
        active == Some((project_id, session_id)) ==> r == Ok::<StopRoute, Code>(
            StopRoute::Running,
        ),
        active is None ==> r == Ok::<StopRoute, Code>(StopRoute::Paused),
        (active is Some && active != Some((project_id, session_id))) ==> r == Err::<
            StopRoute,
            Code,
        >(Code::SessionNotRunning),
{
    match active {
        Some((p, s)) => {
            if p == project_id && s == session_id {
                Ok(StopRoute::Running)
            } else {
                Err(Code::SessionNotRunning)
            }
        },
        None => Ok(StopRoute::Paused),
    }
}

pub open spec fn finish_boundaries_spec(target: SessionState) -> Seq<(SessionState, SessionState)> {
    if target == SessionState::Completed {
        seq![
            (SessionState::Transcribing, SessionState::Stopping),
            (SessionState::Stopping, SessionState::Completed),
        ]
    } else {
        seq![(SessionState::Transcribing, target)]
    }
}

/// The boundaries journaled when a transcribing session is paused or
/// stopped: a stop passes through stopping on its way to completed.
pub fn finish_boundaries(target: SessionState) -> (r: Vec<(SessionState, SessionState)>)
    requires
        target == SessionState::Paused || target == SessionState::Completed,
    ensures
        r@ == finish_boundaries_spec(target),
{
    if target == SessionState::Completed {
        vec![
            (SessionState::Transcribing, SessionState::Stopping),
            (SessionState::Stopping, SessionState::Completed),
        ]
    } else {
        vec![(SessionState::Transcribing, target)]
    }
}

pub open spec fn paused_stop_boundaries_spec() -> Seq<(SessionState, SessionState)> {
    seq![(SessionState::Paused, SessionState::Stopping), (SessionState::Stopping, SessionState::Completed)]
}

/// The boundaries journaled when a paused session is stopped.
pub fn paused_stop_boundaries() -> (r: Vec<(SessionState, SessionState)>)
    ensures
        r@ == paused_stop_boundaries_spec(),
{
    vec![(SessionState::Paused, SessionState::Stopping), (SessionState::Stopping, SessionState::Completed)]
}

/// `boundaries` is a chain of transitions the journal accepts, leading from
/// `from` to `to`.
pub open spec fn valid_chain(
    boundaries: Seq<(SessionState, SessionState)>,
    from: SessionState,
    to: SessionState,
) -> bool {
    &&& boundaries.len() > 0
    &&& boundaries[0].0 == from
    &&& boundaries[boundaries.len() - 1].1 == to
    &&& forall|i: int| 0 <= i < boundaries.len() ==> valid_transition_spec(
        #[trigger] boundaries[i].0,
        boundaries[i].1,
    )
    &&& forall|i: int| 0 <= i < boundaries.len() - 1 ==> #[trigger] boundaries[i].1 == boundaries[i
        + 1].0
}

/// Every way a session leaves transcribing or paused journals a chain of
/// accepted transitions that ends in the state the document then records.
pub proof fn finishing_journals_valid_chains()
    ensures
        valid_chain(
            finish_boundaries_spec(SessionState::Paused),
            SessionState::Transcribing,
            SessionState::Paused,
        ),
        valid_chain(
            finish_boundaries_spec(SessionState::Completed),
            SessionState::Transcribing,
            SessionState::Completed,
        ),
        valid_chain(paused_stop_boundaries_spec(), SessionState::Paused, SessionState::Completed),
        valid_transition_spec(SessionState::Transcribing, SessionState::Failed),
{
    let c = finish_boundaries_spec(SessionState::Completed);
    assert(valid_transition_spec(c[0].0, c[0].1));
    assert(valid_transition_spec(c[1].0, c[1].1));
    let p = paused_stop_boundaries_spec();
    assert(valid_transition_spec(p[0].0, p[0].1));
    assert(valid_transition_spec(p[1].0, p[1].1));
    let q = finish_boundaries_spec(SessionState::Paused);
    assert(valid_transition_spec(q[0].0, q[0].1));
}

/// The journal entry of a lifecycle boundary, stamped with `timestamp`.
pub fn lifecycle_append(
    event_id: u128,
    previous: SessionState,
    current: SessionState,
    timestamp: String,
) -> (r: JournalAppend)
    ensures
        r.event_id == event_id,
        r.recorded_at@ == timestamp@,
        r.mutation matches JournalMutation::LifecycleChange(change) && change.previous == previous
            && change.current == current && change.occurred_at@ == timestamp@,
{
    let occurred_at = timestamp.clone();
    JournalAppend {
        event_id,
        recorded_at: timestamp,
        mutation: JournalMutation::LifecycleChange(LifecycleChange { previous, current, occurred_at }),
    }
}

/// The journal entry of a finalized segment: the segment's own identifier
/// names the event, so a redelivered final is recognised as a retry.
pub fn final_segment_append(segment: FinalizedTranscriptSegment, timestamp: String) -> (r:
    JournalAppend)
    ensures
        r.event_id == segment.id,
        r.recorded_at@ == timestamp@,
        r.mutation == JournalMutation::FinalizedTranscriptSegment(segment),
{
    JournalAppend {
        event_id: segment.id,
        recorded_at: timestamp,
        mutation: JournalMutation::FinalizedTranscriptSegment(segment),
    }
}

/// The status reported when an append or a poll of the writer failed: the
/// last journal sequence reached, no snapshot and the failure's code.
pub fn failed_status(project_id: u128, session_id: u128, journal_sequence: u64, code: Code) -> (r:
    PersistenceStatus)
    ensures
        r == (PersistenceStatus {
            schema_version: 1,
            project_id,
            session_id,
            journal_sequence,
            snapshot_sequence: 0,
            state: PersistenceState::Failed,
            code: Some(code),
        }),
{
    PersistenceStatus {
        schema_version: 1,
        project_id,
        session_id,
        journal_sequence,
        snapshot_sequence: 0,
        state: PersistenceState::Failed,
        code: Some(code),
    }
}

/// What the projection pump does with one poll of the writer.
#[derive(Debug, Clone, Copy, PartialEq, Eq, Structural)]
pub enum PumpStep {
    /// The projection is the one last reported: report nothing.
    Quiet,
    /// A new projection: report it and remember it.
    Report(PersistenceStatus),
    /// The poll failed: report the failure and stop pumping.
    Stop(PersistenceStatus),
}

/// Decides one step of the projection pump, so that each projection the
/// writer moves to is reported once and a failed poll ends the pump.
pub fn pump_step(
    project_id: u128,
    session_id: u128,
    journal_sequence: u64,
    last: Option<SessionWriterProjection>,
    polled: Result<SessionWriterProjection, Code>,
) -> (r: PumpStep)
    ensures
        polled matches Ok(p) ==> (if last == Some(p) {
            r == PumpStep::Quiet
        } else {
            r == PumpStep::Report(persistence_status_spec(project_id, session_id, journal_sequence, p))
        }),
        polled matches Err(c) ==> r == PumpStep::Stop(
            PersistenceStatus {
                schema_version: 1,
                project_id,
                session_id,
                journal_sequence,
                snapshot_sequence: 0,
                state: PersistenceState::Failed,
                code: Some(c),
            },
        ),
{
    match polled {
        Ok(p) => {
            let unchanged = match last {
                Some(l) => l == p,
                None => false,
            };
            if unchanged {
                PumpStep::Quiet
            } else {
                PumpStep::Report(persistence_status(project_id, session_id, journal_sequence, &p))
            }
        },
        Err(c) => PumpStep::Stop(failed_status(project_id, session_id, journal_sequence, c)),
    }
}

} // verus!
