//! The session recovery journal: lifecycle transitions, record validation,
//! torn-tail framing and deterministic replay.

use vstd::prelude::*;

use std::collections::{HashMap, HashSet};

use crate::codes::Code;
use crate::outside::{parse_rfc3339, rfc3339_instant, sha256, sha256_digest};
use crate::persistence::session_store::SessionStoreError;
use crate::text::{
    is_control, is_control_spec, is_lower_hex_digest, lower_hex_digest, to_chars, utf8_byte_len,
    utf8_count,
};

verus! {

broadcast use vstd::std_specs::hash::group_hash_axioms;

/// Largest JSON-safe integer; sequence numbers and times stay below it.
pub const JSON_SAFE_INTEGER_MAX: u64 = 9_007_199_254_740_991;

/// Largest accepted segment text, in bytes.
pub const MAX_SEGMENT_TEXT_BYTES: usize = 32_768;

/// Largest accepted language tag, in bytes.
pub const MAX_LANGUAGE_BYTES: usize = 64;

/// Largest journal record, in bytes, newline included.
pub const MAX_RECORD_BYTES: usize = 65_536;

/// Most records one journal may hold.
pub const MAX_RECORDS: usize = 100_000;

/// The lifecycle state of a session.
#[derive(Debug, Clone, Copy, PartialEq, Eq, Structural)]
pub enum SessionState {
    Idle,
    Preparing,
    Capturing,
    Transcribing,
    Paused,
    Stopping,
    ProcessingSummary,
    Completed,
    Failed,
}

/// Which audio channel a segment was transcribed from.
#[derive(Debug, Clone, Copy, PartialEq, Eq, Structural)]
pub enum AudioSource {
    Microphone,
    SystemOutput,
}

/// A journal failure.
#[derive(Debug, Clone, Copy, PartialEq, Eq, Structural)]
pub struct SessionJournalError {
    pub code: Code,
}

impl SessionJournalError {
    /// An error with `code`.
    pub fn new(code: Code) -> (r: Self)
        ensures
            r.code == code,
    {
        Self { code }
    }
}

/// The lifecycle moves a session may make.
pub open spec fn valid_transition_spec(previous: SessionState, current: SessionState) -> bool {
    match (previous, current) {
        (SessionState::Idle, SessionState::Preparing) => true,
        (SessionState::Preparing, SessionState::Capturing) => true,
        (SessionState::Capturing, SessionState::Transcribing) => true,
        (SessionState::Transcribing, SessionState::Paused) => true,
        (SessionState::Paused, SessionState::Preparing) => true,
        (SessionState::Capturing, SessionState::Stopping) | (SessionState::Transcribing, SessionState::Stopping) | (SessionState::Paused, SessionState::Stopping) => true,
        (SessionState::Stopping, SessionState::ProcessingSummary) | (SessionState::Stopping, SessionState::Completed) => true,
        (SessionState::ProcessingSummary, SessionState::Completed) => true,
        (SessionState::Preparing, SessionState::Failed) | (SessionState::Capturing, SessionState::Failed) | (SessionState::Transcribing, SessionState::Failed) | (SessionState::Paused, SessionState::Failed)
        | (SessionState::Stopping, SessionState::Failed) | (SessionState::ProcessingSummary, SessionState::Failed) => true,
        (SessionState::Failed, SessionState::Preparing) => true,
        _ => false,
    }
}

/// Whether a session may move from `previous` to `current`.
pub fn valid_transition(previous: SessionState, current: SessionState) -> (r: bool)
    ensures
        r == valid_transition_spec(previous, current),
{
    match (previous, current) {
        (SessionState::Idle, SessionState::Preparing) => true,
        (SessionState::Preparing, SessionState::Capturing) => true,
        (SessionState::Capturing, SessionState::Transcribing) => true,
        (SessionState::Transcribing, SessionState::Paused) => true,
        (SessionState::Paused, SessionState::Preparing) => true,
        (SessionState::Capturing, SessionState::Stopping) | (SessionState::Transcribing, SessionState::Stopping) | (SessionState::Paused, SessionState::Stopping) => true,
        (SessionState::Stopping, SessionState::ProcessingSummary) | (SessionState::Stopping, SessionState::Completed) => true,
        (SessionState::ProcessingSummary, SessionState::Completed) => true,
        (SessionState::Preparing, SessionState::Failed) | (SessionState::Capturing, SessionState::Failed) | (SessionState::Transcribing, SessionState::Failed) | (SessionState::Paused, SessionState::Failed)
        | (SessionState::Stopping, SessionState::Failed) | (SessionState::ProcessingSummary, SessionState::Failed) => true,
        (SessionState::Failed, SessionState::Preparing) => true,
        _ => false,
    }
}

/// A finalized transcript segment as the journal stores it.
#[derive(Debug)]
pub struct FinalizedTranscriptSegment {
    pub id: u128,
    pub source: AudioSource,
    pub start_ms: u64,
    pub end_ms: u64,
    pub text: String,
    pub language: String,
}

/// A character a segment's text may hold: no carriage return, and no control
/// character other than newline and tab.
pub open spec fn allowed_text_char(c: char) -> bool {
    c != '\r' && (!is_control_spec(c) || c == '\n' || c == '\t')
}

impl FinalizedTranscriptSegment {
    pub open spec fn valid_spec(&self) -> bool {
        &&& self.id != 0
        &&& self.start_ms < self.end_ms
        &&& self.end_ms <= JSON_SAFE_INTEGER_MAX
        &&& self.text@.len() > 0
        &&& utf8_count(self.text@) <= MAX_SEGMENT_TEXT_BYTES
        &&& forall|i: int| 0 <= i < self.text@.len() ==> allowed_text_char(#[trigger] self.text@[i])
        &&& self.language@.len() > 0
        &&& utf8_count(self.language@) <= MAX_LANGUAGE_BYTES
        &&& forall|i: int|
            0 <= i < self.language@.len() ==> !is_control_spec(#[trigger] self.language@[i])
    }

    /// Accepts a segment with a non-nil id, a positive JSON-safe time span,
    /// bounded single-block text and a bounded language tag.
    pub fn validate(&self) -> (r: Result<(), SessionJournalError>)
        ensures
            r is Ok <==> self.valid_spec(),
            r matches Err(e) ==> e.code == Code::SessionJournalMutationInvalid,
    {
        let text = to_chars(self.text.as_str());
        let language = to_chars(self.language.as_str());
        if self.id == 0 || self.end_ms <= self.start_ms || self.end_ms > JSON_SAFE_INTEGER_MAX
            || text.len() == 0 || utf8_byte_len(text.as_slice()) > MAX_SEGMENT_TEXT_BYTES
            || language.len() == 0 || utf8_byte_len(language.as_slice()) > MAX_LANGUAGE_BYTES {
            return Err(SessionJournalError::new(Code::SessionJournalMutationInvalid));
        }
        let n = text.len();
        for i in 0..n
            invariant
                n == text@.len(),
                text@ == self.text@,
                forall|j: int| 0 <= j < i ==> allowed_text_char(#[trigger] text@[j]),
        {
            let c = text[i];
            if c == '\r' || (is_control(c) && c != '\n' && c != '\t') {
                return Err(SessionJournalError::new(Code::SessionJournalMutationInvalid));
            }
        }
        let m = language.len();
        for i in 0..m
            invariant
                m == language@.len(),
                language@ == self.language@,
                forall|j: int| 0 <= j < i ==> !is_control_spec(#[trigger] language@[j]),
        {
            if is_control(language[i]) {
                return Err(SessionJournalError::new(Code::SessionJournalMutationInvalid));
            }
        }
        Ok(())
    }
}

/// A lifecycle transition as the journal stores it.
#[derive(Debug)]
pub struct LifecycleChange {
    pub previous: SessionState,
    pub current: SessionState,
    pub occurred_at: String,
}

impl LifecycleChange {
    pub open spec fn valid_spec(&self) -> bool {
        rfc3339_instant(self.occurred_at@) is Some && valid_transition_spec(
            self.previous,
            self.current,
        )
    }

    /// Accepts an RFC 3339 time and an allowed transition.
    pub fn validate(&self) -> (r: Result<(), SessionJournalError>)
        ensures
            r is Ok <==> self.valid_spec(),
            r matches Err(e) ==> e.code == Code::SessionJournalMutationInvalid,
    {
        if parse_rfc3339(self.occurred_at.as_str()).is_none() || !valid_transition(
            self.previous,
            self.current,
        ) {
            return Err(SessionJournalError::new(Code::SessionJournalMutationInvalid));
        }
        Ok(())
    }
}

/// The change one journal record makes.
#[derive(Debug)]
pub enum JournalMutation {
    FinalizedTranscriptSegment(FinalizedTranscriptSegment),
    LifecycleChange(LifecycleChange),
}

impl JournalMutation {
    pub open spec fn valid_spec(&self) -> bool {
        match self {
            JournalMutation::FinalizedTranscriptSegment(s) => s.valid_spec(),
            JournalMutation::LifecycleChange(c) => c.valid_spec(),
        }
    }

    /// Validates the segment or the lifecycle change.
    pub fn validate(&self) -> (r: Result<(), SessionJournalError>)
        ensures
            r is Ok <==> self.valid_spec(),
            r matches Err(e) ==> e.code == Code::SessionJournalMutationInvalid,
    {
        match self {
            JournalMutation::FinalizedTranscriptSegment(s) => s.validate(),
            JournalMutation::LifecycleChange(c) => c.validate(),
        }
    }
}

/// Two mutations carry the same content.
pub open spec fn same_mutation(a: JournalMutation, b: JournalMutation) -> bool {
    match (a, b) {
        (
            JournalMutation::FinalizedTranscriptSegment(x),
            JournalMutation::FinalizedTranscriptSegment(y),
        ) => x.id == y.id && x.source == y.source && x.start_ms == y.start_ms && x.end_ms
            == y.end_ms && x.text@ == y.text@ && x.language@ == y.language@,
        (JournalMutation::LifecycleChange(x), JournalMutation::LifecycleChange(y)) => x.previous
            == y.previous && x.current == y.current && x.occurred_at@ == y.occurred_at@,
        _ => false,
    }
}

/// Whether two mutations carry the same content.
pub fn mutations_equal(a: &JournalMutation, b: &JournalMutation) -> (r: bool)
    ensures
        r == same_mutation(*a, *b),
{
    match (a, b) {
        (
            JournalMutation::FinalizedTranscriptSegment(x),
            JournalMutation::FinalizedTranscriptSegment(y),
        ) => x.id == y.id && x.source == y.source && x.start_ms == y.start_ms && x.end_ms
            == y.end_ms && x.text == y.text && x.language == y.language,
        (JournalMutation::LifecycleChange(x), JournalMutation::LifecycleChange(y)) => x.previous
            == y.previous && x.current == y.current && x.occurred_at == y.occurred_at,
        _ => false,
    }
}

/// A decoded journal record.
#[derive(Debug)]
pub struct JournalRecord {
    pub schema_version: u8,
    pub session_id: u128,
    pub sequence: u64,
    pub event_id: u128,
    pub recorded_at: String,
    pub mutation: JournalMutation,
    pub checksum: String,
}

/// Two records describe the same event.
pub open spec fn same_event(a: JournalRecord, b: JournalRecord) -> bool {
    a.recorded_at@ == b.recorded_at@ && same_mutation(a.mutation, b.mutation)
}

/// Index of the first record with `event_id`, or `records.len()`.
pub open spec fn first_event_index(records: Seq<JournalRecord>, event_id: u128) -> int
    decreases records.len(),
{
    if records.len() == 0 {
        0
    } else {
        let k = first_event_index(records.drop_last(), event_id);
        if k < records.len() - 1 {
            k
        } else if records.last().event_id == event_id {
            records.len() - 1
        } else {
            records.len() as int
        }
    }
}

/// What replay has accumulated after a prefix of the records.
pub ghost struct ReplayAcc {
    pub state: SessionState,
    pub segments: Seq<FinalizedTranscriptSegment>,
    pub ignored: nat,
}

/// Some accumulated segment has `id`.
pub open spec fn has_segment_id(segments: Seq<FinalizedTranscriptSegment>, id: u128) -> bool {
    exists|k: int| 0 <= k < segments.len() && (#[trigger] segments[k]).id == id
}

/// Two segments carry the same content.
pub open spec fn same_segment(a: FinalizedTranscriptSegment, b: FinalizedTranscriptSegment) -> bool {
    a.id == b.id && a.source == b.source && a.start_ms == b.start_ms && a.end_ms == b.end_ms
        && a.text@ == b.text@ && a.language@ == b.language@
}

/// Replay of `records`: a repeated event must repeat exactly and is then
/// ignored; a segment id may be finalized once; each lifecycle change must
/// start from the current state.
pub open spec fn replay_spec(records: Seq<JournalRecord>) -> Result<ReplayAcc, Code>
    decreases records.len(),
{
    if records.len() == 0 {
        Ok(ReplayAcc { state: SessionState::Idle, segments: seq![], ignored: 0 })
    } else {
        let prior = records.drop_last();
        let r = records.last();
        match replay_spec(prior) {
            Err(c) => Err(c),
            Ok(acc) => {
                let j = first_event_index(prior, r.event_id);
                if j < prior.len() {
                    if same_event(prior[j], r) {
                        Ok(ReplayAcc { ignored: acc.ignored + 1, ..acc })
                    } else {
                        Err(Code::SessionJournalEventConflict)
                    }
                } else {
                    match r.mutation {
                        JournalMutation::FinalizedTranscriptSegment(s) => if has_segment_id(
                            acc.segments,
                            s.id,
                        ) {
                            Err(Code::SessionJournalSegmentConflict)
                        } else {
                            Ok(ReplayAcc { segments: acc.segments.push(s), ..acc })
                        },
                        JournalMutation::LifecycleChange(c) => if c.previous != acc.state {
                            Err(Code::SessionJournalLifecycleConflict)
                        } else {
                            Ok(ReplayAcc { state: c.current, ..acc })
                        },
                    }
                }
            },
        }
    }
}

/// The state a journal replays to.
#[derive(Debug)]
pub struct JournalReplay {
    pub last_sequence: u64,
    pub last_checksum: Option<String>,
    pub last_recorded_at: Option<String>,
    pub applied_events: usize,
    pub ignored_duplicate_events: usize,
    pub discarded_torn_tail: bool,
    pub state: SessionState,
    pub finalized_segments: Vec<FinalizedTranscriptSegment>,
}

/// A copy of `segment`.
pub fn copy_segment(segment: &FinalizedTranscriptSegment) -> (r: FinalizedTranscriptSegment)
    ensures
        same_segment(r, *segment),
{
    FinalizedTranscriptSegment {
        id: segment.id,
        source: segment.source,
        start_ms: segment.start_ms,
        end_ms: segment.end_ms,
        text: segment.text.clone(),
        language: segment.language.clone(),
    }
}

proof fn lemma_first_event_index_step(records: Seq<JournalRecord>, i: int, id: u128)
    requires
        0 <= i < records.len(),
    ensures
        first_event_index(records.take(i + 1), id) == if first_event_index(records.take(i), id)
            < i {
            first_event_index(records.take(i), id)
        } else if records[i].event_id == id {
            i
        } else {
            i + 1
        },
{
    assert(records.take(i + 1).drop_last() =~= records.take(i));
}

proof fn lemma_first_event_index_bounds(records: Seq<JournalRecord>, id: u128)
    ensures
        0 <= first_event_index(records, id) <= records.len(),
        first_event_index(records, id) < records.len() ==> records[first_event_index(records, id)].event_id == id,
    decreases records.len(),
{
    if records.len() > 0 {
        lemma_first_event_index_bounds(records.drop_last(), id);
    }
}

proof fn lemma_has_segment_id_push(
    segments: Seq<FinalizedTranscriptSegment>,
    segment: FinalizedTranscriptSegment,
    id: u128,
)
    ensures
        has_segment_id(segments.push(segment), id) <==> (has_segment_id(segments, id)
            || segment.id == id),
{
    let pushed = segments.push(segment);
    if has_segment_id(segments, id) {
        let k = choose|k: int| 0 <= k < segments.len() && (#[trigger] segments[k]).id == id;
        assert(pushed[k] == segments[k]);
    }
    if segment.id == id {
        assert(pushed[segments.len() as int] == segment);
    }
    if has_segment_id(pushed, id) {
        let k = choose|k: int| 0 <= k < pushed.len() && (#[trigger] pushed[k]).id == id;
        if k < segments.len() {
            assert(pushed[k] == segments[k]);
        }
    }
}

/// Once a prefix of the records fails to replay, the whole sequence fails
/// with the same code.
proof fn lemma_replay_error_persists(records: Seq<JournalRecord>, k: int, code: Code)
    requires
        0 <= k <= records.len(),
        replay_spec(records.take(k)) == Err::<ReplayAcc, Code>(code),
    ensures
        replay_spec(records) == Err::<ReplayAcc, Code>(code),
    decreases records.len(),
{
    if k == records.len() {
        assert(records.take(k) =~= records);
    } else {
        assert(records.drop_last().take(k) =~= records.take(k));
        lemma_replay_error_persists(records.drop_last(), k, code);
    }
}

/// Replays records in order: a repeated event must repeat exactly and is then
/// ignored, a segment id may be finalized only once, and each lifecycle
/// change must start from the current state.
pub fn replay_records(records: &[JournalRecord], discarded_torn_tail: bool) -> (r: Result<
    JournalReplay,
    SessionJournalError,
>)
    ensures
        r matches Err(e) ==> replay_spec(records@) == Err::<ReplayAcc, Code>(e.code),
        r matches Ok(replay) ==> replay_spec(records@) matches Ok(acc) && {
            &&& replay.state == acc.state
            &&& replay.ignored_duplicate_events == acc.ignored
            &&& replay.applied_events == records@.len() - acc.ignored
            &&& replay.discarded_torn_tail == discarded_torn_tail
            &&& replay.finalized_segments@.len() == acc.segments.len()
            &&& forall|k: int|
                0 <= k < acc.segments.len() ==> same_segment(
                    #[trigger] replay.finalized_segments@[k],
                    acc.segments[k],
                )
            &&& records@.len() == 0 ==> (replay.last_sequence == 0 && replay.last_checksum is None
                && replay.last_recorded_at is None)
            &&& records@.len() > 0 ==> (replay.last_sequence == records@.last().sequence
                && replay.last_checksum is Some && replay.last_checksum->0@ == records@.last().checksum@
                && replay.last_recorded_at is Some && replay.last_recorded_at->0@ == records@.last().recorded_at@)
        },
{
    let n = records.len();
    let mut state = SessionState::Idle;
    let mut segments: Vec<FinalizedTranscriptSegment> = Vec::new();
    let mut segment_ids: HashSet<u128> = HashSet::new();
    let mut events: HashMap<u128, usize> = HashMap::new();
    let mut ignored: usize = 0;
    let ghost mut acc = ReplayAcc { state: SessionState::Idle, segments: seq![], ignored: 0 };
    proof {
        assert(records@.take(0) =~= Seq::<JournalRecord>::empty());
    }
    for i in 0..n
        invariant
            n == records@.len(),
            replay_spec(records@.take(i as int)) == Ok::<ReplayAcc, Code>(acc),
            acc.state == state,
            acc.ignored == ignored,
            ignored <= i,
            segments@.len() == acc.segments.len(),
            forall|k: int|
                0 <= k < acc.segments.len() ==> same_segment(
                    #[trigger] segments@[k],
                    acc.segments[k],
                ),
            forall|x: u128| segment_ids@.contains(x) <==> has_segment_id(acc.segments, x),
            forall|x: u128|
                #![trigger events@.contains_key(x)]
                events@.contains_key(x) <==> first_event_index(records@.take(i as int), x) < i,
            forall|x: u128|
                #![trigger events@[x]]
                events@.contains_key(x) ==> events@[x] == first_event_index(
                    records@.take(i as int),
                    x,
                ),
    {
        let record = &records[i];
        let ghost prior = records@.take(i as int);
        proof {
            assert(records@.take(i + 1).drop_last() =~= prior);
            assert(records@.take(i + 1).last() == *record);
            lemma_first_event_index_bounds(prior, record.event_id);
            assert forall|x: u128| #![auto] first_event_index(records@.take(i + 1), x) == if first_event_index(prior, x) < i {
                first_event_index(prior, x)
            } else if records@[i as int].event_id == x {
                i as int
            } else {
                i + 1
            } by {
                lemma_first_event_index_step(records@, i as int, x);
            }
        }
        match events.get(&record.event_id) {
            Some(index) => {
                let j = *index;
                proof {
                    assert(events@.contains_key(record.event_id));
                    assert(j == first_event_index(prior, record.event_id));
                    assert(prior[j as int] == records@[j as int]);
                }
                let earlier = &records[j];
                if earlier.recorded_at != record.recorded_at || !mutations_equal(
                    &earlier.mutation,
                    &record.mutation,
                ) {
                    proof {
                        lemma_replay_error_persists(records@, i + 1, Code::SessionJournalEventConflict);
                    }
                    return Err(SessionJournalError::new(Code::SessionJournalEventConflict));
                }
                ignored = ignored + 1;
                proof {
                    acc = ReplayAcc { ignored: acc.ignored + 1, ..acc };
                }
            },
            None => {
                proof {
                    assert(!events@.contains_key(record.event_id));
                }
                events.insert(record.event_id, i);
                match &record.mutation {
                    JournalMutation::FinalizedTranscriptSegment(segment) => {
                        if segment_ids.contains(&segment.id) {
                            proof {
                                lemma_replay_error_persists(records@, i + 1, Code::SessionJournalSegmentConflict);
                            }
                            return Err(
                                SessionJournalError::new(Code::SessionJournalSegmentConflict),
                            );
                        }
                        let ghost old_ids = segment_ids@;
                        let ghost old_segments = acc.segments;
                        segment_ids.insert(segment.id);
                        let copy = copy_segment(segment);
                        segments.push(copy);
                        proof {
                            acc = ReplayAcc { segments: acc.segments.push(*segment), ..acc };
                            assert forall|x: u128| segment_ids@.contains(x) <==> has_segment_id(
                                acc.segments,
                                x,
                            ) by {
                                lemma_has_segment_id_push(old_segments, *segment, x);
                                assert(old_ids.contains(x) <==> has_segment_id(old_segments, x));
                            }
                        }
                    },
                    JournalMutation::LifecycleChange(change) => {
                        if change.previous != state {
                            proof {
                                lemma_replay_error_persists(records@, i + 1, Code::SessionJournalLifecycleConflict);
                            }
                            return Err(
                                SessionJournalError::new(Code::SessionJournalLifecycleConflict),
                            );
                        }
                        state = change.current;
                        proof {
                            acc = ReplayAcc { state: change.current, ..acc };
                        }
                    },
                }
            },
        }
    }
    proof {
        assert(records@.take(n as int) =~= records@);
    }
    let (last_sequence, last_checksum, last_recorded_at) = if n == 0 {
        (0, None, None)
    } else {
        let last = &records[n - 1];
        (last.sequence, Some(last.checksum.clone()), Some(last.recorded_at.clone()))
    };
    Ok(JournalReplay {
        last_sequence,
        last_checksum,
        last_recorded_at,
        applied_events: n - ignored,
        ignored_duplicate_events: ignored,
        discarded_torn_tail,
        state,
        finalized_segments: segments,
    })
}

/// Schema version every journal record carries.
pub const JOURNAL_SCHEMA_VERSION: u8 = 1;

/// Largest journal file, in bytes.
pub const MAX_JOURNAL_BYTES: u64 = 67_108_864;

/// Maps a session store failure to the journal's own code.
pub fn map_store_error(error: SessionStoreError) -> (r: SessionJournalError)
    ensures
        r.code == (if error.code == Code::SessionPathUnsafe || error.code
            == Code::SessionPathIdentityChanged {
            Code::SessionJournalPathUnsafe
        } else if error.code == Code::SessionSnapshotMissing {
            Code::SessionJournalSessionMissing
        } else {
            Code::SessionJournalSessionUnavailable
        }),
{
    match error.code {
        Code::SessionPathUnsafe | Code::SessionPathIdentityChanged => SessionJournalError::new(
            Code::SessionJournalPathUnsafe,
        ),
        Code::SessionSnapshotMissing => SessionJournalError::new(Code::SessionJournalSessionMissing),
        _ => SessionJournalError::new(Code::SessionJournalSessionUnavailable),
    }
}

/// A change a caller asks the journal to record.
#[derive(Debug)]
pub struct JournalAppend {
    pub event_id: u128,
    pub recorded_at: String,
    pub mutation: JournalMutation,
}

impl JournalAppend {
    pub open spec fn valid_spec(&self) -> Result<(), Code> {
        if self.event_id == 0 || rfc3339_instant(self.recorded_at@) is None {
            Err(Code::SessionJournalAppendInvalid)
        } else if !self.mutation.valid_spec() {
            Err(Code::SessionJournalMutationInvalid)
        } else {
            Ok(())
        }
    }

    /// Accepts a non-nil event id, an RFC 3339 time and a valid mutation.
    pub fn validate(&self) -> (r: Result<(), SessionJournalError>)
        ensures
            r matches Ok(()) ==> self.valid_spec() is Ok,
            r matches Err(e) ==> self.valid_spec() == Err::<(), Code>(e.code),
    {
        if self.event_id == 0 || parse_rfc3339(self.recorded_at.as_str()).is_none() {
            return Err(SessionJournalError::new(Code::SessionJournalAppendInvalid));
        }
        self.mutation.validate()
    }
}

/// The checksum of a record: lower-case hexadecimal SHA-256 of the JSON
/// bytes of the record without its checksum.
pub open spec fn record_checksum_spec(unsigned_json: Seq<u8>) -> Seq<char> {
    crate::persistence::transcript_service::hex_text(sha256_digest(unsigned_json)@)
}

/// Computes a record's checksum from its unsigned JSON bytes.
pub fn record_checksum(unsigned_json: &[u8]) -> (r: String)
    ensures
        r@ == record_checksum_spec(unsigned_json@),
{
    let digest = sha256(unsigned_json);
    crate::persistence::transcript_service::encode_hex(&digest)
}

impl JournalRecord {
    /// What a stored record must be at position `sequence` of the journal
    /// of `session_id`, given the JSON bytes of its unsigned form.
    pub open spec fn valid_spec(&self, session_id: u128, sequence: u64, unsigned_json: Seq<u8>) -> Result<
        (),
        Code,
    > {
        if self.schema_version != JOURNAL_SCHEMA_VERSION || self.session_id != session_id
            || self.sequence != sequence || self.sequence == 0 || self.sequence
            > JSON_SAFE_INTEGER_MAX || self.event_id == 0 || rfc3339_instant(self.recorded_at@)
            is None || !is_lower_hex_digest(self.checksum@) {
            Err(Code::SessionJournalRecordInvalid)
        } else if !self.mutation.valid_spec() {
            Err(Code::SessionJournalMutationInvalid)
        } else if record_checksum_spec(unsigned_json) != self.checksum@ {
            Err(Code::SessionJournalChecksumMismatch)
        } else {
            Ok(())
        }
    }

    /// Checks a stored record: schema, session, position, identifiers,
    /// times, the checksum's shape, the mutation, and that the checksum is
    /// that of the record's unsigned JSON bytes.
    pub fn validate(&self, session_id: u128, sequence: u64, unsigned_json: &[u8]) -> (r: Result<
        (),
        SessionJournalError,
    >)
        ensures
            r matches Ok(()) ==> self.valid_spec(session_id, sequence, unsigned_json@) is Ok,
            r matches Err(e) ==> self.valid_spec(session_id, sequence, unsigned_json@) == Err::<
                (),
                Code,
            >(e.code),
    {
        if self.schema_version != JOURNAL_SCHEMA_VERSION || self.session_id != session_id
            || self.sequence != sequence || self.sequence == 0 || self.sequence
            > JSON_SAFE_INTEGER_MAX || self.event_id == 0 || parse_rfc3339(
            self.recorded_at.as_str(),
        ).is_none() || !lower_hex_digest(to_chars(self.checksum.as_str()).as_slice()) {
            return Err(SessionJournalError::new(Code::SessionJournalRecordInvalid));
        }
        self.mutation.validate()?;
        let expected = to_chars(record_checksum(unsigned_json).as_str());
        if !crate::text::chars_equal(expected.as_slice(), to_chars(self.checksum.as_str()).as_slice()) {
            return Err(SessionJournalError::new(Code::SessionJournalChecksumMismatch));
        }
        Ok(())
    }
}

/// The complete records of a journal file: the bytes up to the last newline
/// (a final record without one was torn by a crash and is set aside) split
/// into non-empty lines.
#[derive(Debug)]
pub struct JournalFrame {
    pub lines: Vec<Vec<u8>>,
    pub valid_bytes: usize,
    pub discarded_torn_tail: bool,
}

/// Index just past the last newline among the first `k` bytes, or 0.
pub open spec fn after_last_newline(bytes: Seq<u8>, k: int) -> int
    decreases k,
{
    if k <= 0 {
        0
    } else if bytes[k - 1] == 10 {
        k
    } else {
        after_last_newline(bytes, k - 1)
    }
}

/// The non-empty newline-separated pieces of `bytes`.
pub open spec fn nonempty_lines(bytes: Seq<u8>) -> Seq<Seq<u8>>
    decreases bytes.len(),
{
    if bytes.len() == 0 {
        seq![]
    } else {
        let k = after_last_newline(bytes.drop_last(), bytes.len() - 1);
        proof {
            lemma_after_last_newline_bounds(bytes.drop_last(), bytes.len() - 1);
        }
        let rest = nonempty_lines(bytes.subrange(0, k));
        let tail = bytes.subrange(k, bytes.len() as int);
        if bytes.last() == 10 {
            let piece = tail.drop_last();
            if piece.len() == 0 {
                rest
            } else {
                rest.push(piece)
            }
        } else {
            rest.push(tail)
        }
    }
}

/// A journal file holds a torn tail when it is not empty and does not end
/// with a newline.
pub open spec fn torn_tail(bytes: Seq<u8>) -> bool {
    bytes.len() > 0 && bytes.last() != 10
}

pub proof fn lemma_after_last_newline_bounds(bytes: Seq<u8>, k: int)
    requires
        0 <= k <= bytes.len(),
    ensures
        0 <= after_last_newline(bytes, k) <= k,
        after_last_newline(bytes, k) > 0 ==> bytes[after_last_newline(bytes, k) - 1] == 10,
        forall|j: int| after_last_newline(bytes, k) <= j < k ==> bytes[j] != 10,
    decreases k,
{
    if k > 0 && bytes[k - 1] != 10 {
        lemma_after_last_newline_bounds(bytes, k - 1);
    }
}

/// Splits a journal file into its complete, non-empty record lines and
/// sets a torn final record aside.
pub fn frame_journal(bytes: &[u8]) -> (r: JournalFrame)
    ensures
        r.discarded_torn_tail == torn_tail(bytes@),
        r.valid_bytes == if torn_tail(bytes@) {
            after_last_newline(bytes@, bytes@.len() as int)
        } else {
            bytes@.len() as int
        },
        r.lines@.len() == nonempty_lines(bytes@.subrange(0, r.valid_bytes as int)).len(),
        forall|k: int|
            0 <= k < r.lines@.len() ==> (#[trigger] r.lines@[k])@ == nonempty_lines(
                bytes@.subrange(0, r.valid_bytes as int),
            )[k],
{
    let n = bytes.len();
    let torn = n > 0 && bytes[n - 1] != 10;
    let mut valid = n;
    if torn {
        let mut k = n;
        while k > 0 && bytes[k - 1] != 10
            invariant
                k <= n,
                n == bytes@.len(),
                after_last_newline(bytes@, n as int) == after_last_newline(bytes@, k as int),
            decreases k,
        {
            k = k - 1;
        }
        valid = k;
    }
    let ghost region = bytes@.subrange(0, valid as int);
    proof {
        lemma_after_last_newline_bounds(bytes@, n as int);
    }
    let mut lines: Vec<Vec<u8>> = Vec::new();
    let mut current: Vec<u8> = Vec::new();
    let mut start: usize = 0;
    for i in 0..valid
        invariant
            valid <= n,
            n == bytes@.len(),
            region == bytes@.subrange(0, valid as int),
            start <= i,
            start == after_last_newline(bytes@, i as int),
            current@ == bytes@.subrange(start as int, i as int),
            lines@.len() == nonempty_lines(bytes@.subrange(0, start as int)).len(),
            forall|k: int|
                0 <= k < lines@.len() ==> (#[trigger] lines@[k])@ == nonempty_lines(
                    bytes@.subrange(0, start as int),
                )[k],
    {
        proof {
            lemma_after_last_newline_bounds(bytes@, i as int);
        }
        if bytes[i] == 10 {
            let ghost prefix = bytes@.subrange(0, i + 1);
            proof {
                assert(prefix.drop_last() =~= bytes@.subrange(0, i as int));
                lemma_after_last_newline_prefix(bytes@, i as int, i as int);
                assert(after_last_newline(prefix.drop_last(), i as int) == start);
                assert(prefix.subrange(0, start as int) =~= bytes@.subrange(0, start as int));
                assert(prefix.subrange(start as int, i + 1).drop_last() =~= current@);
            }
            if current.len() > 0 {
                lines.push(current);
            }
            current = Vec::new();
            start = i + 1;
            proof {
                assert(bytes@.subrange(start as int, start as int) =~= Seq::<u8>::empty());
            }
        } else {
            current.push(bytes[i]);
            proof {
                assert(current@ =~= bytes@.subrange(start as int, i + 1));
            }
        }
    }
    proof {
        lemma_after_last_newline_bounds(bytes@, valid as int);
        if valid > 0 {
            assert(bytes@[valid - 1] == 10) by {
                if !torn {
                    if n > 0 {
                        assert(bytes@.last() == 10);
                    }
                }
            }
        }
        assert(start == valid) by {
            if valid > 0 {
                assert(after_last_newline(bytes@, valid as int) == valid);
            }
        }
    }
    JournalFrame { lines, valid_bytes: valid, discarded_torn_tail: torn }
}

/// `after_last_newline` of a prefix agrees with that of the whole.
proof fn lemma_after_last_newline_prefix(bytes: Seq<u8>, p: int, k: int)
    requires
        0 <= k <= p <= bytes.len(),
    ensures
        after_last_newline(bytes.subrange(0, p), k) == after_last_newline(bytes, k),
    decreases k,
{
    if k > 0 {
        assert(bytes.subrange(0, p)[k - 1] == bytes[k - 1]);
        lemma_after_last_newline_prefix(bytes, p, k - 1);
    }
}

/// Before a line is decoded: a record of at most 64 KiB, newline included,
/// and fewer than the record limit so far.
pub fn check_record_slot(line_len: usize, records_so_far: usize) -> (r: Result<
    (),
    SessionJournalError,
>)
    ensures
        r is Ok <==> (line_len + 1 <= MAX_RECORD_BYTES && records_so_far < MAX_RECORDS),
        r matches Err(e) ==> e.code == Code::SessionJournalLimitExceeded,
{
    if line_len >= MAX_RECORD_BYTES || records_so_far >= MAX_RECORDS {
        return Err(SessionJournalError::new(Code::SessionJournalLimitExceeded));
    }
    Ok(())
}

/// What an append does once the journal has been read and replayed.
#[derive(Debug)]
pub enum AppendPlan {
    /// The event is already recorded; its receipt is returned, repairing a
    /// torn tail first when there is one.
    AlreadyCommitted { sequence: u64, checksum: String, repair_tail: bool },
    /// The event is new and is written as record `sequence`.
    Write { sequence: u64 },
}

/// Index of the first record with `event_id` among the first `k`.
pub open spec fn find_event(records: Seq<JournalRecord>, event_id: u128) -> int {
    first_event_index(records, event_id)
}

/// Decides an append: an event already recorded must repeat exactly and is
/// acknowledged again; a new event becomes the next record, within the
/// JSON-safe range.
pub fn plan_append(records: &[JournalRecord], append: &JournalAppend, torn_tail: bool) -> (r:
    Result<AppendPlan, SessionJournalError>)
    ensures
        ({
            let j = first_event_index(records@, append.event_id);
            &&& j < records@.len() && (records@[j].recorded_at@ != append.recorded_at@
                || !same_mutation(records@[j].mutation, append.mutation)) ==> (r matches Err(e)
                && e.code == Code::SessionJournalEventConflict)
            &&& j < records@.len() && records@[j].recorded_at@ == append.recorded_at@
                && same_mutation(records@[j].mutation, append.mutation) ==> (r matches Ok(
                AppendPlan::AlreadyCommitted { sequence, checksum, repair_tail },
            ) && sequence == records@[j].sequence && checksum@ == records@[j].checksum@
                && repair_tail == torn_tail)
            &&& j >= records@.len() && records@.len() + 1 <= JSON_SAFE_INTEGER_MAX ==> (r matches Ok(
                AppendPlan::Write { sequence },
            ) && sequence == records@.len() + 1)
            &&& j >= records@.len() && records@.len() + 1 > JSON_SAFE_INTEGER_MAX ==> (r matches Err(e)
                && e.code == Code::SessionJournalLimitExceeded)
        }),
{
    let n = records.len();
    let mut i: usize = 0;
    proof {
        lemma_first_event_index_bounds(records@, append.event_id);
    }
    while i < n
        invariant
            i <= n,
            n == records@.len(),
            forall|k: int| 0 <= k < i ==> (#[trigger] records@[k]).event_id != append.event_id,
        decreases n - i,
    {
        if records[i].event_id == append.event_id {
            proof {
                lemma_first_event_index_is_first(records@, append.event_id, i as int);
            }
            let record = &records[i];
            let same_time = to_chars(record.recorded_at.as_str());
            let asked = to_chars(append.recorded_at.as_str());
            if !crate::text::chars_equal(same_time.as_slice(), asked.as_slice()) || !mutations_equal(
                &record.mutation,
                &append.mutation,
            ) {
                return Err(SessionJournalError::new(Code::SessionJournalEventConflict));
            }
            return Ok(
                AppendPlan::AlreadyCommitted {
                    sequence: record.sequence,
                    checksum: record.checksum.clone(),
                    repair_tail: torn_tail,
                },
            );
        }
        i = i + 1;
    }
    proof {
        lemma_first_event_index_absent(records@, append.event_id);
    }
    if n as u64 >= JSON_SAFE_INTEGER_MAX {
        return Err(SessionJournalError::new(Code::SessionJournalLimitExceeded));
    }
    Ok(AppendPlan::Write { sequence: n as u64 + 1 })
}

proof fn lemma_first_event_index_is_first(records: Seq<JournalRecord>, id: u128, i: int)
    requires
        0 <= i < records.len(),
        records[i].event_id == id,
        forall|k: int| 0 <= k < i ==> (#[trigger] records[k]).event_id != id,
    ensures
        first_event_index(records, id) == i,
    decreases records.len(),
{
    if i < records.len() - 1 {
        assert(records.drop_last()[i] == records[i]);
        assert forall|k: int| 0 <= k < i implies (#[trigger] records.drop_last()[k]).event_id != id by {
            assert(records.drop_last()[k] == records[k]);
        }
        lemma_first_event_index_is_first(records.drop_last(), id, i);
    } else {
        lemma_first_event_index_absent_prefix(records.drop_last(), id);
    }
}

proof fn lemma_first_event_index_absent_prefix(records: Seq<JournalRecord>, id: u128)
    requires
        forall|k: int| 0 <= k < records.len() ==> (#[trigger] records[k]).event_id != id,
    ensures
        first_event_index(records, id) == records.len(),
    decreases records.len(),
{
    if records.len() > 0 {
        assert forall|k: int| 0 <= k < records.drop_last().len() implies (
        #[trigger] records.drop_last()[k]).event_id != id by {
            assert(records.drop_last()[k] == records[k]);
        }
        lemma_first_event_index_absent_prefix(records.drop_last(), id);
        assert(records.last() == records[records.len() - 1]);
    }
}

proof fn lemma_first_event_index_absent(records: Seq<JournalRecord>, id: u128)
    requires
        forall|k: int| 0 <= k < records.len() ==> (#[trigger] records[k]).event_id != id,
    ensures
        first_event_index(records, id) == records.len(),
{
    lemma_first_event_index_absent_prefix(records, id);
}

/// Before a new record is written: its encoding, newline included, fits a
/// record, and the journal stays within its size limit.
pub fn check_encoded_record(encoded_len: usize, valid_bytes: usize) -> (r: Result<
    (),
    SessionJournalError,
>)
    ensures
        r is Ok <==> (encoded_len <= MAX_RECORD_BYTES && valid_bytes + encoded_len
            <= MAX_JOURNAL_BYTES),
        r matches Err(e) ==> e.code == Code::SessionJournalLimitExceeded,
{
    if encoded_len > MAX_RECORD_BYTES || valid_bytes as u64 > MAX_JOURNAL_BYTES
        || encoded_len as u64 > MAX_JOURNAL_BYTES - valid_bytes as u64 {
        return Err(SessionJournalError::new(Code::SessionJournalLimitExceeded));
    }
    Ok(())
}

proof fn lemma_same_event_transitive(a: JournalRecord, b: JournalRecord, c: JournalRecord)
    requires
        same_event(a, b),
        same_event(b, c),
    ensures
        same_event(a, c),
{
}

proof fn lemma_same_event_reflexive(a: JournalRecord)
    ensures
        same_event(a, a),
{
}

/// The first index of an event already present in a prefix does not move
/// when a record is appended.
proof fn lemma_first_event_index_push(records: Seq<JournalRecord>, r: JournalRecord, id: u128)
    ensures
        first_event_index(records, id) < records.len() ==> first_event_index(records.push(r), id)
            == first_event_index(records, id),
        first_event_index(records, id) >= records.len() ==> first_event_index(records.push(r), id)
            == if r.event_id == id {
            records.len() as int
        } else {
            records.len() + 1 as int
        },
{
    assert(records.push(r).drop_last() =~= records);
    lemma_first_event_index_bounds(records, id);
}

/// In a journal that replays, every record repeats the first record of its
/// event exactly.
proof fn lemma_replayed_duplicates_repeat_first(records: Seq<JournalRecord>)
    requires
        replay_spec(records) is Ok,
    ensures
        forall|k: int|
            0 <= k < records.len() ==> same_event(
                records[first_event_index(records, (#[trigger] records[k]).event_id)],
                records[k],
            ),
    decreases records.len(),
{
    if records.len() > 0 {
        let p = records.drop_last();
        let r = records.last();
        assert(p.push(r) =~= records);
        lemma_replayed_duplicates_repeat_first(p);
        assert forall|k: int| 0 <= k < records.len() implies same_event(
            records[first_event_index(records, (#[trigger] records[k]).event_id)],
            records[k],
        ) by {
            let id = records[k].event_id;
            lemma_first_event_index_push(p, r, id);
            lemma_first_event_index_bounds(p, id);
            if k < p.len() {
                assert(records[k] == p[k]);
                let j = first_event_index(p, id);
                lemma_first_event_index_bounds(p, id);
                if j >= p.len() {
                    lemma_first_event_index_is_first_or_before(p, id, k);
                }
                assert(records[j] == p[j]);
            } else {
                let j = first_event_index(p, r.event_id);
                if j < p.len() {
                    assert(records[j] == p[j]);
                } else {
                    lemma_same_event_reflexive(r);
                }
            }
        }
    }
}

proof fn lemma_first_event_index_is_first_or_before(records: Seq<JournalRecord>, id: u128, k: int)
    requires
        0 <= k < records.len(),
        records[k].event_id == id,
    ensures
        first_event_index(records, id) <= k,
    decreases records.len(),
{
    if k < records.len() - 1 {
        assert(records.drop_last()[k] == records[k]);
        lemma_first_event_index_is_first_or_before(records.drop_last(), id, k);
    }
}

/// Retrying an event that the journal already holds, with the same time and
/// mutation, changes nothing that replay yields but the count of ignored
/// duplicates.
pub proof fn retried_event_changes_nothing(records: Seq<JournalRecord>, retry: JournalRecord, k: int)
    requires
        replay_spec(records) is Ok,
        0 <= k < records.len(),
        records[k].event_id == retry.event_id,
        same_event(records[k], retry),
    ensures
        replay_spec(records.push(retry)) == Ok::<ReplayAcc, Code>(
            ReplayAcc { ignored: replay_spec(records)->Ok_0.ignored + 1, ..replay_spec(records)->Ok_0 },
        ),
{
    lemma_replayed_duplicates_repeat_first(records);
    lemma_first_event_index_is_first_or_before(records, retry.event_id, k);
    lemma_first_event_index_bounds(records, retry.event_id);
    let j = first_event_index(records, retry.event_id);
    assert(same_event(records[j], records[k]));
    lemma_same_event_transitive(records[j], records[k], retry);
    assert(records.push(retry).drop_last() =~= records);
}

/// Reusing an event id with another time or mutation is refused.
pub proof fn conflicting_event_reuse_fails(records: Seq<JournalRecord>, reuse: JournalRecord, k: int)
    requires
        replay_spec(records) is Ok,
        0 <= k < records.len(),
        records[k].event_id == reuse.event_id,
        !same_event(records[k], reuse),
    ensures
        replay_spec(records.push(reuse)) == Err::<ReplayAcc, Code>(
            Code::SessionJournalEventConflict,
        ),
{
    lemma_replayed_duplicates_repeat_first(records);
    lemma_first_event_index_is_first_or_before(records, reuse.event_id, k);
    lemma_first_event_index_bounds(records, reuse.event_id);
    let j = first_event_index(records, reuse.event_id);
    assert(same_event(records[j], records[k]));
    if same_event(records[j], reuse) {
        assert(same_event(records[k], records[j]));
        lemma_same_event_transitive(records[k], records[j], reuse);
    }
    assert(records.push(reuse).drop_last() =~= records);
}

} // verus!
