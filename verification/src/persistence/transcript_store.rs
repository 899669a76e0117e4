//! The transcript snapshot: canonical Markdown rendered from the journal
//! replay, its checkpoint header, and the store's error rules.

use vstd::prelude::*;

use crate::codes::Code;
use crate::outside::{
    join_path, joined_path, json_decode_optional_str, json_encode_str,
    json_optional_string_value, json_string_text, plain_file_name, sha256, sha256_digest,
    utf8_to_string, uuid_text, uuid_text_of,
};
use crate::persistence::front_matter::{lemma_json_string_line_free, lemma_line_free_concat};
use crate::persistence::lines::{
    lemma_decimal_line_free, lemma_leading_lines_of_text, lemma_prefixed, leading_lines, line_free,
    line_start, text_line, text_of_lines,
};
use crate::persistence::session_journal::{
    allowed_text_char, AudioSource, FinalizedTranscriptSegment, JournalReplay, SessionJournalError,
};
use crate::persistence::session_store::SessionStoreError;
use crate::text::{
    chars_equal, decimal, decimal_padded, ends_with_seq, is_control, is_control_spec,
    is_lower_hex_digest, lower_hex_digest, parse_unsigned, parse_unsigned_spec, push_char,
    push_decimal, push_decimal_padded, push_str, slice_chars, starts_with_chars,
    starts_with_seq, to_chars, utf8_bytes, utf8_byte_len, utf8_count,
};

verus! {

/// Largest accepted `transcript.md`, in bytes.
pub const MAX_TRANSCRIPT_BYTES: u64 = 67_108_864;

/// A transcript store failure.
#[derive(Debug, Clone, Copy, PartialEq, Eq, Structural)]
pub struct TranscriptStoreError {
    pub code: Code,
}

impl TranscriptStoreError {
    /// An error with `code`.
    pub fn new(code: Code) -> (r: Self)
        ensures
            r.code == code,
    {
        Self { code }
    }

    pub open spec fn recoverable_spec(self) -> bool {
        self.code == Code::TranscriptSnapshotMissing || self.code
            == Code::TranscriptSnapshotInvalid || self.code == Code::TranscriptSnapshotTooLarge
    }

    /// A missing, malformed or oversized snapshot may be rebuilt or
    /// recovered from its backup.
    pub fn recoverable(self) -> (r: bool)
        ensures
            r == self.recoverable_spec(),
    {
        match self.code {
            Code::TranscriptSnapshotMissing | Code::TranscriptSnapshotInvalid
            | Code::TranscriptSnapshotTooLarge => true,
            _ => false,
        }
    }
}

/// The SHA-256 digest of a transcript snapshot's bytes.
#[derive(Debug, Clone, Copy, PartialEq, Eq)]
pub struct TranscriptSnapshotFingerprint(pub [u8; 32]);

impl TranscriptSnapshotFingerprint {
    /// The fingerprint of the snapshot `bytes`.
    pub fn of_document(bytes: &[u8]) -> (r: Self)
        ensures
            r.0 == sha256_digest(bytes@),
    {
        TranscriptSnapshotFingerprint(sha256(bytes))
    }

    /// The digest bytes.
    pub fn as_bytes(self) -> (r: [u8; 32])
        ensures
            r == self.0,
    {
        self.0
    }
}

/// The files of a session's transcript.
#[derive(Debug)]
pub struct TranscriptPaths {
    pub document: String,
    pub temporary: String,
    pub backup: String,
}

impl TranscriptPaths {
    /// `transcript.md`, its temporary sibling and its backup inside `directory`.
    pub fn new(directory: &str) -> (r: Self)
        ensures
            joined_path(directory@, "transcript.md"@, r.document@),
            joined_path(directory@, ".transcript.md.tmp"@, r.temporary@),
            joined_path(directory@, "transcript.md.bak"@, r.backup@),
    {
        proof {
            reveal_strlit("transcript.md");
            reveal_strlit(".transcript.md.tmp");
            reveal_strlit("transcript.md.bak");
            assert(plain_file_name("transcript.md"@)) by {
                assert("transcript.md"@.len() == 13);
            }
            assert(plain_file_name(".transcript.md.tmp"@)) by {
                assert(".transcript.md.tmp"@.len() == 18);
                assert(".transcript.md.tmp"@ != seq!['.']);
            }
            assert(plain_file_name("transcript.md.bak"@)) by {
                assert("transcript.md.bak"@.len() == 17);
            }
        }
        TranscriptPaths {
            document: join_path(directory, "transcript.md"),
            temporary: join_path(directory, ".transcript.md.tmp"),
            backup: join_path(directory, "transcript.md.bak"),
        }
    }
}

/// `HH:MM:SS.mmm` of a millisecond offset; hours grow past two digits.
pub open spec fn timestamp_spec(ms: nat) -> Seq<char> {
    decimal_padded(ms / 3_600_000, 2) + seq![':'] + decimal_padded((ms / 60_000) % 60, 2) + seq![
        ':',
    ] + decimal_padded((ms / 1_000) % 60, 2) + seq!['.'] + decimal_padded(ms % 1_000, 3)
}

/// Formats a segment's start offset as `HH:MM:SS.mmm`.
pub fn format_timestamp(milliseconds: u64) -> (r: String)
    ensures
        r@ == timestamp_spec(milliseconds as nat),
{
    let hours = milliseconds / 3_600_000;
    let minutes = (milliseconds / 60_000) % 60;
    let seconds = (milliseconds / 1_000) % 60;
    let millis = milliseconds % 1_000;
    let mut out = String::new();
    push_decimal_padded(&mut out, hours, 2);
    push_char(&mut out, ':');
    push_decimal_padded(&mut out, minutes, 2);
    push_char(&mut out, ':');
    push_decimal_padded(&mut out, seconds, 2);
    push_char(&mut out, '.');
    push_decimal_padded(&mut out, millis, 3);
    proof {
        assert(out@ =~= timestamp_spec(milliseconds as nat));
    }
    out
}

/// `project/session`, when it is at most 257 bytes and free of control
/// characters.
pub open spec fn safe_entry_name_spec(project_folder: Seq<char>, session_folder: Seq<char>) -> Option<
    Seq<char>,
> {
    let combined = project_folder + seq!['/'] + session_folder;
    if utf8_count(combined) <= 257 && forall|i: int|
        0 <= i < combined.len() ==> !is_control_spec(#[trigger] combined[i]) {
        Some(combined)
    } else {
        None
    }
}

/// The name under which a discovery issue reports a session folder.
pub fn safe_entry_name(project_folder: &str, session_folder: &str) -> (r: Option<String>)
    ensures
        r matches Some(v) ==> safe_entry_name_spec(project_folder@, session_folder@) == Some(v@),
        r is None ==> safe_entry_name_spec(project_folder@, session_folder@) is None,
{
    let mut combined = String::new();
    push_str(&mut combined, project_folder);
    push_char(&mut combined, '/');
    push_str(&mut combined, session_folder);
    proof {
        assert(combined@ =~= project_folder@ + seq!['/'] + session_folder@);
    }
    let chars = to_chars(combined.as_str());
    if utf8_byte_len(chars.as_slice()) > 257 {
        return None;
    }
    let n = chars.len();
    for i in 0..n
        invariant
            n == chars@.len(),
            chars@ == project_folder@ + seq!['/'] + session_folder@,
            forall|j: int| 0 <= j < i ==> !is_control_spec(#[trigger] chars@[j]),
    {
        if is_control(chars[i]) {
            return None;
        }
    }
    Some(combined)
}

/// Points at which a materialization can be made to fail in tests.
#[derive(Debug, Clone, Copy, PartialEq, Eq, Structural)]
pub enum MaterializeFault {
    TemporarySynced,
    Replaced,
}

/// Fails with `transcript_snapshot_fault_injected` exactly at the
/// configured point.
pub fn inject_fault(configured: Option<MaterializeFault>, point: MaterializeFault) -> (r: Result<
    (),
    TranscriptStoreError,
>)
    ensures
        r is Err <==> configured == Some(point),
        r matches Err(e) ==> e.code == Code::TranscriptSnapshotFaultInjected,
{
    match configured {
        Some(c) => if c == point {
            Err(TranscriptStoreError::new(Code::TranscriptSnapshotFaultInjected))
        } else {
            Ok(())
        },
        None => Ok(()),
    }
}

/// Maps a failure to open the snapshot without write sharing.
pub fn map_open_error(code: Code) -> (r: TranscriptStoreError)
    ensures
        r.code == (if code == Code::ProjectSnapshotMissing {
            Code::TranscriptSnapshotMissing
        } else if code == Code::ProjectPathUnsafe {
            Code::TranscriptPathUnsafe
        } else {
            Code::TranscriptSnapshotReadFailed
        }),
{
    match code {
        Code::ProjectSnapshotMissing => TranscriptStoreError::new(Code::TranscriptSnapshotMissing),
        Code::ProjectPathUnsafe => TranscriptStoreError::new(Code::TranscriptPathUnsafe),
        _ => TranscriptStoreError::new(Code::TranscriptSnapshotReadFailed),
    }
}

/// Maps a session store failure.
pub fn map_session_error(error: SessionStoreError) -> (r: TranscriptStoreError)
    ensures
        r.code == (if error.code == Code::SessionPathUnsafe || error.code
            == Code::SessionPathIdentityChanged {
            Code::TranscriptPathUnsafe
        } else if error.code == Code::SessionSnapshotMissing {
            Code::TranscriptSessionMissing
        } else {
            Code::TranscriptSessionUnavailable
        }),
{
    match error.code {
        Code::SessionPathUnsafe | Code::SessionPathIdentityChanged => TranscriptStoreError::new(
            Code::TranscriptPathUnsafe,
        ),
        Code::SessionSnapshotMissing => TranscriptStoreError::new(Code::TranscriptSessionMissing),
        _ => TranscriptStoreError::new(Code::TranscriptSessionUnavailable),
    }
}

/// Any journal failure leaves the transcript without its source.
pub fn map_journal_error(error: SessionJournalError) -> (r: TranscriptStoreError)
    ensures
        r.code == Code::TranscriptJournalUnavailable,
{
    TranscriptStoreError::new(Code::TranscriptJournalUnavailable)
}

/// The heading label of an audio source.
pub open spec fn source_label(source: AudioSource) -> Seq<char> {
    match source {
        AudioSource::Microphone => "Microphone"@,
        AudioSource::SystemOutput => "System output"@,
    }
}

/// The metadata name of an audio source.
pub open spec fn source_name(source: AudioSource) -> Seq<char> {
    match source {
        AudioSource::Microphone => "microphone"@,
        AudioSource::SystemOutput => "system_output"@,
    }
}

/// The JSON text of an optional string: `null` or a string literal.
pub open spec fn json_optional_text(value: Option<Seq<char>>) -> Seq<char> {
    match value {
        Some(v) => json_string_text(v),
        None => "null"@,
    }
}

/// The identity and creation time a transcript header repeats from its
/// session.
#[derive(Debug)]
pub struct TranscriptOwner {
    pub project_id: u128,
    pub session_id: u128,
    pub created_at: String,
}

/// The checkpoint header of a transcript.
#[verifier::opaque]
pub open spec fn transcript_header(owner: TranscriptOwner, replay: JournalReplay) -> Seq<char> {
    let updated_at = match replay.last_recorded_at {
        Some(t) => t@,
        None => owner.created_at@,
    };
    "---\nschema_version: 1\ndocument_type: \"transcript\"\nproject_id: "@ + json_string_text(
        uuid_text_of(owner.project_id),
    ) + "\nsession_id: "@ + json_string_text(uuid_text_of(owner.session_id))
        + "\ncreated_at: "@ + json_string_text(owner.created_at@) + "\nupdated_at: "@
        + json_string_text(updated_at) + "\njournal_sequence: "@ + decimal(
        replay.last_sequence as nat,
    ) + "\njournal_checksum: "@ + json_optional_text(
        match replay.last_checksum {
            Some(c) => Some(c@),
            None => None,
        },
    ) + "\n---\n"@
}

/// The heading and text of a segment's section.
pub open spec fn segment_body(segment: FinalizedTranscriptSegment) -> Seq<char> {
    "\n## "@ + timestamp_spec(segment.start_ms as nat) + " — "@ + source_label(segment.source)
        + "\n\n"@ + segment.text@ + (if ends_with_seq(segment.text@, seq!['\n']) {
        seq![]
    } else {
        seq!['\n']
    })
}

/// The metadata comment closing a segment's section.
pub open spec fn segment_metadata(segment: FinalizedTranscriptSegment) -> Seq<char> {
    "\n<!--\nsegment_id: "@ + uuid_text_of(segment.id) + "\nsource: "@ + source_name(
        segment.source,
    ) + "\nstart_ms: "@ + decimal(segment.start_ms as nat) + "\nend_ms: "@ + decimal(
        segment.end_ms as nat,
    ) + "\nstatus: final\nlanguage: "@ + json_string_text(segment.language@) + "\n-->\n"@
}

/// One finalized segment as a Markdown section with its metadata comment.
#[verifier::opaque]
pub open spec fn segment_section(segment: FinalizedTranscriptSegment) -> Seq<char> {
    segment_body(segment) + segment_metadata(segment)
}

/// The sections of `segments`, in order.
pub open spec fn segment_sections(segments: Seq<FinalizedTranscriptSegment>) -> Seq<char>
    decreases segments.len(),
{
    if segments.len() == 0 {
        seq![]
    } else {
        segment_sections(segments.drop_last()) + segment_section(segments.last())
    }
}

/// The whole canonical transcript text.
pub open spec fn transcript_text(owner: TranscriptOwner, replay: JournalReplay) -> Seq<char> {
    transcript_header(owner, replay) + segment_sections(replay.finalized_segments@)
}

/// Appends the JSON string literal of `value`; every string encodes.
fn push_json(out: &mut String, value: &str) -> (r: Result<(), TranscriptStoreError>)
    ensures
        r is Ok,
        final(out)@ == old(out)@ + json_string_text(value@),
{
    match json_encode_str(value) {
        Some(text) => {
            push_str(out, text.as_str());
            Ok(())
        },
        None => Err(TranscriptStoreError::new(Code::TranscriptSnapshotRenderFailed)),
    }
}

/// Appends the heading and text of a segment.
fn push_segment_body(out: &mut String, segment: &FinalizedTranscriptSegment)
    ensures
        final(out)@ == old(out)@ + segment_body(*segment),
{
    let ghost start = out@;
    push_str(out, "\n## ");
    push_str(out, format_timestamp(segment.start_ms).as_str());
    push_str(out, " — ");
    match segment.source {
        AudioSource::Microphone => push_str(out, "Microphone"),
        AudioSource::SystemOutput => push_str(out, "System output"),
    }
    push_str(out, "\n\n");
    push_str(out, segment.text.as_str());
    let text = to_chars(segment.text.as_str());
    let ends_newline = text.len() > 0 && text[text.len() - 1] == '\n';
    proof {
        let t = segment.text@;
        if ends_newline {
            assert(t.subrange(t.len() - 1, t.len() as int) =~= seq!['\n']);
        } else if t.len() > 0 {
            assert(t.subrange(t.len() - 1, t.len() as int)[0] == t[t.len() - 1]);
        }
        assert(ends_newline == ends_with_seq(t, seq!['\n']));
    }
    if !ends_newline {
        push_char(out, '\n');
    }
    proof {
        assert(out@ =~= start + segment_body(*segment));
    }
}

/// Appends the metadata comment of a segment.
fn push_segment_metadata(out: &mut String, segment: &FinalizedTranscriptSegment) -> (r: Result<
    (),
    TranscriptStoreError,
>)
    ensures
        r is Ok,
        final(out)@ == old(out)@ + segment_metadata(*segment),
{
    let ghost start = out@;
    push_str(out, "\n<!--\nsegment_id: ");
    push_str(out, uuid_text(segment.id).as_str());
    push_str(out, "\nsource: ");
    match segment.source {
        AudioSource::Microphone => push_str(out, "microphone"),
        AudioSource::SystemOutput => push_str(out, "system_output"),
    }
    push_str(out, "\nstart_ms: ");
    push_decimal(out, segment.start_ms);
    push_str(out, "\nend_ms: ");
    push_decimal(out, segment.end_ms);
    push_str(out, "\nstatus: final\nlanguage: ");
    push_json(out, segment.language.as_str())?;
    push_str(out, "\n-->\n");
    proof {
        assert(out@ =~= start + segment_metadata(*segment));
    }
    Ok(())
}

/// Appends the section of one segment.
fn push_segment(out: &mut String, segment: &FinalizedTranscriptSegment) -> (r: Result<
    (),
    TranscriptStoreError,
>)
    ensures
        r is Ok,
        final(out)@ == old(out)@ + segment_section(*segment),
{
    let ghost start = out@;
    push_segment_body(out, segment);
    push_segment_metadata(out, segment)?;
    proof {
        reveal(segment_section);
        assert(out@ =~= start + segment_section(*segment));
    }
    Ok(())
}

/// Renders the canonical transcript of a session from its journal replay:
/// the checkpoint header, then one section per finalized segment in replay
/// order; fails when the result would exceed the size limit.
pub fn render_transcript(owner: &TranscriptOwner, replay: &JournalReplay) -> (r: Result<
    Vec<u8>,
    TranscriptStoreError,
>)
    ensures
        r matches Ok(bytes) ==> bytes@ == vstd::utf8::encode_utf8(transcript_text(*owner, *replay))
            && bytes@.len() <= MAX_TRANSCRIPT_BYTES,
        r is Ok <==> vstd::utf8::encode_utf8(transcript_text(*owner, *replay)).len()
            <= MAX_TRANSCRIPT_BYTES,
        r matches Err(e) ==> e.code == Code::TranscriptSnapshotTooLarge,
{
    let mut document = String::new();
    push_str(&mut document, "---\nschema_version: 1\ndocument_type: \"transcript\"\nproject_id: ");
    push_json(&mut document, uuid_text(owner.project_id).as_str())?;
    push_str(&mut document, "\nsession_id: ");
    push_json(&mut document, uuid_text(owner.session_id).as_str())?;
    push_str(&mut document, "\ncreated_at: ");
    push_json(&mut document, owner.created_at.as_str())?;
    push_str(&mut document, "\nupdated_at: ");
    match &replay.last_recorded_at {
        Some(t) => push_json(&mut document, t.as_str())?,
        None => push_json(&mut document, owner.created_at.as_str())?,
    }
    push_str(&mut document, "\njournal_sequence: ");
    push_decimal(&mut document, replay.last_sequence);
    push_str(&mut document, "\njournal_checksum: ");
    match &replay.last_checksum {
        Some(c) => push_json(&mut document, c.as_str())?,
        None => push_str(&mut document, "null"),
    }
    push_str(&mut document, "\n---\n");
    proof {
        reveal(transcript_header);
        assert(document@ =~= transcript_header(*owner, *replay));
    }
    let n = replay.finalized_segments.len();
    for k in 0..n
        invariant
            n == replay.finalized_segments@.len(),
            document@ == transcript_header(*owner, *replay) + segment_sections(
                replay.finalized_segments@.take(k as int),
            ),
    {
        push_segment(&mut document, &replay.finalized_segments[k])?;
        proof {
            assert(replay.finalized_segments@.take(k + 1).drop_last()
                =~= replay.finalized_segments@.take(k as int));
            assert(document@ =~= transcript_header(*owner, *replay) + segment_sections(
                replay.finalized_segments@.take(k + 1),
            ));
        }
    }
    proof {
        assert(replay.finalized_segments@.take(n as int) =~= replay.finalized_segments@);
    }
    let bytes = utf8_bytes(document.as_str());
    if bytes.len() as u64 > MAX_TRANSCRIPT_BYTES {
        return Err(TranscriptStoreError::new(Code::TranscriptSnapshotTooLarge));
    }
    Ok(bytes)
}

/// The shape of a transcript header: no carriage return and ten lines with
/// the fixed names in order between `---` lines.
pub open spec fn transcript_frame_ok(s: Seq<char>) -> bool {
    &&& !s.contains('\r')
    &&& line_start(s, 9) < s.len()
    &&& text_line(s, 0) == "---"@
    &&& text_line(s, 1) == "schema_version: 1"@
    &&& text_line(s, 2) == "document_type: \"transcript\""@
    &&& starts_with_seq(text_line(s, 3), "project_id: "@)
    &&& starts_with_seq(text_line(s, 4), "session_id: "@)
    &&& starts_with_seq(text_line(s, 5), "created_at: "@)
    &&& starts_with_seq(text_line(s, 6), "updated_at: "@)
    &&& starts_with_seq(text_line(s, 7), "journal_sequence: "@)
    &&& starts_with_seq(text_line(s, 8), "journal_checksum: "@)
    &&& text_line(s, 9) == "---"@
}

/// The checkpoint a framed header records, when it is consistent: a
/// sequence, and a checksum of 64 lower-case hex digits present exactly
/// when the sequence is not zero.
pub open spec fn checkpoint_spec(s: Seq<char>) -> Option<(nat, Option<Seq<char>>)> {
    let sequence = parse_unsigned_spec(text_line(s, 7).skip(18), u64::MAX as nat);
    let checksum = json_optional_string_value(text_line(s, 8).skip(18));
    if sequence is Some && checksum is Some && (checksum->0 matches Some(c)
        ==> is_lower_hex_digest(c)) && ((sequence->0 == 0) == (checksum->0 is None)) {
        Some((sequence->0, checksum->0))
    } else {
        None
    }
}

/// Reads the journal checkpoint recorded in a transcript's header.
pub fn parse_checkpoint(bytes: &[u8]) -> (r: Result<(u64, Option<String>), TranscriptStoreError>)
    ensures
        ({
            let s = vstd::utf8::decode_utf8(bytes@);
            let framed = vstd::utf8::valid_utf8(bytes@) && transcript_frame_ok(s);
            &&& r matches Err(e) ==> (e.code == Code::TranscriptSnapshotInvalid <==> !framed)
            &&& r matches Err(e) ==> (e.code == Code::TranscriptSnapshotInvalid || e.code
                == Code::TranscriptCheckpointInvalid)
            &&& r is Ok <==> (framed && checkpoint_spec(s) is Some)
            &&& r matches Ok((sequence, checksum)) ==> checkpoint_spec(s) == Some(
                (
                    sequence as nat,
                    match checksum {
                        Some(c) => Some(c@),
                        None => None::<Seq<char>>,
                    },
                ),
            )
        }),
{
    let text = match utf8_to_string(bytes) {
        Some(t) => t,
        None => return Err(TranscriptStoreError::new(Code::TranscriptSnapshotInvalid)),
    };
    let ghost s = text@;
    let chars = to_chars(text.as_str());
    let cr = ['\r'];
    if crate::text::contains_chars(chars.as_slice(), &cr) {
        proof {
            assert(cr@ =~= seq!['\r']);
            let i = choose|i: int| crate::text::occurs_at(s, seq!['\r'], i);
            assert(s.subrange(i, i + 1)[0] == s[i]);
            assert(s.contains('\r'));
        }
        return Err(TranscriptStoreError::new(Code::TranscriptSnapshotInvalid));
    }
    proof {
        assert(cr@ =~= seq!['\r']);
        assert forall|i: int| 0 <= i < s.len() implies s[i] != '\r' by {
            assert(s.subrange(i, i + 1) =~= seq![s[i]]);
            assert(!crate::text::occurs_at(s, seq!['\r'], i));
        }
    }
    let (lines, _next) = match leading_lines(chars.as_slice(), 10) {
        Some(found) => found,
        None => return Err(TranscriptStoreError::new(Code::TranscriptSnapshotInvalid)),
    };
    let header_ok = chars_equal(lines[0].as_slice(), to_chars("---").as_slice())
        && chars_equal(lines[1].as_slice(), to_chars("schema_version: 1").as_slice())
        && chars_equal(lines[2].as_slice(), to_chars("document_type: \"transcript\"").as_slice())
        && starts_with_chars(lines[3].as_slice(), to_chars("project_id: ").as_slice())
        && starts_with_chars(lines[4].as_slice(), to_chars("session_id: ").as_slice())
        && starts_with_chars(lines[5].as_slice(), to_chars("created_at: ").as_slice())
        && starts_with_chars(lines[6].as_slice(), to_chars("updated_at: ").as_slice())
        && starts_with_chars(lines[7].as_slice(), to_chars("journal_sequence: ").as_slice())
        && starts_with_chars(lines[8].as_slice(), to_chars("journal_checksum: ").as_slice())
        && chars_equal(lines[9].as_slice(), to_chars("---").as_slice());
    if !header_ok {
        return Err(TranscriptStoreError::new(Code::TranscriptSnapshotInvalid));
    }
    proof {
        reveal_strlit("journal_sequence: ");
        reveal_strlit("journal_checksum: ");
    }
    let sequence_text = slice_chars(lines[7].as_slice(), 18, lines[7].len());
    let checksum_chars = slice_chars(lines[8].as_slice(), 18, lines[8].len());
    proof {
        assert(sequence_text@ =~= text_line(s, 7).skip(18));
        assert(checksum_chars@ =~= text_line(s, 8).skip(18));
    }
    let sequence = match parse_unsigned(sequence_text.as_slice(), u64::MAX) {
        Some(v) => v,
        None => return Err(TranscriptStoreError::new(Code::TranscriptCheckpointInvalid)),
    };
    let checksum_text = crate::text::from_chars(checksum_chars.as_slice());
    let checksum = match json_decode_optional_str(checksum_text.as_str()) {
        Some(c) => c,
        None => return Err(TranscriptStoreError::new(Code::TranscriptCheckpointInvalid)),
    };
    let well_formed = match &checksum {
        Some(c) => lower_hex_digest(to_chars(c.as_str()).as_slice()),
        None => true,
    };
    if !well_formed || (sequence == 0) != checksum.is_none() {
        return Err(TranscriptStoreError::new(Code::TranscriptCheckpointInvalid));
    }
    Ok((sequence, checksum))
}


/// Whether two byte strings are equal.
pub fn bytes_equal(a: &[u8], b: &[u8]) -> (r: bool)
    ensures
        r == (a@ == b@),
{
    if a.len() != b.len() {
        return false;
    }
    let n = a.len();
    for i in 0..n
        invariant
            n == a@.len(),
            n == b@.len(),
            forall|j: int| 0 <= j < i ==> a@[j] == b@[j],
    {
        if a[i] != b[i] {
            return false;
        }
    }
    proof {
        assert(a@ =~= b@);
    }
    true
}

/// Whether two optional texts are equal.
fn optional_text_equal(a: &Option<String>, b: &Option<String>) -> (r: bool)
    ensures
        r == match (a, b) {
            (Some(x), Some(y)) => x@ == y@,
            (None, None) => true,
            _ => false,
        },
{
    match (a, b) {
        (Some(x), Some(y)) => {
            let xs = to_chars(x.as_str());
            let ys = to_chars(y.as_str());
            chars_equal(xs.as_slice(), ys.as_slice())
        },
        (None, None) => true,
        _ => false,
    }
}

/// A stored snapshot is valid only when it is byte for byte the rendering
/// of the journal replayed to its checkpoint, and names the checksum of the
/// record it was replayed to.
pub fn check_snapshot_consistency(
    stored: &[u8],
    rendered: &[u8],
    stored_checksum: &Option<String>,
    replayed_checksum: &Option<String>,
) -> (r: Result<(), TranscriptStoreError>)
    ensures
        r is Ok <==> stored@ == rendered@ && match (stored_checksum, replayed_checksum) {
            (Some(x), Some(y)) => x@ == y@,
            (None, None) => true,
            _ => false,
        },
        r matches Err(e) ==> e.code == Code::TranscriptSnapshotInvalid,
{
    if !optional_text_equal(stored_checksum, replayed_checksum) || !bytes_equal(stored, rendered) {
        return Err(TranscriptStoreError::new(Code::TranscriptSnapshotInvalid));
    }
    Ok(())
}

/// What reading the published transcript found before it is rebuilt.
#[derive(Debug, Clone, Copy, PartialEq, Eq)]
pub enum PublishedSnapshot {
    Present(TranscriptSnapshotFingerprint),
    Missing,
    Unreadable(Code),
}

/// How a rebuilt transcript is published.
#[derive(Debug, Clone, Copy, PartialEq, Eq, Structural)]
pub enum PublishMode {
    /// No transcript exists yet: publish without replacing anything.
    New,
    /// Replace the published transcript, keeping it as the backup.
    Replace,
}

/// Decides whether a rebuilt transcript may be published over what is on
/// disk. The caller names the fingerprint it last saw, or none when it saw
/// no transcript; anything else on disk is an external edit and a conflict,
/// so an edit made by hand is never overwritten.
pub fn publish_mode(
    current: &PublishedSnapshot,
    expected: &Option<TranscriptSnapshotFingerprint>,
) -> (r: Result<PublishMode, TranscriptStoreError>)
    ensures
        (*current == PublishedSnapshot::Missing && expected is None) ==> r == Ok::<
            PublishMode,
            TranscriptStoreError,
        >(PublishMode::New),
        (current matches PublishedSnapshot::Present(f) && expected matches Some(e) && f.0@
            == e.0@) ==> r == Ok::<PublishMode, TranscriptStoreError>(PublishMode::Replace),
        current matches PublishedSnapshot::Unreadable(c) ==> (expected is None ==> r == Err::<
            PublishMode,
            TranscriptStoreError,
        >(TranscriptStoreError { code: *c })),
        r is Ok <==> ((*current == PublishedSnapshot::Missing && expected is None) || (
        current matches PublishedSnapshot::Present(f) && expected matches Some(e) && f.0@
            == e.0@)),
        (r is Err && !(current matches PublishedSnapshot::Unreadable(_) && expected is None))
            ==> r == Err::<PublishMode, TranscriptStoreError>(
            TranscriptStoreError { code: Code::TranscriptSnapshotConflict },
        ),
{
    let conflict = TranscriptStoreError::new(Code::TranscriptSnapshotConflict);
    match (current, expected) {
        (PublishedSnapshot::Missing, None) => Ok(PublishMode::New),
        (PublishedSnapshot::Present(f), Some(e)) => {
            if crate::persistence::project_store::digests_equal(&f.0, &e.0) {
                Ok(PublishMode::Replace)
            } else {
                Err(conflict)
            }
        },
        (PublishedSnapshot::Unreadable(c), None) => Err(TranscriptStoreError::new(*c)),
        _ => Err(conflict),
    }
}

/// After publishing, the transcript read back must be exactly the bytes
/// that were written.
pub fn verify_published(published: &[u8], written: &[u8]) -> (r: Result<(), TranscriptStoreError>)
    ensures
        r is Ok <==> published@ == written@,
        r matches Err(e) ==> e.code == Code::TranscriptSnapshotVerifyFailed,
{
    if bytes_equal(published, written) {
        Ok(())
    } else {
        Err(TranscriptStoreError::new(Code::TranscriptSnapshotVerifyFailed))
    }
}

/// Most finalized segments a transcript discovery reads over all sessions.
pub const MAX_DISCOVERED_SEGMENTS: usize = 100_000;

/// Most segment text a transcript discovery reads, in UTF-8 bytes.
pub const MAX_DISCOVERED_TEXT_BYTES: usize = 67_108_864;

/// What a transcript discovery has read so far.
#[derive(Debug, Clone, Copy)]
pub struct DiscoveryBudget {
    pub segments: usize,
    pub text_bytes: usize,
}

/// Counts one more discovered transcript, given its segments' text lengths
/// in bytes; past either bound the discovery fails.
pub fn count_discovered(budget: &mut DiscoveryBudget, text_lengths: &[usize]) -> (r: Result<
    (),
    TranscriptStoreError,
>)
    ensures
        ({
            let segments = old(budget).segments + text_lengths@.len();
            let text = old(budget).text_bytes + sum_lengths(text_lengths@);
            &&& r is Ok <==> segments <= MAX_DISCOVERED_SEGMENTS && text <= MAX_DISCOVERED_TEXT_BYTES
            &&& r matches Err(e) ==> e.code == Code::TranscriptDiscoveryLimitExceeded
            &&& r is Ok ==> final(budget).segments == segments && final(budget).text_bytes == text
        }),
{
    let limit = TranscriptStoreError::new(Code::TranscriptDiscoveryLimitExceeded);
    let n = text_lengths.len();
    if n > MAX_DISCOVERED_SEGMENTS || budget.segments > MAX_DISCOVERED_SEGMENTS - n {
        return Err(limit);
    }
    let mut total: usize = budget.text_bytes;
    if total > MAX_DISCOVERED_TEXT_BYTES {
        return Err(limit);
    }
    for i in 0..n
        invariant
            n == text_lengths@.len(),
            total == budget.text_bytes + sum_lengths(text_lengths@.take(i as int)),
            total <= MAX_DISCOVERED_TEXT_BYTES,
            limit.code == Code::TranscriptDiscoveryLimitExceeded,
            budget.segments + n <= MAX_DISCOVERED_SEGMENTS,
    {
        proof {
            assert(text_lengths@.take(i + 1).drop_last() =~= text_lengths@.take(i as int));
        }
        if text_lengths[i] > MAX_DISCOVERED_TEXT_BYTES - total {
            proof {
                lemma_sum_lengths_prefix(text_lengths@, i + 1);
            }
            return Err(limit);
        }
        total = total + text_lengths[i];
    }
    proof {
        assert(text_lengths@.take(n as int) =~= text_lengths@);
    }
    budget.segments = budget.segments + n;
    budget.text_bytes = total;
    Ok(())
}

/// Sum of `lengths`.
pub open spec fn sum_lengths(lengths: Seq<usize>) -> nat
    decreases lengths.len(),
{
    if lengths.len() == 0 {
        0
    } else {
        sum_lengths(lengths.drop_last()) + lengths.last() as nat
    }
}

proof fn lemma_sum_lengths_prefix(lengths: Seq<usize>, k: int)
    requires
        0 <= k <= lengths.len(),
    ensures
        sum_lengths(lengths.take(k)) <= sum_lengths(lengths),
    decreases lengths.len(),
{
    if k < lengths.len() {
        assert(lengths.drop_last().take(k) =~= lengths.take(k));
        lemma_sum_lengths_prefix(lengths.drop_last(), k);
    } else {
        assert(lengths.take(k) =~= lengths);
    }
}

/// `s` holds no carriage return.
pub open spec fn cr_free(s: Seq<char>) -> bool {
    forall|i: int| 0 <= i < s.len() ==> #[trigger] s[i] != '\r'
}

proof fn lemma_cr_free_concat(a: Seq<char>, b: Seq<char>)
    requires
        cr_free(a),
        cr_free(b),
    ensures
        cr_free(a + b),
{
    assert forall|i: int| 0 <= i < (a + b).len() implies #[trigger] (a + b)[i] != '\r' by {
        if i < a.len() {
            assert((a + b)[i] == a[i]);
        } else {
            assert((a + b)[i] == b[i - a.len()]);
        }
    }
}

proof fn lemma_padded_cr_free(n: nat, width: nat)
    ensures
        cr_free(decimal_padded(n, width)),
{
    lemma_decimal_line_free(n);
    let d = decimal(n);
    if d.len() < width {
        let z = Seq::new((width - d.len()) as nat, |i: int| '0');
        assert(cr_free(z));
        lemma_cr_free_concat(z, d);
    }
}

proof fn lemma_timestamp_cr_free(ms: nat)
    ensures
        cr_free(timestamp_spec(ms)),
{
    lemma_padded_cr_free(ms / 3_600_000, 2);
    lemma_padded_cr_free((ms / 60_000) % 60, 2);
    lemma_padded_cr_free((ms / 1_000) % 60, 2);
    lemma_padded_cr_free(ms % 1_000, 3);
    let a = decimal_padded(ms / 3_600_000, 2);
    let b = decimal_padded((ms / 60_000) % 60, 2);
    let c = decimal_padded((ms / 1_000) % 60, 2);
    let d = decimal_padded(ms % 1_000, 3);
    lemma_cr_free_concat(a, seq![':']);
    lemma_cr_free_concat(a + seq![':'], b);
    lemma_cr_free_concat(a + seq![':'] + b, seq![':']);
    lemma_cr_free_concat(a + seq![':'] + b + seq![':'], c);
    lemma_cr_free_concat(a + seq![':'] + b + seq![':'] + c, seq!['.']);
    lemma_cr_free_concat(a + seq![':'] + b + seq![':'] + c + seq!['.'], d);
}

proof fn lemma_uuid_text_cr_free(id: u128)
    ensures
        cr_free(uuid_text_of(id)),
{
    let h = crate::outside::uuid_hex(id);
    let t = uuid_text_of(id);
    assert forall|k: int| 0 <= k < 32 implies #[trigger] h[k] != '\r' by {
        let d = crate::outside::uuid_nibble(id, k);
        assert(d < 16);
    }
    assert forall|i: int| 0 <= i < t.len() implies #[trigger] t[i] != '\r' by {
        if i < 8 {
            assert(t[i] == h[i]);
        } else if i == 8 || i == 13 || i == 18 || i == 23 {
        } else if i < 13 {
            assert(t[i] == h[i - 1]);
        } else if i < 18 {
            assert(t[i] == h[i - 2]);
        } else if i < 23 {
            assert(t[i] == h[i - 3]);
        } else {
            assert(t[i] == h[i - 4]);
        }
    }
}

proof fn lemma_line_free_is_cr_free(s: Seq<char>)
    requires
        line_free(s),
    ensures
        cr_free(s),
{
    assert forall|i: int| 0 <= i < s.len() implies #[trigger] s[i] != '\r' by {
        assert(s[i] != '\n' && s[i] != '\r');
    }
}

/// The section of a valid segment holds no carriage return.
proof fn lemma_section_cr_free(segment: FinalizedTranscriptSegment)
    requires
        segment.valid_spec(),
    ensures
        cr_free(segment_section(segment)),
{
    reveal(segment_section);
    reveal_strlit("\n## ");
    reveal_strlit(" — ");
    reveal_strlit("Microphone");
    reveal_strlit("System output");
    reveal_strlit("\n\n");
    reveal_strlit("\n<!--\nsegment_id: ");
    reveal_strlit("\nsource: ");
    reveal_strlit("microphone");
    reveal_strlit("system_output");
    reveal_strlit("\nstart_ms: ");
    reveal_strlit("\nend_ms: ");
    reveal_strlit("\nstatus: final\nlanguage: ");
    reveal_strlit("\n-->\n");
    let t = segment.text@;
    assert(cr_free(t)) by {
        assert forall|i: int| 0 <= i < t.len() implies #[trigger] t[i] != '\r' by {
            assert(allowed_text_char(t[i]));
        }
    }
    lemma_timestamp_cr_free(segment.start_ms as nat);
    let tail: Seq<char> = if ends_with_seq(t, seq!['\n']) {
        seq![]
    } else {
        seq!['\n']
    };
    let p1 = "\n## "@ + timestamp_spec(segment.start_ms as nat);
    lemma_cr_free_concat("\n## "@, timestamp_spec(segment.start_ms as nat));
    lemma_cr_free_concat(p1, " — "@);
    lemma_cr_free_concat(p1 + " — "@, source_label(segment.source));
    lemma_cr_free_concat(p1 + " — "@ + source_label(segment.source), "\n\n"@);
    lemma_cr_free_concat(p1 + " — "@ + source_label(segment.source) + "\n\n"@, t);
    lemma_cr_free_concat(p1 + " — "@ + source_label(segment.source) + "\n\n"@ + t, tail);
    assert(cr_free(segment_body(segment)));
    lemma_uuid_text_cr_free(segment.id);
    lemma_decimal_line_free(segment.start_ms as nat);
    lemma_decimal_line_free(segment.end_ms as nat);
    lemma_line_free_is_cr_free(decimal(segment.start_ms as nat));
    lemma_line_free_is_cr_free(decimal(segment.end_ms as nat));
    lemma_json_string_line_free(segment.language@);
    lemma_line_free_is_cr_free(json_string_text(segment.language@));
    let m1 = "\n<!--\nsegment_id: "@ + uuid_text_of(segment.id);
    lemma_cr_free_concat("\n<!--\nsegment_id: "@, uuid_text_of(segment.id));
    lemma_cr_free_concat(m1, "\nsource: "@);
    lemma_cr_free_concat(m1 + "\nsource: "@, source_name(segment.source));
    let m2 = m1 + "\nsource: "@ + source_name(segment.source);
    lemma_cr_free_concat(m2, "\nstart_ms: "@);
    lemma_cr_free_concat(m2 + "\nstart_ms: "@, decimal(segment.start_ms as nat));
    let m3 = m2 + "\nstart_ms: "@ + decimal(segment.start_ms as nat);
    lemma_cr_free_concat(m3, "\nend_ms: "@);
    lemma_cr_free_concat(m3 + "\nend_ms: "@, decimal(segment.end_ms as nat));
    let m4 = m3 + "\nend_ms: "@ + decimal(segment.end_ms as nat);
    lemma_cr_free_concat(m4, "\nstatus: final\nlanguage: "@);
    lemma_cr_free_concat(m4 + "\nstatus: final\nlanguage: "@, json_string_text(segment.language@));
    lemma_cr_free_concat(
        m4 + "\nstatus: final\nlanguage: "@ + json_string_text(segment.language@),
        "\n-->\n"@,
    );
    assert(cr_free(segment_metadata(segment)));
    lemma_cr_free_concat(segment_body(segment), segment_metadata(segment));
}

/// The sections of valid segments hold no carriage return.
proof fn lemma_sections_cr_free(segments: Seq<FinalizedTranscriptSegment>)
    requires
        forall|k: int| 0 <= k < segments.len() ==> (#[trigger] segments[k]).valid_spec(),
    ensures
        cr_free(segment_sections(segments)),
    decreases segments.len(),
{
    if segments.len() > 0 {
        let front = segments.drop_last();
        assert forall|k: int| 0 <= k < front.len() implies (#[trigger] front[k]).valid_spec() by {
            assert(front[k] == segments[k]);
        }
        lemma_sections_cr_free(front);
        assert(segments[segments.len() - 1].valid_spec());
        lemma_section_cr_free(segments.last());
        lemma_cr_free_concat(segment_sections(front), segment_section(segments.last()));
    }
}

/// The view of a replay's last checksum.
pub open spec fn checksum_view(replay: JournalReplay) -> Option<Seq<char>> {
    match replay.last_checksum {
        Some(c) => Some(c@),
        None => None,
    }
}

/// The time a transcript header records as its last update.
pub open spec fn updated_at_of(owner: TranscriptOwner, replay: JournalReplay) -> Seq<char> {
    match replay.last_recorded_at {
        Some(t) => t@,
        None => owner.created_at@,
    }
}

/// The lines of a transcript's checkpoint header, in order.
pub open spec fn transcript_header_lines(owner: TranscriptOwner, replay: JournalReplay) -> Seq<
    Seq<char>,
> {
    seq![
        "---"@,
        "schema_version: 1"@,
        "document_type: \"transcript\""@,
        "project_id: "@ + json_string_text(uuid_text_of(owner.project_id)),
        "session_id: "@ + json_string_text(uuid_text_of(owner.session_id)),
        "created_at: "@ + json_string_text(owner.created_at@),
        "updated_at: "@ + json_string_text(updated_at_of(owner, replay)),
        "journal_sequence: "@ + decimal(replay.last_sequence as nat),
        "journal_checksum: "@ + json_optional_text(checksum_view(replay)),
        "---"@,
    ]
}

/// The header is the text of its lines.
#[verifier::spinoff_prover]
#[verifier::rlimit(40)]
proof fn lemma_transcript_header_is_lines(owner: TranscriptOwner, replay: JournalReplay)
    ensures
        transcript_header(owner, replay) == text_of_lines(transcript_header_lines(owner, replay)),
{
    reveal(transcript_header);
    let h = transcript_header_lines(owner, replay);
    reveal_strlit("---");
    reveal_strlit("schema_version: 1");
    reveal_strlit("document_type: \"transcript\"");
    reveal_strlit("project_id: ");
    reveal_strlit("session_id: ");
    reveal_strlit("created_at: ");
    reveal_strlit("updated_at: ");
    reveal_strlit("journal_sequence: ");
    reveal_strlit("journal_checksum: ");
    reveal_strlit("---\nschema_version: 1\ndocument_type: \"transcript\"\nproject_id: ");
    reveal_strlit("\nsession_id: ");
    reveal_strlit("\ncreated_at: ");
    reveal_strlit("\nupdated_at: ");
    reveal_strlit("\njournal_sequence: ");
    reveal_strlit("\njournal_checksum: ");
    reveal_strlit("\n---\n");
    assert(text_of_lines(h.take(0)) =~= Seq::<char>::empty());
    assert(h.take(1).drop_last() =~= h.take(0));
    assert(h.take(2).drop_last() =~= h.take(1));
    assert(h.take(3).drop_last() =~= h.take(2));
    assert(h.take(4).drop_last() =~= h.take(3));
    assert(h.take(5).drop_last() =~= h.take(4));
    assert(h.take(6).drop_last() =~= h.take(5));
    assert(h.take(7).drop_last() =~= h.take(6));
    assert(h.take(8).drop_last() =~= h.take(7));
    assert(h.take(9).drop_last() =~= h.take(8));
    assert(h.take(10).drop_last() =~= h.take(9));
    assert(h.take(10) =~= h);
    let nl = seq!['\n'];
    let j1 = json_string_text(uuid_text_of(owner.project_id));
    let j2 = json_string_text(uuid_text_of(owner.session_id));
    let j3 = json_string_text(owner.created_at@);
    let j4 = json_string_text(updated_at_of(owner, replay));
    let d1 = decimal(replay.last_sequence as nat);
    let c1 = json_optional_text(checksum_view(replay));
    assert("---"@ + nl + "schema_version: 1"@ + nl + "document_type: \"transcript\""@ + nl
        + "project_id: "@ =~= "---\nschema_version: 1\ndocument_type: \"transcript\"\nproject_id: "@);
    assert(nl + "session_id: "@ =~= "\nsession_id: "@);
    assert(nl + "created_at: "@ =~= "\ncreated_at: "@);
    assert(nl + "updated_at: "@ =~= "\nupdated_at: "@);
    assert(nl + "journal_sequence: "@ =~= "\njournal_sequence: "@);
    assert(nl + "journal_checksum: "@ =~= "\njournal_checksum: "@);
    assert(nl + "---"@ + nl =~= "\n---\n"@);
    assert(h.take(1).last() == h[0]);
    assert(text_of_lines(h.take(1)) =~= "---"@ + nl);
    assert(text_of_lines(h.take(2)) =~= "---"@ + nl + "schema_version: 1"@ + nl);
    assert(text_of_lines(h.take(3)) =~= "---"@ + nl + "schema_version: 1"@ + nl
        + "document_type: \"transcript\""@ + nl);
    let a = "---\nschema_version: 1\ndocument_type: \"transcript\"\nproject_id: "@;
    assert(text_of_lines(h.take(4)) =~= a + j1 + nl);
    assert(text_of_lines(h.take(5)) =~= a + j1 + "\nsession_id: "@ + j2 + nl);
    assert(text_of_lines(h.take(6)) =~= a + j1 + "\nsession_id: "@ + j2 + "\ncreated_at: "@ + j3
        + nl);
    assert(text_of_lines(h.take(7)) =~= a + j1 + "\nsession_id: "@ + j2 + "\ncreated_at: "@ + j3
        + "\nupdated_at: "@ + j4 + nl);
    assert(text_of_lines(h.take(8)) =~= a + j1 + "\nsession_id: "@ + j2 + "\ncreated_at: "@ + j3
        + "\nupdated_at: "@ + j4 + "\njournal_sequence: "@ + d1 + nl);
    assert(text_of_lines(h.take(9)) =~= a + j1 + "\nsession_id: "@ + j2 + "\ncreated_at: "@ + j3
        + "\nupdated_at: "@ + j4 + "\njournal_sequence: "@ + d1 + "\njournal_checksum: "@ + c1
        + nl);
    assert(text_of_lines(h) =~= a + j1 + "\nsession_id: "@ + j2 + "\ncreated_at: "@ + j3
        + "\nupdated_at: "@ + j4 + "\njournal_sequence: "@ + d1 + "\njournal_checksum: "@ + c1
        + "\n---\n"@);
}

/// Every line of the header is line-free.
proof fn lemma_transcript_header_line_free(owner: TranscriptOwner, replay: JournalReplay)
    ensures
        forall|j: int|
            0 <= j < transcript_header_lines(owner, replay).len() ==> line_free(
                #[trigger] transcript_header_lines(owner, replay)[j],
            ),
{
    let h = transcript_header_lines(owner, replay);
    reveal_strlit("---");
    reveal_strlit("schema_version: 1");
    reveal_strlit("document_type: \"transcript\"");
    reveal_strlit("project_id: ");
    reveal_strlit("session_id: ");
    reveal_strlit("created_at: ");
    reveal_strlit("updated_at: ");
    reveal_strlit("journal_sequence: ");
    reveal_strlit("journal_checksum: ");
    reveal_strlit("null");
    lemma_json_string_line_free(uuid_text_of(owner.project_id));
    lemma_json_string_line_free(uuid_text_of(owner.session_id));
    lemma_json_string_line_free(owner.created_at@);
    lemma_json_string_line_free(updated_at_of(owner, replay));
    lemma_decimal_line_free(replay.last_sequence as nat);
    match checksum_view(replay) {
        Some(c) => lemma_json_string_line_free(c),
        None => {},
    }
    assert forall|j: int| 0 <= j < h.len() implies line_free(#[trigger] h[j]) by {
        if j == 3 {
            lemma_line_free_concat("project_id: "@, json_string_text(uuid_text_of(owner.project_id)));
        } else if j == 4 {
            lemma_line_free_concat("session_id: "@, json_string_text(uuid_text_of(owner.session_id)));
        } else if j == 5 {
            lemma_line_free_concat("created_at: "@, json_string_text(owner.created_at@));
        } else if j == 6 {
            lemma_line_free_concat("updated_at: "@, json_string_text(updated_at_of(owner, replay)));
        } else if j == 7 {
            lemma_line_free_concat("journal_sequence: "@, decimal(replay.last_sequence as nat));
        } else if j == 8 {
            lemma_line_free_concat("journal_checksum: "@, json_optional_text(checksum_view(replay)));
        }
    }
}

/// The lines of a transcript whose segments are valid are its header lines,
/// and it holds no carriage return.
#[verifier::spinoff_prover]
proof fn lemma_transcript_lines(owner: TranscriptOwner, replay: JournalReplay)
    requires
        forall|k: int|
            0 <= k < replay.finalized_segments@.len() ==> (
            #[trigger] replay.finalized_segments@[k]).valid_spec(),
    ensures
        ({
            let s = transcript_text(owner, replay);
            let h = transcript_header_lines(owner, replay);
            &&& !s.contains('\r')
            &&& line_start(s, 9) < s.len()
            &&& forall|k: nat| k < 10 ==> text_line(s, k) == #[trigger] h[k as int]
        }),
{
    let s = transcript_text(owner, replay);
    let h = transcript_header_lines(owner, replay);
    let body = segment_sections(replay.finalized_segments@);
    lemma_transcript_header_is_lines(owner, replay);
    lemma_transcript_header_line_free(owner, replay);
    assert forall|k: nat| k < 10 implies text_line(s, k) == #[trigger] h[k as int] by {
        lemma_leading_lines_of_text(h, body, k);
    }
    lemma_leading_lines_of_text(h, body, 9);
    lemma_leading_lines_of_text(h, body, 10);
    assert(h.take(10) =~= h);
    assert(h.take(10).drop_last() =~= h.take(9));
    crate::persistence::lines::lemma_lines_of_text(h);
    lemma_sections_cr_free(replay.finalized_segments@);
    assert(!s.contains('\r')) by {
        if s.contains('\r') {
            let i = choose|i: int| 0 <= i < s.len() && s[i] == '\r';
            if i < text_of_lines(h).len() {
                assert(text_of_lines(h)[i] == '\r');
            } else {
                assert(body[i - text_of_lines(h).len()] == '\r');
            }
        }
    }
}

/// A rendered transcript's checkpoint reads back: its bytes decode to its
/// text, which has the canonical header frame; the sequence line parses to
/// the replay's last sequence, and the checksum line holds the JSON text of
/// its last checksum. Where the JSON reader gives that checksum back, the
/// checkpoint read is the replay's.
#[verifier::spinoff_prover]
#[verifier::rlimit(40)]
pub proof fn rendered_checkpoint_reads_back(owner: TranscriptOwner, replay: JournalReplay)
    requires
        forall|k: int|
            0 <= k < replay.finalized_segments@.len() ==> (
            #[trigger] replay.finalized_segments@[k]).valid_spec(),
        (replay.last_sequence == 0) == (replay.last_checksum is None),
        replay.last_checksum matches Some(c) ==> is_lower_hex_digest(c@),
    ensures
        ({
            let s = transcript_text(owner, replay);
            &&& vstd::utf8::valid_utf8(vstd::utf8::encode_utf8(s))
            &&& vstd::utf8::decode_utf8(vstd::utf8::encode_utf8(s)) == s
            &&& transcript_frame_ok(s)
            &&& parse_unsigned_spec(text_line(s, 7).skip(18), u64::MAX as nat) == Some(
                replay.last_sequence as nat,
            )
            &&& text_line(s, 8).skip(18) == json_optional_text(checksum_view(replay))
            &&& json_optional_string_value(json_optional_text(checksum_view(replay))) == Some(
                checksum_view(replay),
            ) ==> checkpoint_spec(s) == Some((replay.last_sequence as nat, checksum_view(replay)))
        }),
{
    let s = transcript_text(owner, replay);
    let h = transcript_header_lines(owner, replay);
    vstd::utf8::encode_utf8_valid_utf8(s);
    vstd::utf8::encode_utf8_decode_utf8(s);
    lemma_transcript_lines(owner, replay);
    assert(text_line(s, 0) == h[0]);
    assert(text_line(s, 1) == h[1]);
    assert(text_line(s, 2) == h[2]);
    assert(text_line(s, 3) == h[3]);
    assert(text_line(s, 4) == h[4]);
    assert(text_line(s, 5) == h[5]);
    assert(text_line(s, 6) == h[6]);
    assert(text_line(s, 7) == h[7]);
    assert(text_line(s, 8) == h[8]);
    assert(text_line(s, 9) == h[9]);
    reveal_strlit("project_id: ");
    reveal_strlit("session_id: ");
    reveal_strlit("created_at: ");
    reveal_strlit("updated_at: ");
    reveal_strlit("journal_sequence: ");
    reveal_strlit("journal_checksum: ");
    lemma_prefixed("project_id: "@, json_string_text(uuid_text_of(owner.project_id)));
    lemma_prefixed("session_id: "@, json_string_text(uuid_text_of(owner.session_id)));
    lemma_prefixed("created_at: "@, json_string_text(owner.created_at@));
    lemma_prefixed("updated_at: "@, json_string_text(updated_at_of(owner, replay)));
    lemma_prefixed("journal_sequence: "@, decimal(replay.last_sequence as nat));
    lemma_prefixed("journal_checksum: "@, json_optional_text(checksum_view(replay)));
    crate::text::lemma_parse_decimal(replay.last_sequence as nat, u64::MAX as nat);
}

} // verus!
