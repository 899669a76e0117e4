//! The `session.md` format: canonical YAML front matter whose values are
//! JSON flow scalars, in a fixed field order, with the start and end times
//! present only once the session has them.

use vstd::prelude::*;

use crate::codes::Code;
use crate::outside::{
    compact_json, compact_json_text, json_decode_str, json_string_text, json_string_value,
};
use crate::persistence::front_matter::{
    flow_text, json_value_wf, flow_values_stay_on_one_line, lemma_line_free_concat, render_yaml_flow,
    JsonValue,
};
use crate::persistence::lines::{
    crlf_normalize, crlf_text, lemma_lines_of_text, lemma_text_of_lines_append, line_free,
    lines_spec, normalize_crlf, split_lines, text_of_lines,
};
use crate::persistence::project_document::{
    field_lines, field_value, find_field, has_field, is_field_line, lemma_field_index_bounds,
    lemma_field_line, lemma_field_lines_as_lines, lemma_json_escape_plain,
    lemma_no_carriage_return, line_value, EncodedField,
};
use crate::persistence::session_store::{
    push_yaml_field, SessionStoreError, MAX_SESSION_DOCUMENT_BYTES,
};
use crate::text::{
    chars_equal, contains_chars, contains_seq, from_chars, push_str, slice_chars,
    starts_with_chars, to_chars, utf8_byte_len, utf8_count,
};

verus! {

/// Front-matter names and JSON names of the fields every session document
/// holds between `document_type` and the optional times.
pub open spec fn session_head_fields() -> Seq<(&'static str, &'static str)> {
    seq![
        ("id", "id"),
        ("project_id", "projectId"),
        ("folder_name", "folderName"),
        ("title", "title"),
        ("objective", "objective"),
        ("session_context", "sessionContext"),
        ("preset", "preset"),
        ("language", "language"),
        ("microphone", "microphone"),
        ("system_output", "systemOutput"),
        ("transcription_engine", "transcriptionEngine"),
        ("transcription_model_id", "transcriptionModelId"),
        ("llm_models", "llmModels"),
        ("retain_audio", "retainAudio"),
        ("state", "state"),
        ("channel_health", "channelHealth"),
        ("summary_status", "summaryStatus"),
        ("usage", "usage"),
        ("created_at", "createdAt"),
    ]
}

/// The fields that close every session document.
pub open spec fn session_tail_fields() -> Seq<(&'static str, &'static str)> {
    seq![("updated_at", "updatedAt"), ("revision", "revision")]
}

/// The `name: value` line of an optional time, when `object` holds one: a
/// time the session does not have is left out, never written as `null`.
pub open spec fn optional_line(
    object: Seq<(String, JsonValue)>,
    yaml_name: Seq<char>,
    json_name: Seq<char>,
) -> Seq<char> {
    if has_field(object, json_name) && !(field_value(object, json_name) matches JsonValue::Null) {
        yaml_name + seq![':', ' '] + flow_text(field_value(object, json_name)) + seq!['\n']
    } else {
        seq![]
    }
}

/// The canonical `session.md` of a session serialized as `object`.
pub open spec fn session_document_text(object: Seq<(String, JsonValue)>) -> Seq<char> {
    "---\nschema_version: "@ + flow_text(field_value(object, "schemaVersion"@))
        + "\ndocument_type: \"session\"\n"@ + field_lines(object, session_head_fields(), 19)
        + optional_line(object, "started_at"@, "startedAt"@) + optional_line(
        object,
        "ended_at"@,
        "endedAt"@,
    ) + field_lines(object, session_tail_fields(), 2) + "---\n"@
}

/// Every field the session document always holds is present in `object`.
pub open spec fn has_session_fields(object: Seq<(String, JsonValue)>) -> bool {
    &&& has_field(object, "schemaVersion"@)
    &&& forall|k: int| 0 <= k < 19 ==> has_field(object, #[trigger] session_head_fields()[k].1@)
    &&& forall|k: int| 0 <= k < 2 ==> has_field(object, #[trigger] session_tail_fields()[k].1@)
}

/// Appends the `name: value` line of each of `fields`, valued from `object`.
fn push_field_lines(
    document: &mut String,
    object: &Vec<(String, JsonValue)>,
    fields: &[(&'static str, &'static str)],
) -> (ok: bool)
    requires
        forall|k: int| 0 <= k < fields@.len() ==> has_field(object@, #[trigger] fields@[k].1@),
    ensures
        ok,
        final(document)@ == old(document)@ + field_lines(
            object@,
            fields@,
            fields@.len() as nat,
        ),
{
    let ghost head = document@;
    let n = fields.len();
    for k in 0..n
        invariant
            n == fields@.len(),
            forall|j: int| 0 <= j < fields@.len() ==> has_field(object@, #[trigger] fields@[j].1@),
            document@ == head + field_lines(object@, fields@, k as nat),
    {
        let (yaml_name, json_name) = fields[k];
        let index = find_field(object, json_name);
        proof {
            assert(has_field(object@, fields@[k as int].1@));
        }
        let value = match render_yaml_flow(&object[index].1) {
            Some(t) => t,
            None => return false,
        };
        push_yaml_field(document, yaml_name, value.as_str());
        proof {
            assert(document@ =~= head + field_lines(object@, fields@, (k + 1) as nat));
        }
    }
    true
}

/// Appends the line of an optional field when `object` holds it.
fn push_optional_line(
    document: &mut String,
    object: &Vec<(String, JsonValue)>,
    yaml_name: &'static str,
    json_name: &'static str,
) -> (ok: bool)
    ensures
        ok,
        final(document)@ == old(document)@ + optional_line(object@, yaml_name@, json_name@),
{
    let index = find_field(object, json_name);
    if index < object.len() {
        if let JsonValue::Null = &object[index].1 {
            return true;
        }
        let value = match render_yaml_flow(&object[index].1) {
            Some(t) => t,
            None => return false,
        };
        push_yaml_field(document, yaml_name, value.as_str());
    }
    true
}

/// Renders the canonical `session.md` front matter of a session serialized
/// as the JSON object `object`; a document over the size limit is refused.
pub fn render_session_document(object: &Vec<(String, JsonValue)>) -> (r: Result<
    String,
    SessionStoreError,
>)
    requires
        has_session_fields(object@),
    ensures
        r matches Ok(t) ==> t@ == session_document_text(object@) && utf8_count(t@)
            <= MAX_SESSION_DOCUMENT_BYTES,
        r is Ok <==> utf8_count(session_document_text(object@)) <= MAX_SESSION_DOCUMENT_BYTES,
        r matches Err(e) ==> e.code == Code::SessionSnapshotTooLarge,
{
    let head: [(&'static str, &'static str); 19] = [
        ("id", "id"),
        ("project_id", "projectId"),
        ("folder_name", "folderName"),
        ("title", "title"),
        ("objective", "objective"),
        ("session_context", "sessionContext"),
        ("preset", "preset"),
        ("language", "language"),
        ("microphone", "microphone"),
        ("system_output", "systemOutput"),
        ("transcription_engine", "transcriptionEngine"),
        ("transcription_model_id", "transcriptionModelId"),
        ("llm_models", "llmModels"),
        ("retain_audio", "retainAudio"),
        ("state", "state"),
        ("channel_health", "channelHealth"),
        ("summary_status", "summaryStatus"),
        ("usage", "usage"),
        ("created_at", "createdAt"),
    ];
    let tail: [(&'static str, &'static str); 2] = [("updated_at", "updatedAt"), ("revision", "revision")];
    assert(head@ =~= session_head_fields());
    assert(tail@ =~= session_tail_fields());
    let failed = SessionStoreError::new(Code::SessionSnapshotRenderFailed);
    let mut document = String::new();
    push_str(&mut document, "---\nschema_version: ");
    let schema_index = find_field(object, "schemaVersion");
    let schema = match render_yaml_flow(&object[schema_index].1) {
        Some(t) => t,
        None => return Err(failed),
    };
    push_str(&mut document, schema.as_str());
    push_str(&mut document, "\ndocument_type: \"session\"\n");
    if !push_field_lines(&mut document, object, &head) {
        return Err(failed);
    }
    if !push_optional_line(&mut document, object, "started_at", "startedAt") {
        return Err(failed);
    }
    if !push_optional_line(&mut document, object, "ended_at", "endedAt") {
        return Err(failed);
    }
    if !push_field_lines(&mut document, object, &tail) {
        return Err(failed);
    }
    push_str(&mut document, "---\n");
    let chars = to_chars(document.as_str());
    if utf8_byte_len(chars.as_slice()) as u64 > MAX_SESSION_DOCUMENT_BYTES {
        return Err(SessionStoreError::new(Code::SessionSnapshotTooLarge));
    }
    Ok(document)
}

/// Front-matter names and JSON names of the fixed lines after the opening
/// `---`: `schema_version`, `document_type`, then the head fields.
pub open spec fn session_parse_head() -> Seq<(&'static str, &'static str)> {
    seq![("schema_version", "schemaVersion"), ("document_type", "documentType")]
        + session_head_fields()
}

/// The document carries a start time: the line after the head names it.
pub open spec fn has_started_line(lines: Seq<Seq<char>>) -> bool {
    22 < lines.len() && is_field_line(lines[22], "started_at"@)
}

/// Index of the line after the head and the start time, if any.
pub open spec fn ended_index(lines: Seq<Seq<char>>) -> int {
    if has_started_line(lines) {
        23
    } else {
        22
    }
}

/// The document carries an end time.
pub open spec fn has_ended_line(lines: Seq<Seq<char>>) -> bool {
    ended_index(lines) < lines.len() && is_field_line(lines[ended_index(lines)], "ended_at"@)
}

/// Index of the `updated_at` line.
pub open spec fn tail_index(lines: Seq<Seq<char>>) -> int {
    if has_ended_line(lines) {
        ended_index(lines) + 1
    } else {
        ended_index(lines)
    }
}

/// The document has the canonical session shape: an opening `---`, the head
/// lines in order, optional `started_at` and `ended_at` lines, `updated_at`,
/// `revision` and a closing `---` as its last line, with LF or CRLF endings
/// and `document_type` equal to `"session"`.
pub open spec fn session_frame_ok(text: Seq<char>) -> bool {
    let norm = crlf_normalize(text);
    let lines = lines_spec(norm);
    let t = tail_index(lines);
    &&& !contains_seq(norm, seq!['\r'])
    &&& lines.len() == t + 3
    &&& lines[0] == "---"@
    &&& forall|k: int| 0 <= k < 21 ==> is_field_line(lines[k + 1], #[trigger] session_parse_head()[k].0@)
    &&& is_field_line(lines[t], "updated_at"@)
    &&& is_field_line(lines[t + 1], "revision"@)
    &&& lines[t + 2] == "---"@
    &&& json_string_value(line_value(lines[2], "document_type"@)) == Some("session"@)
}

/// JSON name and encoded value of each field a well-shaped document holds,
/// in document order, `documentType` excepted.
pub open spec fn session_encoded_fields(lines: Seq<Seq<char>>) -> Seq<(Seq<char>, Seq<char>)> {
    let t = tail_index(lines);
    seq![("schemaVersion"@, line_value(lines[1], "schema_version"@))] + Seq::new(
        19,
        |k: int| (session_head_fields()[k].1@, line_value(lines[k + 3], session_head_fields()[k].0@)),
    ) + (if has_started_line(lines) {
        seq![("startedAt"@, line_value(lines[22], "started_at"@))]
    } else {
        seq![]
    }) + (if has_ended_line(lines) {
        seq![("endedAt"@, line_value(lines[ended_index(lines)], "ended_at"@))]
    } else {
        seq![]
    }) + seq![
        ("updatedAt"@, line_value(lines[t], "updated_at"@)),
        ("revision"@, line_value(lines[t + 1], "revision"@)),
    ]
}

/// A start or end time is written only when the session has one.
pub open spec fn optional_time(json_name: Seq<char>) -> bool {
    json_name == "startedAt"@ || json_name == "endedAt"@
}

/// Every value a well-shaped session document holds is JSON text, and no
/// start or end time is `null`.
pub open spec fn session_values_json(text: Seq<char>) -> bool {
    let fields = session_encoded_fields(lines_spec(crlf_normalize(text)));
    forall|k: int|
        0 <= k < fields.len() ==> (#[trigger] compact_json_text(fields[k].1)) is Some && (
        optional_time(fields[k].0) ==> compact_json_text(fields[k].1) != Some("null"@))
}

/// The pairs of JSON name and encoded value of `fields`.
pub open spec fn encoded_pairs(fields: Seq<EncodedField>) -> Seq<(Seq<char>, Seq<char>)> {
    fields.map_values(|f: EncodedField| (f.json_name@, f.encoded@))
}

/// The session holds the optional time `json_name`.
pub open spec fn time_present(object: Seq<(String, JsonValue)>, json_name: Seq<char>) -> bool {
    has_field(object, json_name) && !(field_value(object, json_name) matches JsonValue::Null)
}

/// The line of an optional time, when the session holds it.
pub open spec fn time_lines(
    object: Seq<(String, JsonValue)>,
    yaml_name: Seq<char>,
    json_name: Seq<char>,
) -> Seq<Seq<char>> {
    if time_present(object, json_name) {
        seq![yaml_name + seq![':', ' '] + flow_text(field_value(object, json_name))]
    } else {
        seq![]
    }
}

/// The name and rendered value of an optional time, when the session holds it.
pub open spec fn time_pairs(object: Seq<(String, JsonValue)>, json_name: Seq<char>) -> Seq<
    (Seq<char>, Seq<char>),
> {
    if time_present(object, json_name) {
        seq![(json_name, flow_text(field_value(object, json_name)))]
    } else {
        seq![]
    }
}

/// The `name: value` line of field `k` of `fields`.
pub open spec fn named_line(
    object: Seq<(String, JsonValue)>,
    fields: Seq<(&'static str, &'static str)>,
    k: int,
) -> Seq<char> {
    fields[k].0@ + seq![':', ' '] + flow_text(field_value(object, fields[k].1@))
}

/// The JSON name and rendered value of field `k` of `fields`.
pub open spec fn named_pair(
    object: Seq<(String, JsonValue)>,
    fields: Seq<(&'static str, &'static str)>,
    k: int,
) -> (Seq<char>, Seq<char>) {
    (fields[k].1@, flow_text(field_value(object, fields[k].1@)))
}

/// Lines of the canonical session document of `object`.
pub open spec fn session_lines(object: Seq<(String, JsonValue)>) -> Seq<Seq<char>> {
    seq![
        "---"@,
        "schema_version: "@ + flow_text(field_value(object, "schemaVersion"@)),
        "document_type: \"session\""@,
    ] + Seq::new(19, |k: int| named_line(object, session_head_fields(), k)) + time_lines(
        object,
        "started_at"@,
        "startedAt"@,
    ) + time_lines(object, "ended_at"@, "endedAt"@) + Seq::new(
        2,
        |k: int| named_line(object, session_tail_fields(), k),
    ) + seq!["---"@]
}

/// What a session document written for `object` holds, field by field: the
/// JSON name and the rendered value, in document order.
pub open spec fn session_written_fields(object: Seq<(String, JsonValue)>) -> Seq<
    (Seq<char>, Seq<char>),
> {
    seq![("schemaVersion"@, flow_text(field_value(object, "schemaVersion"@)))] + Seq::new(
        19,
        |k: int| named_pair(object, session_head_fields(), k),
    ) + time_pairs(object, "startedAt"@) + time_pairs(object, "endedAt"@) + Seq::new(
        2,
        |k: int| named_pair(object, session_tail_fields(), k),
    )
}

proof fn lemma_session_names_line_free()
    ensures
        forall|j: int| 0 <= j < 19 ==> line_free(#[trigger] session_head_fields()[j].0@),
        forall|j: int| 0 <= j < 2 ==> line_free(#[trigger] session_tail_fields()[j].0@),
{
    reveal_strlit("id");
    reveal_strlit("project_id");
    reveal_strlit("folder_name");
    reveal_strlit("title");
    reveal_strlit("objective");
    reveal_strlit("session_context");
    reveal_strlit("preset");
    reveal_strlit("language");
    reveal_strlit("microphone");
    reveal_strlit("system_output");
    reveal_strlit("transcription_engine");
    reveal_strlit("transcription_model_id");
    reveal_strlit("llm_models");
    reveal_strlit("retain_audio");
    reveal_strlit("state");
    reveal_strlit("channel_health");
    reveal_strlit("summary_status");
    reveal_strlit("usage");
    reveal_strlit("created_at");
    reveal_strlit("updated_at");
    reveal_strlit("revision");
    let h = session_head_fields();
    assert forall|j: int| 0 <= j < 19 implies line_free(#[trigger] h[j].0@) by {
        if j == 0 {
        } else if j == 1 {
        } else if j == 2 {
        } else if j == 3 {
        } else if j == 4 {
        } else if j == 5 {
        } else if j == 6 {
        } else if j == 7 {
        } else if j == 8 {
        } else if j == 9 {
        } else if j == 10 {
        } else if j == 11 {
        } else if j == 12 {
        } else if j == 13 {
        } else if j == 14 {
        } else if j == 15 {
        } else if j == 16 {
        } else if j == 17 {
        } else {
        }
    }
    let t = session_tail_fields();
    assert forall|j: int| 0 <= j < 2 implies line_free(#[trigger] t[j].0@) by {
        if j == 0 {
        } else {
        }
    }
}

/// A line that starts with another character than `name` is no field line
/// of `name`.
proof fn lemma_not_field_line(line: Seq<char>, name: Seq<char>)
    requires
        line.len() > 0,
        name.len() > 0,
        line[0] != name[0],
    ensures
        !is_field_line(line, name),
{
    if is_field_line(line, name) {
        assert(line.subrange(0, name.len() as int + 2)[0] == (name + seq![':', ' '])[0]);
    }
}

/// Every line of a named field is line-free and reads back as its value.
proof fn lemma_named_lines(
    object: Seq<(String, JsonValue)>,
    fields: Seq<(&'static str, &'static str)>,
    n: int,
)
    requires
        0 <= n <= fields.len(),
        forall|k: int| 0 <= k < n ==> has_field(object, #[trigger] fields[k].1@),
        forall|k: int| 0 <= k < n ==> line_free(#[trigger] fields[k].0@),
        forall|k: int| 0 <= k < object.len() ==> json_value_wf(#[trigger] object[k].1),
    ensures
        forall|k: int| 0 <= k < n ==> line_free(#[trigger] named_line(object, fields, k)),
        forall|k: int|
            0 <= k < n ==> is_field_line(#[trigger] named_line(object, fields, k), fields[k].0@)
                && line_value(named_line(object, fields, k), fields[k].0@) == named_pair(
                object,
                fields,
                k,
            ).1,
{
    assert forall|k: int| 0 <= k < n implies line_free(#[trigger] named_line(object, fields, k))
        && is_field_line(named_line(object, fields, k), fields[k].0@) && line_value(
        named_line(object, fields, k),
        fields[k].0@,
    ) == named_pair(object, fields, k).1 by {
        assert(has_field(object, fields[k].1@));
        assert(line_free(fields[k].0@));
        lemma_field_index_bounds(object, fields[k].1@, 0);
        let v = flow_text(field_value(object, fields[k].1@));
        flow_values_stay_on_one_line(field_value(object, fields[k].1@));
        lemma_line_free_concat(fields[k].0@, seq![':', ' ']);
        lemma_line_free_concat(fields[k].0@ + seq![':', ' '], v);
        lemma_field_line(fields[k].0@, v);
    }
}

/// The session document is the text of its lines.
#[verifier::rlimit(40)]
proof fn lemma_session_text_is_lines(object: Seq<(String, JsonValue)>)
    ensures
        session_document_text(object) == text_of_lines(session_lines(object)),
{
    let text = session_document_text(object);
    let lines = session_lines(object);
    let head = seq![
        "---"@,
        "schema_version: "@ + flow_text(field_value(object, "schemaVersion"@)),
        "document_type: \"session\""@,
    ];
    let fh = |k: int| named_line(object, session_head_fields(), k);
    let ft = |k: int| named_line(object, session_tail_fields(), k);
    let body = Seq::new(19, fh);
    let started = time_lines(object, "started_at"@, "startedAt"@);
    let ended = time_lines(object, "ended_at"@, "endedAt"@);
    let tail = Seq::new(2, ft);
    reveal_strlit("---");
    reveal_strlit("---\n");
    reveal_strlit("schema_version: ");
    reveal_strlit("---\nschema_version: ");
    reveal_strlit("document_type: \"session\"");
    reveal_strlit("\ndocument_type: \"session\"\n");
    reveal_strlit("started_at");
    reveal_strlit("ended_at");
    lemma_field_lines_as_lines(object, session_head_fields(), 19);
    lemma_field_lines_as_lines(object, session_tail_fields(), 2);
    assert(Seq::new(19, fh) =~= Seq::new(
        19,
        |k: int|
            session_head_fields()[k].0@ + seq![':', ' '] + flow_text(
                field_value(object, session_head_fields()[k].1@),
            ),
    ));
    assert(Seq::new(2, ft) =~= Seq::new(
        2,
        |k: int|
            session_tail_fields()[k].0@ + seq![':', ' '] + flow_text(
                field_value(object, session_tail_fields()[k].1@),
            ),
    ));
    assert(text_of_lines(Seq::<Seq<char>>::empty()) =~= Seq::<char>::empty());
    assert(text_of_lines(started) =~= optional_line(object, "started_at"@, "startedAt"@)) by {
        if time_present(object, "startedAt"@) {
            assert(started.drop_last() =~= Seq::<Seq<char>>::empty());
        }
    }
    assert(text_of_lines(ended) =~= optional_line(object, "ended_at"@, "endedAt"@)) by {
        if time_present(object, "endedAt"@) {
            assert(ended.drop_last() =~= Seq::<Seq<char>>::empty());
        }
    }
    lemma_text_of_lines_append(head, body);
    lemma_text_of_lines_append(head + body, started);
    lemma_text_of_lines_append(head + body + started, ended);
    lemma_text_of_lines_append(head + body + started + ended, tail);
    lemma_text_of_lines_append(head + body + started + ended + tail, seq!["---"@]);
    let h1 = seq![head[0]];
    let h2 = seq![head[0], head[1]];
    assert(h1.drop_last() =~= Seq::<Seq<char>>::empty());
    assert(text_of_lines(h1) =~= head[0] + seq!['\n']);
    assert(h2.drop_last() =~= h1);
    assert(text_of_lines(h2) =~= head[0] + seq!['\n'] + head[1] + seq!['\n']);
    assert(head.drop_last() =~= h2);
    assert(seq!["---"@].drop_last() =~= Seq::<Seq<char>>::empty());
    assert(text_of_lines(seq!["---"@]) =~= "---\n"@);
    assert(text =~= text_of_lines(lines));
}

/// Every line of the session document is free of line breaks.
proof fn lemma_session_lines_line_free(object: Seq<(String, JsonValue)>)
    requires
        has_session_fields(object),
        forall|k: int| 0 <= k < object.len() ==> json_value_wf(#[trigger] object[k].1),
    ensures
        forall|k: int|
            0 <= k < session_lines(object).len() ==> line_free(#[trigger] session_lines(object)[k]),
{
    let lines = session_lines(object);
    let fh = |k: int| named_line(object, session_head_fields(), k);
    reveal_strlit("---");
    reveal_strlit("schema_version: ");
    reveal_strlit("document_type: \"session\"");
    reveal_strlit("started_at");
    reveal_strlit("ended_at");
    lemma_session_names_line_free();
    lemma_named_lines(object, session_head_fields(), 19);
    lemma_named_lines(object, session_tail_fields(), 2);
    lemma_field_index_bounds(object, "schemaVersion"@, 0);
    flow_values_stay_on_one_line(field_value(object, "schemaVersion"@));
    lemma_line_free_concat("schema_version: "@, flow_text(field_value(object, "schemaVersion"@)));
    if time_present(object, "startedAt"@) {
        lemma_field_index_bounds(object, "startedAt"@, 0);
        flow_values_stay_on_one_line(field_value(object, "startedAt"@));
        lemma_line_free_concat("started_at"@, seq![':', ' ']);
        lemma_line_free_concat("started_at"@ + seq![':', ' '], flow_text(field_value(object, "startedAt"@)));
    }
    if time_present(object, "endedAt"@) {
        lemma_field_index_bounds(object, "endedAt"@, 0);
        flow_values_stay_on_one_line(field_value(object, "endedAt"@));
        lemma_line_free_concat("ended_at"@, seq![':', ' ']);
        lemma_line_free_concat("ended_at"@ + seq![':', ' '], flow_text(field_value(object, "endedAt"@)));
    }
    assert forall|k: int| 0 <= k < lines.len() implies line_free(#[trigger] lines[k]) by {
        if 3 <= k < 22 {
            assert(lines[k] == fh(k - 3));
        }
    }
}

/// Where the optional times and the tail stand among the session lines.
proof fn lemma_session_line_positions(object: Seq<(String, JsonValue)>)
    ensures
        ({
            let lines = session_lines(object);
            let s = if time_present(object, "startedAt"@) { 1int } else { 0int };
            let e = if time_present(object, "endedAt"@) { 1int } else { 0int };
            &&& lines.len() == 25 + s + e
            &&& has_started_line(lines) == time_present(object, "startedAt"@)
            &&& has_ended_line(lines) == time_present(object, "endedAt"@)
            &&& ended_index(lines) == 22 + s
            &&& tail_index(lines) == 22 + s + e
            &&& lines[22 + s + e] == named_line(object, session_tail_fields(), 0)
            &&& lines[23 + s + e] == named_line(object, session_tail_fields(), 1)
            &&& lines[24 + s + e] == "---"@
            &&& time_present(object, "startedAt"@) ==> lines[22] == "started_at"@ + seq![':', ' ']
                + flow_text(field_value(object, "startedAt"@))
            &&& time_present(object, "endedAt"@) ==> lines[22 + s] == "ended_at"@ + seq![':', ' ']
                + flow_text(field_value(object, "endedAt"@))
        }),
{
    let lines = session_lines(object);
    let ft = |k: int| named_line(object, session_tail_fields(), k);
    let s = if time_present(object, "startedAt"@) { 1int } else { 0int };
    let e = if time_present(object, "endedAt"@) { 1int } else { 0int };
    let sv = flow_text(field_value(object, "startedAt"@));
    let ev = flow_text(field_value(object, "endedAt"@));
    reveal_strlit("started_at");
    reveal_strlit("ended_at");
    reveal_strlit("updated_at");
    assert(lines.len() == 25 + s + e);
    assert(lines[22 + s + e] == ft(0));
    assert(lines[23 + s + e] == ft(1));
    assert(lines[24 + s + e] == "---"@);
    assert(ft(0)[0] == 'u');
    if time_present(object, "startedAt"@) {
        assert(lines[22] == "started_at"@ + seq![':', ' '] + sv);
        lemma_field_line("started_at"@, sv);
    } else if time_present(object, "endedAt"@) {
        assert(lines[22] == "ended_at"@ + seq![':', ' '] + ev);
        lemma_not_field_line(lines[22], "started_at"@);
    } else {
        assert(lines[22] == ft(0));
        lemma_not_field_line(lines[22], "started_at"@);
    }
    assert(has_started_line(lines) == time_present(object, "startedAt"@));
    assert(ended_index(lines) == 22 + s);
    if time_present(object, "endedAt"@) {
        assert(lines[22 + s] == "ended_at"@ + seq![':', ' '] + ev);
        lemma_field_line("ended_at"@, ev);
    } else {
        assert(lines[22 + s] == ft(0));
        lemma_not_field_line(lines[22 + s], "ended_at"@);
    }
}

/// The session lines read back as the fields written.
proof fn lemma_session_fields_read_back(object: Seq<(String, JsonValue)>)
    requires
        has_session_fields(object),
        forall|k: int| 0 <= k < object.len() ==> json_value_wf(#[trigger] object[k].1),
    ensures
        session_encoded_fields(session_lines(object)) == session_written_fields(object),
{
    let lines = session_lines(object);
    let fh = |k: int| named_line(object, session_head_fields(), k);
    lemma_session_line_positions(object);
    lemma_session_names_line_free();
    lemma_named_lines(object, session_head_fields(), 19);
    lemma_named_lines(object, session_tail_fields(), 2);
    let schema = flow_text(field_value(object, "schemaVersion"@));
    reveal_strlit("schema_version");
    reveal_strlit("schema_version: ");
    reveal_strlit("started_at");
    reveal_strlit("startedAt");
    reveal_strlit("ended_at");
    reveal_strlit("endedAt");
    assert("schema_version: "@ + schema =~= "schema_version"@ + seq![':', ' '] + schema);
    lemma_field_line("schema_version"@, schema);
    if time_present(object, "startedAt"@) {
        lemma_field_line("started_at"@, flow_text(field_value(object, "startedAt"@)));
    }
    if time_present(object, "endedAt"@) {
        lemma_field_line("ended_at"@, flow_text(field_value(object, "endedAt"@)));
    }
    let got = session_encoded_fields(lines);
    let written = session_written_fields(object);
    assert(got.len() == written.len());
    assert forall|k: int| 0 <= k < got.len() implies #[trigger] got[k] == written[k] by {
        if 1 <= k < 20 {
            assert(lines[k + 2] == fh(k - 1));
        }
    }
    assert(got =~= written);
}

/// What reading a rendered session document finds. Its lines are the
/// canonical ones, with or without CRLF endings, and read back as every
/// field's JSON name with the flow text rendered for it, the start and end
/// times only when the session has them. When `serde_json` reads the
/// `document_type` string and every rendered value back, and a present time
/// does not read as `null`, the document passes every check of
/// `parse_session_document`, which then returns exactly these fields.
pub proof fn rendered_session_reads_back(object: Seq<(String, JsonValue)>)
    requires
        has_session_fields(object),
        forall|k: int| 0 <= k < object.len() ==> json_value_wf(#[trigger] object[k].1),
    ensures
        ({
            let text = session_document_text(object);
            let lines = lines_spec(crlf_normalize(text));
            let written = session_written_fields(object);
            &&& crlf_normalize(crlf_text(text)) == crlf_normalize(text)
            &&& lines == session_lines(object)
            &&& session_encoded_fields(lines) == written
            &&& json_string_value(json_string_text("session"@)) == Some("session"@)
                ==> session_frame_ok(text) && session_frame_ok(crlf_text(text))
            &&& (forall|k: int|
                0 <= k < written.len() ==> (#[trigger] compact_json_text(written[k].1)) is Some && (
                optional_time(written[k].0) ==> compact_json_text(written[k].1) != Some("null"@)))
                ==> session_values_json(text) && session_values_json(crlf_text(text))
        }),
{
    let text = session_document_text(object);
    let lines = session_lines(object);
    lemma_session_text_is_lines(object);
    lemma_session_lines_line_free(object);
    lemma_lines_of_text(lines);
    lemma_no_carriage_return(text);
    lemma_session_fields_read_back(object);
    lemma_session_line_positions(object);
    if json_string_value(json_string_text("session"@)) == Some("session"@) {
        let fh = |k: int| named_line(object, session_head_fields(), k);
        lemma_session_names_line_free();
        lemma_named_lines(object, session_head_fields(), 19);
        lemma_named_lines(object, session_tail_fields(), 2);
        reveal_strlit("---");
        reveal_strlit("schema_version");
        reveal_strlit("schema_version: ");
        reveal_strlit("document_type");
        reveal_strlit("document_type: \"session\"");
        reveal_strlit("session");
        reveal_strlit("updated_at");
        reveal_strlit("revision");
        let schema = flow_text(field_value(object, "schemaVersion"@));
        assert("schema_version: "@ + schema =~= "schema_version"@ + seq![':', ' '] + schema);
        lemma_field_line("schema_version"@, schema);
        lemma_json_escape_plain("session"@);
        assert("document_type: \"session\""@ =~= "document_type"@ + seq![':', ' ']
            + json_string_text("session"@));
        lemma_field_line("document_type"@, json_string_text("session"@));
        assert forall|k: int|
            0 <= k < 21 implies is_field_line(lines[k + 1], #[trigger] session_parse_head()[k].0@) by {
            if k >= 2 {
                assert(session_parse_head()[k] == session_head_fields()[k - 2]);
                assert(lines[k + 1] == fh(k - 2));
            }
        }
    }
}

/// The value of `line` when it is the `yaml_name: value` line.
fn field_line_value(line: &Vec<char>, yaml_name: &'static str) -> (r: Option<String>)
    ensures
        r is Some <==> is_field_line(line@, yaml_name@),
        r matches Some(v) ==> v@ == line_value(line@, yaml_name@),
{
    let mut prefix = to_chars(yaml_name);
    prefix.push(':');
    prefix.push(' ');
    proof {
        assert(prefix@ =~= yaml_name@ + seq![':', ' ']);
    }
    if !starts_with_chars(line.as_slice(), prefix.as_slice()) {
        return None;
    }
    let encoded = slice_chars(line.as_slice(), prefix.len(), line.len());
    proof {
        assert(encoded@ =~= line_value(line@, yaml_name@));
    }
    Some(from_chars(encoded.as_slice()))
}

/// Checks the canonical shape of `session.md` and that every value is JSON
/// text, and returns each field's JSON text by JSON name, in document order
/// and without `documentType`.
pub fn parse_session_document(text: &str) -> (r: Result<Vec<EncodedField>, SessionStoreError>)
    ensures
        r is Ok <==> session_frame_ok(text@) && session_values_json(text@),
        r matches Err(e) ==> e.code == Code::SessionSnapshotInvalid,
        r matches Ok(fields) ==> encoded_pairs(fields@) == session_encoded_fields(
            lines_spec(crlf_normalize(text@)),
        ),
{
    let invalid = SessionStoreError::new(Code::SessionSnapshotInvalid);
    let raw = to_chars(text);
    let norm = normalize_crlf(raw.as_slice());
    let cr = ['\r'];
    assert(cr@ =~= seq!['\r']);
    if contains_chars(norm.as_slice(), &cr) {
        return Err(invalid);
    }
    let lines = split_lines(norm.as_slice());
    let ghost sl = lines_spec(crlf_normalize(text@));
    assert(lines@.len() == sl.len());
    assert(forall|j: int| 0 <= j < sl.len() ==> (#[trigger] lines@[j])@ == sl[j]);
    if lines.len() < 25 {
        return Err(invalid);
    }
    let dashes = to_chars("---");
    if !chars_equal(lines[0].as_slice(), dashes.as_slice()) {
        return Err(invalid);
    }
    let names: [(&'static str, &'static str); 21] = [
        ("schema_version", "schemaVersion"),
        ("document_type", "documentType"),
        ("id", "id"),
        ("project_id", "projectId"),
        ("folder_name", "folderName"),
        ("title", "title"),
        ("objective", "objective"),
        ("session_context", "sessionContext"),
        ("preset", "preset"),
        ("language", "language"),
        ("microphone", "microphone"),
        ("system_output", "systemOutput"),
        ("transcription_engine", "transcriptionEngine"),
        ("transcription_model_id", "transcriptionModelId"),
        ("llm_models", "llmModels"),
        ("retain_audio", "retainAudio"),
        ("state", "state"),
        ("channel_health", "channelHealth"),
        ("summary_status", "summaryStatus"),
        ("usage", "usage"),
        ("created_at", "createdAt"),
    ];
    assert(names@ =~= session_parse_head());
    let mut out: Vec<EncodedField> = Vec::new();
    let mut document_type_ok = false;
    for k in 0..21
        invariant
            names@ == session_parse_head(),
            invalid.code == Code::SessionSnapshotInvalid,
            sl == lines_spec(crlf_normalize(text@)),
            lines@.len() == sl.len(),
            sl.len() >= 25,
            forall|j: int| 0 <= j < sl.len() ==> (#[trigger] lines@[j])@ == sl[j],
            forall|j: int| 0 <= j < k ==> is_field_line(sl[j + 1], #[trigger] session_parse_head()[j].0@),
            k >= 2 ==> document_type_ok == (json_string_value(line_value(sl[2], "document_type"@))
                == Some("session"@)),
            k >= 2 ==> out@.len() == k - 1,
            k < 2 ==> out@.len() == k,
            k >= 1 ==> out@[0].json_name@ == "schemaVersion"@ && out@[0].encoded@ == line_value(
                sl[1],
                "schema_version"@,
            ),
            forall|m: int|
                1 <= m < k - 1 ==> (#[trigger] out@[m]).json_name@ == session_parse_head()[m + 1].1@
                    && out@[m].encoded@ == line_value(sl[m + 2], session_parse_head()[m + 1].0@),
    {
        let (yaml_name, json_name) = names[k];
        proof {
            assert(names@[k as int].0 == session_parse_head()[k as int].0);
        }
        let encoded = match field_line_value(&lines[k + 1], yaml_name) {
            Some(v) => v,
            None => return Err(invalid),
        };
        if k == 1 {
            document_type_ok = match json_decode_str(encoded.as_str()) {
                Some(v) => {
                    let expected = to_chars("session");
                    let got = to_chars(v.as_str());
                    chars_equal(got.as_slice(), expected.as_slice())
                },
                None => false,
            };
        } else {
            out.push(EncodedField { json_name, encoded });
        }
    }
    let mut t: usize = 22;
    match field_line_value(&lines[22], "started_at") {
        Some(v) => {
            out.push(EncodedField { json_name: "startedAt", encoded: v });
            t = 23;
        },
        None => {},
    }
    let ghost after_started = out@;
    let mut ended = false;
    if t < lines.len() {
        match field_line_value(&lines[t], "ended_at") {
            Some(v) => {
                out.push(EncodedField { json_name: "endedAt", encoded: v });
                t = t + 1;
                ended = true;
            },
            None => {},
        }
    }
    proof {
        assert(has_ended_line(sl) == ended);
        assert(t == tail_index(sl));
    }
    if lines.len() != t + 3 {
        return Err(invalid);
    }
    let updated = match field_line_value(&lines[t], "updated_at") {
        Some(v) => v,
        None => return Err(invalid),
    };
    let revision = match field_line_value(&lines[t + 1], "revision") {
        Some(v) => v,
        None => return Err(invalid),
    };
    if !chars_equal(lines[t + 2].as_slice(), dashes.as_slice()) || !document_type_ok {
        return Err(invalid);
    }
    out.push(EncodedField { json_name: "updatedAt", encoded: updated });
    out.push(EncodedField { json_name: "revision", encoded: revision });
    proof {
        let expected = session_encoded_fields(sl);
        let got = encoded_pairs(out@);
        assert forall|m: int| 0 <= m < expected.len() implies got[m] == expected[m] by {
            if 1 <= m < 20 {
                assert(session_parse_head()[m + 1] == session_head_fields()[m - 1]);
                assert(out@[m].json_name@ == session_parse_head()[m + 1].1@);
            }
        }
        assert(got =~= expected);
    }
    let count = out.len();
    for m in 0..count
        invariant
            count == out@.len(),
            encoded_pairs(out@) == session_encoded_fields(sl),
            sl == lines_spec(crlf_normalize(text@)),
            invalid.code == Code::SessionSnapshotInvalid,
            forall|j: int|
                0 <= j < m ==> (#[trigger] compact_json_text(out@[j].encoded@)) is Some && (
                optional_time(out@[j].json_name@) ==> compact_json_text(out@[j].encoded@) != Some(
                    "null"@,
                )),
    {
        proof {
            assert(encoded_pairs(out@)[m as int] == (out@[m as int].json_name@, out@[m as int].encoded@));
        }
        let compact = match compact_json(out[m].encoded.as_str()) {
            Some(c) => c,
            None => {
                proof {
                    let fields = session_encoded_fields(sl);
                    assert(fields[m as int].1 == out@[m as int].encoded@);
                    assert(compact_json_text(fields[m as int].1) is None);
                }
                return Err(invalid);
            },
        };
        let name = to_chars(out[m].json_name);
        let started = to_chars("startedAt");
        let ended = to_chars("endedAt");
        let null = to_chars("null");
        let value = to_chars(compact.as_str());
        if (chars_equal(name.as_slice(), started.as_slice()) || chars_equal(
            name.as_slice(),
            ended.as_slice(),
        )) && chars_equal(value.as_slice(), null.as_slice()) {
            proof {
                let fields = session_encoded_fields(sl);
                assert(fields[m as int].1 == out@[m as int].encoded@);
                assert(fields[m as int].0 == out@[m as int].json_name@);
                assert(optional_time(fields[m as int].0));
                assert(compact_json_text(fields[m as int].1) == Some("null"@));
            }
            return Err(invalid);
        }
    }
    proof {
        assert forall|k: int| 0 <= k < session_encoded_fields(sl).len() implies (#[trigger] compact_json_text(
            session_encoded_fields(sl)[k].1,
        )) is Some && (optional_time(session_encoded_fields(sl)[k].0) ==> compact_json_text(
            session_encoded_fields(sl)[k].1,
        ) != Some("null"@)) by {
            assert(encoded_pairs(out@)[k] == (out@[k].json_name@, out@[k].encoded@));
        }
    }
    Ok(out)
}

} // verus!
