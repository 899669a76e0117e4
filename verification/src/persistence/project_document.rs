//! The `project.md` format: canonical YAML front matter whose values are
//! JSON flow scalars, in a fixed field order.

use vstd::prelude::*;

use crate::codes::Code;
use crate::outside::{
    compact_json, compact_json_text, json_decode_str, json_escape, json_escape_char,
    json_string_text, json_string_value,
};
use crate::persistence::front_matter::{
    flow_text, json_value_wf, flow_values_stay_on_one_line, lemma_line_free_concat, render_yaml_flow,
    JsonValue,
};
use crate::persistence::lines::{
    crlf_normalize, crlf_text, lemma_lines_of_text, lemma_text_of_lines_append, line_free,
    lines_spec, normalize_crlf, split_lines, text_of_lines,
};
use crate::persistence::project_store::ProjectStoreError;
use crate::text::{
    chars_equal, contains_seq, from_chars, occurs_at, push_char, push_chars, push_str, slice_chars,
    starts_with_chars, starts_with_seq, to_chars,
};

verus! {

/// Index of the first field of `object` named `name`, or `object.len()`.
pub open spec fn field_index(object: Seq<(String, JsonValue)>, name: Seq<char>, from: int) -> int
    decreases object.len() - from,
{
    if from < 0 || from >= object.len() {
        object.len() as int
    } else if object[from].0@ == name {
        from
    } else {
        field_index(object, name, from + 1)
    }
}

/// `object` holds a field named `name`.
pub open spec fn has_field(object: Seq<(String, JsonValue)>, name: Seq<char>) -> bool {
    field_index(object, name, 0) < object.len()
}

/// The value of the first field of `object` named `name`.
pub open spec fn field_value(object: Seq<(String, JsonValue)>, name: Seq<char>) -> JsonValue {
    object[field_index(object, name, 0)].1
}

pub proof fn lemma_field_index_bounds(object: Seq<(String, JsonValue)>, name: Seq<char>, from: int)
    requires
        0 <= from <= object.len(),
    ensures
        from <= field_index(object, name, from) <= object.len(),
    decreases object.len() - from,
{
    if from < object.len() && object[from].0@ != name {
        lemma_field_index_bounds(object, name, from + 1);
    }
}

/// Index of the first field named `name`.
pub fn find_field(object: &Vec<(String, JsonValue)>, name: &str) -> (r: usize)
    ensures
        r == field_index(object@, name@, 0),
{
    let target = to_chars(name);
    let n = object.len();
    let mut i: usize = 0;
    while i < n
        invariant
            i <= n,
            n == object@.len(),
            target@ == name@,
            field_index(object@, name@, 0) == field_index(object@, name@, i as int),
        decreases n - i,
    {
        let key = to_chars(object[i].0.as_str());
        if chars_equal(key.as_slice(), target.as_slice()) {
            return i;
        }
        i = i + 1;
    }
    i
}

/// Front-matter names and JSON field names of a project, after
/// `schema_version` and `document_type`.
pub open spec fn project_fields() -> Seq<(&'static str, &'static str)> {
    seq![
        ("id", "id"),
        ("name", "name"),
        ("folder_name", "folderName"),
        ("description", "description"),
        ("global_context", "globalContext"),
        ("participants", "participants"),
        ("tags", "tags"),
        ("default_preset_id", "defaultPresetId"),
        ("default_transcription_model_id", "defaultTranscriptionModelId"),
        ("preferred_llm_models", "preferredLlmModels"),
        ("created_at", "createdAt"),
        ("updated_at", "updatedAt"),
        ("revision", "revision"),
    ]
}

/// `name: value\n` lines for the first `n` of `fields`.
pub open spec fn field_lines(
    object: Seq<(String, JsonValue)>,
    fields: Seq<(&'static str, &'static str)>,
    n: nat,
) -> Seq<char>
    decreases n,
{
    if n == 0 || n > fields.len() {
        seq![]
    } else {
        field_lines(object, fields, (n - 1) as nat) + fields[n - 1].0@ + seq![':', ' '] + flow_text(
            field_value(object, fields[n - 1].1@),
        ) + seq!['\n']
    }
}

/// The canonical `project.md` of a project serialized as `object`.
pub open spec fn project_document_text(object: Seq<(String, JsonValue)>) -> Seq<char> {
    "---\nschema_version: "@ + flow_text(field_value(object, "schemaVersion"@))
        + "\ndocument_type: \"project\"\n"@ + field_lines(object, project_fields(), 13) + "---\n"@
}

/// Every field the project document needs is present in `object`.
pub open spec fn has_project_fields(object: Seq<(String, JsonValue)>) -> bool {
    &&& has_field(object, "schemaVersion"@)
    &&& forall|k: int| 0 <= k < 13 ==> has_field(object, #[trigger] project_fields()[k].1@)
}

/// Renders the canonical `project.md` front matter of a project serialized as
/// the JSON object `object`; every such object renders.
pub fn render_project_document(object: &Vec<(String, JsonValue)>) -> (r: Result<
    String,
    ProjectStoreError,
>)
    requires
        has_project_fields(object@),
    ensures
        r is Ok,
        r matches Ok(t) ==> t@ == project_document_text(object@),
{
    let fields: [(&'static str, &'static str); 13] = [
        ("id", "id"),
        ("name", "name"),
        ("folder_name", "folderName"),
        ("description", "description"),
        ("global_context", "globalContext"),
        ("participants", "participants"),
        ("tags", "tags"),
        ("default_preset_id", "defaultPresetId"),
        ("default_transcription_model_id", "defaultTranscriptionModelId"),
        ("preferred_llm_models", "preferredLlmModels"),
        ("created_at", "createdAt"),
        ("updated_at", "updatedAt"),
        ("revision", "revision"),
    ];
    assert(fields@ =~= project_fields());
    let mut document = String::new();
    push_str(&mut document, "---\nschema_version: ");
    let schema_index = find_field(object, "schemaVersion");
    let schema = match render_yaml_flow(&object[schema_index].1) {
        Some(t) => t,
        None => return Err(ProjectStoreError::new(Code::ProjectSnapshotRenderFailed)),
    };
    push_str(&mut document, schema.as_str());
    push_str(&mut document, "\ndocument_type: \"project\"\n");
    let ghost head = document@;
    for k in 0..13
        invariant
            fields@ == project_fields(),
            has_project_fields(object@),
            document@ == head + field_lines(object@, project_fields(), k as nat),
    {
        let (yaml_name, json_name) = fields[k];
        let index = find_field(object, json_name);
        proof {
            assert(has_field(object@, project_fields()[k as int].1@));
        }
        let value = match render_yaml_flow(&object[index].1) {
            Some(t) => t,
            None => return Err(ProjectStoreError::new(Code::ProjectSnapshotRenderFailed)),
        };
        push_str(&mut document, yaml_name);
        push_str(&mut document, ": ");
        push_str(&mut document, value.as_str());
        push_char(&mut document, '\n');
        proof {
            reveal_strlit(": ");
            assert(document@ =~= head + field_lines(object@, project_fields(), (k + 1) as nat));
        }
    }
    push_str(&mut document, "---\n");
    Ok(document)
}

/// Front-matter names and JSON names of every line a project document holds,
/// in order.
pub open spec fn project_parse_fields() -> Seq<(&'static str, &'static str)> {
    seq![("schema_version", "schemaVersion"), ("document_type", "documentType")]
        + project_fields()
}

/// The encoded value of a `name: value` line.
pub open spec fn line_value(line: Seq<char>, name: Seq<char>) -> Seq<char> {
    line.skip(name.len() as int + 2)
}

/// The line is `name: value`.
pub open spec fn is_field_line(line: Seq<char>, name: Seq<char>) -> bool {
    starts_with_seq(line, name + seq![':', ' '])
}

/// A text without carriage returns contains no `"\r"` piece either.
pub proof fn lemma_no_carriage_return(s: Seq<char>)
    requires
        !s.contains('\r'),
    ensures
        !contains_seq(s, seq!['\r']),
{
    if contains_seq(s, seq!['\r']) {
        let i = choose|i: int| occurs_at(s, seq!['\r'], i);
        assert(s.subrange(i, i + 1)[0] == s[i]);
    }
}

/// Characters that JSON string text writes as they are.
pub proof fn lemma_json_escape_plain(s: Seq<char>)
    requires
        forall|i: int|
            0 <= i < s.len() ==> (#[trigger] s[i] as u32) >= 0x20 && s[i] != '"' && s[i] != '\\',
    ensures
        json_escape(s) == s,
    decreases s.len(),
{
    if s.len() > 0 {
        lemma_json_escape_plain(s.drop_last());
        let c = s.last();
        assert(c == s[s.len() - 1]);
        assert(json_escape_char(c) == seq![c]);
        assert(s.drop_last().push(c) =~= s);
    }
}

/// `name: value` is a field line of `name` holding `value`.
pub proof fn lemma_field_line(name: Seq<char>, value: Seq<char>)
    ensures
        is_field_line(name + seq![':', ' '] + value, name),
        line_value(name + seq![':', ' '] + value, name) == value,
{
    let line = name + seq![':', ' '] + value;
    assert(line.subrange(0, name.len() as int + 2) =~= name + seq![':', ' ']);
    assert(line.skip(name.len() as int + 2) =~= value);
}

proof fn lemma_parse_fields_tail(k: int)
    requires
        2 <= k < 15,
    ensures
        project_parse_fields()[k] == project_fields()[k - 2],
{
}

proof fn lemma_project_names_line_free()
    ensures
        forall|j: int| 0 <= j < 13 ==> line_free(#[trigger] project_fields()[j].0@),
{
    reveal_strlit("id");
    reveal_strlit("name");
    reveal_strlit("folder_name");
    reveal_strlit("description");
    reveal_strlit("global_context");
    reveal_strlit("participants");
    reveal_strlit("tags");
    reveal_strlit("default_preset_id");
    reveal_strlit("default_transcription_model_id");
    reveal_strlit("preferred_llm_models");
    reveal_strlit("created_at");
    reveal_strlit("updated_at");
    reveal_strlit("revision");
    let f = project_fields();
    assert forall|j: int| 0 <= j < 13 implies line_free(#[trigger] f[j].0@) by {
        if j == 0 {
        } else if j == 1 {
        } else if j == 2 {
        } else if j == 3 {
        } else if j == 4 {
        } else if j == 5 {
        } else if j == 6 {
        } else if j == 7 {
        } else if j == 8 {
        } else if j == 9 {
        } else if j == 10 {
        } else if j == 11 {
        } else {
        }
    }
}

/// Lines of the canonical project document of `object`.
pub open spec fn project_lines(object: Seq<(String, JsonValue)>) -> Seq<Seq<char>> {
    seq![
        "---"@,
        "schema_version: "@ + flow_text(field_value(object, "schemaVersion"@)),
        "document_type: \"project\""@,
    ] + Seq::new(
        13,
        |k: int|
            project_fields()[k].0@ + seq![':', ' '] + flow_text(
                field_value(object, project_fields()[k].1@),
            ),
    ) + seq!["---"@]
}

/// The lines of `fields` as `field_lines` writes them.
pub proof fn lemma_field_lines_as_lines(
    object: Seq<(String, JsonValue)>,
    fields: Seq<(&'static str, &'static str)>,
    n: nat,
)
    requires
        n <= fields.len(),
    ensures
        field_lines(object, fields, n) == text_of_lines(
            Seq::new(
                n,
                |k: int|
                    fields[k].0@ + seq![':', ' '] + flow_text(field_value(object, fields[k].1@)),
            ),
        ),
    decreases n,
{
    let f = |k: int| fields[k].0@ + seq![':', ' '] + flow_text(field_value(object, fields[k].1@));
    if n > 0 {
        lemma_field_lines_as_lines(object, fields, (n - 1) as nat);
        assert(Seq::new(n, f).drop_last() =~= Seq::new((n - 1) as nat, f));
        assert(Seq::new(n, f).last() == f(n - 1));
    } else {
        assert(Seq::new(0, f) =~= Seq::<Seq<char>>::empty());
    }
}

/// What reading a rendered project document finds. Its lines are the
/// canonical seventeen, with or without CRLF endings: the opening and
/// closing `---` and the field lines in order, each field line holding the
/// flow text rendered for that field. When `serde_json` reads the
/// `document_type` string and every rendered value back, the document
/// passes every check of `parse_project_document`, which then returns
/// exactly these values.
pub proof fn rendered_project_reads_back(object: Seq<(String, JsonValue)>)
    requires
        has_project_fields(object),
        forall|k: int| 0 <= k < object.len() ==> json_value_wf(#[trigger] object[k].1),
    ensures
        ({
            let text = project_document_text(object);
            let lines = lines_spec(crlf_normalize(text));
            &&& crlf_normalize(crlf_text(text)) == crlf_normalize(text)
            &&& !contains_seq(crlf_normalize(text), seq!['\r'])
            &&& lines.len() == 17
            &&& lines[0] == "---"@
            &&& lines[16] == "---"@
            &&& forall|k: int|
                0 <= k < 15 ==> is_field_line(lines[k + 1], #[trigger] project_parse_fields()[k].0@)
            &&& line_value(lines[1], "schema_version"@) == flow_text(
                field_value(object, "schemaVersion"@),
            )
            &&& line_value(lines[2], "document_type"@) == json_string_text("project"@)
            &&& forall|k: int|
                0 <= k < 13 ==> line_value(lines[k + 3], #[trigger] project_fields()[k].0@)
                    == flow_text(field_value(object, project_fields()[k].1@))
            &&& json_string_value(json_string_text("project"@)) == Some("project"@)
                ==> project_frame_ok(text) && project_frame_ok(crlf_text(text))
            &&& (compact_json_text(flow_text(field_value(object, "schemaVersion"@))) is Some
                && forall|k: int|
                0 <= k < 13 ==> (#[trigger] compact_json_text(
                    flow_text(field_value(object, project_fields()[k].1@)),
                )) is Some) ==> project_values_json(text) && project_values_json(crlf_text(text))
        }),
{
    let text = project_document_text(object);
    let lines = project_lines(object);
    let head = seq![
        "---"@,
        "schema_version: "@ + flow_text(field_value(object, "schemaVersion"@)),
        "document_type: \"project\""@,
    ];
    let f = |k: int|
        project_fields()[k].0@ + seq![':', ' '] + flow_text(
            field_value(object, project_fields()[k].1@),
        );
    let body = Seq::new(13, f);
    reveal_strlit("---");
    reveal_strlit("---\n");
    reveal_strlit("schema_version");
    reveal_strlit("schema_version: ");
    reveal_strlit("---\nschema_version: ");
    reveal_strlit("document_type");
    reveal_strlit("document_type: \"project\"");
    reveal_strlit("\ndocument_type: \"project\"\n");
    reveal_strlit("project");
    reveal_strlit("id");
    reveal_strlit("name");
    reveal_strlit("folder_name");
    reveal_strlit("description");
    reveal_strlit("global_context");
    reveal_strlit("participants");
    reveal_strlit("tags");
    reveal_strlit("default_preset_id");
    reveal_strlit("default_transcription_model_id");
    reveal_strlit("preferred_llm_models");
    reveal_strlit("created_at");
    reveal_strlit("updated_at");
    reveal_strlit("revision");
    // The document is the text of its lines.
    lemma_field_lines_as_lines(object, project_fields(), 13);
    lemma_text_of_lines_append(head, body);
    lemma_text_of_lines_append(head + body, seq!["---"@]);
    let h1 = seq![head[0]];
    let h2 = seq![head[0], head[1]];
    assert(h1.drop_last() =~= Seq::<Seq<char>>::empty());
    assert(text_of_lines(Seq::<Seq<char>>::empty()) =~= Seq::<char>::empty());
    assert(text_of_lines(h1) =~= head[0] + seq!['\n']);
    assert(h2.drop_last() =~= h1);
    assert(text_of_lines(h2) =~= head[0] + seq!['\n'] + head[1] + seq!['\n']);
    assert(head.drop_last() =~= h2);
    assert(text_of_lines(head) =~= "---"@ + seq!['\n'] + head[1] + seq!['\n'] + head[2] + seq![
        '\n',
    ]);
    assert(seq!["---"@].drop_last() =~= Seq::<Seq<char>>::empty());
    assert(text_of_lines(seq!["---"@]) =~= "---\n"@);
    assert(text =~= text_of_lines(lines));
    // Every line is free of line breaks.
    assert forall|k: int| 0 <= k < lines.len() implies line_free(#[trigger] lines[k]) by {
        if k == 1 {
            lemma_field_index_bounds(object, "schemaVersion"@, 0);
            flow_values_stay_on_one_line(field_value(object, "schemaVersion"@));
            lemma_line_free_concat("schema_version: "@, flow_text(field_value(object, "schemaVersion"@)));
        } else if 3 <= k < 16 {
            let j = k - 3;
            lemma_field_index_bounds(object, project_fields()[j].1@, 0);
            assert(has_field(object, project_fields()[j].1@));
            flow_values_stay_on_one_line(field_value(object, project_fields()[j].1@));
            lemma_project_names_line_free();
            assert(line_free(project_fields()[j].0@));
            lemma_line_free_concat(project_fields()[j].0@, seq![':', ' ']);
            lemma_line_free_concat(project_fields()[j].0@ + seq![':', ' '], flow_text(
                field_value(object, project_fields()[j].1@),
            ));
            assert(lines[k] == f(j));
        }
    }
    lemma_lines_of_text(lines);
    lemma_no_carriage_return(text);
    lemma_json_escape_plain("project"@);
    assert(crlf_normalize(crlf_text(text)) == text);
    let schema = flow_text(field_value(object, "schemaVersion"@));
    assert("schema_version: "@ + schema =~= "schema_version"@ + seq![':', ' '] + schema);
    lemma_field_line("schema_version"@, schema);
    assert("document_type: \"project\""@ =~= "document_type"@ + seq![':', ' '] + json_string_text(
        "project"@,
    ));
    lemma_field_line("document_type"@, json_string_text("project"@));
    assert forall|k: int|
        0 <= k < 15 implies is_field_line(lines[k + 1], #[trigger] project_parse_fields()[k].0@) by {
        if k >= 2 {
            lemma_parse_fields_tail(k);
            assert(lines[k + 1] == f(k - 2));
            lemma_field_line(project_fields()[k - 2].0@, flow_text(
                field_value(object, project_fields()[k - 2].1@),
            ));
        }
    }
    assert forall|k: int|
        0 <= k < 13 implies line_value(lines[k + 3], #[trigger] project_fields()[k].0@) == flow_text(
            field_value(object, project_fields()[k].1@),
        ) by {
        assert(lines[k + 3] == f(k));
        lemma_field_line(project_fields()[k].0@, flow_text(field_value(object, project_fields()[k].1@)));
    }
    if compact_json_text(flow_text(field_value(object, "schemaVersion"@))) is Some && forall|k: int|
        0 <= k < 13 ==> (#[trigger] compact_json_text(
            flow_text(field_value(object, project_fields()[k].1@)),
        )) is Some {
        assert forall|k: int|
            0 <= k < 15 && k != 1 implies (#[trigger] compact_json_text(
                line_value(lines[k + 1], project_parse_fields()[k].0@),
            )) is Some by {
            if k >= 2 {
                lemma_parse_fields_tail(k);
                assert(lines[k + 1] == f(k - 2));
                lemma_field_line(project_fields()[k - 2].0@, flow_text(
                    field_value(object, project_fields()[k - 2].1@),
                ));
            }
        }
    }
}

/// One front-matter value, still encoded as JSON text.
#[derive(Debug)]
pub struct EncodedField {
    pub json_name: &'static str,
    pub encoded: String,
}

/// The document's lines, when its shape is the canonical project shape.
pub open spec fn project_frame_ok(text: Seq<char>) -> bool {
    let norm = crlf_normalize(text);
    let lines = lines_spec(norm);
    &&& !contains_seq(norm, seq!['\r'])
    &&& lines.len() == 17
    &&& lines[0] == "---"@
    &&& lines[16] == "---"@
    &&& forall|k: int|
        0 <= k < 15 ==> is_field_line(lines[k + 1], #[trigger] project_parse_fields()[k].0@)
    &&& json_string_value(line_value(lines[2], "document_type"@)) == Some("project"@)
}

/// Every field value of a well-shaped project document is JSON text.
pub open spec fn project_values_json(text: Seq<char>) -> bool {
    let lines = lines_spec(crlf_normalize(text));
    forall|k: int|
        0 <= k < 15 && k != 1 ==> (#[trigger] compact_json_text(
            line_value(lines[k + 1], project_parse_fields()[k].0@),
        )) is Some
}

/// Checks the canonical shape of `project.md` and returns each field's JSON
/// text by JSON name, `documentType` excepted: exactly a `---` line, the fixed
/// field lines in order, and a closing `---` line, with LF or CRLF endings,
/// `document_type` equal to `"project"` and every value JSON text.
pub fn parse_project_document(text: &str) -> (r: Result<Vec<EncodedField>, ProjectStoreError>)
    ensures
        r is Ok <==> project_frame_ok(text@) && project_values_json(text@),
        r matches Err(e) ==> e.code == Code::ProjectSnapshotInvalid,
        r matches Ok(fields) ==> {
            let lines = lines_spec(crlf_normalize(text@));
            &&& fields@.len() == 14
            &&& fields@[0].json_name@ == "schemaVersion"@
            &&& fields@[0].encoded@ == line_value(lines[1], "schema_version"@)
            &&& forall|k: int|
                0 <= k < 13 ==> (#[trigger] fields@[k + 1]).json_name@ == project_fields()[k].1@
                    && fields@[k + 1].encoded@ == line_value(lines[k + 3], project_fields()[k].0@)
        },
{
    let raw = to_chars(text);
    let norm = normalize_crlf(raw.as_slice());
    let cr = ['\r'];
    assert(cr@ =~= seq!['\r']);
    if crate::text::contains_chars(norm.as_slice(), &cr) {
        return Err(ProjectStoreError::new(Code::ProjectSnapshotInvalid));
    }
    let lines = split_lines(norm.as_slice());
    if lines.len() != 17 {
        return Err(ProjectStoreError::new(Code::ProjectSnapshotInvalid));
    }
    let dashes = to_chars("---");
    if !chars_equal(lines[0].as_slice(), dashes.as_slice()) || !chars_equal(
        lines[16].as_slice(),
        dashes.as_slice(),
    ) {
        return Err(ProjectStoreError::new(Code::ProjectSnapshotInvalid));
    }
    let names: [(&'static str, &'static str); 15] = [
        ("schema_version", "schemaVersion"),
        ("document_type", "documentType"),
        ("id", "id"),
        ("name", "name"),
        ("folder_name", "folderName"),
        ("description", "description"),
        ("global_context", "globalContext"),
        ("participants", "participants"),
        ("tags", "tags"),
        ("default_preset_id", "defaultPresetId"),
        ("default_transcription_model_id", "defaultTranscriptionModelId"),
        ("preferred_llm_models", "preferredLlmModels"),
        ("created_at", "createdAt"),
        ("updated_at", "updatedAt"),
        ("revision", "revision"),
    ];
    assert(names@ =~= project_parse_fields());
    let ghost spec_lines = lines_spec(crlf_normalize(text@));
    let mut out: Vec<EncodedField> = Vec::new();
    let mut document_type_ok = false;
    for k in 0..15
        invariant
            names@ == project_parse_fields(),
            lines@.len() == 17,
            spec_lines == lines_spec(crlf_normalize(text@)),
            spec_lines.len() == 17,
            forall|j: int| 0 <= j < 17 ==> (#[trigger] lines@[j])@ == spec_lines[j],
            forall|j: int|
                0 <= j < k ==> is_field_line(spec_lines[j + 1], #[trigger] project_parse_fields()[j].0@),
            forall|j: int|
                0 <= j < k && j != 1 ==> (#[trigger] compact_json_text(
                    line_value(spec_lines[j + 1], project_parse_fields()[j].0@),
                )) is Some,
            k >= 2 ==> document_type_ok == (json_string_value(
                line_value(spec_lines[2], "document_type"@),
            ) == Some("project"@)),
            k >= 2 ==> out@.len() == k - 1,
            k < 2 ==> out@.len() == k,
            k >= 1 ==> out@[0].json_name@ == "schemaVersion"@ && out@[0].encoded@ == line_value(
                spec_lines[1],
                "schema_version"@,
            ),
            forall|m: int|
                1 <= m < k - 1 ==> (#[trigger] out@[m]).json_name@ == project_parse_fields()[m
                    + 1].1@ && out@[m].encoded@ == line_value(
                    spec_lines[m + 2],
                    project_parse_fields()[m + 1].0@,
                ),
    {
        let (yaml_name, json_name) = names[k];
        let line = &lines[k + 1];
        let mut prefix = to_chars(yaml_name);
        prefix.push(':');
        prefix.push(' ');
        proof {
            assert(prefix@ =~= yaml_name@ + seq![':', ' ']);
            assert(names@[k as int].0 == project_parse_fields()[k as int].0);
            assert(line@ == spec_lines[k + 1]);
        }
        if !starts_with_chars(line.as_slice(), prefix.as_slice()) {
            proof {
                assert(!is_field_line(spec_lines[k + 1], project_parse_fields()[k as int].0@));
            }
            return Err(ProjectStoreError::new(Code::ProjectSnapshotInvalid));
        }
        let encoded = slice_chars(line.as_slice(), prefix.len(), line.len());
        proof {
            assert(prefix@ =~= yaml_name@ + seq![':', ' ']);
            assert(encoded@ =~= line_value(spec_lines[k + 1], yaml_name@));
        }
        let encoded_text = from_chars(encoded.as_slice());
        if k == 1 {
            document_type_ok = match json_decode_str(encoded_text.as_str()) {
                Some(v) => {
                    let expected = to_chars("project");
                    let got = to_chars(v.as_str());
                    chars_equal(got.as_slice(), expected.as_slice())
                },
                None => false,
            };
        } else {
            if compact_json(encoded_text.as_str()).is_none() {
                return Err(ProjectStoreError::new(Code::ProjectSnapshotInvalid));
            }
            out.push(EncodedField { json_name, encoded: encoded_text });
        }
    }
    if !document_type_ok {
        return Err(ProjectStoreError::new(Code::ProjectSnapshotInvalid));
    }
    proof {
        assert forall|k: int|
            0 <= k < 13 implies (#[trigger] out@[k + 1]).json_name@ == project_fields()[k].1@
            && out@[k + 1].encoded@ == line_value(spec_lines[k + 3], project_fields()[k].0@) by {
            assert(project_parse_fields()[k + 2] == project_fields()[k]);
        }
    }
    Ok(out)
}

} // verus!
