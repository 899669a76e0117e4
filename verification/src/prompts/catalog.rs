//! The fixed prompt catalog: one versioned specification per purpose, with
//! its token ceilings, output schema and task instructions.

use vstd::prelude::*;

use crate::outside::{json_member_bool, json_member_boolean, json_member_str, json_member_string};
use crate::text::{chars_equal, to_chars};

verus! {

/// What a prompt is for.
#[derive(Debug, Clone, Copy, PartialEq, Eq, Structural)]
pub enum PromptPurpose {
    Insight,
    Summary,
    ManualQuestion,
}

/// What happens when a model's output does not match its schema.
#[derive(Debug, Clone, Copy, PartialEq, Eq, Structural)]
pub enum PromptFallbackStrategy {
    SingleJsonRepairThenFail,
}

/// One versioned prompt specification.
#[derive(Debug, Clone, Copy)]
pub struct PromptSpecification {
    pub id: &'static str,
    pub version: u16,
    pub purpose: PromptPurpose,
    pub variables: &'static [&'static str],
    pub approximate_request_token_limit: u32,
    pub maximum_output_tokens: u32,
    pub output_schema_id: &'static str,
    pub output_schema: &'static str,
    pub fallback_strategy: PromptFallbackStrategy,
    pub task_instructions: &'static str,
}

/// The request ceiling of each purpose, in tokens.
pub open spec fn request_token_ceiling(purpose: PromptPurpose) -> u32 {
    match purpose {
        PromptPurpose::Insight => 8_192,
        PromptPurpose::Summary => 16_384,
        PromptPurpose::ManualQuestion => 8_192,
    }
}

/// The output ceiling of each purpose, in tokens.
pub open spec fn output_token_ceiling(purpose: PromptPurpose) -> u32 {
    match purpose {
        PromptPurpose::Insight => 1_024,
        PromptPurpose::Summary => 4_096,
        PromptPurpose::ManualQuestion => 2_048,
    }
}

/// The identifier of each purpose's specification.
pub open spec fn specification_id(purpose: PromptPurpose) -> Seq<char> {
    match purpose {
        PromptPurpose::Insight => "kokorokoe.insight.recent"@,
        PromptPurpose::Summary => "kokorokoe.summary.session"@,
        PromptPurpose::ManualQuestion => "kokorokoe.manual_question.segment"@,
    }
}

/// The output schema identifier of each purpose.
pub open spec fn output_schema_id(purpose: PromptPurpose) -> Seq<char> {
    match purpose {
        PromptPurpose::Insight => "insight_batch_v1"@,
        PromptPurpose::Summary => "session_summary_v1"@,
        PromptPurpose::ManualQuestion => "manual_answer_v1"@,
    }
}


/// The output schema text of each purpose.
pub open spec fn output_schema_text(purpose: PromptPurpose) -> Seq<char> {
    match purpose {
        PromptPurpose::Insight => r#"{
  "type": "object",
  "additionalProperties": false,
  "required": ["insights"],
  "properties": {
    "insights": {
      "type": "array",
      "maxItems": 8,
      "items": {
        "type": "object",
        "additionalProperties": false,
        "required": ["type", "title", "content", "relatedSegmentIds"],
        "properties": {
          "type": {"enum": ["suggested_response", "follow_up_question", "clarification", "fact_or_number", "risk", "objection", "decision", "action_item", "contradiction", "unaddressed_topic"]},
          "title": {"type": "string", "maxLength": 160},
          "content": {"type": "string", "maxLength": 2000},
          "rationale": {"type": "string", "maxLength": 1000},
          "relatedSegmentIds": {"type": "array", "maxItems": 16, "items": {"type": "string", "format": "uuid"}},
          "confidence": {"type": "number", "minimum": 0, "maximum": 1}
        }
      }
    }
  }
}"#@,
        PromptPurpose::Summary => r#"{
  "type": "object",
  "additionalProperties": false,
  "required": ["executiveSummary", "mainTopics", "decisions", "actionItems", "risks", "openQuestions", "nextSteps"],
  "properties": {
    "executiveSummary": {"type": "string", "maxLength": 8000},
    "mainTopics": {"type": "array", "maxItems": 64, "items": {"type": "string", "maxLength": 1000}},
    "decisions": {"type": "array", "maxItems": 64, "items": {"type": "string", "maxLength": 2000}},
    "actionItems": {
      "type": "array",
      "maxItems": 64,
      "items": {
        "type": "object",
        "additionalProperties": false,
        "required": ["text", "relatedSegmentIds"],
        "properties": {
          "text": {"type": "string", "maxLength": 2000},
          "owner": {"type": "string", "maxLength": 256},
          "deadline": {"type": "string", "format": "date-time"},
          "relatedSegmentIds": {"type": "array", "maxItems": 16, "items": {"type": "string", "format": "uuid"}}
        }
      }
    },
    "risks": {"type": "array", "maxItems": 64, "items": {"type": "string", "maxLength": 2000}},
    "openQuestions": {"type": "array", "maxItems": 64, "items": {"type": "string", "maxLength": 2000}},
    "nextSteps": {"type": "array", "maxItems": 64, "items": {"type": "string", "maxLength": 2000}}
  }
}"#@,
        PromptPurpose::ManualQuestion => r#"{
  "type": "object",
  "additionalProperties": false,
  "required": ["answer", "relatedSegmentIds", "limitations"],
  "properties": {
    "answer": {"type": "string", "maxLength": 8000},
    "relatedSegmentIds": {"type": "array", "maxItems": 16, "items": {"type": "string", "format": "uuid"}},
    "limitations": {"type": "array", "maxItems": 16, "items": {"type": "string", "maxLength": 1000}}
  }
}"#@,
    }
}

/// The task instructions of each purpose.
pub open spec fn task_instructions_text(purpose: PromptPurpose) -> Seq<char> {
    match purpose {
        PromptPurpose::Insight => "Return only concise, non-duplicative insights of the requested types that are supported by the supplied transcript segments."@,
        PromptPurpose::Summary => "Return only a factual summary supported by the supplied transcript segments, preserving uncertainty and omitting invented decisions, owners, or deadlines."@,
        PromptPurpose::ManualQuestion => "Answer only the supplied question using the supplied transcript segments and session context; state limitations when the evidence is insufficient."@,
    }
}

/// The template variables of each purpose, in order.
pub open spec fn variables_of(purpose: PromptPurpose) -> Seq<Seq<char>> {
    match purpose {
        PromptPurpose::Insight => seq![
            "project"@,
            "session"@,
            "preset"@,
            "requestedInsightTypes"@,
            "transcriptSegments"@,
        ],
        PromptPurpose::Summary => seq![
            "project"@,
            "session"@,
            "preset"@,
            "summaryKind"@,
            "transcriptSegments"@,
        ],
        PromptPurpose::ManualQuestion => seq![
            "project"@,
            "session"@,
            "preset"@,
            "question"@,
            "selectedSegmentId"@,
            "transcriptSegments"@,
        ],
    }
}

/// The specification of `purpose` carries the catalog's fixed identity and
/// ceilings.
pub open spec fn specification_matches(s: PromptSpecification, purpose: PromptPurpose) -> bool {
    &&& s.purpose == purpose
    &&& s.version == 1
    &&& s.id@ == specification_id(purpose)
    &&& s.approximate_request_token_limit == request_token_ceiling(purpose)
    &&& s.maximum_output_tokens == output_token_ceiling(purpose)
    &&& s.output_schema_id@ == output_schema_id(purpose)
    &&& s.fallback_strategy == PromptFallbackStrategy::SingleJsonRepairThenFail
    &&& s.output_schema@ == output_schema_text(purpose)
    &&& s.task_instructions@ == task_instructions_text(purpose)
    &&& names_of(s.variables@) == variables_of(purpose)
}

/// The specification of one purpose.
pub fn prompt_specification(purpose: PromptPurpose) -> (r: PromptSpecification)
    ensures
        specification_matches(r, purpose),
{
    match purpose {
        PromptPurpose::Insight => {
            let variables: &'static [&'static str] = &[
                "project",
                "session",
                "preset",
                "requestedInsightTypes",
                "transcriptSegments",
            ];
            assert(variables@.len() == 5);
            assert(names_of(variables@) =~= variables_of(purpose));
            PromptSpecification {
                id: "kokorokoe.insight.recent",
                version: 1,
                purpose: PromptPurpose::Insight,
                variables,
                approximate_request_token_limit: 8_192,
                maximum_output_tokens: 1_024,
                output_schema_id: "insight_batch_v1",
                output_schema: r#"{
  "type": "object",
  "additionalProperties": false,
  "required": ["insights"],
  "properties": {
    "insights": {
      "type": "array",
      "maxItems": 8,
      "items": {
        "type": "object",
        "additionalProperties": false,
        "required": ["type", "title", "content", "relatedSegmentIds"],
        "properties": {
          "type": {"enum": ["suggested_response", "follow_up_question", "clarification", "fact_or_number", "risk", "objection", "decision", "action_item", "contradiction", "unaddressed_topic"]},
          "title": {"type": "string", "maxLength": 160},
          "content": {"type": "string", "maxLength": 2000},
          "rationale": {"type": "string", "maxLength": 1000},
          "relatedSegmentIds": {"type": "array", "maxItems": 16, "items": {"type": "string", "format": "uuid"}},
          "confidence": {"type": "number", "minimum": 0, "maximum": 1}
        }
      }
    }
  }
}"#,
                fallback_strategy: PromptFallbackStrategy::SingleJsonRepairThenFail,
                task_instructions: "Return only concise, non-duplicative insights of the requested types that are supported by the supplied transcript segments.",
            }
        },
        PromptPurpose::Summary => {
            let variables: &'static [&'static str] = &[
                "project",
                "session",
                "preset",
                "summaryKind",
                "transcriptSegments",
            ];
            assert(variables@.len() == 5);
            assert(names_of(variables@) =~= variables_of(purpose));
            PromptSpecification {
                id: "kokorokoe.summary.session",
                version: 1,
                purpose: PromptPurpose::Summary,
                variables,
                approximate_request_token_limit: 16_384,
                maximum_output_tokens: 4_096,
                output_schema_id: "session_summary_v1",
                output_schema: r#"{
  "type": "object",
  "additionalProperties": false,
  "required": ["executiveSummary", "mainTopics", "decisions", "actionItems", "risks", "openQuestions", "nextSteps"],
  "properties": {
    "executiveSummary": {"type": "string", "maxLength": 8000},
    "mainTopics": {"type": "array", "maxItems": 64, "items": {"type": "string", "maxLength": 1000}},
    "decisions": {"type": "array", "maxItems": 64, "items": {"type": "string", "maxLength": 2000}},
    "actionItems": {
      "type": "array",
      "maxItems": 64,
      "items": {
        "type": "object",
        "additionalProperties": false,
        "required": ["text", "relatedSegmentIds"],
        "properties": {
          "text": {"type": "string", "maxLength": 2000},
          "owner": {"type": "string", "maxLength": 256},
          "deadline": {"type": "string", "format": "date-time"},
          "relatedSegmentIds": {"type": "array", "maxItems": 16, "items": {"type": "string", "format": "uuid"}}
        }
      }
    },
    "risks": {"type": "array", "maxItems": 64, "items": {"type": "string", "maxLength": 2000}},
    "openQuestions": {"type": "array", "maxItems": 64, "items": {"type": "string", "maxLength": 2000}},
    "nextSteps": {"type": "array", "maxItems": 64, "items": {"type": "string", "maxLength": 2000}}
  }
}"#,
                fallback_strategy: PromptFallbackStrategy::SingleJsonRepairThenFail,
                task_instructions: "Return only a factual summary supported by the supplied transcript segments, preserving uncertainty and omitting invented decisions, owners, or deadlines.",
            }
        },
        PromptPurpose::ManualQuestion => {
            let variables: &'static [&'static str] = &[
                "project",
                "session",
                "preset",
                "question",
                "selectedSegmentId",
                "transcriptSegments",
            ];
            assert(variables@.len() == 6);
            assert(names_of(variables@) =~= variables_of(purpose));
            PromptSpecification {
                id: "kokorokoe.manual_question.segment",
                version: 1,
                purpose: PromptPurpose::ManualQuestion,
                variables,
                approximate_request_token_limit: 8_192,
                maximum_output_tokens: 2_048,
                output_schema_id: "manual_answer_v1",
                output_schema: r#"{
  "type": "object",
  "additionalProperties": false,
  "required": ["answer", "relatedSegmentIds", "limitations"],
  "properties": {
    "answer": {"type": "string", "maxLength": 8000},
    "relatedSegmentIds": {"type": "array", "maxItems": 16, "items": {"type": "string", "format": "uuid"}},
    "limitations": {"type": "array", "maxItems": 16, "items": {"type": "string", "maxLength": 1000}}
  }
}"#,
                fallback_strategy: PromptFallbackStrategy::SingleJsonRepairThenFail,
                task_instructions: "Answer only the supplied question using the supplied transcript segments and session context; state limitations when the evidence is insufficient.",
            }
        },
    }
}

/// The whole catalog, in its fixed order: insight, summary, manual question.
pub fn prompt_specifications() -> (r: [PromptSpecification; 3])
    ensures
        specification_matches(r[0], PromptPurpose::Insight),
        specification_matches(r[1], PromptPurpose::Summary),
        specification_matches(r[2], PromptPurpose::ManualQuestion),
{
    [
        prompt_specification(PromptPurpose::Insight),
        prompt_specification(PromptPurpose::Summary),
        prompt_specification(PromptPurpose::ManualQuestion),
    ]
}

/// Every purpose has exactly one specification with its own identifier,
/// a request ceiling of at least 1024 tokens, and an output ceiling that
/// leaves at least half of the request for input.
pub proof fn catalog_ceilings_and_identities_are_consistent(a: PromptPurpose, b: PromptPurpose)
    ensures
        request_token_ceiling(a) >= 1_024,
        output_token_ceiling(a) > 0,
        output_token_ceiling(a) <= request_token_ceiling(a) / 2,
        a != b ==> specification_id(a) != specification_id(b),
{
    reveal_strlit("kokorokoe.insight.recent");
    reveal_strlit("kokorokoe.summary.session");
    reveal_strlit("kokorokoe.manual_question.segment");
    if a != b {
        assert(specification_id(a).len() != specification_id(b).len() || specification_id(a)[10]
            != specification_id(b)[10]);
    }
}

/// A byte that may stand in a specification or schema identifier: an ASCII
/// lower-case letter or digit, `.`, `_` or `-`.
pub open spec fn identifier_byte(b: u8) -> bool {
    (0x61 <= b <= 0x7a) || (0x30 <= b <= 0x39) || b == 0x2e || b == 0x5f || b == 0x2d
}

/// Number of UTF-8 bytes of `s`.
pub open spec fn byte_len(s: Seq<char>) -> nat {
    vstd::utf8::encode_utf8(s).len()
}

/// A specification identifier: 1 to 128 bytes, each an identifier byte.
pub open spec fn identifier_ok(id: Seq<char>) -> bool {
    let b = vstd::utf8::encode_utf8(id);
    &&& 0 < b.len() <= 128
    &&& forall|i: int| 0 <= i < b.len() ==> identifier_byte(#[trigger] b[i])
}

/// Template variables: 1 to 16 names, each of 1 to 64 bytes, none twice.
pub open spec fn variables_ok(v: Seq<Seq<char>>) -> bool {
    &&& 0 < v.len() <= 16
    &&& forall|i: int| 0 <= i < v.len() ==> 0 < #[trigger] byte_len(v[i]) <= 64
    &&& forall|i: int, j: int| 0 <= j < i < v.len() ==> v[j] != v[i]
}

/// The texts of a list of names.
pub open spec fn names_of(v: Seq<&str>) -> Seq<Seq<char>> {
    v.map_values(|x: &str| x@)
}

/// An output schema is a JSON object schema that admits no other members.
pub open spec fn schema_ok(schema: Seq<char>) -> bool {
    &&& json_member_string(schema, "type"@) == Some(Some("object"@))
    &&& json_member_boolean(schema, "additionalProperties"@) == Some(Some(false))
}

/// The rules each catalog specification meets.
pub open spec fn specification_valid(s: PromptSpecification) -> bool {
    &&& identifier_ok(s.id@)
    &&& s.version != 0
    &&& variables_ok(names_of(s.variables@))
    &&& s.approximate_request_token_limit >= 1_024
    &&& s.maximum_output_tokens != 0
    &&& s.maximum_output_tokens <= s.approximate_request_token_limit / 2
    &&& 0 < byte_len(s.output_schema_id@) <= 128
    &&& 0 < byte_len(s.task_instructions@) <= 1_024
    &&& schema_ok(s.output_schema@)
}

/// A valid catalog: every specification meets the rules, no identifier and
/// no purpose occurs twice, and all three purposes are covered.
pub open spec fn catalog_valid(specs: Seq<PromptSpecification>) -> bool {
    &&& forall|i: int| 0 <= i < specs.len() ==> specification_valid(#[trigger] specs[i])
    &&& forall|i: int, j: int|
        0 <= j < i < specs.len() ==> specs[j].id@ != specs[i].id@ && specs[j].purpose
            != specs[i].purpose
    &&& specs.len() == 3
}

/// Whether every byte of `id` is an identifier byte and there are 1 to 128.
fn identifier_is_valid(id: &str) -> (r: bool)
    ensures
        r == identifier_ok(id@),
{
    let bytes = id.as_bytes();
    let n = bytes.len();
    if n == 0 || n > 128 {
        return false;
    }
    for i in 0..n
        invariant
            n == bytes@.len(),
            bytes@ == vstd::utf8::encode_utf8(id@),
            forall|j: int| 0 <= j < i ==> identifier_byte(#[trigger] bytes@[j]),
    {
        let b = bytes[i];
        if !((0x61 <= b && b <= 0x7a) || (0x30 <= b && b <= 0x39) || b == 0x2e || b == 0x5f || b
            == 0x2d) {
            return false;
        }
    }
    true
}

/// Whether `variables` are 1 to 16 distinct names of 1 to 64 bytes.
fn variables_are_valid(variables: &[&str]) -> (r: bool)
    ensures
        r == variables_ok(names_of(variables@)),
{
    let ghost names = names_of(variables@);
    let n = variables.len();
    if n == 0 || n > 16 {
        return false;
    }
    for i in 0..n
        invariant
            n == variables@.len(),
            names == names_of(variables@),
            forall|j: int| 0 <= j < i ==> 0 < #[trigger] byte_len(names[j]) <= 64,
            forall|a: int, b: int| 0 <= b < a < i ==> names[b] != names[a],
    {
        let variable = variables[i];
        assert(names[i as int] == variable@);
        let size = variable.as_bytes().len();
        if size == 0 || size > 64 {
            assert(!(0 < byte_len(names[i as int]) <= 64));
            return false;
        }
        let current = to_chars(variable);
        for j in 0..i
            invariant
                i < n,
                n == variables@.len(),
                names == names_of(variables@),
                current@ == names[i as int],
                forall|b: int| 0 <= b < j ==> names[b] != names[i as int],
        {
            let earlier = to_chars(variables[j]);
            assert(names[j as int] == earlier@);
            if chars_equal(earlier.as_slice(), current.as_slice()) {
                return false;
            }
        }
    }
    true
}

/// Whether a text equals `expected`.
fn text_is(value: &str, expected: &str) -> (r: bool)
    ensures
        r == (value@ == expected@),
{
    chars_equal(to_chars(value).as_slice(), to_chars(expected).as_slice())
}

/// Whether an output schema is a closed JSON object schema.
fn schema_is_valid(schema: &str) -> (r: bool)
    ensures
        r == schema_ok(schema@),
{
    let closed = match json_member_bool(schema, "additionalProperties") {
        Some(Some(b)) => !b,
        _ => false,
    };
    match json_member_str(schema, "type") {
        Some(Some(t)) => text_is(t.as_str(), "object") && closed,
        _ => {
            proof {
                reveal_strlit("object");
            }
            false
        },
    }
}

/// Whether one specification meets the catalog rules.
fn specification_is_valid(s: &PromptSpecification) -> (r: bool)
    ensures
        r == specification_valid(*s),
{
    let schema_id_size = s.output_schema_id.as_bytes().len();
    let instructions_size = s.task_instructions.as_bytes().len();
    identifier_is_valid(s.id) && s.version != 0 && variables_are_valid(s.variables)
        && s.approximate_request_token_limit >= 1_024 && s.maximum_output_tokens != 0
        && s.maximum_output_tokens <= s.approximate_request_token_limit / 2 && schema_id_size != 0
        && schema_id_size <= 128 && instructions_size != 0 && instructions_size <= 1_024
        && schema_is_valid(s.output_schema)
}

/// Checks a catalog: every specification meets the rules, identifiers and
/// purposes are unique, and all three purposes are present.
pub fn validate_specifications(specs: &[PromptSpecification]) -> (r: Result<(), &'static str>)
    ensures
        r is Ok <==> catalog_valid(specs@),
        r matches Err(e) ==> e@ == "prompt_catalog_invalid"@,
{
    let n = specs.len();
    for i in 0..n
        invariant
            n == specs@.len(),
            forall|j: int| 0 <= j < i ==> specification_valid(#[trigger] specs@[j]),
            forall|a: int, b: int|
                0 <= b < a < i ==> specs@[b].id@ != specs@[a].id@ && specs@[b].purpose
                    != specs@[a].purpose,
    {
        if !specification_is_valid(&specs[i]) {
            return Err("prompt_catalog_invalid");
        }
        let id = to_chars(specs[i].id);
        for j in 0..i
            invariant
                i < n,
                n == specs@.len(),
                id@ == specs@[i as int].id@,
                forall|b: int|
                    0 <= b < j ==> specs@[b].id@ != specs@[i as int].id@ && specs@[b].purpose
                        != specs@[i as int].purpose,
        {
            let earlier = to_chars(specs[j].id);
            if chars_equal(earlier.as_slice(), id.as_slice()) || specs[j].purpose
                == specs[i].purpose {
                return Err("prompt_catalog_invalid");
            }
        }
    }
    if n != 3 {
        return Err("prompt_catalog_invalid");
    }
    Ok(())
}

/// Checks the fixed catalog against the catalog rules.
pub fn validate_catalog() -> (r: Result<(), &'static str>)
    ensures
        forall|specs: Seq<PromptSpecification>|
            specs.len() == 3 && specification_matches(specs[0], PromptPurpose::Insight)
                && specification_matches(specs[1], PromptPurpose::Summary)
                && specification_matches(specs[2], PromptPurpose::ManualQuestion) ==> (r is Ok
                <==> #[trigger] catalog_valid(specs)),
        r matches Err(e) ==> e@ == "prompt_catalog_invalid"@,
{
    let specs = prompt_specifications();
    validate_specifications(&specs)
}

} // verus!
