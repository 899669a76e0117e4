//! The session summary document: inert Markdown rendering of generated
//! content, canonical front matter, and strict reading back.

use vstd::prelude::*;

use crate::codes::Code;
use crate::outside::{
    join_path, joined_path, plain_file_name, json_decode_str, json_encode_str, json_string_text,
    json_string_value, parse_uuid, utf8_to_string, uuid_text, uuid_text_of, uuid_value,
};
use crate::persistence::front_matter::{lemma_json_string_line_free, lemma_line_free_concat};
use crate::persistence::lines::{
    lemma_decimal_line_free, lemma_prefixed, lemma_leading_lines_of_text, lemma_lines_of_text, line_free, lines_spec, text_of_lines, lemma_line_start_bounds, lemma_line_start_monotone, line_start, text_line,
};
use crate::persistence::session_store::SessionStoreError;
use crate::security::redaction::{
    join_spec, lemma_token_after_nonspace, split_whitespace, split_whitespace_spec,
};
use crate::text::{
    is_whitespace_spec, chars_equal, decimal, from_chars, index_of_char, lemma_next_index_of_bounds, next_index_of,
    parse_unsigned, parse_unsigned_spec, push_char, push_decimal, push_str, slice_chars,
    starts_with_chars, starts_with_seq, to_chars, utf8_bytes, 
    lemma_parse_decimal,
};

verus! {

/// Largest accepted `summary.md`, in bytes.
pub const MAX_SUMMARY_BYTES: u64 = 4_194_304;

/// A summary store failure.
#[derive(Debug, Clone, Copy, PartialEq, Eq, Structural)]
pub struct SummaryStoreError {
    pub code: Code,
}

impl SummaryStoreError {
    /// An error with `code`.
    pub fn new(code: Code) -> (r: Self)
        ensures
            r.code == code,
    {
        Self { code }
    }
}

/// One action item of a generated summary.
#[derive(Debug, Clone)]
pub struct SummaryActionItem {
    pub text: String,
    pub owner: Option<String>,
    pub deadline: Option<String>,
}

/// The generated content of a session summary.
#[derive(Debug, Clone)]
pub struct SessionSummaryContent {
    pub executive_summary: String,
    pub main_topics: Vec<String>,
    pub decisions: Vec<String>,
    pub action_items: Vec<SummaryActionItem>,
    pub risks: Vec<String>,
    pub open_questions: Vec<String>,
    pub next_steps: Vec<String>,
}

/// A stored summary document.
#[derive(Debug, Clone)]
pub struct SessionSummaryDocument {
    pub schema_version: u8,
    pub project_id: u128,
    pub session_id: u128,
    pub generated_at: String,
    pub model_id: String,
    pub markdown: String,
    pub segments_considered: u32,
    pub segments_included: u32,
}

/// The files of a session's summary.
#[derive(Debug)]
pub struct SummaryPaths {
    pub document: String,
    pub temporary: String,
    pub backup: String,
}

impl SummaryPaths {
    /// `summary.md`, its temporary sibling and its backup inside `directory`.
    pub fn new(directory: &str) -> (r: Self)
        ensures
            joined_path(directory@, "summary.md"@, r.document@),
            joined_path(directory@, ".summary.md.tmp"@, r.temporary@),
            joined_path(directory@, "summary.md.bak"@, r.backup@),
    {
        proof {
            reveal_strlit("summary.md");
            reveal_strlit(".summary.md.tmp");
            reveal_strlit("summary.md.bak");
            assert(plain_file_name(".summary.md.tmp"@)) by {
                assert(".summary.md.tmp"@.len() == 15);
                assert(".summary.md.tmp"@ != seq!['.']);
            }
            assert(plain_file_name("summary.md.bak"@)) by {
                assert("summary.md.bak"@.len() == 14);
            }
        }
        SummaryPaths {
            document: join_path(directory, "summary.md"),
            temporary: join_path(directory, ".summary.md.tmp"),
            backup: join_path(directory, "summary.md.bak"),
        }
    }
}

/// Characters that carry Markdown structure and are escaped in summaries.
pub open spec fn is_markdown_special(c: char) -> bool {
    c == '#' || c == '*' || c == '_' || c == '`' || c == '[' || c == ']' || c == '<' || c == '>'
        || c == '|' || c == '~'
}

/// How one character of collapsed text is written: backslashes doubled,
/// structural characters behind a backslash.
pub open spec fn inert_char(c: char) -> Seq<char> {
    if c == '\\' {
        seq!['\\', '\\']
    } else if is_markdown_special(c) {
        seq!['\\', c]
    } else {
        seq![c]
    }
}

/// Every character of `s` written inertly.
pub open spec fn inert_escape(s: Seq<char>) -> Seq<char>
    decreases s.len(),
{
    if s.len() == 0 {
        seq![]
    } else {
        inert_escape(s.drop_last()) + inert_char(s.last())
    }
}

/// Generated text collapsed to one line of single-spaced words, then escaped.
pub open spec fn inert_line_spec(s: Seq<char>) -> Seq<char> {
    inert_escape(join_spec(split_whitespace_spec(s), seq![' ']))
}

/// Escapes every character of `s` inertly.
fn escape_chars(s: &[char]) -> (r: Vec<char>)
    ensures
        r@ == inert_escape(s@),
{
    let mut out: Vec<char> = Vec::new();
    let n = s.len();
    for i in 0..n
        invariant
            n == s@.len(),
            out@ == inert_escape(s@.take(i as int)),
    {
        let c = s[i];
        if c == '\\' {
            out.push('\\');
            out.push('\\');
        } else if c == '#' || c == '*' || c == '_' || c == '`' || c == '[' || c == ']' || c == '<'
            || c == '>' || c == '|' || c == '~' {
            out.push('\\');
            out.push(c);
        } else {
            out.push(c);
        }
        proof {
            assert(s@.take(i + 1).drop_last() =~= s@.take(i as int));
            assert(out@ =~= inert_escape(s@.take(i + 1)));
        }
    }
    proof {
        assert(s@.take(n as int) =~= s@);
    }
    out
}

/// Joins `tokens` with single spaces.
fn join_with_spaces(tokens: &Vec<Vec<char>>, Ghost(parts): Ghost<Seq<Seq<char>>>) -> (r: Vec<char>)
    requires
        tokens@.len() == parts.len(),
        forall|k: int| 0 <= k < parts.len() ==> (#[trigger] tokens@[k])@ == parts[k],
    ensures
        r@ == join_spec(parts, seq![' ']),
{
    let mut out: Vec<char> = Vec::new();
    let n = tokens.len();
    for k in 0..n
        invariant
            n == tokens@.len(),
            n == parts.len(),
            forall|j: int| 0 <= j < parts.len() ==> (#[trigger] tokens@[j])@ == parts[j],
            out@ == join_spec(parts.take(k as int), seq![' ']),
    {
        let t = &tokens[k];
        if k > 0 {
            out.push(' ');
        }
        let m = t.len();
        let ghost before = out@;
        for j in 0..m
            invariant
                m == t@.len(),
                out@ == before + t@.take(j as int),
        {
            out.push(t[j]);
            proof {
                assert(t@.take(j + 1) =~= t@.take(j as int).push(t@[j as int]));
            }
        }
        proof {
            assert(t@.take(m as int) =~= t@);
            assert(parts.take(k + 1).drop_last() =~= parts.take(k as int));
            if k == 0 {
                assert(out@ =~= join_spec(parts.take(1), seq![' ']));
            } else {
                assert(out@ =~= join_spec(parts.take(k + 1), seq![' ']));
            }
        }
    }
    proof {
        assert(parts.take(n as int) =~= parts);
    }
    out
}

/// Collapses generated text to a single line of single-spaced words and
/// escapes Markdown structure, so that stored content cannot forge
/// headings, lists or block syntax.
pub fn inert_line(value: &str) -> (r: String)
    ensures
        r@ == inert_line_spec(value@),
{
    let chars = to_chars(value);
    let tokens = split_whitespace(chars.as_slice());
    let joined = join_with_spaces(&tokens, Ghost(split_whitespace_spec(value@)));
    let escaped = escape_chars(joined.as_slice());
    from_chars(escaped.as_slice())
}

/// `inert_line` followed by a newline.
pub fn inert_block(value: &str) -> (r: String)
    ensures
        r@ == inert_line_spec(value@).push('\n'),
{
    let mut block = inert_line(value);
    push_char(&mut block, '\n');
    block
}

/// The bullet lines of `values`.
pub open spec fn list_items(values: Seq<String>) -> Seq<char>
    decreases values.len(),
{
    if values.len() == 0 {
        seq![]
    } else {
        list_items(values.drop_last()) + "- "@ + inert_line_spec(values.last()@) + "\n"@
    }
}

/// A `## heading` section listing `values`, or noting that there are none.
pub open spec fn list_section(heading: Seq<char>, values: Seq<String>) -> Seq<char> {
    "\n## "@ + heading + "\n\n"@ + if values.len() == 0 {
        "_None recorded._\n"@
    } else {
        list_items(values)
    }
}

/// Appends a `## heading` section listing `values` inertly.
pub fn push_list(body: &mut String, heading: &str, values: &[String])
    ensures
        final(body)@ == old(body)@ + list_section(heading@, values@),
{
    let ghost start = body@;
    push_str(body, "\n## ");
    push_str(body, heading);
    push_str(body, "\n\n");
    let ghost head = body@;
    proof {
        assert(head =~= start + "\n## "@ + heading@ + "\n\n"@);
    }
    if values.len() == 0 {
        push_str(body, "_None recorded._\n");
        proof {
            assert(body@ =~= start + list_section(heading@, values@));
        }
        return;
    }
    let n = values.len();
    for k in 0..n
        invariant
            n == values@.len(),
            body@ == head + list_items(values@.take(k as int)),
    {
        push_str(body, "- ");
        let line = inert_line(values[k].as_str());
        push_str(body, line.as_str());
        push_char(body, '\n');
        proof {
            assert(values@.take(k + 1).drop_last() =~= values@.take(k as int));
            assert("\n"@ =~= seq!['\n']) by {
                reveal_strlit("\n");
            }
            assert(body@ =~= head + list_items(values@.take(k + 1)));
        }
    }
    proof {
        assert(values@.take(n as int) =~= values@);
        assert(body@ =~= start + list_section(heading@, values@));
    }
}

/// The parenthesised owner and deadline of an action item.
pub open spec fn action_suffix(item: SummaryActionItem) -> Seq<char> {
    match (item.owner, item.deadline) {
        (Some(o), Some(d)) => " (Owner: "@ + inert_line_spec(o@) + "; Due: "@ + inert_line_spec(
            d@,
        ) + ")"@,
        (Some(o), None) => " (Owner: "@ + inert_line_spec(o@) + ")"@,
        (None, Some(d)) => " (Due: "@ + inert_line_spec(d@) + ")"@,
        (None, None) => seq![],
    }
}

/// The bullet lines of the action items.
pub open spec fn action_items_text(items: Seq<SummaryActionItem>) -> Seq<char>
    decreases items.len(),
{
    if items.len() == 0 {
        seq![]
    } else {
        action_items_text(items.drop_last()) + "- "@ + inert_line_spec(items.last().text@)
            + action_suffix(items.last()) + "\n"@
    }
}

/// The Markdown body of a summary.
pub open spec fn summary_body_spec(content: SessionSummaryContent) -> Seq<char> {
    "\n# Session summary\n\n## Executive summary\n\n"@ + inert_line_spec(
        content.executive_summary@,
    ) + seq!['\n'] + list_section("Main topics"@, content.main_topics@) + list_section(
        "Decisions"@,
        content.decisions@,
    ) + "\n## Action items\n\n"@ + (if content.action_items@.len() == 0 {
        "_None recorded._\n"@
    } else {
        action_items_text(content.action_items@)
    }) + list_section("Risks"@, content.risks@) + list_section(
        "Open questions"@,
        content.open_questions@,
    ) + list_section("Next steps"@, content.next_steps@)
}

/// Appends the owner and deadline of `item`.
fn push_action_suffix(body: &mut String, item: &SummaryActionItem)
    ensures
        final(body)@ == old(body)@ + action_suffix(*item),
{
    let ghost start = body@;
    match (&item.owner, &item.deadline) {
        (Some(owner), Some(deadline)) => {
            push_str(body, " (Owner: ");
            push_str(body, inert_line(owner.as_str()).as_str());
            push_str(body, "; Due: ");
            push_str(body, inert_line(deadline.as_str()).as_str());
            push_str(body, ")");
        },
        (Some(owner), None) => {
            push_str(body, " (Owner: ");
            push_str(body, inert_line(owner.as_str()).as_str());
            push_str(body, ")");
        },
        (None, Some(deadline)) => {
            push_str(body, " (Due: ");
            push_str(body, inert_line(deadline.as_str()).as_str());
            push_str(body, ")");
        },
        (None, None) => {},
    }
    proof {
        assert(body@ =~= start + action_suffix(*item));
    }
}

/// Renders the summary sections as inert Markdown: every generated value is
/// written as plain paragraph or list text, never as a heading, link or
/// embedded structure.
#[verifier::spinoff_prover]
#[verifier::rlimit(40)]
pub fn render_summary_body(content: &SessionSummaryContent) -> (r: String)
    ensures
        r@ == summary_body_spec(*content),
{
    let mut body = String::new();
    push_str(&mut body, "\n# Session summary\n\n## Executive summary\n\n");
    push_str(&mut body, inert_block(content.executive_summary.as_str()).as_str());
    push_list(&mut body, "Main topics", content.main_topics.as_slice());
    push_list(&mut body, "Decisions", content.decisions.as_slice());
    let ghost before_actions = body@;
    push_str(&mut body, "\n## Action items\n\n");
    let ghost head = body@;
    if content.action_items.len() == 0 {
        push_str(&mut body, "_None recorded._\n");
    } else {
        let n = content.action_items.len();
        for k in 0..n
            invariant
                n == content.action_items@.len(),
                body@ == head + action_items_text(content.action_items@.take(k as int)),
        {
            let item = &content.action_items[k];
            push_str(&mut body, "- ");
            push_str(&mut body, inert_line(item.text.as_str()).as_str());
            push_action_suffix(&mut body, item);
            push_char(&mut body, '\n');
            proof {
                assert(content.action_items@.take(k + 1).drop_last() =~= content.action_items@.take(
                    k as int,
                ));
                assert("\n"@ =~= seq!['\n']) by {
                    reveal_strlit("\n");
                }
                assert(body@ =~= head + action_items_text(content.action_items@.take(k + 1)));
            }
        }
        proof {
            assert(content.action_items@.take(n as int) =~= content.action_items@);
        }
    }
    push_list(&mut body, "Risks", content.risks.as_slice());
    push_list(&mut body, "Open questions", content.open_questions.as_slice());
    push_list(&mut body, "Next steps", content.next_steps.as_slice());
    proof {
        assert(body@ =~= summary_body_spec(*content));
    }
    body
}

/// The text of `summary.md` with the given header values and body: canonical
/// front matter, then the Markdown body.
pub open spec fn summary_text_of(
    project_id: u128,
    session_id: u128,
    generated_at: Seq<char>,
    model_id: Seq<char>,
    segments_considered: u32,
    segments_included: u32,
    markdown: Seq<char>,
) -> Seq<char> {
    "---\nschema_version: 1\ndocument_type: \"summary\"\nproject_id: "@ + json_string_text(
        uuid_text_of(project_id),
    ) + "\nsession_id: "@ + json_string_text(uuid_text_of(session_id)) + "\ngenerated_at: "@
        + json_string_text(generated_at) + "\nmodel_id: "@ + json_string_text(model_id)
        + "\nsegments_considered: "@ + decimal(segments_considered as nat)
        + "\nsegments_included: "@ + decimal(segments_included as nat) + "\n---\n"@ + markdown
}

/// The text of `summary.md` for `document`: canonical front matter, then
/// the Markdown body.
pub open spec fn summary_document_text(document: SessionSummaryDocument) -> Seq<char> {
    summary_text_of(
        document.project_id,
        document.session_id,
        document.generated_at@,
        document.model_id@,
        document.segments_considered,
        document.segments_included,
        document.markdown@,
    )
}

/// Appends the JSON string literal of `value`.
fn push_json_str(out: &mut String, value: &str) -> (ok: bool)
    ensures
        ok,
        final(out)@ == old(out)@ + json_string_text(value@),
{
    match json_encode_str(value) {
        Some(text) => {
            push_str(out, text.as_str());
            true
        },
        None => false,
    }
}

/// Renders the portable document: canonical front matter, then the summary
/// body, as UTF-8.
pub fn render_document(document: &SessionSummaryDocument) -> (r: Result<Vec<u8>, SummaryStoreError>)
    ensures
        r is Ok,
        r matches Ok(bytes) ==> bytes@ == vstd::utf8::encode_utf8(summary_document_text(*document)),
{
    let mut rendered = String::new();
    push_str(&mut rendered, "---\nschema_version: 1\ndocument_type: \"summary\"\nproject_id: ");
    let project = uuid_text(document.project_id);
    if !push_json_str(&mut rendered, project.as_str()) {
        return Err(SummaryStoreError::new(Code::SummaryDocumentInvalid));
    }
    push_str(&mut rendered, "\nsession_id: ");
    let session = uuid_text(document.session_id);
    if !push_json_str(&mut rendered, session.as_str()) {
        return Err(SummaryStoreError::new(Code::SummaryDocumentInvalid));
    }
    push_str(&mut rendered, "\ngenerated_at: ");
    if !push_json_str(&mut rendered, document.generated_at.as_str()) {
        return Err(SummaryStoreError::new(Code::SummaryDocumentInvalid));
    }
    push_str(&mut rendered, "\nmodel_id: ");
    if !push_json_str(&mut rendered, document.model_id.as_str()) {
        return Err(SummaryStoreError::new(Code::SummaryDocumentInvalid));
    }
    push_str(&mut rendered, "\nsegments_considered: ");
    push_decimal(&mut rendered, document.segments_considered as u64);
    push_str(&mut rendered, "\nsegments_included: ");
    push_decimal(&mut rendered, document.segments_included as u64);
    push_str(&mut rendered, "\n---\n");
    push_str(&mut rendered, document.markdown.as_str());
    proof {
        assert(rendered@ =~= summary_document_text(*document));
    }
    Ok(utf8_bytes(rendered.as_str()))
}

/// The UUID a front-matter value holds: a JSON string with a UUID in it.
pub open spec fn stored_uuid(encoded: Seq<char>) -> Option<u128> {
    match json_string_value(encoded) {
        Some(t) => uuid_value(t),
        None => None,
    }
}

/// The shape of a summary document: no carriage return, and ten header
/// lines with the fixed names in order between `---` lines.
pub open spec fn summary_frame_ok(s: Seq<char>) -> bool {
    &&& !s.contains('\r')
    &&& line_start(s, 9) < s.len()
    &&& text_line(s, 0) == "---"@
    &&& text_line(s, 1) == "schema_version: 1"@
    &&& text_line(s, 2) == "document_type: \"summary\""@
    &&& starts_with_seq(text_line(s, 3), "project_id: "@)
    &&& starts_with_seq(text_line(s, 4), "session_id: "@)
    &&& starts_with_seq(text_line(s, 5), "generated_at: "@)
    &&& starts_with_seq(text_line(s, 6), "model_id: "@)
    &&& starts_with_seq(text_line(s, 7), "segments_considered: "@)
    &&& starts_with_seq(text_line(s, 8), "segments_included: "@)
    &&& text_line(s, 9) == "---"@
}

/// The stored identities, when the frame holds and both parse.
pub open spec fn summary_identities(s: Seq<char>) -> Option<(u128, u128)> {
    if summary_frame_ok(s) && stored_uuid(text_line(s, 3).skip(12)) is Some && stored_uuid(
        text_line(s, 4).skip(12),
    ) is Some {
        Some((stored_uuid(text_line(s, 3).skip(12))->0, stored_uuid(text_line(s, 4).skip(12))->0))
    } else {
        None
    }
}

/// The remaining header values parse.
pub open spec fn summary_values_ok(s: Seq<char>) -> bool {
    &&& json_string_value(text_line(s, 5).skip(14)) is Some
    &&& json_string_value(text_line(s, 6).skip(10)) is Some
    &&& parse_unsigned_spec(text_line(s, 7).skip(21), u32::MAX as nat) is Some
    &&& parse_unsigned_spec(text_line(s, 8).skip(19), u32::MAX as nat) is Some
}

/// The summary document written for `content`, and its bytes: schema one,
/// the canonical Markdown body, and the identity, model and coverage given;
/// a document over `MAX_SUMMARY_BYTES` is refused, and only such a document.
pub fn prepare_summary(
    project_id: u128,
    session_id: u128,
    generated_at: String,
    model_id: String,
    content: &SessionSummaryContent,
    segments_considered: u32,
    segments_included: u32,
) -> (r: Result<(SessionSummaryDocument, Vec<u8>), SummaryStoreError>)
    ensures
        r matches Ok((d, bytes)) ==> {
            &&& d.schema_version == 1
            &&& d.project_id == project_id
            &&& d.session_id == session_id
            &&& d.generated_at@ == generated_at@
            &&& d.model_id@ == model_id@
            &&& d.markdown@ == summary_body_spec(*content)
            &&& d.segments_considered == segments_considered
            &&& d.segments_included == segments_included
            &&& bytes@ == vstd::utf8::encode_utf8(summary_document_text(d))
            &&& bytes@.len() <= MAX_SUMMARY_BYTES
        },
        r is Ok <==> vstd::utf8::encode_utf8(
            summary_text_of(
                project_id,
                session_id,
                generated_at@,
                model_id@,
                segments_considered,
                segments_included,
                summary_body_spec(*content),
            ),
        ).len() <= MAX_SUMMARY_BYTES,
        r matches Err(e) ==> e.code == Code::SummaryDocumentTooLarge,
{
    let document = SessionSummaryDocument {
        schema_version: 1,
        project_id,
        session_id,
        generated_at,
        model_id,
        markdown: render_summary_body(content),
        segments_considered,
        segments_included,
    };
    let bytes = render_document(&document)?;
    if bytes.len() as u64 > MAX_SUMMARY_BYTES {
        return Err(SummaryStoreError::new(Code::SummaryDocumentTooLarge));
    }
    Ok((document, bytes))
}

/// Reads a stored summary: UTF-8 with no carriage return, the canonical
/// header, identities equal to `project_id` and `session_id`, then the body.
pub fn parse_summary(bytes: &[u8], project_id: u128, session_id: u128) -> (r: Result<
    SessionSummaryDocument,
    SummaryStoreError,
>)
    ensures
        ({
            let s = vstd::utf8::decode_utf8(bytes@);
            let ids = summary_identities(s);
            &&& r matches Err(e) ==> (e.code == Code::SummaryDocumentIdentityMismatch <==> (
            vstd::utf8::valid_utf8(bytes@) && ids is Some && ids != Some((project_id, session_id))))
            &&& r matches Err(e) ==> (e.code == Code::SummaryDocumentIdentityMismatch || e.code
                == Code::SummaryDocumentInvalid)
            &&& r is Ok <==> (vstd::utf8::valid_utf8(bytes@) && ids == Some((project_id, session_id))
                && summary_values_ok(s))
            &&& r matches Ok(d) ==> {
                &&& d.schema_version == 1
                &&& d.project_id == project_id
                &&& d.session_id == session_id
                &&& json_string_value(text_line(s, 5).skip(14)) == Some(d.generated_at@)
                &&& json_string_value(text_line(s, 6).skip(10)) == Some(d.model_id@)
                &&& parse_unsigned_spec(text_line(s, 7).skip(21), u32::MAX as nat) == Some(
                    d.segments_considered as nat,
                )
                &&& parse_unsigned_spec(text_line(s, 8).skip(19), u32::MAX as nat) == Some(
                    d.segments_included as nat,
                )
                &&& d.markdown@ == s.skip(line_start(s, 10))
            }
        }),
{
    let text = match utf8_to_string(bytes) {
        Some(t) => t,
        None => return Err(SummaryStoreError::new(Code::SummaryDocumentInvalid)),
    };
    let ghost s = text@;
    let chars = to_chars(text.as_str());
    let n = chars.len();
    let mut k: usize = 0;
    while k < n
        invariant
            k <= n,
            n == chars@.len(),
            chars@ == s,
            s == vstd::utf8::decode_utf8(bytes@),
            vstd::utf8::valid_utf8(bytes@),
            forall|j: int| 0 <= j < k ==> chars@[j] != '\r',
        decreases n - k,
    {
        if chars[k] == '\r' {
            proof {
                assert(s[k as int] == '\r');
                assert(s.contains('\r'));
                assert(!summary_frame_ok(s));
            }
            return Err(SummaryStoreError::new(Code::SummaryDocumentInvalid));
        }
        k = k + 1;
    }
    assert(!s.contains('\r'));
    let mut lines: Vec<Vec<char>> = Vec::new();
    let mut start: usize = 0;
    for j in 0..10
        invariant
            n == chars@.len(),
            chars@ == s,
            s == vstd::utf8::decode_utf8(bytes@),
            vstd::utf8::valid_utf8(bytes@),
            !s.contains('\r'),
            lines@.len() == j,
            start == line_start(s, j as nat),
            forall|m: int| 0 <= m < j ==> (#[trigger] lines@[m])@ == text_line(s, m as nat),
            j > 0 ==> line_start(s, (j - 1) as nat) < s.len(),
    {
        proof {
            lemma_line_start_bounds(s, j as nat);
        }
        if start >= n {
            proof {
                lemma_line_start_bounds(s, 9);
                assert(!summary_frame_ok(s)) by {
                    if j < 9 {
                        lemma_line_start_monotone(s, j as nat, 9);
                    }
                }
            }
            return Err(SummaryStoreError::new(Code::SummaryDocumentInvalid));
        }
        let end = index_of_char(chars.as_slice(), '\n', start);
        proof {
            lemma_next_index_of_bounds(s, '\n', start as int);
        }
        lines.push(slice_chars(chars.as_slice(), start, end));
        start = if end < n {
            end + 1
        } else {
            n
        };
    }
    proof {
        lemma_line_start_bounds(s, 10);
    }
    let header_ok = chars_equal(lines[0].as_slice(), to_chars("---").as_slice())
        && chars_equal(lines[1].as_slice(), to_chars("schema_version: 1").as_slice())
        && chars_equal(lines[2].as_slice(), to_chars("document_type: \"summary\"").as_slice())
        && starts_with_chars(lines[3].as_slice(), to_chars("project_id: ").as_slice())
        && starts_with_chars(lines[4].as_slice(), to_chars("session_id: ").as_slice())
        && starts_with_chars(lines[5].as_slice(), to_chars("generated_at: ").as_slice())
        && starts_with_chars(lines[6].as_slice(), to_chars("model_id: ").as_slice())
        && starts_with_chars(lines[7].as_slice(), to_chars("segments_considered: ").as_slice())
        && starts_with_chars(lines[8].as_slice(), to_chars("segments_included: ").as_slice())
        && chars_equal(lines[9].as_slice(), to_chars("---").as_slice());
    if !header_ok {
        return Err(SummaryStoreError::new(Code::SummaryDocumentInvalid));
    }
    assert(summary_frame_ok(s));
    proof {
        reveal_strlit("project_id: ");
        reveal_strlit("session_id: ");
        reveal_strlit("generated_at: ");
        reveal_strlit("model_id: ");
        reveal_strlit("segments_considered: ");
        reveal_strlit("segments_included: ");
    }
    let stored_project = match decode_uuid(&lines[3], 12) {
        Some(id) => id,
        None => return Err(SummaryStoreError::new(Code::SummaryDocumentInvalid)),
    };
    let stored_session = match decode_uuid(&lines[4], 12) {
        Some(id) => id,
        None => return Err(SummaryStoreError::new(Code::SummaryDocumentInvalid)),
    };
    if stored_project != project_id || stored_session != session_id {
        return Err(SummaryStoreError::new(Code::SummaryDocumentIdentityMismatch));
    }
    let generated_at = match decode_string(&lines[5], 14) {
        Some(v) => v,
        None => return Err(SummaryStoreError::new(Code::SummaryDocumentInvalid)),
    };
    let model_id = match decode_string(&lines[6], 10) {
        Some(v) => v,
        None => return Err(SummaryStoreError::new(Code::SummaryDocumentInvalid)),
    };
    let considered = slice_chars(lines[7].as_slice(), 21, lines[7].len());
    let included = slice_chars(lines[8].as_slice(), 19, lines[8].len());
    proof {
        assert(considered@ =~= text_line(s, 7).skip(21));
        assert(included@ =~= text_line(s, 8).skip(19));
    }
    let segments_considered = match parse_unsigned(considered.as_slice(), 4_294_967_295) {
        Some(v) => v as u32,
        None => return Err(SummaryStoreError::new(Code::SummaryDocumentInvalid)),
    };
    let segments_included = match parse_unsigned(included.as_slice(), 4_294_967_295) {
        Some(v) => v as u32,
        None => return Err(SummaryStoreError::new(Code::SummaryDocumentInvalid)),
    };
    let body = slice_chars(chars.as_slice(), start, n);
    proof {
        assert(body@ =~= s.skip(line_start(s, 10)));
    }
    Ok(SessionSummaryDocument {
        schema_version: 1,
        project_id: stored_project,
        session_id: stored_session,
        generated_at,
        model_id,
        markdown: from_chars(body.as_slice()),
        segments_considered,
        segments_included,
    })
}

/// The JSON string after the first `skip` characters of `line`.
fn decode_string(line: &Vec<char>, skip: usize) -> (r: Option<String>)
    requires
        skip <= line@.len(),
    ensures
        r is Some <==> json_string_value(line@.skip(skip as int)) is Some,
        r matches Some(v) ==> json_string_value(line@.skip(skip as int)) == Some(v@),
{
    let tail = slice_chars(line.as_slice(), skip, line.len());
    proof {
        assert(tail@ =~= line@.skip(skip as int));
    }
    json_decode_str(from_chars(tail.as_slice()).as_str())
}

/// The UUID in the JSON string after the first `skip` characters of `line`.
fn decode_uuid(line: &Vec<char>, skip: usize) -> (r: Option<u128>)
    requires
        skip <= line@.len(),
    ensures
        r == stored_uuid(line@.skip(skip as int)),
{
    match decode_string(line, skip) {
        Some(t) => parse_uuid(t.as_str()),
        None => None,
    }
}

/// Maps a session store failure to the summary's own code.
pub fn map_session_error(error: SessionStoreError) -> (r: SummaryStoreError)
    ensures
        r.code == (if error.code == Code::SessionSnapshotMissing {
            Code::SummarySessionMissing
        } else if error.code == Code::WorkspaceRequired {
            Code::WorkspaceRequired
        } else {
            Code::SummarySessionUnavailable
        }),
{
    SummaryStoreError::new(
        match error.code {
            Code::SessionSnapshotMissing => Code::SummarySessionMissing,
            Code::WorkspaceRequired => Code::WorkspaceRequired,
            _ => Code::SummarySessionUnavailable,
        },
    )
}

/// Every character is a space or not whitespace at all.
pub open spec fn spaces_only(s: Seq<char>) -> bool {
    forall|i: int| 0 <= i < s.len() ==> #[trigger] s[i] == ' ' || !is_whitespace_spec(s[i])
}

/// Every character that carries Markdown structure stands right after a
/// backslash.
pub open spec fn structure_escaped(s: Seq<char>) -> bool {
    forall|i: int|
        0 <= i < s.len() && is_markdown_special(#[trigger] s[i]) ==> i > 0 && s[i - 1] == '\\'
}

proof fn lemma_tokens_hold_no_whitespace(s: Seq<char>)
    ensures
        forall|k: int|
            0 <= k < split_whitespace_spec(s).len() ==> spaces_only(
                #[trigger] split_whitespace_spec(s)[k],
            ) && !split_whitespace_spec(s)[k].contains(' '),
    decreases s.len(),
{
    if s.len() > 0 {
        lemma_tokens_hold_no_whitespace(s.drop_last());
        let t = split_whitespace_spec(s.drop_last());
        let c = s.last();
        assert(is_whitespace_spec(' '));
        if !is_whitespace_spec(c) {
            if s.len() >= 2 && !is_whitespace_spec(s[s.len() - 2]) {
                assert(t.len() > 0) by {
                    lemma_token_after_nonspace(s.drop_last());
                }
                let u = t.update(t.len() - 1, t.last().push(c));
                assert forall|k: int| 0 <= k < u.len() implies spaces_only(#[trigger] u[k])
                    && !u[k].contains(' ') by {
                    if k == t.len() - 1 {
                        assert(t[k] == t.last());
                        assert forall|i: int| 0 <= i < u[k].len() implies #[trigger] u[k][i] != ' ' by {
                            if i < t.last().len() {
                                assert(u[k][i] == t.last()[i]);
                            }
                        }
                    }
                }
            } else {
                let u = t.push(seq![c]);
                assert forall|k: int| 0 <= k < u.len() implies spaces_only(#[trigger] u[k])
                    && !u[k].contains(' ') by {
                    if k == t.len() {
                        assert(u[k] == seq![c]);
                    } else {
                        assert(u[k] == t[k]);
                    }
                }
            }
        }
    }
}


proof fn lemma_join_spaces_only(parts: Seq<Seq<char>>)
    requires
        forall|k: int| 0 <= k < parts.len() ==> spaces_only(#[trigger] parts[k]),
    ensures
        spaces_only(join_spec(parts, seq![' '])),
    decreases parts.len(),
{
    if parts.len() > 1 {
        let prefix = parts.drop_last();
        assert forall|k: int| 0 <= k < prefix.len() implies spaces_only(#[trigger] prefix[k]) by {
            assert(prefix[k] == parts[k]);
        }
        lemma_join_spaces_only(prefix);
        let a = join_spec(prefix, seq![' ']);
        let b = parts.last();
        assert(spaces_only(b)) by {
            assert(b == parts[parts.len() - 1]);
        }
        let j = a + seq![' '] + b;
        assert forall|i: int| 0 <= i < j.len() implies #[trigger] j[i] == ' ' || !is_whitespace_spec(
            j[i],
        ) by {
            if i < a.len() {
                assert(j[i] == a[i]);
            } else if i > a.len() {
                assert(j[i] == b[i - a.len() - 1]);
            }
        }
    } else if parts.len() == 1 {
        assert(spaces_only(parts[0]));
    }
}

proof fn lemma_escape_keeps_spaces_and_escapes(s: Seq<char>)
    requires
        spaces_only(s),
    ensures
        spaces_only(inert_escape(s)),
        structure_escaped(inert_escape(s)),
    decreases s.len(),
{
    if s.len() > 0 {
        let p = s.drop_last();
        assert(spaces_only(p)) by {
            assert forall|i: int| 0 <= i < p.len() implies #[trigger] p[i] == ' ' || !is_whitespace_spec(
                p[i],
            ) by {
                assert(p[i] == s[i]);
            }
        }
        lemma_escape_keeps_spaces_and_escapes(p);
        let a = inert_escape(p);
        let c = s.last();
        assert(c == s[s.len() - 1]);
        let b = inert_char(c);
        let r = a + b;
        assert(!is_whitespace_spec('\\'));
        assert forall|i: int| 0 <= i < r.len() implies #[trigger] r[i] == ' ' || !is_whitespace_spec(
            r[i],
        ) by {
            if i < a.len() {
                assert(r[i] == a[i]);
            } else {
                assert(r[i] == b[i - a.len()]);
            }
        }
        assert forall|i: int|
            0 <= i < r.len() && is_markdown_special(#[trigger] r[i]) implies i > 0 && r[i - 1]
            == '\\' by {
            if i < a.len() {
                assert(r[i] == a[i]);
                assert(r[i - 1] == a[i - 1]);
            } else {
                assert(r[i] == b[i - a.len()]);
                if i == a.len() + 1 {
                    assert(r[i - 1] == b[0]);
                }
            }
        }
    }
}

/// A rendered summary value is one inert line: apart from single spaces it
/// holds no whitespace, so no newline that could start a heading or a list,
/// and every character that carries Markdown structure is escaped by the
/// backslash right before it.
pub proof fn inert_line_is_one_escaped_line(value: Seq<char>)
    ensures
        spaces_only(inert_line_spec(value)),
        structure_escaped(inert_line_spec(value)),
        !inert_line_spec(value).contains('\n'),
{
    lemma_tokens_hold_no_whitespace(value);
    lemma_join_spaces_only(split_whitespace_spec(value));
    lemma_escape_keeps_spaces_and_escapes(join_spec(split_whitespace_spec(value), seq![' ']));
    assert(is_whitespace_spec('\n'));
}

proof fn lemma_list_items_lines(values: Seq<String>)
    ensures
        list_items(values) == text_of_lines(
            Seq::new(values.len(), |k: int| "- "@ + inert_line_spec(values[k]@)),
        ),
    decreases values.len(),
{
    if values.len() > 0 {
        lemma_list_items_lines(values.drop_last());
        let bullets = Seq::new(values.len(), |k: int| "- "@ + inert_line_spec(values[k]@));
        let front = Seq::new(
            values.drop_last().len(),
            |k: int| "- "@ + inert_line_spec(values.drop_last()[k]@),
        );
        assert(bullets.drop_last() =~= front);
        assert("\n"@ =~= seq!['\n']) by {
            reveal_strlit("\n");
        }
        assert(list_items(values) =~= text_of_lines(bullets));
    }
}

/// A list section gives each value one bullet line, in order: its listed
/// lines are exactly `- ` and the inert line of each value.
pub proof fn listed_values_each_get_one_bullet_line(values: Seq<String>)
    requires
        values.len() > 0,
    ensures
        lines_spec(list_items(values)).len() == values.len(),
        forall|k: int|
            0 <= k < values.len() ==> lines_spec(list_items(values))[k] == "- "@ + inert_line_spec(
                (#[trigger] values[k])@,
            ),
{
    let bullets = Seq::new(values.len(), |k: int| "- "@ + inert_line_spec(values[k]@));
    lemma_list_items_lines(values);
    assert forall|k: int| 0 <= k < bullets.len() implies line_free(#[trigger] bullets[k]) by {
        let v = inert_line_spec(values[k]@);
        inert_line_is_one_escaped_line(values[k]@);
        assert(is_whitespace_spec('\r'));
        assert(line_free("- "@)) by {
            reveal_strlit("- ");
        }
        assert forall|i: int| 0 <= i < v.len() implies #[trigger] v[i] != '\n' && v[i] != '\r' by {
            assert(!v.contains('\n') ==> v[i] != '\n');
        }
        lemma_line_free_concat("- "@, v);
    }
    lemma_lines_of_text(bullets);
}

/// The header lines of a summary document, in order.
pub open spec fn summary_header_lines(document: SessionSummaryDocument) -> Seq<Seq<char>> {
    seq![
        "---"@,
        "schema_version: 1"@,
        "document_type: \"summary\""@,
        "project_id: "@ + json_string_text(uuid_text_of(document.project_id)),
        "session_id: "@ + json_string_text(uuid_text_of(document.session_id)),
        "generated_at: "@ + json_string_text(document.generated_at@),
        "model_id: "@ + json_string_text(document.model_id@),
        "segments_considered: "@ + decimal(document.segments_considered as nat),
        "segments_included: "@ + decimal(document.segments_included as nat),
        "---"@,
    ]
}

/// The summary text is its header lines followed by the Markdown body.
#[verifier::spinoff_prover]
#[verifier::rlimit(40)]
proof fn lemma_summary_text_is_lines(document: SessionSummaryDocument)
    ensures
        summary_document_text(document) == text_of_lines(summary_header_lines(document))
            + document.markdown@,
{
    let h = summary_header_lines(document);
    reveal_strlit("---");
    reveal_strlit("schema_version: 1");
    reveal_strlit("document_type: \"summary\"");
    reveal_strlit("project_id: ");
    reveal_strlit("session_id: ");
    reveal_strlit("generated_at: ");
    reveal_strlit("model_id: ");
    reveal_strlit("segments_considered: ");
    reveal_strlit("segments_included: ");
    reveal_strlit("---\nschema_version: 1\ndocument_type: \"summary\"\nproject_id: ");
    reveal_strlit("\nsession_id: ");
    reveal_strlit("\ngenerated_at: ");
    reveal_strlit("\nmodel_id: ");
    reveal_strlit("\nsegments_considered: ");
    reveal_strlit("\nsegments_included: ");
    reveal_strlit("\n---\n");
    assert(text_of_lines(h.take(0)) =~= Seq::<char>::empty());
    assert(h.take(1).drop_last() =~= h.take(0));
    assert(h.take(2).drop_last() =~= h.take(1));
    assert(h.take(3).drop_last() =~= h.take(2));
    assert(h.take(4).drop_last() =~= h.take(3));
    assert(h.take(5).drop_last() =~= h.take(4));
    assert(h.take(6).drop_last() =~= h.take(5));
    assert(h.take(7).drop_last() =~= h.take(6));
    assert(h.take(8).drop_last() =~= h.take(7));
    assert(h.take(9).drop_last() =~= h.take(8));
    assert(h.take(10).drop_last() =~= h.take(9));
    assert(h.take(10) =~= h);
    let nl = seq!['\n'];
    let j1 = json_string_text(uuid_text_of(document.project_id));
    let j2 = json_string_text(uuid_text_of(document.session_id));
    let j3 = json_string_text(document.generated_at@);
    let j4 = json_string_text(document.model_id@);
    let d1 = decimal(document.segments_considered as nat);
    let d2 = decimal(document.segments_included as nat);
    assert("---"@ + nl + "schema_version: 1"@ + nl + "document_type: \"summary\""@ + nl
        + "project_id: "@ =~= "---\nschema_version: 1\ndocument_type: \"summary\"\nproject_id: "@);
    assert(nl + "session_id: "@ =~= "\nsession_id: "@);
    assert(nl + "generated_at: "@ =~= "\ngenerated_at: "@);
    assert(nl + "model_id: "@ =~= "\nmodel_id: "@);
    assert(nl + "segments_considered: "@ =~= "\nsegments_considered: "@);
    assert(nl + "segments_included: "@ =~= "\nsegments_included: "@);
    assert(nl + "---"@ + nl =~= "\n---\n"@);
    assert(h.take(1).last() == h[0]);
    assert(text_of_lines(h.take(1)) =~= "---"@ + nl);
    assert(text_of_lines(h.take(2)) =~= "---"@ + nl + "schema_version: 1"@ + nl);
    let t3 = text_of_lines(h.take(3));
    assert(t3 =~= "---"@ + nl + "schema_version: 1"@ + nl + "document_type: \"summary\""@ + nl);
    let a = "---\nschema_version: 1\ndocument_type: \"summary\"\nproject_id: "@;
    assert(text_of_lines(h.take(4)) =~= a + j1 + nl);
    assert(text_of_lines(h.take(5)) =~= a + j1 + "\nsession_id: "@ + j2 + nl);
    assert(text_of_lines(h.take(6)) =~= a + j1 + "\nsession_id: "@ + j2 + "\ngenerated_at: "@
        + j3 + nl);
    assert(text_of_lines(h.take(7)) =~= a + j1 + "\nsession_id: "@ + j2 + "\ngenerated_at: "@
        + j3 + "\nmodel_id: "@ + j4 + nl);
    assert(text_of_lines(h.take(8)) =~= a + j1 + "\nsession_id: "@ + j2 + "\ngenerated_at: "@
        + j3 + "\nmodel_id: "@ + j4 + "\nsegments_considered: "@ + d1 + nl);
    assert(text_of_lines(h.take(9)) =~= a + j1 + "\nsession_id: "@ + j2 + "\ngenerated_at: "@
        + j3 + "\nmodel_id: "@ + j4 + "\nsegments_considered: "@ + d1
        + "\nsegments_included: "@ + d2 + nl);
    assert(text_of_lines(h) =~= a + j1 + "\nsession_id: "@ + j2 + "\ngenerated_at: "@ + j3
        + "\nmodel_id: "@ + j4 + "\nsegments_considered: "@ + d1 + "\nsegments_included: "@
        + d2 + "\n---\n"@);
    assert(summary_document_text(document) =~= text_of_lines(h) + document.markdown@);
}

/// Every header line of a summary is line-free.
proof fn lemma_summary_header_line_free(document: SessionSummaryDocument)
    ensures
        forall|j: int|
            0 <= j < summary_header_lines(document).len() ==> line_free(
                #[trigger] summary_header_lines(document)[j],
            ),
{
    let h = summary_header_lines(document);
    reveal_strlit("---");
    reveal_strlit("schema_version: 1");
    reveal_strlit("document_type: \"summary\"");
    reveal_strlit("project_id: ");
    reveal_strlit("session_id: ");
    reveal_strlit("generated_at: ");
    reveal_strlit("model_id: ");
    reveal_strlit("segments_considered: ");
    reveal_strlit("segments_included: ");
    lemma_json_string_line_free(uuid_text_of(document.project_id));
    lemma_json_string_line_free(uuid_text_of(document.session_id));
    lemma_json_string_line_free(document.generated_at@);
    lemma_json_string_line_free(document.model_id@);
    lemma_decimal_line_free(document.segments_considered as nat);
    lemma_decimal_line_free(document.segments_included as nat);
    assert forall|j: int| 0 <= j < h.len() implies line_free(#[trigger] h[j]) by {
        if j == 3 {
            crate::persistence::front_matter::lemma_line_free_concat("project_id: "@, json_string_text(uuid_text_of(document.project_id)));
        } else if j == 4 {
            crate::persistence::front_matter::lemma_line_free_concat("session_id: "@, json_string_text(uuid_text_of(document.session_id)));
        } else if j == 5 {
            crate::persistence::front_matter::lemma_line_free_concat("generated_at: "@, json_string_text(document.generated_at@));
        } else if j == 6 {
            crate::persistence::front_matter::lemma_line_free_concat("model_id: "@, json_string_text(document.model_id@));
        } else if j == 7 {
            crate::persistence::front_matter::lemma_line_free_concat("segments_considered: "@, decimal(document.segments_considered as nat));
        } else if j == 8 {
            crate::persistence::front_matter::lemma_line_free_concat("segments_included: "@, decimal(document.segments_included as nat));
        }
    }
}

/// The lines of a summary's text are its header lines, and the body follows
/// them.
#[verifier::spinoff_prover]
proof fn lemma_summary_lines(document: SessionSummaryDocument)
    requires
        !document.markdown@.contains('\r'),
    ensures
        ({
            let s = summary_document_text(document);
            let h = summary_header_lines(document);
            &&& !s.contains('\r')
            &&& line_start(s, 9) < s.len()
            &&& forall|k: nat| k < 10 ==> text_line(s, k) == #[trigger] h[k as int]
            &&& s.skip(line_start(s, 10)) == document.markdown@
        }),
{
    let s = summary_document_text(document);
    let h = summary_header_lines(document);
    let m = document.markdown@;
    lemma_summary_text_is_lines(document);
    lemma_summary_header_line_free(document);
    assert forall|k: nat| k < 10 implies text_line(s, k) == #[trigger] h[k as int] by {
        lemma_leading_lines_of_text(h, m, k);
    }
    lemma_leading_lines_of_text(h, m, 9);
    lemma_leading_lines_of_text(h, m, 10);
    assert(h.take(10) =~= h);
    assert(h.take(10).drop_last() =~= h.take(9));
    assert(s.skip(text_of_lines(h).len() as int) =~= m);
    crate::persistence::lines::lemma_lines_of_text(h);
    assert(!s.contains('\r')) by {
        if s.contains('\r') {
            let i = choose|i: int| 0 <= i < s.len() && s[i] == '\r';
            if i < text_of_lines(h).len() {
                assert(text_of_lines(h)[i] == '\r');
            } else {
                assert(m[i - text_of_lines(h).len()] == '\r');
            }
        }
    }
}

/// A rendered summary reads back: its bytes decode to its text, which has
/// the canonical frame; each header line holds the value written, the
/// counts parse to the counts written, and the body is the Markdown
/// written. Where the JSON and UUID readers give back what their writers
/// wrote, the stored identities and values read as the document's.
#[verifier::spinoff_prover]
#[verifier::rlimit(40)]
pub proof fn rendered_summary_reads_back(document: SessionSummaryDocument)
    requires
        !document.markdown@.contains('\r'),
    ensures
        ({
            let s = summary_document_text(document);
            &&& vstd::utf8::valid_utf8(vstd::utf8::encode_utf8(s))
            &&& vstd::utf8::decode_utf8(vstd::utf8::encode_utf8(s)) == s
            &&& summary_frame_ok(s)
            &&& text_line(s, 3).skip(12) == json_string_text(uuid_text_of(document.project_id))
            &&& text_line(s, 4).skip(12) == json_string_text(uuid_text_of(document.session_id))
            &&& text_line(s, 5).skip(14) == json_string_text(document.generated_at@)
            &&& text_line(s, 6).skip(10) == json_string_text(document.model_id@)
            &&& parse_unsigned_spec(text_line(s, 7).skip(21), u32::MAX as nat) == Some(
                document.segments_considered as nat,
            )
            &&& parse_unsigned_spec(text_line(s, 8).skip(19), u32::MAX as nat) == Some(
                document.segments_included as nat,
            )
            &&& s.skip(line_start(s, 10)) == document.markdown@
            &&& (stored_uuid(json_string_text(uuid_text_of(document.project_id))) == Some(
                document.project_id,
            ) && stored_uuid(json_string_text(uuid_text_of(document.session_id))) == Some(
                document.session_id,
            )) ==> summary_identities(s) == Some((document.project_id, document.session_id))
            &&& (json_string_value(json_string_text(document.generated_at@)) == Some(
                document.generated_at@,
            ) && json_string_value(json_string_text(document.model_id@)) == Some(
                document.model_id@,
            )) ==> summary_values_ok(s)
        }),
{
    let s = summary_document_text(document);
    let h = summary_header_lines(document);
    vstd::utf8::encode_utf8_valid_utf8(s);
    vstd::utf8::encode_utf8_decode_utf8(s);
    lemma_summary_lines(document);
    assert(text_line(s, 0) == h[0]);
    assert(text_line(s, 1) == h[1]);
    assert(text_line(s, 2) == h[2]);
    assert(text_line(s, 3) == h[3]);
    assert(text_line(s, 4) == h[4]);
    assert(text_line(s, 5) == h[5]);
    assert(text_line(s, 6) == h[6]);
    assert(text_line(s, 7) == h[7]);
    assert(text_line(s, 8) == h[8]);
    assert(text_line(s, 9) == h[9]);
    reveal_strlit("project_id: ");
    reveal_strlit("session_id: ");
    reveal_strlit("generated_at: ");
    reveal_strlit("model_id: ");
    reveal_strlit("segments_considered: ");
    reveal_strlit("segments_included: ");
    lemma_prefixed("project_id: "@, json_string_text(uuid_text_of(document.project_id)));
    lemma_prefixed("session_id: "@, json_string_text(uuid_text_of(document.session_id)));
    lemma_prefixed("generated_at: "@, json_string_text(document.generated_at@));
    lemma_prefixed("model_id: "@, json_string_text(document.model_id@));
    lemma_prefixed("segments_considered: "@, decimal(document.segments_considered as nat));
    lemma_prefixed("segments_included: "@, decimal(document.segments_included as nat));
    lemma_parse_decimal(document.segments_considered as nat, u32::MAX as nat);
    lemma_parse_decimal(document.segments_included as nat, u32::MAX as nat);
}

} // verus!
