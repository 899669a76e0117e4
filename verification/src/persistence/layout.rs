//! The portable folder contract: where every file of a project and one of
//! its sessions lives, relative to the workspace root.

use vstd::prelude::*;

use crate::codes::Code;
use crate::persistence::project_store::ProjectIdentity;
use crate::persistence::session_store::SessionIdentity;
use crate::text::{push_str, starts_with_seq, to_chars, utf8_byte_len, utf8_count};

verus! {

/// The relative paths of a project's and a session's files.
#[derive(Debug)]
pub struct PortableFolderContract {
    pub project_directory: String,
    pub project_document: String,
    pub presets_directory: String,
    pub sessions_directory: String,
    pub session_directory: String,
    pub session_document: String,
    pub transcript_document: String,
    pub summary_document: String,
    pub insights_document: String,
    pub actions_document: String,
    pub questions_document: String,
    pub recovery_journal: String,
    pub audio_directory: String,
}

/// `a + b`.
fn concat(a: &str, b: &str) -> (r: String)
    ensures
        r@ == a@ + b@,
{
    let mut r = String::new();
    push_str(&mut r, a);
    push_str(&mut r, b);
    proof {
        assert(r@ =~= a@ + b@);
    }
    r
}

pub open spec fn project_directory_spec(project: ProjectIdentity) -> Seq<char> {
    "projects/"@ + project.folder_name@
}

pub open spec fn session_directory_spec(project: ProjectIdentity, session: SessionIdentity) -> Seq<
    char,
> {
    project_directory_spec(project) + "/sessions"@ + "/"@ + session.folder_name@
}

impl PortableFolderContract {
    /// The folder contract of `session` inside `project`: a project folder
    /// name outside the records' folder-name rule is refused first, then such
    /// a session folder name, then a session of another project. Every path
    /// of the contract lies under `projects/` and is a plain relative path.
    pub fn for_records(project: &ProjectIdentity, session: &SessionIdentity) -> (r: Result<
        Self,
        Code,
    >)
        ensures
            r is Ok <==> record_folder_ok(project.folder_name@) && record_folder_ok(
                session.folder_name@,
            ) && session.project_id == project.id,
            r matches Err(code) ==> code == if !record_folder_ok(project.folder_name@) {
                Code::ProjectContractInvalid
            } else if !record_folder_ok(session.folder_name@) {
                Code::SessionContractInvalid
            } else {
                Code::SessionProjectIdentityMismatch
            },
            r matches Ok(c) ==> {
                &&& starts_with_seq(c.project_directory@, "projects/"@)
                &&& starts_with_seq(c.session_directory@, "projects/"@)
                &&& plain_relative_path(c.project_directory@)
                &&& plain_relative_path(c.project_document@)
                &&& plain_relative_path(c.presets_directory@)
                &&& plain_relative_path(c.sessions_directory@)
                &&& plain_relative_path(c.session_directory@)
                &&& plain_relative_path(c.session_document@)
                &&& plain_relative_path(c.transcript_document@)
                &&& plain_relative_path(c.summary_document@)
                &&& plain_relative_path(c.insights_document@)
                &&& plain_relative_path(c.actions_document@)
                &&& plain_relative_path(c.questions_document@)
                &&& plain_relative_path(c.recovery_journal@)
                &&& plain_relative_path(c.audio_directory@)
            },
            r matches Ok(c) ==> {
                let pd = project_directory_spec(*project);
                let sd = session_directory_spec(*project, *session);
                &&& c.project_directory@ == pd
                &&& c.project_document@ == pd + "/project.md"@
                &&& c.presets_directory@ == pd + "/presets"@
                &&& c.sessions_directory@ == pd + "/sessions"@
                &&& c.session_directory@ == sd
                &&& c.session_document@ == sd + "/session.md"@
                &&& c.transcript_document@ == sd + "/transcript.md"@
                &&& c.summary_document@ == sd + "/summary.md"@
                &&& c.insights_document@ == sd + "/insights.md"@
                &&& c.actions_document@ == sd + "/actions.md"@
                &&& c.questions_document@ == sd + "/questions.md"@
                &&& c.recovery_journal@ == sd + "/recovery.journal"@
                &&& c.audio_directory@ == sd + "/audio"@
            },
    {
        if !record_folder_valid(project.folder_name.as_str()) {
            return Err(Code::ProjectContractInvalid);
        }
        if !record_folder_valid(session.folder_name.as_str()) {
            return Err(Code::SessionContractInvalid);
        }
        if session.project_id != project.id {
            return Err(Code::SessionProjectIdentityMismatch);
        }
        proof {
            folder_contract_paths_are_fixed_relative_descendants(*project, *session);
        }
        let project_directory = concat("projects/", project.folder_name.as_str());
        let sessions_directory = concat(project_directory.as_str(), "/sessions");
        let session_parent = concat(sessions_directory.as_str(), "/");
        let session_directory = concat(session_parent.as_str(), session.folder_name.as_str());
        Ok(
            PortableFolderContract {
                project_document: concat(project_directory.as_str(), "/project.md"),
                presets_directory: concat(project_directory.as_str(), "/presets"),
                session_document: concat(session_directory.as_str(), "/session.md"),
                transcript_document: concat(session_directory.as_str(), "/transcript.md"),
                summary_document: concat(session_directory.as_str(), "/summary.md"),
                insights_document: concat(session_directory.as_str(), "/insights.md"),
                actions_document: concat(session_directory.as_str(), "/actions.md"),
                questions_document: concat(session_directory.as_str(), "/questions.md"),
                recovery_journal: concat(session_directory.as_str(), "/recovery.journal"),
                audio_directory: concat(session_directory.as_str(), "/audio"),
                project_directory,
                sessions_directory,
                session_directory,
            },
        )
    }
}

/// A character of a folder name: a lower-case ASCII letter, a digit or a
/// hyphen.
pub open spec fn folder_name_char(c: char) -> bool {
    ('a' <= c && c <= 'z') || ('0' <= c && c <= '9') || c == '-'
}

/// A folder name as the records carry it: non-empty, of folder characters.
pub open spec fn folder_name_ok(name: Seq<char>) -> bool {
    name.len() > 0 && forall|i: int| 0 <= i < name.len() ==> folder_name_char(#[trigger] name[i])
}

/// The folder-name rule of the records: a folder name of at most 128 bytes.
pub open spec fn record_folder_ok(name: Seq<char>) -> bool {
    folder_name_ok(name) && utf8_count(name) <= 128
}

/// Whether `name` meets the folder-name rule of the records.
pub fn record_folder_valid(name: &str) -> (r: bool)
    ensures
        r == record_folder_ok(name@),
{
    let chars = to_chars(name);
    let n = chars.len();
    if n == 0 || utf8_byte_len(chars.as_slice()) > 128 {
        return false;
    }
    for i in 0..n
        invariant
            n == chars@.len(),
            chars@ == name@,
            forall|j: int| 0 <= j < i ==> folder_name_char(#[trigger] chars@[j]),
    {
        let c = chars[i];
        if !(('a' <= c && c <= 'z') || ('0' <= c && c <= '9') || c == '-') {
            return false;
        }
    }
    true
}

/// A relative path of the contract: folder characters, `/` and `.`, where
/// every dot is followed by a folder character, so that no component is
/// `.` or `..` and no `..` occurs.
pub open spec fn plain_relative_path(p: Seq<char>) -> bool {
    &&& forall|i: int|
        0 <= i < p.len() ==> folder_name_char(#[trigger] p[i]) || p[i] == '/' || p[i] == '.'
    &&& forall|i: int|
        0 <= i < p.len() && #[trigger] p[i] == '.' ==> i + 1 < p.len() && folder_name_char(p[i + 1])
}

/// A plain relative path holds no backslash, no colon and no `..`.
pub proof fn plain_paths_hold_no_parent_step_backslash_or_colon(p: Seq<char>)
    requires
        plain_relative_path(p),
    ensures
        !p.contains('\\'),
        !p.contains(':'),
        forall|i: int| 0 <= i < p.len() - 1 ==> !(#[trigger] p[i] == '.' && p[i + 1] == '.'),
{
    assert forall|i: int| 0 <= i < p.len() - 1 implies !(#[trigger] p[i] == '.' && p[i + 1] == '.') by {
        if p[i] == '.' {
            assert(folder_name_char(p[i + 1]));
        }
    }
}

proof fn lemma_plain_concat(a: Seq<char>, b: Seq<char>)
    requires
        plain_relative_path(a),
        plain_relative_path(b),
    ensures
        plain_relative_path(a + b),
{
    let s = a + b;
    assert forall|i: int| 0 <= i < s.len() implies folder_name_char(#[trigger] s[i]) || s[i] == '/'
        || s[i] == '.' by {
        if i < a.len() {
            assert(s[i] == a[i]);
        } else {
            assert(s[i] == b[i - a.len()]);
        }
    }
    assert forall|i: int| 0 <= i < s.len() && #[trigger] s[i] == '.' implies i + 1 < s.len()
        && folder_name_char(s[i + 1]) by {
        if i < a.len() {
            assert(s[i] == a[i]);
            assert(s[i + 1] == a[i + 1]);
        } else {
            assert(s[i] == b[i - a.len()]);
            assert(s[i + 1] == b[i + 1 - a.len()]);
        }
    }
}

proof fn lemma_folder_name_plain(name: Seq<char>)
    requires
        folder_name_ok(name),
    ensures
        plain_relative_path(name),
{
}

proof fn lemma_literals_plain()
    ensures
        plain_relative_path("projects/"@),
        plain_relative_path("/sessions"@),
        plain_relative_path("/"@),
        plain_relative_path("/project.md"@),
        plain_relative_path("/presets"@),
        plain_relative_path("/session.md"@),
        plain_relative_path("/transcript.md"@),
        plain_relative_path("/summary.md"@),
        plain_relative_path("/insights.md"@),
        plain_relative_path("/actions.md"@),
        plain_relative_path("/questions.md"@),
        plain_relative_path("/recovery.journal"@),
        plain_relative_path("/audio"@),
{
    reveal_strlit("projects/");
    reveal_strlit("/sessions");
    reveal_strlit("/");
    reveal_strlit("/project.md");
    reveal_strlit("/presets");
    reveal_strlit("/session.md");
    reveal_strlit("/transcript.md");
    reveal_strlit("/summary.md");
    reveal_strlit("/insights.md");
    reveal_strlit("/actions.md");
    reveal_strlit("/questions.md");
    reveal_strlit("/recovery.journal");
    reveal_strlit("/audio");
}

/// With folder names as the records carry them, every path of the contract
/// lies under `projects/` and is a plain relative path: no backslash, no
/// drive colon, no `.` or `..` component.
pub proof fn folder_contract_paths_are_fixed_relative_descendants(
    project: ProjectIdentity,
    session: SessionIdentity,
)
    requires
        folder_name_ok(project.folder_name@),
        folder_name_ok(session.folder_name@),
    ensures
        ({
            let pd = project_directory_spec(project);
            let sd = session_directory_spec(project, session);
            &&& starts_with_seq(pd, "projects/"@) && plain_relative_path(pd)
            &&& starts_with_seq(sd, "projects/"@) && plain_relative_path(sd)
            &&& plain_relative_path(pd + "/project.md"@)
            &&& plain_relative_path(pd + "/presets"@)
            &&& plain_relative_path(pd + "/sessions"@)
            &&& plain_relative_path(sd + "/session.md"@)
            &&& plain_relative_path(sd + "/transcript.md"@)
            &&& plain_relative_path(sd + "/summary.md"@)
            &&& plain_relative_path(sd + "/insights.md"@)
            &&& plain_relative_path(sd + "/actions.md"@)
            &&& plain_relative_path(sd + "/questions.md"@)
            &&& plain_relative_path(sd + "/recovery.journal"@)
            &&& plain_relative_path(sd + "/audio"@)
        }),
{
    reveal_strlit("projects/");
    lemma_literals_plain();
    lemma_folder_name_plain(project.folder_name@);
    lemma_folder_name_plain(session.folder_name@);
    let pd = project_directory_spec(project);
    lemma_plain_concat("projects/"@, project.folder_name@);
    lemma_plain_concat(pd, "/sessions"@);
    lemma_plain_concat(pd + "/sessions"@, "/"@);
    lemma_plain_concat(pd + "/sessions"@ + "/"@, session.folder_name@);
    let sd = session_directory_spec(project, session);
    assert(pd.subrange(0, 9) =~= "projects/"@) by {
        reveal_strlit("projects/");
    }
    assert(sd.subrange(0, 9) =~= "projects/"@) by {
        reveal_strlit("projects/");
    }
    lemma_plain_concat(pd, "/project.md"@);
    lemma_plain_concat(pd, "/presets"@);
    lemma_plain_concat(sd, "/session.md"@);
    lemma_plain_concat(sd, "/transcript.md"@);
    lemma_plain_concat(sd, "/summary.md"@);
    lemma_plain_concat(sd, "/insights.md"@);
    lemma_plain_concat(sd, "/actions.md"@);
    lemma_plain_concat(sd, "/questions.md"@);
    lemma_plain_concat(sd, "/recovery.journal"@);
    lemma_plain_concat(sd, "/audio"@);
}

} // verus!
