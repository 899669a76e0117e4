use kokorokoe::security::workspace::{free_space_report, LOW_DISK_WARNING_BYTES};
use kokorokoe::security::workspace::may_create_workspace_leaf;
use kokorokoe::errors::{AppErrorCode, WorkspaceProblem};
use kokorokoe::security::authorization::authorize_main_window;
use kokorokoe::security::redaction::{
    redact_openrouter_keys, redact_path_tokens, redact_token_after, sanitize_technical_detail,
};
use kokorokoe::security::workspace::{
    display_canonical_path, is_reserved_windows_name, validate_workspace_path_syntax,
    workspace_drive_letter,
};

#[test]
fn only_the_exact_main_window_label_is_authorized() {
    assert!(authorize_main_window("main").is_ok());

    for label in ["Main", "main-settings", "transcript", "insights", "unknown"] {
        let error = authorize_main_window(label).expect_err("must reject other windows");
        assert_eq!(error.code, AppErrorCode::CommandNotAuthorized);
        assert!(!error.retryable);
    }
}

#[test]
fn technical_details_remove_control_characters_and_tokens() {
    let sanitized = sanitize_technical_detail(
        "request\nAuthorization: Bearer secret-canary and sk-or-private-canary at C:\\Users\\Example\\meeting.md",
    );

    assert!(!sanitized.contains('\n'));
    assert!(!sanitized.contains("secret-canary"));
    assert!(!sanitized.contains("sk-or-private-canary"));
    assert!(!sanitized.contains("Example"));
    assert!(sanitized.contains("[PATH]"));
    assert_eq!(sanitized.matches("[REDACTED]").count(), 2);
}

#[test]
fn sanitized_detail_has_an_exact_shape() {
    assert_eq!(
        sanitize_technical_detail("a\tb  Bearer tok x"),
        "a b [REDACTED] x"
    );
    assert_eq!(sanitize_technical_detail(""), "");
}

#[test]
fn sanitized_detail_is_bounded_before_redaction() {
    let long = "x".repeat(600);
    assert_eq!(sanitize_technical_detail(&long).len(), 512);
    // A character outside the basic plane counts as two UTF-16 units.
    let wide = "\u{1F600}".repeat(300);
    assert_eq!(sanitize_technical_detail(&wide).chars().count(), 256);
}

#[test]
fn token_redaction_stops_at_whitespace() {
    assert_eq!(
        redact_token_after("key=sk-or-abc def sk-or-", "sk-or-"),
        "key=[REDACTED] def [REDACTED]"
    );
    assert_eq!(redact_openrouter_keys("no keys here"), "no keys here");
}

#[test]
fn path_tokens_are_replaced_and_whitespace_collapsed() {
    assert_eq!(
        redact_path_tokens("  open \\\\server\\share  and d:/x ok "),
        "open [PATH] and [PATH] ok"
    );
}

#[test]
fn workspace_syntax_rejects_relative_traversal_ads_and_non_local_paths() {
    for path in [
        r"relative\workspace",
        r"C:\safe\..\escape",
        r"C:\safe\file:stream",
        r"C:\CON\workspace",
        r"C:\safe.\workspace",
        r"C:/safe/workspace",
        r"C:\",
        r"\\server\share\workspace",
        r"\\?\C:\workspace",
    ] {
        assert!(
            validate_workspace_path_syntax(path).is_err(),
            "{path} must be rejected"
        );
    }
}

#[test]
fn workspace_syntax_reports_each_problem() {
    let problem = |path: &str| match validate_workspace_path_syntax(path).unwrap_err().code {
        AppErrorCode::WorkspaceInvalid(problem) => problem,
        other => panic!("unexpected {other:?}"),
    };
    assert_eq!(problem(r"relative\workspace"), WorkspaceProblem::NotAbsolute);
    assert_eq!(problem(r"C:\safe\..\escape"), WorkspaceProblem::Traversal);
    assert_eq!(problem(r"C:\safe\file:stream"), WorkspaceProblem::AlternateDataStream);
    assert_eq!(problem(r"C:\lpt3.txt\x"), WorkspaceProblem::ReservedName);
    assert_eq!(problem(r"C:\"), WorkspaceProblem::DriveRoot);
    assert_eq!(problem(r"\\server\share\workspace"), WorkspaceProblem::NotLocalPrefix);
    assert_eq!(problem(r"\\server"), WorkspaceProblem::NotAbsolute);
    assert_eq!(problem(r"C:\a|b"), WorkspaceProblem::UnsupportedCharacters);
    assert!(validate_workspace_path_syntax(r"C:\Users\me\.\Documents\KokoroKoe").is_ok());
    assert!(validate_workspace_path_syntax(r"d:\meetings").is_ok());
}

#[test]
fn reserved_names_ignore_case_and_extension() {
    assert!(is_reserved_windows_name("con"));
    assert!(is_reserved_windows_name("Com7.log"));
    assert!(!is_reserved_windows_name("COM0"));
    assert!(!is_reserved_windows_name("console"));
}

#[test]
fn display_path_strips_only_the_verbatim_prefix() {
    assert_eq!(display_canonical_path(r"\\?\C:\work"), r"C:\work");
    assert_eq!(display_canonical_path(r"C:\work"), r"C:\work");
    assert_eq!(workspace_drive_letter(r"c:\work"), Some('C'));
    assert_eq!(workspace_drive_letter(r"\\server"), None);
}

#[test]
fn free_space_is_capped_and_low_space_warns() {
    assert_eq!(free_space_report(0), (0, true));
    assert_eq!(free_space_report(LOW_DISK_WARNING_BYTES - 1), (LOW_DISK_WARNING_BYTES - 1, true));
    assert_eq!(free_space_report(LOW_DISK_WARNING_BYTES), (LOW_DISK_WARNING_BYTES, false));
    assert_eq!(free_space_report(u64::MAX), (9_007_199_254_740_991, false));
}

#[test]
fn only_the_default_workspace_leaf_is_created_automatically() {
    assert!(may_create_workspace_leaf(Some("KokoroKoe")));
    assert!(!may_create_workspace_leaf(Some("kokorokoe")));
    assert!(!may_create_workspace_leaf(Some("Other")));
    assert!(!may_create_workspace_leaf(None));
}

#[test]
fn redaction_leaves_no_prefix_and_keeps_clean_text() {
    assert_eq!(redact_token_after("a sk-or-xyz b", "sk-or-"), "a [REDACTED] b");
    assert_eq!(redact_token_after("Authorization: Bearer abc.def", "Bearer "), "Authorization: [REDACTED]");
    assert_eq!(redact_token_after("nothing secret here", "sk-or-"), "nothing secret here");
    assert!(!redact_token_after("sk-or-sk-or-x sk-or-", "sk-or-").contains("sk-or-"));
}
