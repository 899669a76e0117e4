use kokorokoe::persistence::session_index::refresh_outcome;
use kokorokoe::persistence::session_index::check_session_row;
use kokorokoe::persistence::project_index::DecodedCursor;
use kokorokoe::persistence::session_index::assemble_session_page;
use kokorokoe::codes::Code;
use kokorokoe::persistence::derived_index::{
    check_search_projection, has_projection, le_u64_bytes, next_generation, projection_digest,
    projection_stream, schema_step, search_meta_usable, IndexValue, ProjectionRow, SchemaStep,
    INDEX_SCHEMA_VERSION,
};
use kokorokoe::persistence::project_index::{decode_cursor, ProjectPageRequest};
use kokorokoe::persistence::session_index::{decode_session_cursor, encode_session_cursor};
use kokorokoe::persistence::transcript_index::{
    assemble_search_page, encode_search_cursor, SearchRow, TranscriptSearchRequest,
    ValidatedSearch,
};

const PROJECT: u128 = 0xaaaaaaaa_aaaa_4aaa_8aaa_aaaaaaaaaaaa;
const PROJECT_TEXT: &str = "aaaaaaaa-aaaa-4aaa-8aaa-aaaaaaaaaaaa";
const SESSION_TEXT: &str = "cccccccc-cccc-4ccc-8ccc-cccccccccccc";

fn request(query: &str, limit: u16) -> TranscriptSearchRequest {
    TranscriptSearchRequest { project_id: PROJECT, session_id: None, query: query.to_owned(), cursor: None, limit }
}

fn row(segment: &str, text: &str) -> SearchRow {
    SearchRow {
        project_id: PROJECT_TEXT.to_owned(),
        session_id: SESSION_TEXT.to_owned(),
        segment_id: segment.to_owned(),
        source: "microphone".to_owned(),
        start_ms: 0,
        end_ms: 500,
        language: "en".to_owned(),
        text: text.to_owned(),
        checkpoint_sequence: 3,
        checkpoint_checksum: "b".repeat(64),
        snapshot_sha256: vec![1; 32],
    }
}

#[test]
fn invalid_page_requests_are_rejected_before_database_access() {
    for request in [
        ProjectPageRequest { cursor: None, limit: 0 },
        ProjectPageRequest { cursor: None, limit: 101 },
        ProjectPageRequest { cursor: Some("p1:not-a-number".to_owned()), limit: 10 },
        ProjectPageRequest { cursor: Some("p2:1:0".to_owned()), limit: 10 },
    ] {
        assert_eq!(decode_cursor(&request).unwrap_err().code, Code::ProjectPageInvalid);
    }
}

#[test]
fn invalid_pages_are_rejected_before_database_access() {
    for (cursor, limit) in [(None, 0), (None, 101), (Some("s1:not-a-number"), 10), (Some("p1:1:0"), 10)] {
        assert_eq!(decode_session_cursor(cursor, limit).unwrap_err().code, Code::SessionPageInvalid);
    }
}

#[test]
fn session_cursors_round_trip_and_need_a_generation() {
    let cursor = encode_session_cursor(4, 30);
    assert_eq!(cursor, "s1:4:30");
    let decoded = decode_session_cursor(Some(&cursor), 10).unwrap();
    assert_eq!(decoded.generation, Some(4));
    assert_eq!(decoded.offset, 30);
    assert_eq!(decode_session_cursor(None, 10).unwrap().generation, None);
    assert!(decode_session_cursor(Some("s1:0:30"), 10).is_err());
    assert!(decode_session_cursor(Some("s1:4:30:1"), 10).is_err());
    assert_eq!(decode_session_cursor(Some("s1:+4:30"), 10).unwrap().generation, Some(4));
}

#[test]
fn invalid_requests_fail_before_database_access() {
    for invalid in [request("", 10), request("query", 0), request("query", 101), request("bad\nquery", 10)] {
        assert_eq!(ValidatedSearch::new(&invalid).unwrap_err().code, Code::TranscriptSearchRequestInvalid);
    }
}

#[test]
fn cursors_bind_generation_query_project_and_session() {
    let search = ValidatedSearch::new(&request("bounded", 2)).unwrap();
    let rows = vec![
        row("11111111-1111-4111-8111-111111111111", "Bounded search one"),
        row("22222222-2222-4222-8222-222222222222", "Bounded search two"),
        row("33333333-3333-4333-8333-333333333333", "Bounded search three"),
    ];
    let first = assemble_search_page(1, &search, rows).unwrap();
    assert_eq!(first.items.len(), 2);
    let cursor = first.next_cursor.unwrap();
    assert_eq!(cursor, encode_search_cursor(1, PROJECT_TEXT, None, &search.query_key, 2));

    let mut wrong_query = request("search", 2);
    wrong_query.cursor = Some(cursor.clone());
    assert_eq!(ValidatedSearch::new(&wrong_query).unwrap_err().code, Code::TranscriptSearchCursorInvalid);
    let rebuilt = next_generation(Some(1), Code::TranscriptSearchGenerationExhausted).unwrap();
    let mut stale = request("bounded", 2);
    stale.cursor = Some(cursor);
    let stale = ValidatedSearch::new(&stale).unwrap();
    assert_eq!(
        assemble_search_page(rebuilt, &stale, vec![]).unwrap_err().code,
        Code::TranscriptSearchPageStale
    );
}

#[test]
fn empty_transcripts_are_valid_and_future_schemas_are_preserved() {
    let empty = projection_digest(&vec![]).unwrap();
    assert_eq!(empty, "e3b0c44298fc1c149afbf4c8996fb92427ae41e4649b934ca495991b7852b855");
    assert_eq!(check_search_projection(0, 0, &empty, &empty), Ok(()));
    assert_eq!(schema_step(2, INDEX_SCHEMA_VERSION, Code::TranscriptSearchFutureSchema), Err(Code::TranscriptSearchFutureSchema));
}

#[test]
fn schema_steps_and_generations() {
    assert_eq!(schema_step(0, 1, Code::ProjectIndexFutureSchema), Ok(SchemaStep::Migrate));
    assert_eq!(schema_step(1, 1, Code::ProjectIndexFutureSchema), Ok(SchemaStep::Current));
    assert_eq!(schema_step(3, 1, Code::SessionIndexFutureSchema), Err(Code::SessionIndexFutureSchema));
    assert!(!has_projection(None));
    assert!(!has_projection(Some(0)));
    assert!(has_projection(Some(1)));
    assert_eq!(next_generation(None, Code::ProjectIndexGenerationExhausted), Ok(1));
    assert_eq!(next_generation(Some(41), Code::ProjectIndexGenerationExhausted), Ok(42));
    assert_eq!(
        next_generation(Some(i64::MAX), Code::ProjectIndexGenerationExhausted),
        Err(Code::ProjectIndexGenerationExhausted)
    );
}

#[test]
fn the_projection_digest_frames_every_column() {
    assert_eq!(le_u64_bytes(0x0102), vec![2, 1, 0, 0, 0, 0, 0, 0]);
    assert_eq!(le_u64_bytes(u64::MAX), vec![255; 8]);
    let rows = vec![ProjectionRow {
        columns: vec![IndexValue::Text(b"ab".to_vec()), IndexValue::Integer(-1)],
        fingerprint: IndexValue::Blob(vec![7]),
    }];
    let stream = projection_stream(&rows).unwrap();
    let mut expected = vec![2, 0, 0, 0, 0, 0, 0, 0, b'a', b'b'];
    expected.extend([8, 0, 0, 0, 0, 0, 0, 0]);
    expected.extend([255; 8]);
    expected.extend([1, 0, 0, 0, 0, 0, 0, 0, 7]);
    assert_eq!(stream, expected);
    let digest = projection_digest(&rows).unwrap();
    assert_eq!(digest.len(), 64);
    assert_ne!(digest, projection_digest(&vec![]).unwrap());

    let null_column = vec![ProjectionRow { columns: vec![IndexValue::Null], fingerprint: IndexValue::Blob(vec![]) }];
    assert_eq!(projection_digest(&null_column), Err(Code::TranscriptSearchIndexInvalid));
    let text_fingerprint = vec![ProjectionRow { columns: vec![], fingerprint: IndexValue::Text(vec![]) }];
    assert!(projection_stream(&text_fingerprint).is_none());
}

#[test]
fn a_search_index_is_used_only_for_its_own_workspace_and_rows() {
    let meta = Some((3, "key-1".to_owned(), "d".repeat(64)));
    assert!(search_meta_usable(&meta, "key-1"));
    assert!(!search_meta_usable(&meta, "key-2"));
    assert!(!search_meta_usable(&Some((0, "key-1".to_owned(), String::new())), "key-1"));
    assert!(!search_meta_usable(&None, "key-1"));
    assert_eq!(check_search_projection(2, 1, "a", "a"), Err(Code::TranscriptSearchIndexInvalid));
    assert_eq!(check_search_projection(-1, -1, "a", "a"), Err(Code::TranscriptSearchIndexInvalid));
    assert_eq!(check_search_projection(2, 2, "a", "b"), Err(Code::TranscriptSearchIndexInvalid));
    assert_eq!(check_search_projection(2, 2, "a", "a"), Ok(()));
}

#[test]
fn a_stored_session_row_must_match_the_session_it_holds() {
    let project = "aaaaaaaa-aaaa-4aaa-8aaa-aaaaaaaaaaaa";
    let session = "cccccccc-cccc-4ccc-8ccc-cccccccccccc";
    let folder = "weekly-product-meetings--aaaaaaaa";
    let ok = |session_id: Option<&str>, project_id: Option<&str>, name: &str, project_folder: &str, len: usize| {
        check_session_row(session, project, project_folder, "2024-05-01-kickoff", session_id, project_id, name, len)
    };
    assert!(ok(Some(session), Some(project), "2024-05-01-kickoff", folder, 32).is_ok());
    let invalid = Err(kokorokoe::persistence::session_store::SessionStoreError::new(
        kokorokoe::codes::Code::SessionIndexInvalid,
    ));
    assert_eq!(ok(None, Some(project), "2024-05-01-kickoff", folder, 32), invalid);
    assert_eq!(ok(Some(project), Some(project), "2024-05-01-kickoff", folder, 32), invalid);
    assert_eq!(ok(Some(session), Some(session), "2024-05-01-kickoff", folder, 32), invalid);
    assert_eq!(ok(Some(session), Some(project), "renamed", folder, 32), invalid);
    assert_eq!(ok(Some(session), Some(project), "2024-05-01-kickoff", "weekly--bbbbbbbb", 32), invalid);
    assert_eq!(ok(Some(session), Some(project), "2024-05-01-kickoff", folder, 31), invalid);
}

#[test]
fn session_pages_hold_back_the_extra_row_and_scope_their_cursor() {
    let first = DecodedCursor { generation: None, offset: 0 };
    let page = assemble_session_page(4, first, 2, vec!["a", "b", "c"], None).unwrap();
    assert_eq!(page.items, vec!["a", "b"]);
    assert_eq!(page.next_cursor.as_deref(), Some("s1:4:2"));

    let project = "aaaaaaaa-aaaa-4aaa-8aaa-aaaaaaaaaaaa";
    let later = DecodedCursor { generation: Some(4), offset: 2 };
    let page = assemble_session_page(4, later, 2, vec!["c", "d", "e"], Some(project)).unwrap();
    assert_eq!(page.items, vec!["c", "d"]);
    assert_eq!(page.next_cursor, Some(format!("s1:4:{project}:4")));

    let last = assemble_session_page(4, later, 2, vec!["c"], Some(project)).unwrap();
    assert_eq!(last.items, vec!["c"]);
    assert_eq!(last.next_cursor, None);

    let stale = assemble_session_page(5, later, 2, vec!["c"], None).unwrap_err();
    assert_eq!(stale.code, Code::SessionPageStale);
    let broken = assemble_session_page(-1, first, 2, vec!["c"], None).unwrap_err();
    assert_eq!(broken.code, Code::SessionIndexInvalid);
}

#[test]
fn a_refresh_is_pending_until_the_rebuilt_index_holds_the_session() {
    assert!(refresh_outcome(true, &[1, 7, 9], 7).is_ok());
    assert_eq!(refresh_outcome(true, &[1, 9], 7).unwrap_err().code, Code::SessionProjectionRefreshPending);
    assert_eq!(refresh_outcome(false, &[7], 7).unwrap_err().code, Code::SessionProjectionRefreshPending);
    assert_eq!(refresh_outcome(true, &[], 7).unwrap_err().code, Code::SessionProjectionRefreshPending);
}
