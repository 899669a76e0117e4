use kokorokoe::codes::Code;
use kokorokoe::persistence::session_index::{
    decode_project_cursor, encode_project_cursor, valid_project_folder,
};
use kokorokoe::persistence::session_journal::AudioSource;
use kokorokoe::persistence::transcript_index::{
    assemble_search_page, checked_stable_snippet, decode_cursor, encode_search_cursor,
    inject_fault, stable_snippet, SearchRebuildFault, SearchRow, TranscriptSearchRequest,
    ValidatedSearch,
};
use kokorokoe::persistence::transcript_service::{
    check_context_request, closing_window_start, encode_hex, encode_read_cursor,
    evenly_spaced_indexes, neighbor_window, page_window, recent_insight_start,
    recent_window_start, summary_read_plan, NeighborWindow, ReadCursor, TranscriptContextKind,
    TranscriptPageRequest,
};

const PROJECT: u128 = 0xaaaaaaaa_aaaa_4aaa_8aaa_aaaaaaaaaaaa;
const SESSION: u128 = 0xcccccccc_cccc_4ccc_8ccc_cccccccccccc;
const PROJECT_TEXT: &str = "aaaaaaaa-aaaa-4aaa-8aaa-aaaaaaaaaaaa";
const SESSION_TEXT: &str = "cccccccc-cccc-4ccc-8ccc-cccccccccccc";

fn page_request(cursor: Option<String>, limit: u16) -> TranscriptPageRequest {
    TranscriptPageRequest { project_id: PROJECT, session_id: SESSION, cursor, limit }
}

#[test]
fn read_cursors_round_trip_and_bind_the_session() {
    let fingerprint = "0123456789abcdef".repeat(4);
    let cursor = encode_read_cursor(PROJECT, SESSION, &fingerprint, 25);
    assert_eq!(cursor, format!("r1:{PROJECT_TEXT}:{SESSION_TEXT}:{fingerprint}:25"));
    let decoded = ReadCursor::decode(&page_request(Some(cursor.clone()), 10)).unwrap();
    assert_eq!(decoded.fingerprint, Some(fingerprint.clone()));
    assert_eq!(decoded.offset, 25);

    let other = TranscriptPageRequest { project_id: PROJECT, session_id: PROJECT, cursor: Some(cursor), limit: 10 };
    assert_eq!(ReadCursor::decode(&other).unwrap_err(), Code::TranscriptPageCursorInvalid);
    let too_far = encode_read_cursor(PROJECT, SESSION, &fingerprint, 100_001);
    assert!(ReadCursor::decode(&page_request(Some(too_far), 10)).is_err());
    let upper = encode_read_cursor(PROJECT, SESSION, &fingerprint.to_uppercase(), 1);
    assert!(ReadCursor::decode(&page_request(Some(upper), 10)).is_err());
    let first = ReadCursor::decode(&page_request(None, 10)).unwrap();
    assert_eq!(first.fingerprint, None);
    assert_eq!(first.offset, 0);
}

#[test]
fn page_windows_are_bounded_and_detect_stale_snapshots() {
    let fingerprint = "ab".repeat(32);
    let request = page_request(None, 10);
    let first = ReadCursor { fingerprint: None, offset: 0 };
    let window = page_window(&request, &first, &fingerprint, 25).unwrap();
    assert_eq!((window.start, window.end), (0, 10));
    assert_eq!(window.next_cursor, Some(format!("r1:{PROJECT_TEXT}:{SESSION_TEXT}:{fingerprint}:10")));

    let last = ReadCursor { fingerprint: Some(fingerprint.clone()), offset: 20 };
    let window = page_window(&request, &last, &fingerprint, 25).unwrap();
    assert_eq!((window.start, window.end), (20, 25));
    assert_eq!(window.next_cursor, None);

    let stale = ReadCursor { fingerprint: Some("cd".repeat(32)), offset: 0 };
    assert_eq!(page_window(&request, &stale, &fingerprint, 25).unwrap_err(), Code::TranscriptPageStale);
    let past = ReadCursor { fingerprint: None, offset: 26 };
    assert_eq!(page_window(&request, &past, &fingerprint, 25).unwrap_err(), Code::TranscriptPageCursorInvalid);
}

#[test]
fn evenly_spaced_samples_span_the_session() {
    assert_eq!(evenly_spaced_indexes(0, 64), Vec::<usize>::new());
    assert_eq!(evenly_spaced_indexes(5, 0), Vec::<usize>::new());
    assert_eq!(evenly_spaced_indexes(3, 64), vec![0, 1, 2]);
    assert_eq!(evenly_spaced_indexes(10, 1), vec![0]);
    assert_eq!(evenly_spaced_indexes(10, 4), vec![0, 3, 6, 9]);
    let sample = evenly_spaced_indexes(1_000, 64);
    assert_eq!(sample.len(), 64);
    assert_eq!(sample[0], 0);
    assert_eq!(sample[63], 999);
    assert!(sample.windows(2).all(|pair| pair[0] < pair[1]));
    assert_eq!(recent_window_start(30), 18);
    assert_eq!(recent_window_start(5), 0);
    assert_eq!(closing_window_start(30), 6);
    assert_eq!(closing_window_start(24), 0);
}

#[test]
fn hex_is_two_lower_case_digits_per_byte() {
    assert_eq!(encode_hex(&[0x00, 0x0f, 0xa0, 0xff]), "000fa0ff");
    assert_eq!(encode_hex(&[]), "");
}

fn search_request(query: &str, session: Option<u128>, cursor: Option<String>, limit: u16) -> TranscriptSearchRequest {
    TranscriptSearchRequest { project_id: PROJECT, session_id: session, query: query.to_owned(), cursor, limit }
}

#[test]
fn search_requests_are_validated_and_quoted() {
    let search = ValidatedSearch::new(&search_request("Budget  \"Q3\" Plan", None, None, 20)).unwrap();
    assert_eq!(search.query_terms, vec!["budget".to_owned(), "\"q3\"".to_owned(), "plan".to_owned()]);
    assert_eq!(search.fts_query, "\"budget\" AND \"\"\"q3\"\"\" AND \"plan\"");
    assert_eq!(search.query_key.len(), 16);
    assert_eq!(search.project_id, PROJECT_TEXT);
    assert_eq!(search.session_id, None);
    assert_eq!(search.cursor.generation, None);

    for (query, limit) in [("", 10), ("a\u{7}", 10), ("ok", 0), ("ok", 101), ("   ", 10)] {
        assert_eq!(
            ValidatedSearch::new(&search_request(query, None, None, limit)).unwrap_err().code,
            Code::TranscriptSearchRequestInvalid
        );
    }
    let many = (0..17).map(|i| format!("t{i}")).collect::<Vec<_>>().join(" ");
    assert!(ValidatedSearch::new(&search_request(&many, None, None, 10)).is_err());
    assert!(ValidatedSearch::new(&search_request(&"x".repeat(257), None, None, 10)).is_err());
}

#[test]
fn search_cursors_bind_generation_query_project_and_session() {
    let search = ValidatedSearch::new(&search_request("budget", Some(SESSION), None, 20)).unwrap();
    let cursor = encode_search_cursor(4, PROJECT_TEXT, Some(SESSION_TEXT), &search.query_key, 20);
    assert_eq!(cursor, format!("t1:4:{PROJECT_TEXT}:{SESSION_TEXT}:{}:20", search.query_key));
    let next = ValidatedSearch::new(&search_request("budget", Some(SESSION), Some(cursor.clone()), 20)).unwrap();
    assert_eq!(next.cursor.generation, Some(4));
    assert_eq!(next.cursor.offset, 20);

    let other_query = ValidatedSearch::new(&search_request("plan", Some(SESSION), Some(cursor.clone()), 20));
    assert_eq!(other_query.unwrap_err().code, Code::TranscriptSearchCursorInvalid);
    let project_scope = ValidatedSearch::new(&search_request("budget", None, Some(cursor), 20));
    assert_eq!(project_scope.unwrap_err().code, Code::TranscriptSearchCursorInvalid);
    assert!(decode_cursor(Some("t1:0:p:*:k:1"), "p", None, "k").is_err());
    assert_eq!(decode_cursor(Some("t1:2:p:*:k:7"), "p", None, "k").unwrap().offset, 7);
    assert!(decode_cursor(Some("t1:2:p:*:k:100001"), "p", None, "k").is_err());
}

#[test]
fn snippets_center_on_the_first_match() {
    let terms = vec!["needle".to_owned()];
    assert_eq!(stable_snippet("  a   Needle\n in  hay ", &terms), "a Needle in hay");
    let long = format!("{} needle {}", "x".repeat(100), "y".repeat(300));
    let snippet = stable_snippet(&long, &terms);
    assert!(snippet.starts_with('…'));
    assert!(snippet.ends_with('…'));
    assert_eq!(snippet.chars().count(), 242);
    assert!(snippet.contains("needle"));
    assert_eq!(stable_snippet("no match here", &terms), "no match here");
    assert_eq!(checked_stable_snippet("a Needle", &terms), Some("a Needle".to_owned()));
}

fn row(segment: &str, text: &str) -> SearchRow {
    SearchRow {
        project_id: PROJECT_TEXT.to_owned(),
        session_id: SESSION_TEXT.to_owned(),
        segment_id: segment.to_owned(),
        source: "system_output".to_owned(),
        start_ms: 10,
        end_ms: 20,
        language: "en".to_owned(),
        text: text.to_owned(),
        checkpoint_sequence: 3,
        checkpoint_checksum: "a".repeat(64),
        snapshot_sha256: vec![0; 32],
    }
}

#[test]
fn search_pages_hold_back_the_extra_row_and_check_every_row() {
    let search = ValidatedSearch::new(&search_request("budget", None, None, 1)).unwrap();
    let rows = vec![
        row("11111111-1111-4111-8111-111111111111", "the budget"),
        row("22222222-2222-4222-8222-222222222222", "budget again"),
    ];
    let page = assemble_search_page(5, &search, rows).unwrap();
    assert_eq!(page.items.len(), 1);
    assert_eq!(page.items[0].segment_id, 0x11111111_1111_4111_8111_111111111111);
    assert_eq!(page.items[0].source, AudioSource::SystemOutput);
    assert_eq!(page.items[0].snippet, "the budget");
    assert_eq!(page.next_cursor, Some(format!("t1:5:{PROJECT_TEXT}:*:{}:1", search.query_key)));

    let mut bad = row("11111111-1111-4111-8111-111111111111", "x");
    bad.end_ms = 5;
    assert_eq!(assemble_search_page(5, &search, vec![bad]).unwrap_err().code, Code::TranscriptSearchIndexInvalid);
    assert_eq!(assemble_search_page(-1, &search, vec![]).unwrap_err().code, Code::TranscriptSearchIndexInvalid);
    let stale = ValidatedSearch::new(&search_request("budget", None, Some(encode_search_cursor(4, PROJECT_TEXT, None, &search.query_key, 1)), 1)).unwrap();
    assert_eq!(assemble_search_page(5, &stale, vec![]).unwrap_err().code, Code::TranscriptSearchPageStale);
    assert!(assemble_search_page(5, &search, vec![]).unwrap().next_cursor.is_none());
}

#[test]
fn search_fault_injection_hits_only_the_configured_point() {
    assert!(inject_fault(None, SearchRebuildFault::AfterDelete).is_ok());
    assert!(inject_fault(Some(SearchRebuildFault::AfterInsert), SearchRebuildFault::AfterDelete).is_ok());
    assert_eq!(
        inject_fault(Some(SearchRebuildFault::AfterDelete), SearchRebuildFault::AfterDelete).unwrap_err().code,
        Code::TranscriptSearchFaultInjected
    );
}

#[test]
fn project_folders_must_match_the_compact_project_id() {
    assert!(valid_project_folder("weekly-product-meetings--aaaaaaaa", PROJECT_TEXT));
    assert!(!valid_project_folder("weekly-product-meetings--bbbbbbbb", PROJECT_TEXT));
    assert!(!valid_project_folder("Weekly--aaaaaaaa", PROJECT_TEXT));
    assert!(!valid_project_folder("", PROJECT_TEXT));
    assert!(!valid_project_folder("x--aaaaaaaa", "aaaa-aaa"));
    assert!(!valid_project_folder(&format!("{}--aaaaaaaa", "a".repeat(119)), PROJECT_TEXT));
    assert!(valid_project_folder(&format!("{}--aaaaaaaa", "a".repeat(118)), PROJECT_TEXT));
}

#[test]
fn project_session_cursors_round_trip() {
    let cursor = encode_project_cursor(3, PROJECT_TEXT, 40);
    assert_eq!(cursor, format!("s1:3:{PROJECT_TEXT}:40"));
    let decoded = decode_project_cursor(Some(&cursor), 20, PROJECT_TEXT).unwrap();
    assert_eq!(decoded.generation, Some(3));
    assert_eq!(decoded.offset, 40);
    assert_eq!(decode_project_cursor(Some(&cursor), 20, SESSION_TEXT).unwrap_err().code, Code::SessionPageInvalid);
    assert_eq!(decode_project_cursor(None, 0, PROJECT_TEXT).unwrap_err().code, Code::SessionPageInvalid);
    assert_eq!(decode_project_cursor(None, 101, PROJECT_TEXT).unwrap_err().code, Code::SessionPageInvalid);
    assert!(decode_project_cursor(Some("s1:0:x:1"), 5, "x").is_err());
    assert!(decode_project_cursor(Some("s1:1:x:1:2"), 5, "x").is_err());
}

#[test]
fn manual_question_context_keeps_only_four_verified_neighbors_per_side() {
    let segment_ids = (1..=11u128).map(|index| 0x50000000_0000_4000_8000_000000000000 + index).collect::<Vec<_>>();
    let window = neighbor_window(&segment_ids, segment_ids[5]).unwrap();
    assert_eq!(window.selected, 5);
    assert_eq!(segment_ids[window.start..window.end].to_vec(), segment_ids[1..10].to_vec());
    assert_eq!(segment_ids[window.selected], segment_ids[5]);
    let missing = neighbor_window(&segment_ids, 0x12345678_1234_4123_8123_123456789abc).unwrap_err();
    assert_eq!(missing, Code::ManualQuestionSegmentNotFound);
}

#[test]
fn context_windows_clip_to_the_transcript() {
    let ids = vec![1u128, 2, 3];
    assert_eq!(neighbor_window(&ids, 1).unwrap(), NeighborWindow { start: 0, end: 3, selected: 0 });
    assert_eq!(neighbor_window(&vec![7u128, 7], 7).unwrap().selected, 0);
    assert_eq!(
        check_context_request(TranscriptContextKind::ManualQuestion, PROJECT, SESSION, Some(0)),
        Err(Code::ManualQuestionInvalid)
    );
    assert_eq!(
        check_context_request(TranscriptContextKind::RecentInsight, 0, SESSION, None),
        Err(Code::InsightInvalid)
    );
    assert_eq!(
        check_context_request(TranscriptContextKind::SessionSummary, PROJECT, 0, None),
        Err(Code::SummaryInvalid)
    );
    assert_eq!(check_context_request(TranscriptContextKind::ManualQuestion, PROJECT, SESSION, Some(5)), Ok(()));
    assert_eq!(recent_insight_start(0), Err(Code::InsightTranscriptEmpty));
    assert_eq!(recent_insight_start(30), Ok(18));
    assert_eq!(summary_read_plan(0).err().unwrap(), Code::SummaryTranscriptEmpty);
    let plan = summary_read_plan(100).unwrap();
    assert_eq!(plan.sampled.len(), 64);
    assert_eq!(plan.sampled[0], 0);
    assert_eq!(*plan.sampled.last().unwrap(), 99);
    assert_eq!(plan.closing_start, 76);
}
