use brew_status::aggregate::SessionAgg;
use brew_status::aggregate::update_session_agg;
use brew_status::cache::get_stats_cache;
use brew_status::stamp::now_secs;
use brew_status::stamp::parse_local_timestamp;
use brew_status::stats::SessionFile;
use brew_status::table::Table;
use brew_status::util::is_jsonl_ext;
use brew_status::util::sat_add_u64;
use brew_status::util::sort_strings;
use brew_status::util::u64_to_string;

#[test]
fn log_suffix_matches_any_casing() {
    assert!(is_jsonl_ext("jsonl"));
    assert!(is_jsonl_ext("JSONL"));
    assert!(is_jsonl_ext("JsonL"));
    assert!(!is_jsonl_ext("json"));
    assert!(!is_jsonl_ext("jsonlx"));
    assert!(!is_jsonl_ext("txt"));
}

#[test]
fn session_window_update_keeps_bounds_and_count() {
    let mut sessions: Table<SessionAgg> = Table::new();
    update_session_agg(&mut sessions, "s", 1000, "iso-a");
    update_session_agg(&mut sessions, "s", 500, "iso-b");
    update_session_agg(&mut sessions, "s", 800, "iso-c");
    update_session_agg(&mut sessions, "t", 300, "iso-d");
    assert_eq!(sessions.len(), 2);
    let s = sessions.get("s").unwrap();
    assert_eq!(s.first_ts_ms, 500);
    assert_eq!(s.first_ts_iso, "iso-b");
    assert_eq!(s.last_ts_ms, 1000);
    assert_eq!(s.message_count, 3);
    let t = sessions.get("t").unwrap();
    assert_eq!(t.first_ts_ms, 300);
    assert_eq!(t.message_count, 1);
}

#[test]
fn saturating_sum_clamps_at_the_maximum() {
    assert_eq!(sat_add_u64(1, 2), 3);
    assert_eq!(sat_add_u64(u64::MAX - 1, 5), u64::MAX);
    assert_eq!(sat_add_u64(u64::MAX, u64::MAX), u64::MAX);
}

#[test]
fn decimal_rendering_is_plain() {
    assert_eq!(u64_to_string(0), "0");
    assert_eq!(u64_to_string(9), "9");
    assert_eq!(u64_to_string(10), "10");
    assert_eq!(u64_to_string(987654321), "987654321");
}

#[test]
fn string_sort_is_strictly_ascending() {
    let v: Vec<String> = vec!["b", "aa", "a", "c"].into_iter().map(str::to_string).collect();
    let sorted = sort_strings(v);
    assert_eq!(sorted, vec!["a", "aa", "b", "c"]);
}

#[test]
fn timestamp_reader_accepts_offsets_and_rejects_the_rest() {
    let st = parse_local_timestamp("2025-03-10T09:00:00+00:00").unwrap();
    assert_eq!(st.ms, 1741597200000);
    assert!(st.hour < 24);
    let st2 = parse_local_timestamp("2025-03-10T10:00:00+01:00").unwrap();
    assert_eq!(st2.ms, st.ms);
    assert!(parse_local_timestamp("2025-03-10").is_none());
    assert!(parse_local_timestamp("soon").is_none());
}

#[test]
fn clock_reading_is_available() {
    // nothing can be promised of a clock; it only has to answer
    let _ = now_secs();
}

#[test]
fn oversized_version_field_rejects_the_document() {
    let text = format!(
        r#"{{"version": {}, "lastComputedDate": "d", "dailyActivity": [], "dailyModelTokens": [], "modelUsage": {{}}, "totalSessions": 0, "totalMessages": 0, "hourCounts": {{}}, "totalSpeculationTimeSavedMs": 0}}"#,
        (u32::MAX as u64) + 1
    );
    let files = vec![SessionFile { session_id: "A".to_string(), lines: Vec::new() }];
    let c = get_stats_cache(Some(&text), &files, "2025-03-11");
    // the unreadable document was ignored and the logs were rebuilt
    assert_eq!(c.last_computed_date, "2025-03-11");
}

#[test]
fn minimal_well_formed_document_is_served() {
    let text = r#"{"version": 3, "lastComputedDate": "d", "dailyActivity": [], "dailyModelTokens": [], "modelUsage": {}, "totalSessions": 0, "totalMessages": 0, "hourCounts": {}, "totalSpeculationTimeSavedMs": 0}"#.to_string();
    let files: Vec<SessionFile> = Vec::new();
    let c = get_stats_cache(Some(&text), &files, "2025-03-11");
    assert_eq!(c.version, 3);
    assert_eq!(c.last_computed_date, "d");
    assert!(c.longest_session.is_none());
    assert!(c.first_session_date.is_none());
}
