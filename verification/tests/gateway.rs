use brew_status::cache::get_daily_token_totals;
use brew_status::cache::get_stats_cache;
use brew_status::cache::get_today_summary;
use brew_status::stats::SessionFile;
use brew_status::today::get_today_summary_fast;
use brew_status::today::today_session_ids;

fn local_date(ts: &str) -> String {
    chrono::DateTime::parse_from_rfc3339(ts)
        .unwrap()
        .with_timezone(&chrono::Local)
        .format("%Y-%m-%d")
        .to_string()
}

fn file(name: &str, lines: &[&str]) -> SessionFile {
    SessionFile {
        session_id: name.to_string(),
        lines: lines.iter().map(|l| l.to_string()).collect(),
    }
}

const T0900: &str = "2025-03-10T09:00:00+00:00";
const T0901: &str = "2025-03-10T09:01:00+00:00";

const GOOD_CACHE: &str = r#"{
  "version": 1,
  "lastComputedDate": "2025-02-01",
  "dailyActivity": [
    {"date": "2025-01-31", "messageCount": 4, "sessionCount": 2, "toolCallCount": 1}
  ],
  "dailyModelTokens": [
    {"date": "2025-01-31", "tokensByModel": {"m": 12}}
  ],
  "modelUsage": {
    "m": {"inputTokens": 1, "outputTokens": 12, "cacheReadInputTokens": 0,
          "cacheCreationInputTokens": 0, "webSearchRequests": 0, "costUsd": 0.5,
          "contextWindow": 200000}
  },
  "totalSessions": 2,
  "totalMessages": 4,
  "longestSession": {"sessionId": "s", "duration": 10, "messageCount": 3, "timestamp": "t"},
  "firstSessionDate": "2025-01-31",
  "hourCounts": {"9": 4},
  "totalSpeculationTimeSavedMs": 7
}"#;

#[test]
fn parseable_persisted_summary_is_served_as_is() {
    let text = GOOD_CACHE.to_string();
    let files = vec![file(
        "A",
        &[&format!(r#"{{"type":"user","uuid":"u1","timestamp":"{T0900}"}}"#)],
    )];
    let c = get_stats_cache(Some(&text), &files, "2025-03-11");
    // the persisted document wins; the logs are not consulted
    assert_eq!(c.version, 1);
    assert_eq!(c.last_computed_date, "2025-02-01");
    assert_eq!(c.daily_activity.len(), 1);
    assert_eq!(c.daily_activity[0].message_count, 4);
    assert_eq!(c.daily_model_tokens[0].tokens_by_model[0], ("m".to_string(), 12));
    assert_eq!(c.model_usage[0].1.output_tokens, 12);
    // externally populated metadata is served, not dropped
    assert_eq!(c.model_usage[0].1.context_window, 200000);
    assert_eq!(c.total_sessions, 2);
    assert_eq!(c.total_messages, 4);
    assert_eq!(c.longest_session.as_ref().unwrap().duration, 10);
    assert_eq!(c.first_session_date.as_deref(), Some("2025-01-31"));
    assert_eq!(c.hour_counts[9], 4);
    assert_eq!(c.hour_counts[8], 0);
    assert_eq!(c.total_speculation_time_saved_ms, 7);
}

#[test]
fn corrupt_persisted_summary_triggers_a_fresh_rebuild() {
    let text = "{ not valid json".to_string();
    let files = vec![file(
        "A",
        &[&format!(r#"{{"type":"user","uuid":"u1","timestamp":"{T0900}"}}"#)],
    )];
    let c = get_stats_cache(Some(&text), &files, "2025-03-11");
    assert_eq!(c.last_computed_date, "2025-03-11");
    assert_eq!(c.total_messages, 1);
}

#[test]
fn summary_of_wrong_shape_triggers_a_fresh_rebuild() {
    // valid JSON, but a required field has the wrong type
    let text = r#"{"version": "one"}"#.to_string();
    let files = vec![file(
        "A",
        &[&format!(r#"{{"type":"user","uuid":"u1","timestamp":"{T0900}"}}"#)],
    )];
    let c = get_stats_cache(Some(&text), &files, "2025-03-11");
    assert_eq!(c.last_computed_date, "2025-03-11");
    assert_eq!(c.total_messages, 1);
}

#[test]
fn missing_persisted_summary_triggers_a_fresh_rebuild() {
    let files = vec![file(
        "A",
        &[&format!(r#"{{"type":"user","uuid":"u1","timestamp":"{T0900}"}}"#)],
    )];
    let c = get_stats_cache(None, &files, "2025-03-11");
    assert_eq!(c.last_computed_date, "2025-03-11");
    assert_eq!(c.total_messages, 1);
}

#[test]
fn today_summary_reads_the_current_date_entry() {
    let date = local_date(T0900);
    let files = vec![file(
        "A",
        &[
            &format!(r#"{{"type":"user","uuid":"u1","timestamp":"{T0900}"}}"#),
            &format!(
                r#"{{"type":"assistant","timestamp":"{T0901}","message":{{"id":"m1","model":"m","usage":{{"output_tokens":6}},"content":[{{"type":"tool_use","id":"t"}}]}}}}"#
            ),
        ],
    )];
    let s = get_today_summary(None, &files, &date);
    assert_eq!(s.date, date);
    assert_eq!(s.messages, 2);
    assert_eq!(s.sessions, 1);
    assert_eq!(s.tool_calls, 1);
    assert_eq!(s.total_tokens, 6);
    assert_eq!(s.tokens_by_model, vec![("m".to_string(), 6)]);
}

#[test]
fn today_summary_is_zero_for_a_date_without_entry() {
    let files = vec![file(
        "A",
        &[&format!(r#"{{"type":"user","uuid":"u1","timestamp":"{T0900}"}}"#)],
    )];
    let s = get_today_summary(None, &files, "1999-01-01");
    assert_eq!(s.messages, 0);
    assert_eq!(s.sessions, 0);
    assert_eq!(s.tool_calls, 0);
    assert_eq!(s.total_tokens, 0);
    assert!(s.tokens_by_model.is_empty());
}

#[test]
fn daily_token_totals_sum_each_day() {
    let files = vec![file(
        "A",
        &[
            &format!(
                r#"{{"type":"assistant","timestamp":"{T0900}","message":{{"id":"m1","model":"m","usage":{{"output_tokens":6}}}}}}"#
            ),
            &format!(
                r#"{{"type":"assistant","timestamp":"{T0901}","message":{{"id":"m2","model":"n","usage":{{"output_tokens":4}}}}}}"#
            ),
        ],
    )];
    let totals = get_daily_token_totals(None, &files, "2025-03-11");
    assert_eq!(totals.len(), 1);
    assert_eq!(totals[0].date, local_date(T0900));
    assert_eq!(totals[0].total, 10);
    assert_eq!(
        totals[0].by_model,
        vec![("m".to_string(), 6), ("n".to_string(), 4)]
    );
}

#[test]
fn absent_activity_log_yields_all_zero_today_summary() {
    let files = vec![file(
        "A",
        &[&format!(r#"{{"type":"user","uuid":"u1","timestamp":"{T0900}"}}"#)],
    )];
    let s = get_today_summary_fast(None, &files, 0, "2025-03-10");
    assert_eq!(s.messages, 0);
    assert_eq!(s.sessions, 0);
    assert_eq!(s.tool_calls, 0);
    assert_eq!(s.total_tokens, 0);
    assert!(s.tokens_by_model.is_empty());
}

#[test]
fn fast_path_matches_the_full_daily_entry_on_clean_data() {
    let date = local_date(T0900);
    let mk_files = || {
        vec![
            file(
                "A",
                &[
                    &format!(r#"{{"type":"user","uuid":"u1","timestamp":"{T0900}","sessionId":"A"}}"#),
                    &format!(
                        r#"{{"type":"assistant","timestamp":"{T0901}","sessionId":"A","message":{{"id":"m1","model":"m","usage":{{"output_tokens":6}},"content":[{{"type":"tool_use","id":"t"}}]}}}}"#
                    ),
                ],
            ),
            file(
                "B",
                &[&format!(
                    r#"{{"type":"assistant","timestamp":"{T0901}","sessionId":"B","message":{{"id":"m2","model":"n","usage":{{"output_tokens":4}}}}}}"#
                )],
            ),
        ]
    };
    let history: Vec<String> = vec![
        format!(r#"{{"display":"x","timestamp":1741597200000,"sessionId":"A"}}"#),
        format!(r#"{{"display":"y","timestamp":1741597260000,"sessionId":"B"}}"#),
    ];
    let fast = get_today_summary_fast(Some(&history), &mk_files(), 0, &date);
    let full = get_stats_cache(None, &mk_files(), &date);
    let day = full.daily_activity.iter().find(|a| a.date == date).unwrap();
    assert_eq!(fast.messages, day.message_count);
    assert_eq!(fast.sessions, day.session_count);
    assert_eq!(fast.tool_calls, day.tool_call_count);
    let toks = &full
        .daily_model_tokens
        .iter()
        .find(|t| t.date == date)
        .unwrap()
        .tokens_by_model;
    assert_eq!(&fast.tokens_by_model, toks);
    assert_eq!(fast.total_tokens, 10);
}

#[test]
fn fast_path_scans_only_the_sessions_the_activity_log_names() {
    let date = local_date(T0900);
    let files = vec![
        file(
            "A",
            &[&format!(r#"{{"type":"user","uuid":"u1","timestamp":"{T0900}","sessionId":"A"}}"#)],
        ),
        file(
            "B",
            &[&format!(r#"{{"type":"user","uuid":"u2","timestamp":"{T0900}","sessionId":"B"}}"#)],
        ),
    ];
    let history: Vec<String> =
        vec![format!(r#"{{"display":"x","timestamp":1741597200000,"sessionId":"A"}}"#)];
    let s = get_today_summary_fast(Some(&history), &files, 0, &date);
    assert_eq!(s.messages, 1);
    assert_eq!(s.sessions, 1);
}

#[test]
fn activity_log_sessions_filter_by_instant_and_deduplicate() {
    let lines: Vec<String> = vec![
        format!(r#"{{"display":"a","timestamp":100,"sessionId":"A"}}"#),
        format!(r#"{{"display":"b","timestamp":50,"sessionId":"B"}}"#),
        format!(r#"{{"display":"c","timestamp":150,"sessionId":"A"}}"#),
        "garbage".to_string(),
        format!(r#"{{"display":"d","timestamp":200}}"#),
    ];
    let sids = today_session_ids(&lines, 100);
    assert_eq!(sids, vec!["A".to_string()]);
}
