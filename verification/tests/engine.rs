use brew_status::models::StatsCache;
use brew_status::stats::SessionFile;
use brew_status::stats::compute_stats_cache_from_sessions;

fn local_date(ts: &str) -> String {
    chrono::DateTime::parse_from_rfc3339(ts)
        .unwrap()
        .with_timezone(&chrono::Local)
        .format("%Y-%m-%d")
        .to_string()
}

fn local_hour(ts: &str) -> u8 {
    chrono::Timelike::hour(
        &chrono::DateTime::parse_from_rfc3339(ts)
            .unwrap()
            .with_timezone(&chrono::Local),
    ) as u8
}

fn file(name: &str, lines: &[&str]) -> SessionFile {
    SessionFile {
        session_id: name.to_string(),
        lines: lines.iter().map(|l| l.to_string()).collect(),
    }
}

fn tokens_of<'a>(c: &'a StatsCache, date: &str) -> &'a Vec<(String, u64)> {
    &c.daily_model_tokens
        .iter()
        .find(|t| t.date == date)
        .unwrap()
        .tokens_by_model
}

const T0900: &str = "2025-03-10T09:00:00+00:00";
const T0901: &str = "2025-03-10T09:01:00+00:00";
const T0902: &str = "2025-03-10T09:02:00+00:00";

#[test]
fn resent_assistant_chunks_merge_by_identity() {
    // One user record and one assistant record in session A; the same
    // assistant message id re-sent from another file with a larger
    // output total and no tool blocks.
    let a = file(
        "A",
        &[
            &format!(
                r#"{{"type":"user","uuid":"u1","timestamp":"{T0900}","sessionId":"A"}}"#
            ),
            &format!(
                r#"{{"type":"assistant","timestamp":"{T0901}","sessionId":"A","message":{{"id":"m1","model":"m3","usage":{{"output_tokens":10}},"content":[{{"type":"tool_use","id":"t1"}}]}}}}"#
            ),
        ],
    );
    let b = file(
        "B",
        &[&format!(
            r#"{{"type":"assistant","timestamp":"{T0902}","sessionId":"A","message":{{"id":"m1","model":"m3","usage":{{"output_tokens":15}},"content":[]}}}}"#
        )],
    );
    let date = local_date(T0900);
    let c = compute_stats_cache_from_sessions(&vec![a, b], "2025-03-11");

    assert_eq!(c.daily_activity.len(), 1);
    let day = &c.daily_activity[0];
    assert_eq!(day.date, date);
    assert_eq!(day.message_count, 2);
    assert_eq!(day.session_count, 1);
    assert_eq!(day.tool_call_count, 1);

    let toks = tokens_of(&c, &date);
    assert_eq!(toks.len(), 1);
    assert_eq!(toks[0].0, "m3");
    assert_eq!(toks[0].1, 15);

    assert_eq!(c.model_usage.len(), 1);
    assert_eq!(c.model_usage[0].0, "m3");
    assert_eq!(c.model_usage[0].1.output_tokens, 15);
    assert_eq!(c.total_messages, 2);
    assert_eq!(c.total_sessions, 1);
}

#[test]
fn repeated_user_uuid_counts_once() {
    let a = file(
        "A",
        &[
            &format!(
                r#"{{"type":"user","uuid":"u1","timestamp":"{T0900}","sessionId":"A"}}"#
            ),
            &format!(
                r#"{{"type":"user","uuid":"u1","timestamp":"{T0901}","sessionId":"A"}}"#
            ),
        ],
    );
    let c = compute_stats_cache_from_sessions(&vec![a], "2025-03-11");
    assert_eq!(c.total_messages, 1);
    assert_eq!(c.daily_activity.len(), 1);
    assert_eq!(c.daily_activity[0].message_count, 1);
    assert_eq!(c.daily_activity[0].session_count, 1);
    // the duplicate has no effect at all: the session window stays at
    // the first occurrence's instant
    let l = c.longest_session.unwrap();
    assert_eq!(l.duration, 0);
    assert_eq!(l.message_count, 1);
}

#[test]
fn counters_take_pointwise_maximum_over_chunks() {
    let a = file(
        "A",
        &[
            &format!(
                r#"{{"type":"assistant","timestamp":"{T0900}","sessionId":"A","message":{{"id":"m1","model":"m","usage":{{"input_tokens":7,"output_tokens":10,"cache_read_input_tokens":1,"cache_creation_input_tokens":9,"web_search_requests":2}}}}}}"#
            ),
            &format!(
                r#"{{"type":"assistant","timestamp":"{T0901}","sessionId":"A","message":{{"id":"m1","model":"m","usage":{{"input_tokens":3,"output_tokens":25,"cache_read_input_tokens":8,"cache_creation_input_tokens":4,"web_search_requests":1}}}}}}"#
            ),
        ],
    );
    let c = compute_stats_cache_from_sessions(&vec![a], "2025-03-11");
    let u = &c.model_usage[0].1;
    assert_eq!(u.input_tokens, 7);
    assert_eq!(u.output_tokens, 25);
    assert_eq!(u.cache_read_input_tokens, 8);
    assert_eq!(u.cache_creation_input_tokens, 9);
    assert_eq!(u.web_search_requests, 2);
}

#[test]
fn tool_blocks_deduplicate_by_identity_across_chunks() {
    let a = file(
        "A",
        &[
            &format!(
                r#"{{"type":"assistant","timestamp":"{T0900}","sessionId":"A","message":{{"id":"m1","model":"m","content":[{{"type":"tool_use","id":"t1"}},{{"type":"tool_use","id":"t2"}}]}}}}"#
            ),
            &format!(
                r#"{{"type":"assistant","timestamp":"{T0901}","sessionId":"A","message":{{"id":"m1","model":"m","content":[{{"type":"tool_use","id":"t2"}},{{"type":"tool_use","id":"t3"}}]}}}}"#
            ),
        ],
    );
    let c = compute_stats_cache_from_sessions(&vec![a], "2025-03-11");
    assert_eq!(c.daily_activity[0].tool_call_count, 3);
}

#[test]
fn anonymous_tool_blocks_get_content_identities() {
    // two equal anonymous blocks collapse, a different one stays
    let a = file(
        "A",
        &[&format!(
            r#"{{"type":"assistant","timestamp":"{T0900}","sessionId":"A","message":{{"id":"m1","model":"m","content":[{{"type":"tool_use","name":"x"}},{{"type":"tool_use","name":"x"}},{{"type":"tool_use","name":"y"}}]}}}}"#
        )],
    );
    let c = compute_stats_cache_from_sessions(&vec![a], "2025-03-11");
    assert_eq!(c.daily_activity[0].tool_call_count, 2);
}

#[test]
fn model_name_last_non_empty_wins() {
    let a = file(
        "A",
        &[
            &format!(
                r#"{{"type":"assistant","timestamp":"{T0900}","sessionId":"A","message":{{"id":"m1","model":"first","usage":{{"output_tokens":5}}}}}}"#
            ),
            &format!(
                r#"{{"type":"assistant","timestamp":"{T0901}","sessionId":"A","message":{{"id":"m1","model":"","usage":{{"output_tokens":5}}}}}}"#
            ),
            &format!(
                r#"{{"type":"assistant","timestamp":"{T0902}","sessionId":"A","message":{{"id":"m1","model":"second","usage":{{"output_tokens":5}}}}}}"#
            ),
        ],
    );
    let c = compute_stats_cache_from_sessions(&vec![a], "2025-03-11");
    assert_eq!(c.model_usage.len(), 1);
    assert_eq!(c.model_usage[0].0, "second");
}

#[test]
fn malformed_lines_are_skipped_silently() {
    let a = file(
        "A",
        &[
            "not json at all",
            r#"{"type":"user","uuid":"u-without-timestamp"}"#,
            &format!(r#"{{"type":"user","uuid":"u1","timestamp":"{T0900}"}}"#),
            &format!(r#"{{"type":"summary","timestamp":"{T0900}"}}"#),
            r#"{"type":"user","uuid":"u2","timestamp":"not a timestamp"}"#,
        ],
    );
    let c = compute_stats_cache_from_sessions(&vec![a], "2025-03-11");
    assert_eq!(c.total_messages, 1);
}

#[test]
fn session_identity_falls_back_to_file_name() {
    let a = file(
        "fallback-session",
        &[&format!(r#"{{"type":"user","uuid":"u1","timestamp":"{T0900}"}}"#)],
    );
    let c = compute_stats_cache_from_sessions(&vec![a], "2025-03-11");
    let l = c.longest_session.unwrap();
    assert_eq!(l.session_id, "fallback-session");
}

#[test]
fn date_sequences_are_sorted_and_aligned() {
    let t_early = "2025-01-02T12:00:00+00:00";
    let t_late = "2025-02-03T12:00:00+00:00";
    let a = file(
        "A",
        &[
            &format!(r#"{{"type":"user","uuid":"u2","timestamp":"{t_late}"}}"#),
            &format!(r#"{{"type":"user","uuid":"u1","timestamp":"{t_early}"}}"#),
            &format!(
                r#"{{"type":"assistant","timestamp":"{t_late}","message":{{"id":"m1","model":"m","usage":{{"output_tokens":4}}}}}}"#
            ),
        ],
    );
    let c = compute_stats_cache_from_sessions(&vec![a], "2025-03-11");
    assert_eq!(c.daily_activity.len(), 2);
    assert_eq!(c.daily_model_tokens.len(), 2);
    assert_eq!(c.daily_activity[0].date, local_date(t_early));
    assert_eq!(c.daily_activity[1].date, local_date(t_late));
    for i in 0..c.daily_activity.len() {
        assert_eq!(c.daily_activity[i].date, c.daily_model_tokens[i].date);
    }
    // the user-only day is covered with an empty token map
    assert!(c.daily_model_tokens[0].tokens_by_model.is_empty());
    assert_eq!(c.daily_model_tokens[1].tokens_by_model[0].1, 4);
    assert_eq!(c.first_session_date.as_deref(), Some(local_date(t_early).as_str()));
}

#[test]
fn longest_session_dominates_and_breaks_ties_by_id() {
    let a = file(
        "A",
        &[
            &format!(r#"{{"type":"user","uuid":"a1","timestamp":"2025-03-10T09:00:00+00:00"}}"#),
            &format!(r#"{{"type":"user","uuid":"a2","timestamp":"2025-03-10T09:10:00+00:00"}}"#),
        ],
    );
    let b = file(
        "B",
        &[
            &format!(r#"{{"type":"user","uuid":"b1","timestamp":"2025-03-10T10:00:00+00:00"}}"#),
            &format!(r#"{{"type":"user","uuid":"b2","timestamp":"2025-03-10T10:10:00+00:00"}}"#),
        ],
    );
    let c = compute_stats_cache_from_sessions(&vec![a, b], "2025-03-11");
    let l = c.longest_session.unwrap();
    // both sessions last ten minutes; the smaller id wins the tie
    assert_eq!(l.session_id, "A");
    assert_eq!(l.duration, 600_000);
    assert_eq!(l.message_count, 2);
    assert_eq!(c.total_sessions, 2);
}

#[test]
fn longest_session_absent_only_without_sessions() {
    let c = compute_stats_cache_from_sessions(&vec![], "2025-03-11");
    assert!(c.longest_session.is_none());
    assert!(c.first_session_date.is_none());
    assert_eq!(c.total_sessions, 0);
    assert_eq!(c.total_messages, 0);
    assert!(c.daily_activity.is_empty());
    assert_eq!(c.hour_counts.len(), 24);
    assert!(c.hour_counts.iter().all(|&n| n == 0));
}

#[test]
fn hour_histogram_buckets_by_local_hour() {
    let a = file(
        "A",
        &[
            &format!(r#"{{"type":"user","uuid":"u1","timestamp":"{T0900}"}}"#),
            &format!(r#"{{"type":"user","uuid":"u2","timestamp":"{T0901}"}}"#),
        ],
    );
    let c = compute_stats_cache_from_sessions(&vec![a], "2025-03-11");
    let h = local_hour(T0900) as usize;
    assert_eq!(c.hour_counts[h], 2);
    let total: u64 = c.hour_counts.iter().sum();
    assert_eq!(total, 2);
}

#[test]
fn recompute_is_idempotent_but_for_the_computed_date() {
    let a = || {
        file(
            "A",
            &[
                &format!(r#"{{"type":"user","uuid":"u1","timestamp":"{T0900}"}}"#),
                &format!(
                    r#"{{"type":"assistant","timestamp":"{T0901}","message":{{"id":"m1","model":"m","usage":{{"output_tokens":3}},"content":[{{"type":"tool_use","id":"t"}}]}}}}"#
                ),
            ],
        )
    };
    let c1 = compute_stats_cache_from_sessions(&vec![a()], "2025-03-11");
    let c2 = compute_stats_cache_from_sessions(&vec![a()], "2025-03-12");
    assert_eq!(c1.last_computed_date, "2025-03-11");
    assert_eq!(c2.last_computed_date, "2025-03-12");
    assert_eq!(c1.version, c2.version);
    assert_eq!(c1.total_messages, c2.total_messages);
    assert_eq!(c1.total_sessions, c2.total_sessions);
    assert_eq!(c1.hour_counts, c2.hour_counts);
    assert_eq!(c1.daily_activity.len(), c2.daily_activity.len());
    for i in 0..c1.daily_activity.len() {
        let (d1, d2) = (&c1.daily_activity[i], &c2.daily_activity[i]);
        assert_eq!(d1.date, d2.date);
        assert_eq!(d1.message_count, d2.message_count);
        assert_eq!(d1.session_count, d2.session_count);
        assert_eq!(d1.tool_call_count, d2.tool_call_count);
        assert_eq!(c1.daily_model_tokens[i].tokens_by_model, c2.daily_model_tokens[i].tokens_by_model);
    }
    let (l1, l2) = (c1.longest_session.unwrap(), c2.longest_session.unwrap());
    assert_eq!(l1.session_id, l2.session_id);
    assert_eq!(l1.duration, l2.duration);
    assert_eq!(l1.timestamp, l2.timestamp);
    assert_eq!(c1.first_session_date, c2.first_session_date);
}

#[test]
fn file_enumeration_order_does_not_matter() {
    // one assistant identity split across two files with differing
    // dates and models: the canonical scan order (ascending session
    // name) decides first-seen and last-non-empty, not the order in
    // which the filesystem handed the files over
    let t_march = "2025-03-10T09:00:00+00:00";
    let t_april = "2025-04-11T09:00:00+00:00";
    let a = || {
        file(
            "A",
            &[&format!(
                r#"{{"type":"assistant","timestamp":"{t_march}","sessionId":"S","message":{{"id":"dup","model":"early","usage":{{"output_tokens":5}}}}}}"#
            )],
        )
    };
    let b = || {
        file(
            "B",
            &[&format!(
                r#"{{"type":"assistant","timestamp":"{t_april}","sessionId":"S","message":{{"id":"dup","model":"late","usage":{{"output_tokens":7}}}}}}"#
            )],
        )
    };
    let c1 = compute_stats_cache_from_sessions(&vec![a(), b()], "2025-05-01");
    let c2 = compute_stats_cache_from_sessions(&vec![b(), a()], "2025-05-01");
    // the merged message is dated by its first chunk in canonical
    // order and carries the last non-empty model in that order
    assert_eq!(c1.daily_activity.len(), 1);
    assert_eq!(c2.daily_activity.len(), 1);
    assert_eq!(c1.daily_activity[0].date, local_date(t_march));
    assert_eq!(c2.daily_activity[0].date, local_date(t_march));
    assert_eq!(c1.model_usage.len(), 1);
    assert_eq!(c1.model_usage[0].0, "late");
    assert_eq!(c2.model_usage[0].0, "late");
    assert_eq!(c1.model_usage[0].1.output_tokens, 7);
    assert_eq!(c2.model_usage[0].1.output_tokens, 7);
    let (l1, l2) = (c1.longest_session.unwrap(), c2.longest_session.unwrap());
    assert_eq!(l1.timestamp, l2.timestamp);
}

#[test]
fn web_search_requests_take_larger_of_direct_and_server_counts() {
    let a = file(
        "A",
        &[&format!(
            r#"{{"type":"assistant","timestamp":"{T0900}","message":{{"id":"m1","model":"m","usage":{{"web_search_requests":2,"server_tool_use":{{"web_search_requests":5}}}}}}}}"#
        )],
    );
    let c = compute_stats_cache_from_sessions(&vec![a], "2025-03-11");
    assert_eq!(c.model_usage[0].1.web_search_requests, 5);
}
