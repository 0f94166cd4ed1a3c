use crate::json::JVal;
use crate::json::jas_obj;
use crate::json::jas_str;
use crate::json::jas_u64;
use crate::json::jget;
use crate::json::jget_str;
use crate::json::jget_u64;
use crate::json::json_of;
use crate::json::parse_json;
use crate::json::spec_arr;
use crate::json::spec_get;
use crate::json::spec_get_str;
use crate::json::spec_get_u64;
use crate::json::spec_obj;
use crate::json::spec_str;
use crate::json::spec_u64;
use crate::models::DailyActivity;
use crate::models::DailyModelTokens;
use crate::models::LongestSession;
use crate::models::ModelUsage;
use crate::models::DailyTokenTotal;
use crate::models::StatsCache;
use crate::models::TodaySummary;
use crate::stats::SessionFile;
use crate::stats::compute_stats_cache_from_sessions;
use crate::stats::recomputed_cache;
use crate::stats::sorted_files;
use crate::util::spec_digits;
use crate::util::u64_to_string;
use vstd::prelude::*;

verus! {

/// Whether a JSON value reads as one day's activity entry.
pub open spec fn da_json_ok(v: JVal) -> bool {
    &&& spec_get_str(v, "date"@) is Some
    &&& spec_get_u64(v, "messageCount"@) is Some
    &&& spec_get_u64(v, "sessionCount"@) is Some
    &&& spec_get_u64(v, "toolCallCount"@) is Some
}

/// The activity entry a JSON value holds.
pub open spec fn da_repr(a: DailyActivity, v: JVal) -> bool {
    &&& spec_get_str(v, "date"@) == Some(a.date@)
    &&& spec_get_u64(v, "messageCount"@) == Some(a.message_count)
    &&& spec_get_u64(v, "sessionCount"@) == Some(a.session_count)
    &&& spec_get_u64(v, "toolCallCount"@) == Some(a.tool_call_count)
}

/// Whether every value of an object is an unsigned number.
pub open spec fn all_u64(entries: Seq<(String, JVal)>) -> bool {
    forall|i: int| 0 <= i < entries.len() ==> spec_u64((#[trigger] entries[i]).1) is Some
}

/// The number pairs an all-numeric object holds, key order kept.
pub open spec fn pairs_repr(r: Seq<(String, u64)>, entries: Seq<(String, JVal)>) -> bool {
    &&& r.len() == entries.len()
    &&& forall|i: int|
        0 <= i < r.len() ==> (#[trigger] r[i]).0 == entries[i].0 && Some(r[i].1) == spec_u64(
            entries[i].1,
        )
}

/// Whether a JSON value reads as one day's model-token entry.
pub open spec fn dmt_json_ok(v: JVal) -> bool {
    &&& spec_get_str(v, "date"@) is Some
    &&& match spec_get(v, "tokensByModel"@) {
        Some(t) => spec_obj(t) is Some && all_u64(spec_obj(t)->0),
        None => false,
    }
}

/// The model-token entry a JSON value holds.
pub open spec fn dmt_repr(t: DailyModelTokens, v: JVal) -> bool {
    &&& spec_get_str(v, "date"@) == Some(t.date@)
    &&& match spec_get(v, "tokensByModel"@) {
        Some(o) => spec_obj(o) is Some && pairs_repr(t.tokens_by_model@, spec_obj(o)->0),
        None => false,
    }
}

/// An optional numeric field: absent is allowed, present must be a
/// number.
pub open spec fn opt_u64_ok(v: JVal, key: Seq<char>) -> bool {
    match spec_get(v, key) {
        Some(f) => spec_u64(f) is Some,
        None => true,
    }
}

/// The reading of an optional numeric field, zero where absent.
pub open spec fn opt_u64_of(v: JVal, key: Seq<char>) -> u64 {
    match spec_get_u64(v, key) {
        Some(n) => n,
        None => 0,
    }
}

/// Whether a JSON value reads as one model's usage record.
pub open spec fn usage_json_ok(v: JVal) -> bool {
    &&& spec_get_u64(v, "inputTokens"@) is Some
    &&& spec_get_u64(v, "outputTokens"@) is Some
    &&& spec_get_u64(v, "cacheReadInputTokens"@) is Some
    &&& spec_get_u64(v, "cacheCreationInputTokens"@) is Some
    &&& spec_get_u64(v, "webSearchRequests"@) is Some
    &&& match spec_get(v, "costUsd"@) {
        Some(f) => f is Num,
        None => true,
    }
    &&& opt_u64_ok(v, "contextWindow"@)
    &&& opt_u64_ok(v, "maxOutputTokens"@)
}

/// The usage record a JSON value holds; the cost is not carried.
pub open spec fn usage_repr(u: ModelUsage, v: JVal) -> bool {
    &&& spec_get_u64(v, "inputTokens"@) == Some(u.input_tokens)
    &&& spec_get_u64(v, "outputTokens"@) == Some(u.output_tokens)
    &&& spec_get_u64(v, "cacheReadInputTokens"@) == Some(u.cache_read_input_tokens)
    &&& spec_get_u64(v, "cacheCreationInputTokens"@) == Some(u.cache_creation_input_tokens)
    &&& spec_get_u64(v, "webSearchRequests"@) == Some(u.web_search_requests)
    &&& u.context_window == opt_u64_of(v, "contextWindow"@)
    &&& u.max_output_tokens == opt_u64_of(v, "maxOutputTokens"@)
}

/// Whether a JSON value reads as the longest-session record.
pub open spec fn longest_json_ok(v: JVal) -> bool {
    &&& spec_get_str(v, "sessionId"@) is Some
    &&& spec_get_u64(v, "duration"@) is Some
    &&& spec_get_u64(v, "messageCount"@) is Some
    &&& spec_get_str(v, "timestamp"@) is Some
}

/// The longest-session record a JSON value holds.
pub open spec fn longest_repr(l: LongestSession, v: JVal) -> bool {
    &&& spec_get_str(v, "sessionId"@) == Some(l.session_id@)
    &&& spec_get_u64(v, "duration"@) == Some(l.duration)
    &&& spec_get_u64(v, "messageCount"@) == Some(l.message_count)
    &&& spec_get_str(v, "timestamp"@) == Some(l.timestamp@)
}

/// An optional field that may also be null.
pub open spec fn opt_field(v: JVal, key: Seq<char>) -> Option<JVal> {
    match spec_get(v, key) {
        Some(f) => if f is Null {
            None
        } else {
            Some(f)
        },
        None => None,
    }
}

/// Whether a whole document reads as a persisted summary: every
/// required field present with its type, every listed entry readable.
pub open spec fn cache_json_ok(v: JVal) -> bool {
    &&& match spec_get_u64(v, "version"@) {
        Some(n) => n <= u32::MAX,
        None => false,
    }
    &&& spec_get_str(v, "lastComputedDate"@) is Some
    &&& match spec_get(v, "dailyActivity"@) {
        Some(a) => spec_arr(a) is Some && (forall|i: int|
            0 <= i < spec_arr(a)->0.len() ==> da_json_ok(#[trigger] spec_arr(a)->0[i])),
        None => false,
    }
    &&& match spec_get(v, "dailyModelTokens"@) {
        Some(a) => spec_arr(a) is Some && (forall|i: int|
            0 <= i < spec_arr(a)->0.len() ==> dmt_json_ok(#[trigger] spec_arr(a)->0[i])),
        None => false,
    }
    &&& match spec_get(v, "modelUsage"@) {
        Some(o) => spec_obj(o) is Some && (forall|i: int|
            0 <= i < spec_obj(o)->0.len() ==> usage_json_ok((#[trigger] spec_obj(o)->0[i]).1)),
        None => false,
    }
    &&& spec_get_u64(v, "totalSessions"@) is Some
    &&& spec_get_u64(v, "totalMessages"@) is Some
    &&& match opt_field(v, "longestSession"@) {
        Some(l) => longest_json_ok(l),
        None => true,
    }
    &&& match opt_field(v, "firstSessionDate"@) {
        Some(d) => spec_str(d) is Some,
        None => true,
    }
    &&& match spec_get(v, "hourCounts"@) {
        Some(h) => spec_obj(h) is Some && all_u64(spec_obj(h)->0),
        None => false,
    }
    &&& spec_get_u64(v, "totalSpeculationTimeSavedMs"@) is Some
}

/// The summary a readable document holds, field for field.
pub open spec fn cache_repr(c: StatsCache, v: JVal) -> bool {
    &&& Some(c.version as u64) == spec_get_u64(v, "version"@)
    &&& spec_get_str(v, "lastComputedDate"@) == Some(c.last_computed_date@)
    &&& match spec_get(v, "dailyActivity"@) {
        Some(a) => spec_arr(a) is Some && c.daily_activity@.len() == spec_arr(a)->0.len() && (
        forall|i: int|
            0 <= i < c.daily_activity@.len() ==> da_repr(
                #[trigger] c.daily_activity@[i],
                spec_arr(a)->0[i],
            )),
        None => false,
    }
    &&& match spec_get(v, "dailyModelTokens"@) {
        Some(a) => spec_arr(a) is Some && c.daily_model_tokens@.len() == spec_arr(a)->0.len() && (
        forall|i: int|
            0 <= i < c.daily_model_tokens@.len() ==> dmt_repr(
                #[trigger] c.daily_model_tokens@[i],
                spec_arr(a)->0[i],
            )),
        None => false,
    }
    &&& match spec_get(v, "modelUsage"@) {
        Some(o) => spec_obj(o) is Some && c.model_usage@.len() == spec_obj(o)->0.len() && (forall|
            i: int,
        |
            0 <= i < c.model_usage@.len() ==> (#[trigger] c.model_usage@[i]).0 == spec_obj(
                o,
            )->0[i].0 && usage_repr(c.model_usage@[i].1, spec_obj(o)->0[i].1)),
        None => false,
    }
    &&& spec_get_u64(v, "totalSessions"@) == Some(c.total_sessions)
    &&& spec_get_u64(v, "totalMessages"@) == Some(c.total_messages)
    &&& match opt_field(v, "longestSession"@) {
        Some(l) => c.longest_session matches Some(ls) && longest_repr(ls, l),
        None => c.longest_session is None,
    }
    &&& match opt_field(v, "firstSessionDate"@) {
        Some(d) => c.first_session_date matches Some(fd) && spec_str(d) == Some(fd@),
        None => c.first_session_date is None,
    }
    &&& c.hour_counts@.len() == 24
    &&& match spec_get(v, "hourCounts"@) {
        Some(h) => forall|k: int|
            0 <= k < 24 ==> #[trigger] c.hour_counts@[k] == (match spec_get_u64(
                h,
                spec_digits(k as nat),
            ) {
                Some(n) => n,
                None => 0,
            }),
        None => false,
    }
    &&& spec_get_u64(v, "totalSpeculationTimeSavedMs"@) == Some(
        c.total_speculation_time_saved_ms,
    )
}

/// Reads one day's activity entry.
fn parse_da(v: &JVal) -> (r: Option<DailyActivity>)
    ensures
        match r {
            Some(a) => da_json_ok(*v) && da_repr(a, *v),
            None => !da_json_ok(*v),
        },
{
    let date = match jget_str(v, "date") {
        Some(d) => d.clone(),
        None => {
            return None;
        },
    };
    let message_count = match jget_u64(v, "messageCount") {
        Some(n) => n,
        None => {
            return None;
        },
    };
    let session_count = match jget_u64(v, "sessionCount") {
        Some(n) => n,
        None => {
            return None;
        },
    };
    let tool_call_count = match jget_u64(v, "toolCallCount") {
        Some(n) => n,
        None => {
            return None;
        },
    };
    Some(DailyActivity { date, message_count, session_count, tool_call_count })
}

/// Reads an all-numeric object into its pairs, key order kept.
fn parse_pairs(entries: &Vec<(String, JVal)>) -> (r: Option<Vec<(String, u64)>>)
    ensures
        match r {
            Some(p) => all_u64(entries@) && pairs_repr(p@, entries@),
            None => !all_u64(entries@),
        },
{
    let mut out: Vec<(String, u64)> = Vec::new();
    let mut i: usize = 0;
    while i < entries.len()
        invariant
            0 <= i <= entries@.len(),
            out@.len() == i,
            forall|k: int|
                0 <= k < i ==> (#[trigger] out@[k]).0 == entries@[k].0 && Some(out@[k].1)
                    == spec_u64(entries@[k].1),
        decreases entries@.len() - i,
    {
        match jas_u64(&entries[i].1) {
            Some(n) => {
                out.push((entries[i].0.clone(), n));
            },
            None => {
                return None;
            },
        }
        i += 1;
    }
    proof {
        assert forall|k: int| 0 <= k < entries@.len() implies spec_u64(
            (#[trigger] entries@[k]).1,
        ) is Some by {
            assert(Some(out@[k].1) == spec_u64(entries@[k].1));
        }
    }
    Some(out)
}

/// Reads one day's model-token entry.
fn parse_dmt(v: &JVal) -> (r: Option<DailyModelTokens>)
    ensures
        match r {
            Some(t) => dmt_json_ok(*v) && dmt_repr(t, *v),
            None => !dmt_json_ok(*v),
        },
{
    let date = match jget_str(v, "date") {
        Some(d) => d.clone(),
        None => {
            return None;
        },
    };
    let tok = match jget(v, "tokensByModel") {
        Some(t) => t,
        None => {
            return None;
        },
    };
    let entries = match jas_obj(tok) {
        Some(o) => o,
        None => {
            return None;
        },
    };
    let pairs = match parse_pairs(entries) {
        Some(p) => p,
        None => {
            return None;
        },
    };
    Some(DailyModelTokens { date, tokens_by_model: pairs })
}

/// Reads one model's usage record; the cost field may be any number and
/// is not carried.
fn parse_usage(v: &JVal) -> (r: Option<ModelUsage>)
    ensures
        match r {
            Some(u) => usage_json_ok(*v) && usage_repr(u, *v),
            None => !usage_json_ok(*v),
        },
{
    let input_tokens = match jget_u64(v, "inputTokens") {
        Some(n) => n,
        None => {
            return None;
        },
    };
    let output_tokens = match jget_u64(v, "outputTokens") {
        Some(n) => n,
        None => {
            return None;
        },
    };
    let cache_read_input_tokens = match jget_u64(v, "cacheReadInputTokens") {
        Some(n) => n,
        None => {
            return None;
        },
    };
    let cache_creation_input_tokens = match jget_u64(v, "cacheCreationInputTokens") {
        Some(n) => n,
        None => {
            return None;
        },
    };
    let web_search_requests = match jget_u64(v, "webSearchRequests") {
        Some(n) => n,
        None => {
            return None;
        },
    };
    match jget(v, "costUsd") {
        Some(f) => match f {
            JVal::Num { .. } => {},
            _ => {
                return None;
            },
        },
        None => {},
    }
    let context_window = match jget(v, "contextWindow") {
        Some(f) => match jas_u64(f) {
            Some(n) => n,
            None => {
                return None;
            },
        },
        None => 0,
    };
    let max_output_tokens = match jget(v, "maxOutputTokens") {
        Some(f) => match jas_u64(f) {
            Some(n) => n,
            None => {
                return None;
            },
        },
        None => 0,
    };
    Some(
        ModelUsage {
            input_tokens,
            output_tokens,
            cache_read_input_tokens,
            cache_creation_input_tokens,
            web_search_requests,
            context_window,
            max_output_tokens,
        },
    )
}

/// Reads the longest-session record.
fn parse_longest(v: &JVal) -> (r: Option<LongestSession>)
    ensures
        match r {
            Some(l) => longest_json_ok(*v) && longest_repr(l, *v),
            None => !longest_json_ok(*v),
        },
{
    let session_id = match jget_str(v, "sessionId") {
        Some(s) => s.clone(),
        None => {
            return None;
        },
    };
    let duration = match jget_u64(v, "duration") {
        Some(n) => n,
        None => {
            return None;
        },
    };
    let message_count = match jget_u64(v, "messageCount") {
        Some(n) => n,
        None => {
            return None;
        },
    };
    let timestamp = match jget_str(v, "timestamp") {
        Some(s) => s.clone(),
        None => {
            return None;
        },
    };
    Some(LongestSession { session_id, duration, message_count, timestamp })
}

/// Reads a whole persisted summary from its parsed document: exactly the
/// documents `cache_json_ok` admits are read, and what is read is the
/// document's content, as `cache_repr` describes.
pub fn parse_stats_cache(v: &JVal) -> (r: Option<StatsCache>)
    ensures
        match r {
            Some(c) => cache_json_ok(*v) && cache_repr(c, *v),
            None => !cache_json_ok(*v),
        },
{
    let version64 = match jget_u64(v, "version") {
        Some(n) => n,
        None => {
            return None;
        },
    };
    if version64 > u32::MAX as u64 {
        return None;
    }
    let version: u32 = version64 as u32;
    let last_computed_date = match jget_str(v, "lastComputedDate") {
        Some(d) => d.clone(),
        None => {
            return None;
        },
    };
    let da_arr = match jget(v, "dailyActivity") {
        Some(a) => match crate::json::jas_arr(a) {
            Some(arr) => arr,
            None => {
                return None;
            },
        },
        None => {
            return None;
        },
    };
    let mut daily_activity: Vec<DailyActivity> = Vec::new();
    let mut i: usize = 0;
    while i < da_arr.len()
        invariant
            0 <= i <= da_arr@.len(),
            daily_activity@.len() == i,
            forall|k: int| 0 <= k < i ==> da_json_ok(#[trigger] da_arr@[k]),
            forall|k: int|
                0 <= k < i ==> da_repr(#[trigger] daily_activity@[k], da_arr@[k]),
        decreases da_arr@.len() - i,
    {
        match parse_da(&da_arr[i]) {
            Some(a) => {
                daily_activity.push(a);
            },
            None => {
                proof {
                    if cache_json_ok(*v) {
                        let arr = spec_get(*v, "dailyActivity"@)->0;
                        assert(da_json_ok(spec_arr(arr)->0[i as int]));
                    }
                }
                return None;
            },
        }
        i += 1;
    }
    let dmt_arr = match jget(v, "dailyModelTokens") {
        Some(a) => match crate::json::jas_arr(a) {
            Some(arr) => arr,
            None => {
                return None;
            },
        },
        None => {
            return None;
        },
    };
    let mut daily_model_tokens: Vec<DailyModelTokens> = Vec::new();
    let mut j: usize = 0;
    while j < dmt_arr.len()
        invariant
            0 <= j <= dmt_arr@.len(),
            daily_model_tokens@.len() == j,
            forall|k: int| 0 <= k < j ==> dmt_json_ok(#[trigger] dmt_arr@[k]),
            forall|k: int|
                0 <= k < j ==> dmt_repr(#[trigger] daily_model_tokens@[k], dmt_arr@[k]),
        decreases dmt_arr@.len() - j,
    {
        match parse_dmt(&dmt_arr[j]) {
            Some(t) => {
                daily_model_tokens.push(t);
            },
            None => {
                proof {
                    if cache_json_ok(*v) {
                        let arr = spec_get(*v, "dailyModelTokens"@)->0;
                        assert(dmt_json_ok(spec_arr(arr)->0[j as int]));
                    }
                }
                return None;
            },
        }
        j += 1;
    }
    let mu_obj = match jget(v, "modelUsage") {
        Some(o) => match jas_obj(o) {
            Some(entries) => entries,
            None => {
                return None;
            },
        },
        None => {
            return None;
        },
    };
    let mut model_usage: Vec<(String, ModelUsage)> = Vec::new();
    let mut q: usize = 0;
    while q < mu_obj.len()
        invariant
            0 <= q <= mu_obj@.len(),
            model_usage@.len() == q,
            forall|k: int| 0 <= k < q ==> usage_json_ok((#[trigger] mu_obj@[k]).1),
            forall|k: int|
                0 <= k < q ==> (#[trigger] model_usage@[k]).0 == mu_obj@[k].0 && usage_repr(
                    model_usage@[k].1,
                    mu_obj@[k].1,
                ),
        decreases mu_obj@.len() - q,
    {
        match parse_usage(&mu_obj[q].1) {
            Some(u) => {
                model_usage.push((mu_obj[q].0.clone(), u));
            },
            None => {
                proof {
                    if cache_json_ok(*v) {
                        let o = spec_get(*v, "modelUsage"@)->0;
                        assert(usage_json_ok((spec_obj(o)->0[q as int]).1));
                    }
                }
                return None;
            },
        }
        q += 1;
    }
    let total_sessions = match jget_u64(v, "totalSessions") {
        Some(n) => n,
        None => {
            return None;
        },
    };
    let total_messages = match jget_u64(v, "totalMessages") {
        Some(n) => n,
        None => {
            return None;
        },
    };
    let longest_session: Option<LongestSession> = match jget(v, "longestSession") {
        Some(l) => match l {
            JVal::Null => None,
            _ => match parse_longest(l) {
                Some(ls) => Some(ls),
                None => {
                    return None;
                },
            },
        },
        None => None,
    };
    let first_session_date: Option<String> = match jget(v, "firstSessionDate") {
        Some(d) => match d {
            JVal::Null => None,
            _ => match jas_str(d) {
                Some(s) => Some(s.clone()),
                None => {
                    return None;
                },
            },
        },
        None => None,
    };
    let hc_obj = match jget(v, "hourCounts") {
        Some(h) => match jas_obj(h) {
            Some(entries) => entries,
            None => {
                return None;
            },
        },
        None => {
            return None;
        },
    };
    let ghost hv = spec_get(*v, "hourCounts"@)->0;
    match parse_pairs(hc_obj) {
        Some(_) => {},
        None => {
            return None;
        },
    }
    let mut hour_counts: Vec<u64> = Vec::new();
    let mut h: u8 = 0;
    while h < 24
        invariant
            0 <= h <= 24,
            hour_counts@.len() == h,
            spec_obj(hv) == Some(hc_obj@),
            forall|k: int|
                0 <= k < h ==> #[trigger] hour_counts@[k] == (match spec_get_u64(
                    hv,
                    spec_digits(k as nat),
                ) {
                    Some(n) => n,
                    None => 0,
                }),
        decreases 24 - h,
    {
        let key = u64_to_string(h as u64);
        let count = match hour_lookup(hc_obj, key.as_str(), Ghost(hv)) {
            Some(n) => n,
            None => 0,
        };
        hour_counts.push(count);
        h += 1;
    }
    let total_speculation_time_saved_ms = match jget_u64(v, "totalSpeculationTimeSavedMs") {
        Some(n) => n,
        None => {
            return None;
        },
    };
    Some(
        StatsCache {
            version,
            last_computed_date,
            daily_activity,
            daily_model_tokens,
            model_usage,
            total_sessions,
            total_messages,
            longest_session,
            first_session_date,
            hour_counts,
            total_speculation_time_saved_ms,
        },
    )
}

/// Looks one hour key up among the hour-count entries.
fn hour_lookup(entries: &Vec<(String, JVal)>, key: &str, Ghost(hv): Ghost<JVal>) -> (r: Option<
    u64,
>)
    requires
        spec_obj(hv) == Some(entries@),
    ensures
        r == spec_get_u64(hv, key@),
{
    let mut i: usize = 0;
    proof {
        assert(entries@.skip(0) =~= entries@);
    }
    while i < entries.len()
        invariant
            0 <= i <= entries@.len(),
            crate::json::spec_lookup(entries@, key@) == crate::json::spec_lookup(
                entries@.skip(i as int),
                key@,
            ),
        decreases entries@.len() - i,
    {
        proof {
            assert(entries@.skip(i as int).drop_first() =~= entries@.skip(i + 1));
            assert(entries@.skip(i as int)[0] == entries@[i as int]);
        }
        if crate::util::str_eq(entries[i].0.as_str(), key) {
            return jas_u64(&entries[i].1);
        }
        i += 1;
    }
    None
}

/// What the gateway serves: the persisted document's own content where
/// one parses, else a fresh rebuild from the logs. A missing or corrupt
/// persisted summary is never an error.
pub open spec fn stats_gateway_post(
    r: StatsCache,
    cache_text: Option<Seq<char>>,
    files: Seq<SessionFile>,
    today: Seq<char>,
) -> bool {
    match cache_text {
        Some(t) => match json_of(t) {
            Some(v) => if cache_json_ok(v) {
                cache_repr(r, v)
            } else {
                recomputed_cache(r, sorted_files(files), today)
            },
            None => recomputed_cache(r, sorted_files(files), today),
        },
        None => recomputed_cache(r, sorted_files(files), today),
    }
}

/// The characters of an optional text.
pub open spec fn opt_text(t: Option<&String>) -> Option<Seq<char>> {
    match t {
        Some(s) => Some(s@),
        None => None,
    }
}

/// Serves the persisted summary where one parses, else a fresh rebuild,
/// as `stats_gateway_post` describes.
pub fn get_stats_cache(cache_text: Option<&String>, files: &Vec<SessionFile>, today: &str) -> (r:
    StatsCache)
    ensures
        stats_gateway_post(r, opt_text(cache_text), files@, today@),
{
    match cache_text {
        Some(t) => {
            match parse_json(t.as_str()) {
                Some(v) => {
                    match parse_stats_cache(&v) {
                        Some(c) => c,
                        None => compute_stats_cache_from_sessions(files, today),
                    }
                },
                None => compute_stats_cache_from_sessions(files, today),
            }
        },
        None => compute_stats_cache_from_sessions(files, today),
    }
}

/// The saturating sum of an all-numeric listing's values.
pub open spec fn sum_pairs(s: Seq<(String, u64)>) -> u64
    decreases s.len(),
{
    if s.len() == 0 {
        0
    } else {
        crate::util::sat_add(sum_pairs(s.drop_last()), s.last().1)
    }
}

/// The first daily-activity entry of a date.
pub open spec fn find_activity(s: Seq<DailyActivity>, d: Seq<char>) -> Option<DailyActivity>
    decreases s.len(),
{
    if s.len() == 0 {
        None
    } else if s[0].date@ == d {
        Some(s[0])
    } else {
        find_activity(s.drop_first(), d)
    }
}

/// The first daily model-token entry of a date.
pub open spec fn find_tokens(s: Seq<DailyModelTokens>, d: Seq<char>) -> Option<DailyModelTokens>
    decreases s.len(),
{
    if s.len() == 0 {
        None
    } else if s[0].date@ == d {
        Some(s[0])
    } else {
        find_tokens(s.drop_first(), d)
    }
}

/// What the current-date summary holds of the served document: that
/// date's entries where they exist, zeros where they do not.
pub open spec fn today_summary_repr(r: TodaySummary, sc: StatsCache, d: Seq<char>) -> bool {
    &&& r.date@ == d
    &&& match find_activity(sc.daily_activity@, d) {
        Some(a) => r.messages == a.message_count && r.sessions == a.session_count && r.tool_calls
            == a.tool_call_count,
        None => r.messages == 0 && r.sessions == 0 && r.tool_calls == 0,
    }
    &&& match find_tokens(sc.daily_model_tokens@, d) {
        Some(t) => r.tokens_by_model@ == t.tokens_by_model@ && r.total_tokens == sum_pairs(
            t.tokens_by_model@,
        ),
        None => r.tokens_by_model@.len() == 0 && r.total_tokens == 0,
    }
}

/// Copies a listing of model-token pairs.
fn clone_pairs(v: &Vec<(String, u64)>) -> (r: Vec<(String, u64)>)
    ensures
        r@ == v@,
{
    let mut r: Vec<(String, u64)> = Vec::new();
    let mut i: usize = 0;
    while i < v.len()
        invariant
            0 <= i <= v@.len(),
            r@ == v@.take(i as int),
        decreases v@.len() - i,
    {
        r.push((v[i].0.clone(), v[i].1));
        proof {
            assert(r@ =~= v@.take(i + 1));
        }
        i += 1;
    }
    proof {
        assert(v@.take(v@.len() as int) =~= v@);
    }
    r
}

/// Sums a listing's values, as `sum_pairs` describes.
pub fn sum_pairs_exec(v: &Vec<(String, u64)>) -> (r: u64)
    ensures
        r == sum_pairs(v@),
{
    let mut acc: u64 = 0;
    proof {
        assert(v@.take(0) =~= Seq::<(String, u64)>::empty());
    }
    let mut i: usize = 0;
    while i < v.len()
        invariant
            0 <= i <= v@.len(),
            acc == sum_pairs(v@.take(i as int)),
        decreases v@.len() - i,
    {
        proof {
            assert(v@.take(i + 1).drop_last() =~= v@.take(i as int));
            assert(v@.take(i + 1).last() == v@[i as int]);
        }
        acc = crate::util::sat_add_u64(acc, v[i].1);
        i += 1;
    }
    proof {
        assert(v@.take(v@.len() as int) =~= v@);
    }
    acc
}

/// The index of the first daily-activity entry of a date.
fn find_activity_exec(v: &Vec<DailyActivity>, d: &str) -> (r: Option<usize>)
    ensures
        match r {
            Some(i) => i < v@.len() && find_activity(v@, d@) == Some(v@[i as int]),
            None => find_activity(v@, d@) is None,
        },
{
    proof {
        assert(v@.skip(0) =~= v@);
    }
    let mut i: usize = 0;
    while i < v.len()
        invariant
            0 <= i <= v@.len(),
            find_activity(v@, d@) == find_activity(v@.skip(i as int), d@),
        decreases v@.len() - i,
    {
        proof {
            assert(v@.skip(i as int).drop_first() =~= v@.skip(i + 1));
            assert(v@.skip(i as int)[0] == v@[i as int]);
        }
        if crate::util::str_eq(v[i].date.as_str(), d) {
            return Some(i);
        }
        i += 1;
    }
    None
}

/// The index of the first daily model-token entry of a date.
fn find_tokens_exec(v: &Vec<DailyModelTokens>, d: &str) -> (r: Option<usize>)
    ensures
        match r {
            Some(i) => i < v@.len() && find_tokens(v@, d@) == Some(v@[i as int]),
            None => find_tokens(v@, d@) is None,
        },
{
    proof {
        assert(v@.skip(0) =~= v@);
    }
    let mut i: usize = 0;
    while i < v.len()
        invariant
            0 <= i <= v@.len(),
            find_tokens(v@, d@) == find_tokens(v@.skip(i as int), d@),
        decreases v@.len() - i,
    {
        proof {
            assert(v@.skip(i as int).drop_first() =~= v@.skip(i + 1));
            assert(v@.skip(i as int)[0] == v@[i as int]);
        }
        if crate::util::str_eq(v[i].date.as_str(), d) {
            return Some(i);
        }
        i += 1;
    }
    None
}

/// The current date's slice of the served summary: that date's message,
/// session and tool tallies and its tokens by model, zeros where the
/// date has no entry.
pub fn get_today_summary(cache_text: Option<&String>, files: &Vec<SessionFile>, today: &str) -> (r:
    TodaySummary)
    ensures
        exists|sc: StatsCache|
            #[trigger] stats_gateway_post(sc, opt_text(cache_text), files@, today@)
                && today_summary_repr(r, sc, today@),
{
    let sc = get_stats_cache(cache_text, files, today);
    let mut messages: u64 = 0;
    let mut sessions: u64 = 0;
    let mut tool_calls: u64 = 0;
    match find_activity_exec(&sc.daily_activity, today) {
        Some(i) => {
            messages = sc.daily_activity[i].message_count;
            sessions = sc.daily_activity[i].session_count;
            tool_calls = sc.daily_activity[i].tool_call_count;
        },
        None => {},
    }
    let mut tokens_by_model: Vec<(String, u64)> = Vec::new();
    let mut total_tokens: u64 = 0;
    match find_tokens_exec(&sc.daily_model_tokens, today) {
        Some(j) => {
            tokens_by_model = clone_pairs(&sc.daily_model_tokens[j].tokens_by_model);
            total_tokens = sum_pairs_exec(&tokens_by_model);
        },
        None => {},
    }
    let r = TodaySummary {
        date: today.to_owned(),
        total_tokens,
        tokens_by_model,
        messages,
        sessions,
        tool_calls,
    };
    proof {
        assert(stats_gateway_post(sc, opt_text(cache_text), files@, today@));
        assert(today_summary_repr(r, sc, today@));
    }
    r
}

/// What the token-totals listing holds of the served document: one entry
/// per listed day, in order, with that day's saturating total.
pub open spec fn totals_repr(r: Seq<DailyTokenTotal>, sc: StatsCache) -> bool {
    &&& r.len() == sc.daily_model_tokens@.len()
    &&& forall|i: int|
        0 <= i < r.len() ==> (#[trigger] r[i]).date == sc.daily_model_tokens@[i].date
            && r[i].by_model@ == sc.daily_model_tokens@[i].tokens_by_model@ && r[i].total
            == sum_pairs(sc.daily_model_tokens@[i].tokens_by_model@)
}

/// Lists every day's token totals from the served summary, in date
/// order, as `totals_repr` describes.
pub fn get_daily_token_totals(
    cache_text: Option<&String>,
    files: &Vec<SessionFile>,
    today: &str,
) -> (r: Vec<DailyTokenTotal>)
    ensures
        exists|sc: StatsCache|
            #[trigger] stats_gateway_post(sc, opt_text(cache_text), files@, today@) && totals_repr(
                r@,
                sc,
            ),
{
    let sc = get_stats_cache(cache_text, files, today);
    let mut out: Vec<DailyTokenTotal> = Vec::new();
    let mut i: usize = 0;
    while i < sc.daily_model_tokens.len()
        invariant
            0 <= i <= sc.daily_model_tokens@.len(),
            out@.len() == i,
            forall|k: int|
                0 <= k < i ==> (#[trigger] out@[k]).date == sc.daily_model_tokens@[k].date
                    && out@[k].by_model@ == sc.daily_model_tokens@[k].tokens_by_model@
                    && out@[k].total == sum_pairs(sc.daily_model_tokens@[k].tokens_by_model@),
        decreases sc.daily_model_tokens@.len() - i,
    {
        let day = &sc.daily_model_tokens[i];
        let by_model = clone_pairs(&day.tokens_by_model);
        let total = sum_pairs_exec(&by_model);
        out.push(DailyTokenTotal { date: day.date.clone(), total, by_model });
        i += 1;
    }
    proof {
        assert(stats_gateway_post(sc, opt_text(cache_text), files@, today@));
        assert(totals_repr(out@, sc));
    }
    out
}

} // verus!
