use crate::aggregate::MsgV;
use crate::aggregate::best_sess;
use crate::aggregate::count_date;
use crate::aggregate::count_hour;
use crate::aggregate::count_msgs_on_date;
use crate::aggregate::date_list;
use crate::aggregate::date_of;
use crate::aggregate::dates_of;
use crate::aggregate::dur_of;
use crate::aggregate::duration_of_acc;
use crate::aggregate::fold_session;
use crate::aggregate::hour_count;
use crate::aggregate::lemma_date_list_distinct;
use crate::aggregate::lemma_model_list_date_distinct;
use crate::aggregate::lemma_model_list_distinct;
use crate::aggregate::lemma_sess_list_iff;
use crate::aggregate::min_first_date;
use crate::aggregate::model_list;
use crate::aggregate::model_list_date;
use crate::aggregate::models_of;
use crate::aggregate::models_on_date;
use crate::aggregate::msgs_of;
use crate::aggregate::pair_keys;
use crate::aggregate::sess_fold;
use crate::aggregate::sess_list;
use crate::aggregate::sess_list_date;
use crate::aggregate::sessions_of;
use crate::aggregate::sessions_on_date;
use crate::aggregate::spec_duration;
use crate::aggregate::tokens_date_model;
use crate::aggregate::tokens_for;
use crate::aggregate::tools_date;
use crate::aggregate::tools_on_date;
use crate::aggregate::usage_for;
use crate::aggregate::usage_of;
use crate::event::Event;
use crate::event::line_event_ok;
use crate::event::parse_line;
use crate::merge::MergeState;
use crate::merge::merge_events;
use crate::merge::merge_post;
use crate::models::DailyActivity;
use crate::models::DailyModelTokens;
use crate::models::LongestSession;
use crate::models::ModelUsage;
use crate::models::StatsCache;
use crate::util::chars_lt;
use crate::util::distinct_seqs;
use crate::util::lemma_chars_lt_transitive;
use crate::util::lemma_chars_lt_trichotomy;
use crate::util::same_elems;
use crate::util::sat_add;
use crate::util::sat_add_u64;
use crate::util::sort_strings;
use crate::util::str_lt;
use crate::util::strictly_sorted;
use vstd::prelude::*;
use vstd::string::StringExecFns;

verus! {

/// One session log: the session name the file carries, and its lines.
pub struct SessionFile {
    pub session_id: String,
    pub lines: Vec<String>,
}

/// The events of a run of per-line readings, in order, skips left out.
pub open spec fn cat_events(picks: Seq<Option<Event>>) -> Seq<Event>
    decreases picks.len(),
{
    if picks.len() == 0 {
        Seq::empty()
    } else {
        cat_events(picks.drop_last()) + (match picks.last() {
            Some(e) => seq![e],
            None => Seq::empty(),
        })
    }
}

/// The events a whole file yields: one reading per line, each as
/// `line_event_ok` describes, concatenated in line order.
pub open spec fn file_events_ok(f: SessionFile, es: Seq<Event>) -> bool {
    exists|picks: Seq<Option<Event>>|
        {
            &&& #[trigger] cat_events(picks) == es
            &&& picks.len() == f.lines@.len()
            &&& forall|i: int|
                0 <= i < picks.len() ==> line_event_ok(
                    f.session_id@,
                    i as nat,
                    f.lines@[i]@,
                    #[trigger] picks[i],
                )
        }
}

/// The concatenation of every file's events, in file order.
pub open spec fn cat_all(chunks: Seq<Seq<Event>>) -> Seq<Event>
    decreases chunks.len(),
{
    if chunks.len() == 0 {
        Seq::empty()
    } else {
        cat_all(chunks.drop_last()) + chunks.last()
    }
}

/// The events a run of files yields, file by file, line by line.
pub open spec fn events_from_files(files: Seq<SessionFile>, evs: Seq<Event>) -> bool {
    exists|chunks: Seq<Seq<Event>>|
        {
            &&& #[trigger] cat_all(chunks) == evs
            &&& chunks.len() == files.len()
            &&& forall|i: int|
                0 <= i < chunks.len() ==> file_events_ok(files[i], #[trigger] chunks[i])
        }
}

/// Reads every line of one session log; lines that parse to no event
/// are skipped silently.
pub fn parse_session_file(f: &SessionFile) -> (es: Vec<Event>)
    ensures
        file_events_ok(*f, es@),
{
    let mut es: Vec<Event> = Vec::new();
    let ghost mut picks: Seq<Option<Event>> = Seq::empty();
    let mut i: usize = 0;
    while i < f.lines.len()
        invariant
            0 <= i <= f.lines@.len(),
            picks.len() == i,
            forall|k: int|
                0 <= k < i ==> line_event_ok(f.session_id@, k as nat, f.lines@[k]@, #[trigger] picks[k]),
            es@ == cat_events(picks),
        decreases f.lines@.len() - i,
    {
        let p = parse_line(f.session_id.as_str(), i, f.lines[i].as_str());
        let ghost gp = p;
        let ghost prevp = picks;
        proof {
            picks = picks.push(gp);
        }
        match p {
            Some(e) => {
                es.push(e);
            },
            None => {},
        }
        proof {
            assert(picks.drop_last() =~= prevp);
            assert(picks.last() == gp);
            match gp {
                Some(e) => {
                    assert(es@ =~= cat_events(prevp) + seq![e]);
                },
                None => {
                    assert(es@ =~= cat_events(prevp) + Seq::<Event>::empty());
                },
            }
            assert(es@ == cat_events(picks));
        }
        i += 1;
    }
    proof {
        assert(file_events_ok(*f, es@)) by {
            assert(cat_events(picks) == es@);
        }
    }
    es
}

/// What the finished summary holds of one day's activity entry.
pub open spec fn daily_ok(a: DailyActivity, ms: Seq<MsgV>) -> bool {
    &&& a.message_count == count_date(ms, a.date@)
    &&& a.session_count == sess_list_date(ms, a.date@).len()
    &&& a.tool_call_count == tools_date(ms, a.date@)
}

/// What the finished summary holds of one day's model-token entry.
pub open spec fn dmt_ok(t: DailyModelTokens, ms: Seq<MsgV>) -> bool {
    &&& strictly_sorted(pair_keys(t.tokens_by_model@))
    &&& distinct_seqs(pair_keys(t.tokens_by_model@))
    &&& same_elems(pair_keys(t.tokens_by_model@), model_list_date(ms, t.date@))
    &&& forall|i: int|
        0 <= i < t.tokens_by_model@.len() ==> (#[trigger] t.tokens_by_model@[i]).1
            == tokens_date_model(ms, t.date@, t.tokens_by_model@[i].0@)
}

/// What the finished summary holds of the longest session.
pub open spec fn longest_ok(l: Option<LongestSession>, ms: Seq<MsgV>) -> bool {
    match best_sess(sess_list(ms), ms) {
        None => l is None,
        Some(sid) => match l {
            Some(ls) => ls.session_id@ == sid && (match sess_fold(ms, sid) {
                Some(sv) => ls.duration == spec_duration(sv) && ls.message_count == sv.count
                    && ls.timestamp@ == sv.first_iso,
                None => false,
            }),
            None => false,
        },
    }
}

/// What the finished summary holds of the earliest session date.
pub open spec fn first_date_ok(fd: Option<String>, ms: Seq<MsgV>) -> bool {
    match min_first_date(sess_list(ms), ms) {
        None => fd is None,
        Some(d) => match fd {
            Some(x) => x@ == d,
            None => false,
        },
    }
}

/// The dates named by a daily-activity sequence.
pub open spec fn activity_dates(v: Seq<DailyActivity>) -> Seq<Seq<char>> {
    v.map_values(|a: DailyActivity| a.date@)
}

/// Everything the finished summary promises of the state it was built
/// from: date-keyed sequences strictly sorted and covering exactly the
/// active dates, every tally equal to its count over the canonical
/// messages, totals, the longest session under the deterministic
/// tie-break, the earliest session date, and the hour histogram.
pub open spec fn cache_matches_state(r: StatsCache, st: MergeState, today: Seq<char>) -> bool {
    let ms = msgs_of(st);
    &&& r.version == 1
    &&& r.last_computed_date@ == today
    &&& strictly_sorted(activity_dates(r.daily_activity@))
    &&& same_elems(activity_dates(r.daily_activity@), date_list(ms))
    &&& forall|i: int|
        0 <= i < r.daily_activity@.len() ==> daily_ok(#[trigger] r.daily_activity@[i], ms)
    &&& r.daily_model_tokens@.len() == r.daily_activity@.len()
    &&& forall|i: int|
        0 <= i < r.daily_model_tokens@.len() ==> (#[trigger] r.daily_model_tokens@[i]).date@
            == r.daily_activity@[i].date@ && dmt_ok(r.daily_model_tokens@[i], ms)
    &&& strictly_sorted(pair_keys(r.model_usage@))
    &&& same_elems(pair_keys(r.model_usage@), model_list(ms))
    &&& forall|i: int|
        0 <= i < r.model_usage@.len() ==> (#[trigger] r.model_usage@[i]).1 == usage_of(
            ms,
            r.model_usage@[i].0@,
        )
    &&& r.total_sessions == sess_list(ms).len()
    &&& r.total_messages == sat_add(
        st.users.entries@.len() as u64,
        st.assistant.entries@.len() as u64,
    )
    &&& longest_ok(r.longest_session, ms)
    &&& first_date_ok(r.first_session_date, ms)
    &&& r.hour_counts@.len() == 24
    &&& forall|h: int| 0 <= h < 24 ==> r.hour_counts@[h] == hour_count(ms, h)
    &&& r.total_speculation_time_saved_ms == 0
}

/// One day's model tokens, sorted by model name.
pub fn tokens_by_model_for(st: &MergeState, d: &str) -> (r: Vec<(String, u64)>)
    ensures
        strictly_sorted(pair_keys(r@)),
        distinct_seqs(pair_keys(r@)),
        same_elems(pair_keys(r@), model_list_date(msgs_of(*st), d@)),
        forall|i: int|
            0 <= i < r@.len() ==> (#[trigger] r@[i]).1 == tokens_date_model(
                msgs_of(*st),
                d@,
                r@[i].0@,
            ),
{
    proof {
        lemma_model_list_date_distinct(msgs_of(*st), d@);
    }
    let mods = sort_strings(models_on_date(st, d));
    let mut out: Vec<(String, u64)> = Vec::new();
    proof {
        assert(pair_keys(out@) =~= mods.deep_view().take(0));
    }
    let mut q: usize = 0;
    while q < mods.len()
        invariant
            0 <= q <= mods@.len(),
            pair_keys(out@) == mods.deep_view().take(q as int),
            forall|i: int|
                0 <= i < out@.len() ==> (#[trigger] out@[i]).1 == tokens_date_model(
                    msgs_of(*st),
                    d@,
                    out@[i].0@,
                ),
        decreases mods@.len() - q,
    {
        let t = tokens_for(st, d, mods[q].as_str());
        let ghost prev = pair_keys(out@);
        out.push((mods[q].clone(), t));
        proof {
            assert(pair_keys(out@) =~= prev.push(mods.deep_view()[q as int]));
            assert(pair_keys(out@) =~= mods.deep_view().take(q + 1));
        }
        q += 1;
    }
    proof {
        assert(mods.deep_view().take(mods.deep_view().len() as int) =~= mods.deep_view());
    }
    out
}

/// The per-model usage listing, sorted by model name.
fn model_usage_vec(st: &MergeState) -> (r: Vec<(String, ModelUsage)>)
    ensures
        strictly_sorted(pair_keys(r@)),
        same_elems(pair_keys(r@), model_list(msgs_of(*st))),
        forall|i: int|
            0 <= i < r@.len() ==> (#[trigger] r@[i]).1 == usage_of(msgs_of(*st), r@[i].0@),
{
    proof {
        lemma_model_list_distinct(msgs_of(*st));
    }
    let mods = sort_strings(models_of(st));
    let mut out: Vec<(String, ModelUsage)> = Vec::new();
    proof {
        assert(pair_keys(out@) =~= mods.deep_view().take(0));
    }
    let mut q: usize = 0;
    while q < mods.len()
        invariant
            0 <= q <= mods@.len(),
            pair_keys(out@) == mods.deep_view().take(q as int),
            forall|i: int|
                0 <= i < out@.len() ==> (#[trigger] out@[i]).1 == usage_of(
                    msgs_of(*st),
                    out@[i].0@,
                ),
        decreases mods@.len() - q,
    {
        let u = usage_for(st, mods[q].as_str());
        let ghost prev = pair_keys(out@);
        out.push((mods[q].clone(), u));
        proof {
            assert(pair_keys(out@) =~= prev.push(mods.deep_view()[q as int]));
            assert(pair_keys(out@) =~= mods.deep_view().take(q + 1));
        }
        q += 1;
    }
    proof {
        assert(mods.deep_view().take(mods.deep_view().len() as int) =~= mods.deep_view());
    }
    out
}

/// The hour histogram: one bucket per hour of the day.
fn hours_vec(st: &MergeState) -> (r: Vec<u64>)
    ensures
        r@.len() == 24,
        forall|h: int| 0 <= h < 24 ==> r@[h] == hour_count(msgs_of(*st), h),
{
    let mut out: Vec<u64> = Vec::new();
    let mut h: u8 = 0;
    while h < 24
        invariant
            0 <= h <= 24,
            out@.len() == h,
            forall|k: int| 0 <= k < h ==> out@[k] == hour_count(msgs_of(*st), k),
        decreases 24 - h,
    {
        out.push(count_hour(st, h));
        h += 1;
    }
    out
}

/// The longest session, under the deterministic tie-break: greatest
/// duration, then smallest session id.
fn longest_of(st: &MergeState) -> (r: Option<LongestSession>)
    ensures
        longest_ok(r, msgs_of(*st)),
{
    let ghost ms = msgs_of(*st);
    let sids = sessions_of(st);
    let mut best: Option<LongestSession> = None;
    proof {
        assert(sids.deep_view().take(0) =~= Seq::<Seq<char>>::empty());
    }
    let mut k: usize = 0;
    while k < sids.len()
        invariant
            0 <= k <= sids@.len(),
            sids.deep_view() == sess_list(ms),
            match best {
                None => best_sess(sids.deep_view().take(k as int), ms) is None,
                Some(ls) => best_sess(sids.deep_view().take(k as int), ms) == Some(ls.session_id@)
                    && (match sess_fold(ms, ls.session_id@) {
                    Some(sv) => ls.duration == spec_duration(sv) && ls.message_count == sv.count
                        && ls.timestamp@ == sv.first_iso,
                    None => false,
                }),
            },
        decreases sids@.len() - k,
    {
        proof {
            assert(sids.deep_view().take(k + 1).drop_last() =~= sids.deep_view().take(k as int));
            assert(sids.deep_view().take(k + 1).last() == sids.deep_view()[k as int]);
            assert(sess_list(ms).contains(sids.deep_view()[k as int])) by {
                assert(sess_list(ms)[k as int] == sids.deep_view()[k as int]);
            }
            lemma_sess_list_iff(ms, sids.deep_view()[k as int]);
        }
        match fold_session(st, sids[k].as_str()) {
            Some(a) => {
                let dur = duration_of_acc(&a);
                proof {
                    assert(dur == dur_of(ms, sids.deep_view()[k as int]));
                }
                let replace = match &best {
                    None => true,
                    Some(ls) => dur > ls.duration || (dur == ls.duration && str_lt(
                        sids[k].as_str(),
                        ls.session_id.as_str(),
                    )),
                };
                if replace {
                    best = Some(
                        LongestSession {
                            session_id: sids[k].clone(),
                            duration: dur,
                            message_count: a.count,
                            timestamp: a.first_iso,
                        },
                    );
                }
            },
            None => {
                proof {
                    assert(false);
                }
            },
        }
        k += 1;
    }
    proof {
        assert(sids.deep_view().take(sids.deep_view().len() as int) =~= sids.deep_view());
    }
    best
}

/// The earliest session date, in calendar order.
fn first_date_of(st: &MergeState) -> (r: Option<String>)
    ensures
        first_date_ok(r, msgs_of(*st)),
{
    let ghost ms = msgs_of(*st);
    let sids = sessions_of(st);
    let mut fd: Option<String> = None;
    proof {
        assert(sids.deep_view().take(0) =~= Seq::<Seq<char>>::empty());
    }
    let mut k: usize = 0;
    while k < sids.len()
        invariant
            0 <= k <= sids@.len(),
            sids.deep_view() == sess_list(ms),
            match fd {
                None => min_first_date(sids.deep_view().take(k as int), ms) is None,
                Some(x) => min_first_date(sids.deep_view().take(k as int), ms) == Some(x@),
            },
        decreases sids@.len() - k,
    {
        proof {
            assert(sids.deep_view().take(k + 1).drop_last() =~= sids.deep_view().take(k as int));
            assert(sids.deep_view().take(k + 1).last() == sids.deep_view()[k as int]);
            assert(sess_list(ms).contains(sids.deep_view()[k as int])) by {
                assert(sess_list(ms)[k as int] == sids.deep_view()[k as int]);
            }
            lemma_sess_list_iff(ms, sids.deep_view()[k as int]);
        }
        match fold_session(st, sids[k].as_str()) {
            Some(a) => {
                let replace = match &fd {
                    None => true,
                    Some(x) => str_lt(a.first_date.as_str(), x.as_str()),
                };
                proof {
                    assert(a.first_date@ == date_of(ms, sids.deep_view()[k as int]));
                }
                if replace {
                    fd = Some(a.first_date);
                }
            },
            None => {
                proof {
                    assert(false);
                }
            },
        }
        k += 1;
    }
    proof {
        assert(sids.deep_view().take(sids.deep_view().len() as int) =~= sids.deep_view());
    }
    fd
}

/// Builds the whole summary from the canonical state, as
/// `cache_matches_state` describes.
pub fn build_stats_cache(st: &MergeState, today: &str) -> (r: StatsCache)
    ensures
        cache_matches_state(r, *st, today@),
{
    let ghost ms = msgs_of(*st);
    proof {
        lemma_date_list_distinct(ms);
    }
    let sorted_dates = sort_strings(dates_of(st));
    let mut daily_activity: Vec<DailyActivity> = Vec::new();
    let mut daily_model_tokens: Vec<DailyModelTokens> = Vec::new();
    proof {
        assert(activity_dates(daily_activity@) =~= sorted_dates.deep_view().take(0));
    }
    let mut k: usize = 0;
    while k < sorted_dates.len()
        invariant
            0 <= k <= sorted_dates@.len(),
            daily_activity@.len() == k,
            daily_model_tokens@.len() == k,
            activity_dates(daily_activity@) == sorted_dates.deep_view().take(k as int),
            forall|i: int|
                0 <= i < k ==> daily_ok(#[trigger] daily_activity@[i], msgs_of(*st)),
            forall|i: int|
                0 <= i < k ==> (#[trigger] daily_model_tokens@[i]).date@
                    == daily_activity@[i].date@ && dmt_ok(daily_model_tokens@[i], msgs_of(*st)),
        decreases sorted_dates@.len() - k,
    {
        let d = &sorted_dates[k];
        let message_count = count_msgs_on_date(st, d.as_str());
        let sess = sessions_on_date(st, d.as_str());
        let tool_call_count = tools_on_date(st, d.as_str());
        let tbm = tokens_by_model_for(st, d.as_str());
        let ghost prev = activity_dates(daily_activity@);
        daily_activity.push(
            DailyActivity {
                date: d.clone(),
                message_count,
                session_count: sess.len() as u64,
                tool_call_count,
            },
        );
        daily_model_tokens.push(DailyModelTokens { date: d.clone(), tokens_by_model: tbm });
        proof {
            assert(activity_dates(daily_activity@) =~= prev.push(sorted_dates.deep_view()[k as int]));
            assert(activity_dates(daily_activity@) =~= sorted_dates.deep_view().take(k + 1));
        }
        k += 1;
    }
    proof {
        assert(sorted_dates.deep_view().take(sorted_dates.deep_view().len() as int)
            =~= sorted_dates.deep_view());
    }
    let model_usage = model_usage_vec(st);
    let sids = sessions_of(st);
    let total_sessions = sids.len() as u64;
    let total_messages = sat_add_u64(
        st.users.entries.len() as u64,
        st.assistant.entries.len() as u64,
    );
    let longest_session = longest_of(st);
    let first_session_date = first_date_of(st);
    let hour_counts = hours_vec(st);
    StatsCache {
        version: 1,
        last_computed_date: today.to_owned(),
        daily_activity,
        daily_model_tokens,
        model_usage,
        total_sessions,
        total_messages,
        longest_session,
        first_session_date,
        hour_counts,
        total_speculation_time_saved_ms: 0,
    }
}

/// The scan order of the session logs: ascending by session name, logs
/// of one name keeping their given order. Scanning in this one order
/// makes the rebuilt summary independent of how the filesystem
/// enumerated the files.
pub open spec fn insert_file(e: SessionFile, s: Seq<SessionFile>) -> Seq<SessionFile>
    decreases s.len(),
{
    if s.len() == 0 {
        seq![e]
    } else if !chars_lt(e.session_id@, s[0].session_id@) {
        seq![s[0]] + insert_file(e, s.drop_first())
    } else {
        seq![e] + s
    }
}

/// The session logs in scan order.
pub open spec fn sorted_files(files: Seq<SessionFile>) -> Seq<SessionFile>
    decreases files.len(),
{
    if files.len() == 0 {
        Seq::empty()
    } else {
        insert_file(files.last(), sorted_files(files.drop_last()))
    }
}

/// Placing a log at the first position whose log sorts strictly later
/// is what `insert_file` does.
proof fn lemma_insert_file_at(e: SessionFile, s: Seq<SessionFile>, p: int)
    requires
        0 <= p <= s.len(),
        forall|k: int| 0 <= k < p ==> !chars_lt(e.session_id@, (#[trigger] s[k]).session_id@),
        p < s.len() ==> chars_lt(e.session_id@, s[p].session_id@),
    ensures
        insert_file(e, s) == s.insert(p, e),
    decreases s.len(),
{
    if p == 0 {
        assert(insert_file(e, s) =~= s.insert(0, e));
    } else {
        assert(!chars_lt(e.session_id@, s[0].session_id@));
        assert(forall|k: int| 0 <= k < p - 1 ==> s.drop_first()[k] == s[k + 1]);
        lemma_insert_file_at(e, s.drop_first(), p - 1);
        assert(insert_file(e, s) =~= s.insert(p, e)) by {
            assert(insert_file(e, s) == seq![s[0]] + s.drop_first().insert(p - 1, e));
        }
    }
}

/// Inserting a log splits membership into the old logs and the new one.
proof fn lemma_insert_file_contains(e: SessionFile, s: Seq<SessionFile>)
    ensures
        forall|x: SessionFile|
            #[trigger] insert_file(e, s).contains(x) <==> s.contains(x) || x == e,
    decreases s.len(),
{
    if s.len() == 0 {
        assert forall|x: SessionFile|
            #[trigger] insert_file(e, s).contains(x) <==> s.contains(x) || x == e by {
            if x == e {
                assert(insert_file(e, s)[0] == e);
            }
            if insert_file(e, s).contains(x) {
                let j = choose|j: int|
                    0 <= j < insert_file(e, s).len() && insert_file(e, s)[j] == x;
                assert(j == 0);
            }
        }
    } else if !chars_lt(e.session_id@, s[0].session_id@) {
        lemma_insert_file_contains(e, s.drop_first());
        let inner = insert_file(e, s.drop_first());
        let t = seq![s[0]] + inner;
        assert forall|x: SessionFile| #[trigger] t.contains(x) <==> s.contains(x) || x == e by {
            if t.contains(x) {
                let j = choose|j: int| 0 <= j < t.len() && t[j] == x;
                if j == 0 {
                    assert(s[0] == x);
                } else {
                    assert(inner[j - 1] == x);
                    assert(inner.contains(x));
                    if s.drop_first().contains(x) {
                        let k = choose|k: int|
                            0 <= k < s.drop_first().len() && s.drop_first()[k] == x;
                        assert(s[k + 1] == x);
                    }
                }
            }
            if s.contains(x) {
                let j = choose|j: int| 0 <= j < s.len() && s[j] == x;
                if j == 0 {
                    assert(t[0] == x);
                } else {
                    assert(s.drop_first()[j - 1] == x);
                    assert(s.drop_first().contains(x));
                    assert(inner.contains(x));
                    let k = choose|k: int| 0 <= k < inner.len() && inner[k] == x;
                    assert(t[k + 1] == x);
                }
            }
            if x == e {
                assert(inner.contains(x));
                let k = choose|k: int| 0 <= k < inner.len() && inner[k] == x;
                assert(t[k + 1] == x);
            }
        }
    } else {
        let t = seq![e] + s;
        assert forall|x: SessionFile| #[trigger] t.contains(x) <==> s.contains(x) || x == e by {
            if t.contains(x) {
                let j = choose|j: int| 0 <= j < t.len() && t[j] == x;
                if j > 0 {
                    assert(s[j - 1] == x);
                }
            }
            if s.contains(x) {
                let j = choose|j: int| 0 <= j < s.len() && s[j] == x;
                assert(t[j + 1] == x);
            }
            if x == e {
                assert(t[0] == x);
            }
        }
    }
}

/// Sorting keeps exactly the given logs.
proof fn lemma_sorted_files_members(files: Seq<SessionFile>)
    ensures
        forall|x: SessionFile|
            #[trigger] sorted_files(files).contains(x) <==> files.contains(x),
    decreases files.len(),
{
    if files.len() > 0 {
        let p = files.drop_last();
        lemma_sorted_files_members(p);
        lemma_insert_file_contains(files.last(), sorted_files(p));
        assert forall|x: SessionFile|
            #[trigger] sorted_files(files).contains(x) <==> files.contains(x) by {
            assert(sorted_files(files).contains(x) <==> sorted_files(p).contains(x) || x
                == files.last());
            if p.contains(x) {
                let j = choose|j: int| 0 <= j < p.len() && p[j] == x;
                assert(files[j] == x);
            }
            if x == files.last() {
                assert(files[files.len() - 1] == x);
            }
            if files.contains(x) {
                let j = choose|j: int| 0 <= j < files.len() && files[j] == x;
                if j < files.len() - 1 {
                    assert(p[j] == x);
                }
            }
        }
    }
}

/// No two of these logs carry one session name.
pub open spec fn files_distinct_sids(s: Seq<SessionFile>) -> bool {
    forall|i: int, j: int|
        0 <= i < j < s.len() ==> (#[trigger] s[i]).session_id@ != (#[trigger] s[j]).session_id@
}

/// Strictly ascending by session name.
pub open spec fn files_sorted(s: Seq<SessionFile>) -> bool {
    forall|i: int, j: int|
        0 <= i < j < s.len() ==> chars_lt(
            (#[trigger] s[i]).session_id@,
            (#[trigger] s[j]).session_id@,
        )
}

/// Inserting a log whose name no listed log carries keeps the listing
/// strictly ascending.
proof fn lemma_insert_file_sorted(e: SessionFile, s: Seq<SessionFile>)
    requires
        files_sorted(s),
        forall|k: int| 0 <= k < s.len() ==> (#[trigger] s[k]).session_id@ != e.session_id@,
    ensures
        files_sorted(insert_file(e, s)),
    decreases s.len(),
{
    if s.len() == 0 {
    } else if !chars_lt(e.session_id@, s[0].session_id@) {
        lemma_chars_lt_trichotomy(e.session_id@, s[0].session_id@);
        assert(chars_lt(s[0].session_id@, e.session_id@));
        assert(files_sorted(s.drop_first())) by {
            assert(forall|k: int| 0 <= k < s.drop_first().len() ==> s.drop_first()[k] == s[k + 1]);
        }
        assert(forall|k: int|
            0 <= k < s.drop_first().len() ==> (#[trigger] s.drop_first()[k]).session_id@
                != e.session_id@) by {
            assert(forall|k: int| 0 <= k < s.drop_first().len() ==> s.drop_first()[k] == s[k + 1]);
        }
        lemma_insert_file_sorted(e, s.drop_first());
        lemma_insert_file_contains(e, s.drop_first());
        let inner = insert_file(e, s.drop_first());
        let t = seq![s[0]] + inner;
        assert forall|i: int, j: int| 0 <= i < j < t.len() implies chars_lt(
            (#[trigger] t[i]).session_id@,
            (#[trigger] t[j]).session_id@,
        ) by {
            if i == 0 {
                assert(t[j] == inner[j - 1]);
                assert(inner.contains(inner[j - 1]));
                assert(s.drop_first().contains(inner[j - 1]) || inner[j - 1] == e);
                if s.drop_first().contains(inner[j - 1]) {
                    let k = choose|k: int|
                        0 <= k < s.drop_first().len() && s.drop_first()[k] == inner[j - 1];
                    assert(s[k + 1] == inner[j - 1]);
                    assert(chars_lt(s[0].session_id@, s[k + 1].session_id@));
                }
            } else {
                assert(t[i] == inner[i - 1]);
                assert(t[j] == inner[j - 1]);
            }
        }
    } else {
        let t = seq![e] + s;
        assert forall|i: int, j: int| 0 <= i < j < t.len() implies chars_lt(
            (#[trigger] t[i]).session_id@,
            (#[trigger] t[j]).session_id@,
        ) by {
            if i == 0 {
                assert(t[j] == s[j - 1]);
                if j > 1 {
                    lemma_chars_lt_transitive(
                        e.session_id@,
                        s[0].session_id@,
                        s[j - 1].session_id@,
                    );
                }
            } else {
                assert(t[i] == s[i - 1]);
                assert(t[j] == s[j - 1]);
            }
        }
    }
}

/// Sorting logs of pairwise-distinct names yields a strictly ascending
/// listing.
proof fn lemma_sorted_files_sorted(files: Seq<SessionFile>)
    requires
        files_distinct_sids(files),
    ensures
        files_sorted(sorted_files(files)),
    decreases files.len(),
{
    if files.len() > 0 {
        let p = files.drop_last();
        let e = files.last();
        assert(files_distinct_sids(p)) by {
            assert(forall|k: int| 0 <= k < p.len() ==> p[k] == files[k]);
        }
        lemma_sorted_files_sorted(p);
        lemma_sorted_files_members(p);
        assert(forall|k: int| 0 <= k < p.len() ==> p[k] == files[k]);
        assert forall|k: int|
            0 <= k < sorted_files(p).len() implies (
        #[trigger] sorted_files(p)[k]).session_id@ != e.session_id@ by {
            assert(sorted_files(p).contains(sorted_files(p)[k]));
            assert(p.contains(sorted_files(p)[k]));
            let i = choose|i: int| 0 <= i < p.len() && p[i] == sorted_files(p)[k];
            assert(files[i] == sorted_files(p)[k]);
            assert(files[i].session_id@ != files[files.len() - 1].session_id@);
        }
        lemma_insert_file_sorted(e, sorted_files(p));
    }
}

/// Two strictly ascending listings of the same logs are one listing.
proof fn lemma_files_sorted_unique(a: Seq<SessionFile>, b: Seq<SessionFile>)
    requires
        files_sorted(a),
        files_sorted(b),
        forall|x: SessionFile| a.contains(x) <==> b.contains(x),
    ensures
        a == b,
    decreases a.len(),
{
    if a.len() == 0 {
        if b.len() > 0 {
            assert(b.contains(b[0]));
        }
        assert(a =~= b);
    } else if b.len() == 0 {
        assert(a.contains(a[0]));
    } else {
        assert(a.contains(a[0]));
        assert(b.contains(b[0]));
        let ka = choose|k: int| 0 <= k < b.len() && b[k] == a[0];
        let kb = choose|k: int| 0 <= k < a.len() && a[k] == b[0];
        if ka > 0 && kb > 0 {
            assert(chars_lt(b[0].session_id@, b[ka].session_id@));
            assert(chars_lt(a[0].session_id@, a[kb].session_id@));
            lemma_chars_lt_transitive(a[0].session_id@, b[0].session_id@, a[0].session_id@);
            lemma_chars_lt_trichotomy(a[0].session_id@, a[0].session_id@);
            assert(false);
        }
        if ka > 0 && kb == 0 {
            assert(b[0] == a[0]);
            assert(chars_lt(b[0].session_id@, b[ka].session_id@));
            lemma_chars_lt_trichotomy(a[0].session_id@, a[0].session_id@);
            assert(false);
        }
        if ka == 0 && kb > 0 {
            assert(a[0] == b[0]);
            assert(chars_lt(a[0].session_id@, a[kb].session_id@));
            lemma_chars_lt_trichotomy(a[0].session_id@, a[0].session_id@);
            assert(false);
        }
        assert(a[0] == b[0]);
        assert forall|x: SessionFile| a.drop_first().contains(x) implies b.drop_first().contains(
            x,
        ) by {
            let j = choose|j: int| 0 <= j < a.drop_first().len() && a.drop_first()[j] == x;
            assert(a[j + 1] == x);
            assert(chars_lt(a[0].session_id@, x.session_id@));
            assert(a.contains(x));
            let k = choose|k: int| 0 <= k < b.len() && b[k] == x;
            if k == 0 {
                lemma_chars_lt_trichotomy(a[0].session_id@, x.session_id@);
                assert(false);
            }
            assert(b.drop_first()[k - 1] == x);
        }
        assert forall|x: SessionFile| b.drop_first().contains(x) implies a.drop_first().contains(
            x,
        ) by {
            let j = choose|j: int| 0 <= j < b.drop_first().len() && b.drop_first()[j] == x;
            assert(b[j + 1] == x);
            assert(chars_lt(b[0].session_id@, x.session_id@));
            assert(b.contains(x));
            let k = choose|k: int| 0 <= k < a.len() && a[k] == x;
            if k == 0 {
                lemma_chars_lt_trichotomy(b[0].session_id@, x.session_id@);
                assert(false);
            }
            assert(a.drop_first()[k - 1] == x);
        }
        assert(files_sorted(a.drop_first())) by {
            assert(forall|k: int| 0 <= k < a.drop_first().len() ==> a.drop_first()[k] == a[k + 1]);
        }
        assert(files_sorted(b.drop_first())) by {
            assert(forall|k: int| 0 <= k < b.drop_first().len() ==> b.drop_first()[k] == b[k + 1]);
        }
        lemma_files_sorted_unique(a.drop_first(), b.drop_first());
        assert forall|i: int| 0 <= i < a.len() implies a[i] == b[i] by {
            if i > 0 {
                assert(a[i] == a.drop_first()[i - 1]);
                assert(b[i] == b.drop_first()[i - 1]);
            }
        }
        assert(a =~= b);
    }
}

/// The scan order does not depend on how the files were handed over:
/// two enumerations of one set of logs, each log named once, are
/// scanned as one sequence, so the rebuilt summary is independent of
/// which file came first or last.
pub proof fn lemma_scan_order_irrelevant(f1: Seq<SessionFile>, f2: Seq<SessionFile>)
    requires
        forall|x: SessionFile| f1.contains(x) <==> f2.contains(x),
        files_distinct_sids(f1),
        files_distinct_sids(f2),
    ensures
        sorted_files(f1) == sorted_files(f2),
{
    lemma_sorted_files_members(f1);
    lemma_sorted_files_members(f2);
    lemma_sorted_files_sorted(f1);
    lemma_sorted_files_sorted(f2);
    lemma_files_sorted_unique(sorted_files(f1), sorted_files(f2));
}

/// The position in the ordered listing at which a log belongs.
fn insert_pos(
    files: &Vec<SessionFile>,
    order: &Vec<usize>,
    Ghost(m): Ghost<Seq<SessionFile>>,
    e_idx: usize,
) -> (p: usize)
    requires
        e_idx < files@.len(),
        order@.len() == m.len(),
        forall|k: int|
            0 <= k < order@.len() ==> 0 <= #[trigger] order@[k] < files@.len() && files@[order@[k] as int]
                == m[k],
    ensures
        0 <= p <= m.len(),
        forall|k: int|
            0 <= k < p ==> !chars_lt(files@[e_idx as int].session_id@, (#[trigger] m[k]).session_id@),
        p < m.len() ==> chars_lt(files@[e_idx as int].session_id@, m[p as int].session_id@),
{
    let mut p: usize = 0;
    while p < order.len()
        invariant
            0 <= p <= order@.len(),
            forall|k: int|
                0 <= k < p ==> !chars_lt(
                    files@[e_idx as int].session_id@,
                    (#[trigger] m[k]).session_id@,
                ),
        decreases order@.len() - p,
    {
        let oj = order[p];
        proof {
            assert(files@[oj as int] == m[p as int]);
        }
        if str_lt(files[e_idx].session_id.as_str(), files[oj].session_id.as_str()) {
            return p;
        }
        p += 1;
    }
    p
}

/// Orders the given logs for the scan: the indices of the files, listed
/// as `sorted_files` lists the files themselves.
pub fn sort_file_order(files: &Vec<SessionFile>) -> (order: Vec<usize>)
    ensures
        order@.len() == files@.len(),
        sorted_files(files@).len() == files@.len(),
        forall|k: int|
            0 <= k < order@.len() ==> 0 <= #[trigger] order@[k] < files@.len() && files@[order@[k] as int]
                == sorted_files(files@)[k],
{
    let mut order: Vec<usize> = Vec::new();
    proof {
        assert(sorted_files(files@.take(0)) =~= Seq::<SessionFile>::empty());
    }
    let mut i: usize = 0;
    while i < files.len()
        invariant
            0 <= i <= files@.len(),
            order@.len() == i,
            sorted_files(files@.take(i as int)).len() == i,
            forall|k: int|
                0 <= k < i ==> 0 <= #[trigger] order@[k] < files@.len() && files@[order@[k] as int]
                    == sorted_files(files@.take(i as int))[k],
        decreases files@.len() - i,
    {
        let ghost m = sorted_files(files@.take(i as int));
        let p = insert_pos(files, &order, Ghost(m), i);
        let ghost prev = order@;
        order.insert(p, i);
        proof {
            lemma_insert_file_at(files@[i as int], m, p as int);
            assert(sorted_files(files@.take(i + 1)) == insert_file(files@[i as int], m)) by {
                assert(files@.take(i + 1).drop_last() =~= files@.take(i as int));
                assert(files@.take(i + 1).last() == files@[i as int]);
            }
            assert forall|k: int|
                0 <= k < order@.len() implies 0 <= #[trigger] order@[k] < files@.len()
                && files@[order@[k] as int] == sorted_files(files@.take(i + 1))[k] by {
                assert(sorted_files(files@.take(i + 1)) == m.insert(p as int, files@[i as int]));
                if k < p {
                    assert(order@[k] == prev[k]);
                } else if k == p {
                    assert(order@[k] == i);
                } else {
                    assert(order@[k] == prev[k - 1]);
                }
            }
        }
        i += 1;
    }
    proof {
        assert(files@.take(files@.len() as int) =~= files@);
    }
    order
}

/// A summary freshly rebuilt from the given logs: the digest of some
/// event run that the files yield line by line, aggregated for the
/// given current date.
pub open spec fn recomputed_cache(r: StatsCache, files: Seq<SessionFile>, today: Seq<char>) -> bool {
    exists|evs: Seq<Event>, st: MergeState|
        {
            &&& #[trigger] events_from_files(files, evs)
            &&& #[trigger] merge_post(st, evs)
            &&& cache_matches_state(r, st, today)
        }
}

/// Scans every given session log from the beginning — in the canonical
/// scan order, so that the result does not depend on how the files were
/// enumerated — collapses repeated observations into canonical
/// messages, and folds them into the full summary for the given current
/// date. A fresh run over unchanged logs rebuilds the same summary.
pub fn compute_stats_cache_from_sessions(files: &Vec<SessionFile>, today: &str) -> (r: StatsCache)
    ensures
        recomputed_cache(r, sorted_files(files@), today@),
{
    let order = sort_file_order(files);
    let ghost sf = sorted_files(files@);
    let mut events: Vec<Event> = Vec::new();
    let ghost mut chunks: Seq<Seq<Event>> = Seq::empty();
    let mut i: usize = 0;
    while i < order.len()
        invariant
            0 <= i <= order@.len(),
            order@.len() == files@.len(),
            sf.len() == files@.len(),
            sf == sorted_files(files@),
            forall|k: int|
                0 <= k < order@.len() ==> 0 <= #[trigger] order@[k] < files@.len()
                    && files@[order@[k] as int] == sf[k],
            chunks.len() == i,
            forall|k: int| 0 <= k < i ==> file_events_ok(sf[k], #[trigger] chunks[k]),
            events@ == cat_all(chunks),
        decreases order@.len() - i,
    {
        let fi = order[i];
        let mut es = parse_session_file(&files[fi]);
        let ghost prevc = chunks;
        let ghost ges = es@;
        proof {
            chunks = chunks.push(ges);
            assert(files@[fi as int] == sf[i as int]);
        }
        events.append(&mut es);
        proof {
            assert(chunks.drop_last() =~= prevc);
            assert(chunks.last() == ges);
            assert(events@ == cat_all(chunks));
        }
        i += 1;
    }
    let st = merge_events(&events);
    let r = build_stats_cache(&st, today);
    proof {
        assert(events_from_files(sf, events@)) by {
            assert(cat_all(chunks) == events@);
        }
    }
    r
}

} // verus!
