use crate::json::json_of;
use crate::json::parse_json;
use crate::json::spec_get_str;
use crate::json::spec_get_u64;
use crate::json::jget_str;
use crate::json::jget_u64;
use crate::merge::MergeState;
use crate::merge::merge_events;
use crate::merge::merge_post;
use crate::models::TodaySummary;
use crate::stats::SessionFile;
use crate::stats::cat_all;
use crate::stats::file_events_ok;
use crate::stats::events_from_files;
use crate::stats::parse_session_file;
use crate::stats::sort_file_order;
use crate::stats::sorted_files;
use crate::aggregate::count_msgs_on_date;
use crate::aggregate::msgs_of;
use crate::aggregate::sess_list_date;
use crate::aggregate::sessions_on_date;
use crate::aggregate::tools_on_date;
use crate::aggregate::tools_date;
use crate::aggregate::count_date;
use crate::util::seq_contains_str;
use crate::event::Event;
use vstd::prelude::*;

verus! {

/// The session a chronological-log line names, where the line is valid
/// JSON with a numeric timestamp at or after the given instant and a
/// session field; nothing otherwise.
pub open spec fn line_sid(l: Seq<char>, since_ms: u64) -> Option<Seq<char>> {
    match json_of(l) {
        None => None,
        Some(v) => match (spec_get_u64(v, "timestamp"@), spec_get_str(v, "sessionId"@)) {
            (Some(ts), Some(sid)) => if ts >= since_ms {
                Some(sid)
            } else {
                None
            },
            _ => None,
        },
    }
}

/// The distinct sessions with any activity at or after an instant, in
/// order of first appearance.
pub open spec fn spec_today_sids(lines: Seq<String>, since_ms: u64) -> Seq<Seq<char>>
    decreases lines.len(),
{
    if lines.len() == 0 {
        Seq::empty()
    } else {
        let l = spec_today_sids(lines.drop_last(), since_ms);
        match line_sid(lines.last()@, since_ms) {
            Some(sid) => if !l.contains(sid) {
                l.push(sid)
            } else {
                l
            },
            None => l,
        }
    }
}

/// Reads the chronological activity log for the sessions active at or
/// after an instant, as `spec_today_sids` describes. Malformed lines are
/// skipped silently.
pub fn today_session_ids(lines: &Vec<String>, since_ms: u64) -> (r: Vec<String>)
    ensures
        r.deep_view() == spec_today_sids(lines@, since_ms),
{
    let mut out: Vec<String> = Vec::new();
    proof {
        assert(out.deep_view() =~= Seq::<Seq<char>>::empty());
        assert(lines@.take(0) =~= Seq::<String>::empty());
    }
    let mut i: usize = 0;
    while i < lines.len()
        invariant
            0 <= i <= lines@.len(),
            out.deep_view() == spec_today_sids(lines@.take(i as int), since_ms),
        decreases lines@.len() - i,
    {
        proof {
            assert(lines@.take(i + 1).drop_last() =~= lines@.take(i as int));
            assert(lines@.take(i + 1).last() == lines@[i as int]);
        }
        match parse_json(lines[i].as_str()) {
            Some(v) => {
                let ts = jget_u64(&v, "timestamp");
                let sid = jget_str(&v, "sessionId");
                match (ts, sid) {
                    (Some(t), Some(s)) => {
                        if t >= since_ms {
                            let ghost prev = out.deep_view();
                            if !seq_contains_str(&out, s.as_str()) {
                                out.push(s.clone());
                                proof {
                                    assert(out.deep_view() =~= prev.push(s@));
                                }
                            }
                        }
                    },
                    _ => {},
                }
            },
            None => {},
        }
        i += 1;
    }
    proof {
        assert(lines@.take(lines@.len() as int) =~= lines@);
    }
    out
}

/// The session logs whose names the active-session listing holds, in
/// their given order.
pub open spec fn sel_files(files: Seq<SessionFile>, sids: Seq<Seq<char>>) -> Seq<SessionFile>
    decreases files.len(),
{
    if files.len() == 0 {
        Seq::empty()
    } else {
        let r = sel_files(files.drop_last(), sids);
        if sids.contains(files.last().session_id@) {
            r.push(files.last())
        } else {
            r
        }
    }
}

/// An all-zero summary for the current date.
pub open spec fn zero_summary(r: TodaySummary, d: Seq<char>) -> bool {
    &&& r.date@ == d
    &&& r.total_tokens == 0
    &&& r.tokens_by_model@.len() == 0
    &&& r.messages == 0
    &&& r.sessions == 0
    &&& r.tool_calls == 0
}

/// What the reduced summary holds of the reduced state: the current
/// date's tallies, and its tokens by model, sorted by model name.
pub open spec fn today_state_repr(r: TodaySummary, st: MergeState, d: Seq<char>) -> bool {
    &&& r.date@ == d
    &&& r.messages == count_date(msgs_of(st), d)
    &&& r.sessions == sess_list_date(msgs_of(st), d).len()
    &&& r.tool_calls == tools_date(msgs_of(st), d)
    &&& crate::util::strictly_sorted(crate::aggregate::pair_keys(r.tokens_by_model@))
    &&& crate::util::same_elems(
        crate::aggregate::pair_keys(r.tokens_by_model@),
        crate::aggregate::model_list_date(msgs_of(st), d),
    )
    &&& forall|i: int|
        0 <= i < r.tokens_by_model@.len() ==> (#[trigger] r.tokens_by_model@[i]).1
            == crate::aggregate::tokens_date_model(msgs_of(st), d, r.tokens_by_model@[i].0@)
    &&& r.total_tokens == crate::cache::sum_pairs(r.tokens_by_model@)
}

/// The reduced recomputation for the current date, touching no persisted
/// summary: reads the chronological log for the sessions active since
/// the given instant, scans only their logs — in the canonical scan
/// order, as the full rebuild does — and tallies the given date's
/// messages, sessions, tool calls and tokens. An absent chronological
/// log yields an all-zero summary, never an error.
pub fn get_today_summary_fast(
    history_lines: Option<&Vec<String>>,
    files: &Vec<SessionFile>,
    since_ms: u64,
    today: &str,
) -> (r: TodaySummary)
    ensures
        match history_lines {
            None => zero_summary(r, today@),
            Some(hl) => exists|evs: Seq<Event>, st: MergeState|
                {
                    &&& #[trigger] events_from_files(
                        sel_files(sorted_files(files@), spec_today_sids(hl@, since_ms)),
                        evs,
                    )
                    &&& #[trigger] merge_post(st, evs)
                    &&& today_state_repr(r, st, today@)
                },
        },
{
    let hl = match history_lines {
        Some(hl) => hl,
        None => {
            return TodaySummary {
                date: today.to_owned(),
                total_tokens: 0,
                tokens_by_model: Vec::new(),
                messages: 0,
                sessions: 0,
                tool_calls: 0,
            };
        },
    };
    let sids = today_session_ids(hl, since_ms);
    let order = sort_file_order(files);
    let ghost sf = sorted_files(files@);
    let mut events: Vec<Event> = Vec::new();
    let ghost mut chunks: Seq<Seq<Event>> = Seq::empty();
    proof {
        assert(sf.take(0) =~= Seq::<SessionFile>::empty());
    }
    let mut i: usize = 0;
    while i < order.len()
        invariant
            0 <= i <= order@.len(),
            order@.len() == files@.len(),
            sf.len() == files@.len(),
            sf == sorted_files(files@),
            forall|k: int|
                0 <= k < order@.len() ==> 0 <= #[trigger] order@[k] < files@.len()
                    && files@[order@[k] as int] == sf[k],
            sids.deep_view() == spec_today_sids(hl@, since_ms),
            chunks.len() == sel_files(sf.take(i as int), sids.deep_view()).len(),
            forall|k: int|
                0 <= k < chunks.len() ==> file_events_ok(
                    sel_files(sf.take(i as int), sids.deep_view())[k],
                    #[trigger] chunks[k],
                ),
            events@ == cat_all(chunks),
        decreases order@.len() - i,
    {
        let fi = order[i];
        proof {
            assert(files@[fi as int] == sf[i as int]);
            assert(sf.take(i + 1).drop_last() =~= sf.take(i as int));
            assert(sf.take(i + 1).last() == sf[i as int]);
        }
        if seq_contains_str(&sids, files[fi].session_id.as_str()) {
            let mut es = parse_session_file(&files[fi]);
            let ghost prevc = chunks;
            let ghost ges = es@;
            proof {
                chunks = chunks.push(ges);
            }
            events.append(&mut es);
            proof {
                let selp = sel_files(sf.take(i as int), sids.deep_view());
                assert(sel_files(sf.take(i + 1), sids.deep_view()) == selp.push(sf[i as int]));
                assert(chunks.drop_last() =~= prevc);
                assert(chunks.last() == ges);
                assert(events@ == cat_all(chunks));
                assert forall|k: int| 0 <= k < chunks.len() implies file_events_ok(
                    sel_files(sf.take(i + 1), sids.deep_view())[k],
                    #[trigger] chunks[k],
                ) by {
                    if k < chunks.len() - 1 {
                        assert(chunks[k] == prevc[k]);
                        assert(sel_files(sf.take(i + 1), sids.deep_view())[k] == selp[k]);
                    } else {
                        assert(sel_files(sf.take(i + 1), sids.deep_view())[k] == sf[i as int]);
                    }
                }
            }
        }
        i += 1;
    }
    proof {
        assert(sf.take(sf.len() as int) =~= sf);
    }
    let st = merge_events(&events);
    let messages = count_msgs_on_date(&st, today);
    let sess = sessions_on_date(&st, today);
    let tool_calls = tools_on_date(&st, today);
    let tokens_by_model = crate::stats::tokens_by_model_for(&st, today);
    let total_tokens = crate::cache::sum_pairs_exec(&tokens_by_model);
    let r = TodaySummary {
        date: today.to_owned(),
        total_tokens,
        tokens_by_model,
        messages,
        sessions: sess.len() as u64,
        tool_calls,
    };
    proof {
        assert(events_from_files(sel_files(sorted_files(files@), sids.deep_view()), events@)) by {
            assert(cat_all(chunks) == events@);
        }
        assert(today_state_repr(r, st, today@));
    }
    r
}

} // verus!
