use crate::merge::AssistantAgg;
use crate::merge::MergeState;
use crate::merge::UserMsg;
use crate::models::ModelUsage;
use crate::util::chars_lt;
use crate::util::sat_add;
use crate::util::sat_add_u64;
use crate::util::seq_contains_str;
use crate::util::str_eq;
use vstd::prelude::*;

verus! {

/// One canonical message, user or assistant, reduced to what the
/// aggregates read. A user message carries an empty model, zero counters
/// and no tools.
#[verifier::ext_equal]
pub struct MsgV {
    pub session_id: Seq<char>,
    pub date: Seq<char>,
    pub hour: u8,
    pub ms: i64,
    pub iso: Seq<char>,
    pub model: Seq<char>,
    pub input_tokens: u64,
    pub output_tokens: u64,
    pub cache_read_input_tokens: u64,
    pub cache_creation_input_tokens: u64,
    pub web_search_requests: u64,
    pub tools: u64,
}

/// A canonical user entry as a message.
pub open spec fn msg_of_user(en: (String, UserMsg)) -> MsgV {
    MsgV {
        session_id: en.1.session_id@,
        date: en.1.date@,
        hour: en.1.hour,
        ms: en.1.ms,
        iso: en.1.iso@,
        model: Seq::empty(),
        input_tokens: 0,
        output_tokens: 0,
        cache_read_input_tokens: 0,
        cache_creation_input_tokens: 0,
        web_search_requests: 0,
        tools: 0,
    }
}

/// A canonical assistant entry as a message.
pub open spec fn msg_of_asst(en: (String, AssistantAgg)) -> MsgV {
    MsgV {
        session_id: en.1.session_id@,
        date: en.1.date@,
        hour: en.1.hour,
        ms: en.1.ms,
        iso: en.1.iso@,
        model: en.1.model@,
        input_tokens: en.1.input_tokens,
        output_tokens: en.1.output_tokens,
        cache_read_input_tokens: en.1.cache_read_input_tokens,
        cache_creation_input_tokens: en.1.cache_creation_input_tokens,
        web_search_requests: en.1.web_search_requests,
        tools: en.1.tool_uses@.len() as u64,
    }
}

/// Every canonical message of a state: the user entries, then the
/// assistant entries, each in order of first appearance.
pub open spec fn msgs_of(st: MergeState) -> Seq<MsgV> {
    st.users.entries@.map_values(|en: (String, UserMsg)| msg_of_user(en))
        + st.assistant.entries@.map_values(|en: (String, AssistantAgg)| msg_of_asst(en))
}

/// How many messages fall on a date.
pub open spec fn count_date(ms: Seq<MsgV>, d: Seq<char>) -> u64
    decreases ms.len(),
{
    if ms.len() == 0 {
        0
    } else {
        sat_add(count_date(ms.drop_last(), d), if ms.last().date == d {
            1
        } else {
            0
        })
    }
}

/// How many tool calls the messages of a date carry.
pub open spec fn tools_date(ms: Seq<MsgV>, d: Seq<char>) -> u64
    decreases ms.len(),
{
    if ms.len() == 0 {
        0
    } else {
        sat_add(tools_date(ms.drop_last(), d), if ms.last().date == d {
            ms.last().tools
        } else {
            0
        })
    }
}

/// The distinct sessions touched on a date, in order of first appearance.
pub open spec fn sess_list_date(ms: Seq<MsgV>, d: Seq<char>) -> Seq<Seq<char>>
    decreases ms.len(),
{
    if ms.len() == 0 {
        Seq::empty()
    } else {
        let l = sess_list_date(ms.drop_last(), d);
        if ms.last().date == d && !l.contains(ms.last().session_id) {
            l.push(ms.last().session_id)
        } else {
            l
        }
    }
}

/// The distinct sessions over all messages, in order of first appearance.
pub open spec fn sess_list(ms: Seq<MsgV>) -> Seq<Seq<char>>
    decreases ms.len(),
{
    if ms.len() == 0 {
        Seq::empty()
    } else {
        let l = sess_list(ms.drop_last());
        if !l.contains(ms.last().session_id) {
            l.push(ms.last().session_id)
        } else {
            l
        }
    }
}

/// The distinct non-empty model names, in order of first appearance.
pub open spec fn model_list(ms: Seq<MsgV>) -> Seq<Seq<char>>
    decreases ms.len(),
{
    if ms.len() == 0 {
        Seq::empty()
    } else {
        let l = model_list(ms.drop_last());
        if ms.last().model.len() > 0 && !l.contains(ms.last().model) {
            l.push(ms.last().model)
        } else {
            l
        }
    }
}

/// The distinct non-empty model names among a date's messages.
pub open spec fn model_list_date(ms: Seq<MsgV>, d: Seq<char>) -> Seq<Seq<char>>
    decreases ms.len(),
{
    if ms.len() == 0 {
        Seq::empty()
    } else {
        let l = model_list_date(ms.drop_last(), d);
        if ms.last().date == d && ms.last().model.len() > 0 && !l.contains(ms.last().model) {
            l.push(ms.last().model)
        } else {
            l
        }
    }
}

/// The output tokens a model produced on a date.
pub open spec fn tokens_date_model(ms: Seq<MsgV>, d: Seq<char>, m: Seq<char>) -> u64
    decreases ms.len(),
{
    if ms.len() == 0 {
        0
    } else {
        sat_add(
            tokens_date_model(ms.drop_last(), d, m),
            if ms.last().date == d && ms.last().model == m && m.len() > 0 {
                ms.last().output_tokens
            } else {
                0
            },
        )
    }
}

/// The cumulative usage of one model over all messages. The cost and the
/// context-window fields are not computed here and stay zero.
pub open spec fn usage_of(ms: Seq<MsgV>, m: Seq<char>) -> ModelUsage
    decreases ms.len(),
{
    if ms.len() == 0 {
        ModelUsage {
            input_tokens: 0,
            output_tokens: 0,
            cache_read_input_tokens: 0,
            cache_creation_input_tokens: 0,
            web_search_requests: 0,
            context_window: 0,
            max_output_tokens: 0,
        }
    } else {
        let u = usage_of(ms.drop_last(), m);
        if ms.last().model == m && m.len() > 0 {
            ModelUsage {
                input_tokens: sat_add(u.input_tokens, ms.last().input_tokens),
                output_tokens: sat_add(u.output_tokens, ms.last().output_tokens),
                cache_read_input_tokens: sat_add(
                    u.cache_read_input_tokens,
                    ms.last().cache_read_input_tokens,
                ),
                cache_creation_input_tokens: sat_add(
                    u.cache_creation_input_tokens,
                    ms.last().cache_creation_input_tokens,
                ),
                web_search_requests: sat_add(u.web_search_requests, ms.last().web_search_requests),
                context_window: 0,
                max_output_tokens: 0,
            }
        } else {
            u
        }
    }
}

/// How many messages fall in an hour bucket.
pub open spec fn hour_count(ms: Seq<MsgV>, h: int) -> u64
    decreases ms.len(),
{
    if ms.len() == 0 {
        0
    } else {
        sat_add(hour_count(ms.drop_last(), h), if ms.last().hour == h {
            1
        } else {
            0
        })
    }
}

/// One session's window over the messages seen so far: earliest instant
/// with its renderings, latest instant, and how many messages.
#[verifier::ext_equal]
pub struct SessV {
    pub first_ms: i64,
    pub first_iso: Seq<char>,
    pub first_date: Seq<char>,
    pub last_ms: i64,
    pub count: u64,
}

/// Folds one session's messages into its window: the earliest keeps the
/// first message attaining it, the count saturates.
pub open spec fn sess_fold(ms: Seq<MsgV>, sid: Seq<char>) -> Option<SessV>
    decreases ms.len(),
{
    if ms.len() == 0 {
        None
    } else {
        let prev = sess_fold(ms.drop_last(), sid);
        let m = ms.last();
        if m.session_id != sid {
            prev
        } else {
            match prev {
                None => Some(
                    SessV {
                        first_ms: m.ms,
                        first_iso: m.iso,
                        first_date: m.date,
                        last_ms: m.ms,
                        count: 1,
                    },
                ),
                Some(s) => Some(
                    SessV {
                        first_ms: if m.ms < s.first_ms {
                            m.ms
                        } else {
                            s.first_ms
                        },
                        first_iso: if m.ms < s.first_ms {
                            m.iso
                        } else {
                            s.first_iso
                        },
                        first_date: if m.ms < s.first_ms {
                            m.date
                        } else {
                            s.first_date
                        },
                        last_ms: if m.ms > s.last_ms {
                            m.ms
                        } else {
                            s.last_ms
                        },
                        count: sat_add(s.count, 1),
                    },
                ),
            }
        }
    }
}

/// A session's duration: latest minus earliest, floored at zero.
pub open spec fn spec_duration(s: SessV) -> u64 {
    if s.last_ms >= s.first_ms {
        (s.last_ms - s.first_ms) as u64
    } else {
        0
    }
}

/// A session is listed exactly where its fold finds a message.
pub proof fn lemma_sess_list_iff(ms: Seq<MsgV>, sid: Seq<char>)
    ensures
        sess_list(ms).contains(sid) <==> sess_fold(ms, sid) is Some,
    decreases ms.len(),
{
    if ms.len() > 0 {
        lemma_sess_list_iff(ms.drop_last(), sid);
        let l = sess_list(ms.drop_last());
        if !l.contains(ms.last().session_id) {
            assert(l.push(ms.last().session_id)[l.len() as int] == ms.last().session_id);
            assert forall|k: Seq<char>| l.push(ms.last().session_id).contains(k) implies
                l.contains(k) || k == ms.last().session_id by {
                let j = choose|j: int|
                    0 <= j < l.push(ms.last().session_id).len() && l.push(ms.last().session_id)[j]
                        == k;
                if j < l.len() {
                    assert(l[j] == k);
                }
            }
            assert forall|k: Seq<char>| l.contains(k) implies l.push(
                ms.last().session_id,
            ).contains(k) by {
                let j = choose|j: int| 0 <= j < l.len() && l[j] == k;
                assert(l.push(ms.last().session_id)[j] == k);
            }
        }
    }
}

/// The session with the greatest duration; a tie goes to the smaller
/// session id, so the choice does not depend on any traversal order.
pub open spec fn best_sess(sids: Seq<Seq<char>>, ms: Seq<MsgV>) -> Option<Seq<char>>
    decreases sids.len(),
{
    if sids.len() == 0 {
        None
    } else {
        let prev = best_sess(sids.drop_last(), ms);
        let cur = sids.last();
        match prev {
            None => Some(cur),
            Some(b) => {
                let db = dur_of(ms, b);
                let dc = dur_of(ms, cur);
                if dc > db || (dc == db && chars_lt(cur, b)) {
                    Some(cur)
                } else {
                    Some(b)
                }
            },
        }
    }
}

/// A listed session's duration; zero where the fold finds nothing.
pub open spec fn dur_of(ms: Seq<MsgV>, sid: Seq<char>) -> u64 {
    match sess_fold(ms, sid) {
        Some(s) => spec_duration(s),
        None => 0,
    }
}

/// The earliest first-activity date over the sessions, in calendar order.
pub open spec fn min_first_date(sids: Seq<Seq<char>>, ms: Seq<MsgV>) -> Option<Seq<char>>
    decreases sids.len(),
{
    if sids.len() == 0 {
        None
    } else {
        let prev = min_first_date(sids.drop_last(), ms);
        let cur = date_of(ms, sids.last());
        match prev {
            None => Some(cur),
            Some(d) => if chars_lt(cur, d) {
                Some(cur)
            } else {
                Some(d)
            },
        }
    }
}

/// A listed session's first-activity date; empty where the fold finds
/// nothing.
pub open spec fn date_of(ms: Seq<MsgV>, sid: Seq<char>) -> Seq<char> {
    match sess_fold(ms, sid) {
        Some(s) => s.first_date,
        None => Seq::empty(),
    }
}

/// Counts the messages of a date, as `count_date` describes.
pub fn count_msgs_on_date(st: &MergeState, d: &str) -> (r: u64)
    ensures
        r == count_date(msgs_of(*st), d@),
{
    let ghost ms = msgs_of(*st);
    let ghost ulen = st.users.entries@.len();
    let mut acc: u64 = 0;
    proof {
        assert(ms.take(0) =~= Seq::<MsgV>::empty());
    }
    let mut i: usize = 0;
    while i < st.users.entries.len()
        invariant
            0 <= i <= ulen,
            acc == count_date(ms.take(i as int), d@),
        decreases ulen - i,
    {
        proof {
            assert(ms.take(i + 1).drop_last() =~= ms.take(i as int));
            assert(ms.take(i + 1).last() == ms[i as int]);
            assert(ms[i as int] == msg_of_user(st.users.entries@[i as int]));
        }
        if str_eq(st.users.entries[i].1.date.as_str(), d) {
            acc = sat_add_u64(acc, 1);
        }
        i += 1;
    }
    let mut j: usize = 0;
    while j < st.assistant.entries.len()
        invariant
            0 <= j <= st.assistant.entries@.len(),
            acc == count_date(ms.take(ulen + j), d@),
        decreases st.assistant.entries@.len() - j,
    {
        proof {
            assert(ms.take(ulen + j + 1).drop_last() =~= ms.take(ulen + j));
            assert(ms.take(ulen + j + 1).last() == ms[ulen + j]);
            assert(ms[ulen + j] == msg_of_asst(st.assistant.entries@[j as int]));
        }
        if str_eq(st.assistant.entries[j].1.date.as_str(), d) {
            acc = sat_add_u64(acc, 1);
        }
        j += 1;
    }
    proof {
        assert(ms.take(ms.len() as int) =~= ms);
    }
    acc
}

/// Sums the tool calls of a date, as `tools_date` describes.
pub fn tools_on_date(st: &MergeState, d: &str) -> (r: u64)
    ensures
        r == tools_date(msgs_of(*st), d@),
{
    let ghost ms = msgs_of(*st);
    let ghost ulen = st.users.entries@.len();
    let mut acc: u64 = 0;
    proof {
        assert(ms.take(0) =~= Seq::<MsgV>::empty());
    }
    let mut i: usize = 0;
    while i < st.users.entries.len()
        invariant
            0 <= i <= ulen,
            acc == tools_date(ms.take(i as int), d@),
        decreases ulen - i,
    {
        proof {
            assert(ms.take(i + 1).drop_last() =~= ms.take(i as int));
            assert(ms.take(i + 1).last() == ms[i as int]);
            assert(ms[i as int] == msg_of_user(st.users.entries@[i as int]));
        }
        i += 1;
    }
    let mut j: usize = 0;
    while j < st.assistant.entries.len()
        invariant
            0 <= j <= st.assistant.entries@.len(),
            acc == tools_date(ms.take(ulen + j), d@),
        decreases st.assistant.entries@.len() - j,
    {
        proof {
            assert(ms.take(ulen + j + 1).drop_last() =~= ms.take(ulen + j));
            assert(ms.take(ulen + j + 1).last() == ms[ulen + j]);
            assert(ms[ulen + j] == msg_of_asst(st.assistant.entries@[j as int]));
        }
        if str_eq(st.assistant.entries[j].1.date.as_str(), d) {
            let n = st.assistant.entries[j].1.tool_uses.len();
            acc = sat_add_u64(acc, n as u64);
        }
        j += 1;
    }
    proof {
        assert(ms.take(ms.len() as int) =~= ms);
    }
    acc
}

/// Collects the distinct sessions of a date, as `sess_list_date`
/// describes.
pub fn sessions_on_date(st: &MergeState, d: &str) -> (r: Vec<String>)
    ensures
        r.deep_view() == sess_list_date(msgs_of(*st), d@),
{
    let ghost ms = msgs_of(*st);
    let ghost ulen = st.users.entries@.len();
    let mut out: Vec<String> = Vec::new();
    proof {
        assert(ms.take(0) =~= Seq::<MsgV>::empty());
        assert(out.deep_view() =~= Seq::<Seq<char>>::empty());
    }
    let mut i: usize = 0;
    while i < st.users.entries.len()
        invariant
            0 <= i <= ulen,
            out.deep_view() == sess_list_date(ms.take(i as int), d@),
        decreases ulen - i,
    {
        proof {
            assert(ms.take(i + 1).drop_last() =~= ms.take(i as int));
            assert(ms.take(i + 1).last() == ms[i as int]);
            assert(ms[i as int] == msg_of_user(st.users.entries@[i as int]));
        }
        let en = &st.users.entries[i];
        if str_eq(en.1.date.as_str(), d) {
            let ghost prev = out.deep_view();
            if !seq_contains_str(&out, en.1.session_id.as_str()) {
                out.push(en.1.session_id.clone());
                proof {
                    assert(out.deep_view() =~= prev.push(en.1.session_id@));
                }
            }
        }
        i += 1;
    }
    let mut j: usize = 0;
    while j < st.assistant.entries.len()
        invariant
            0 <= j <= st.assistant.entries@.len(),
            out.deep_view() == sess_list_date(ms.take(ulen + j), d@),
        decreases st.assistant.entries@.len() - j,
    {
        proof {
            assert(ms.take(ulen + j + 1).drop_last() =~= ms.take(ulen + j));
            assert(ms.take(ulen + j + 1).last() == ms[ulen + j]);
            assert(ms[ulen + j] == msg_of_asst(st.assistant.entries@[j as int]));
        }
        let en = &st.assistant.entries[j];
        if str_eq(en.1.date.as_str(), d) {
            let ghost prev = out.deep_view();
            if !seq_contains_str(&out, en.1.session_id.as_str()) {
                out.push(en.1.session_id.clone());
                proof {
                    assert(out.deep_view() =~= prev.push(en.1.session_id@));
                }
            }
        }
        j += 1;
    }
    proof {
        assert(ms.take(ms.len() as int) =~= ms);
    }
    out
}

/// Collects the distinct sessions of all messages, as `sess_list`
/// describes.
pub fn sessions_of(st: &MergeState) -> (r: Vec<String>)
    ensures
        r.deep_view() == sess_list(msgs_of(*st)),
{
    let ghost ms = msgs_of(*st);
    let ghost ulen = st.users.entries@.len();
    let mut out: Vec<String> = Vec::new();
    proof {
        assert(ms.take(0) =~= Seq::<MsgV>::empty());
        assert(out.deep_view() =~= Seq::<Seq<char>>::empty());
    }
    let mut i: usize = 0;
    while i < st.users.entries.len()
        invariant
            0 <= i <= ulen,
            out.deep_view() == sess_list(ms.take(i as int)),
        decreases ulen - i,
    {
        proof {
            assert(ms.take(i + 1).drop_last() =~= ms.take(i as int));
            assert(ms.take(i + 1).last() == ms[i as int]);
            assert(ms[i as int] == msg_of_user(st.users.entries@[i as int]));
        }
        let en = &st.users.entries[i];
        let ghost prev = out.deep_view();
        if !seq_contains_str(&out, en.1.session_id.as_str()) {
            out.push(en.1.session_id.clone());
            proof {
                assert(out.deep_view() =~= prev.push(en.1.session_id@));
            }
        }
        i += 1;
    }
    let mut j: usize = 0;
    while j < st.assistant.entries.len()
        invariant
            0 <= j <= st.assistant.entries@.len(),
            out.deep_view() == sess_list(ms.take(ulen + j)),
        decreases st.assistant.entries@.len() - j,
    {
        proof {
            assert(ms.take(ulen + j + 1).drop_last() =~= ms.take(ulen + j));
            assert(ms.take(ulen + j + 1).last() == ms[ulen + j]);
            assert(ms[ulen + j] == msg_of_asst(st.assistant.entries@[j as int]));
        }
        let en = &st.assistant.entries[j];
        let ghost prev = out.deep_view();
        if !seq_contains_str(&out, en.1.session_id.as_str()) {
            out.push(en.1.session_id.clone());
            proof {
                assert(out.deep_view() =~= prev.push(en.1.session_id@));
            }
        }
        j += 1;
    }
    proof {
        assert(ms.take(ms.len() as int) =~= ms);
    }
    out
}

/// Collects the distinct dates of all messages, as `date_list` would.
pub open spec fn date_list(ms: Seq<MsgV>) -> Seq<Seq<char>>
    decreases ms.len(),
{
    if ms.len() == 0 {
        Seq::empty()
    } else {
        let l = date_list(ms.drop_last());
        if !l.contains(ms.last().date) {
            l.push(ms.last().date)
        } else {
            l
        }
    }
}

/// Collects the distinct dates, as `date_list` describes.
pub fn dates_of(st: &MergeState) -> (r: Vec<String>)
    ensures
        r.deep_view() == date_list(msgs_of(*st)),
{
    let ghost ms = msgs_of(*st);
    let ghost ulen = st.users.entries@.len();
    let mut out: Vec<String> = Vec::new();
    proof {
        assert(ms.take(0) =~= Seq::<MsgV>::empty());
        assert(out.deep_view() =~= Seq::<Seq<char>>::empty());
    }
    let mut i: usize = 0;
    while i < st.users.entries.len()
        invariant
            0 <= i <= ulen,
            out.deep_view() == date_list(ms.take(i as int)),
        decreases ulen - i,
    {
        proof {
            assert(ms.take(i + 1).drop_last() =~= ms.take(i as int));
            assert(ms.take(i + 1).last() == ms[i as int]);
            assert(ms[i as int] == msg_of_user(st.users.entries@[i as int]));
        }
        let en = &st.users.entries[i];
        let ghost prev = out.deep_view();
        if !seq_contains_str(&out, en.1.date.as_str()) {
            out.push(en.1.date.clone());
            proof {
                assert(out.deep_view() =~= prev.push(en.1.date@));
            }
        }
        i += 1;
    }
    let mut j: usize = 0;
    while j < st.assistant.entries.len()
        invariant
            0 <= j <= st.assistant.entries@.len(),
            out.deep_view() == date_list(ms.take(ulen + j)),
        decreases st.assistant.entries@.len() - j,
    {
        proof {
            assert(ms.take(ulen + j + 1).drop_last() =~= ms.take(ulen + j));
            assert(ms.take(ulen + j + 1).last() == ms[ulen + j]);
            assert(ms[ulen + j] == msg_of_asst(st.assistant.entries@[j as int]));
        }
        let en = &st.assistant.entries[j];
        let ghost prev = out.deep_view();
        if !seq_contains_str(&out, en.1.date.as_str()) {
            out.push(en.1.date.clone());
            proof {
                assert(out.deep_view() =~= prev.push(en.1.date@));
            }
        }
        j += 1;
    }
    proof {
        assert(ms.take(ms.len() as int) =~= ms);
    }
    out
}

/// Collects the distinct non-empty models of a date, as
/// `model_list_date` describes.
pub fn models_on_date(st: &MergeState, d: &str) -> (r: Vec<String>)
    ensures
        r.deep_view() == model_list_date(msgs_of(*st), d@),
{
    let ghost ms = msgs_of(*st);
    let ghost ulen = st.users.entries@.len();
    let mut out: Vec<String> = Vec::new();
    proof {
        assert(ms.take(0) =~= Seq::<MsgV>::empty());
        assert(out.deep_view() =~= Seq::<Seq<char>>::empty());
    }
    let mut i: usize = 0;
    while i < st.users.entries.len()
        invariant
            0 <= i <= ulen,
            out.deep_view() == model_list_date(ms.take(i as int), d@),
        decreases ulen - i,
    {
        proof {
            assert(ms.take(i + 1).drop_last() =~= ms.take(i as int));
            assert(ms.take(i + 1).last() == ms[i as int]);
            assert(ms[i as int] == msg_of_user(st.users.entries@[i as int]));
        }
        i += 1;
    }
    let mut j: usize = 0;
    while j < st.assistant.entries.len()
        invariant
            0 <= j <= st.assistant.entries@.len(),
            out.deep_view() == model_list_date(ms.take(ulen + j), d@),
        decreases st.assistant.entries@.len() - j,
    {
        proof {
            assert(ms.take(ulen + j + 1).drop_last() =~= ms.take(ulen + j));
            assert(ms.take(ulen + j + 1).last() == ms[ulen + j]);
            assert(ms[ulen + j] == msg_of_asst(st.assistant.entries@[j as int]));
        }
        let en = &st.assistant.entries[j];
        if str_eq(en.1.date.as_str(), d) && !en.1.model.as_str().is_empty() {
            let ghost prev = out.deep_view();
            if !seq_contains_str(&out, en.1.model.as_str()) {
                out.push(en.1.model.clone());
                proof {
                    assert(out.deep_view() =~= prev.push(en.1.model@));
                }
            }
        }
        j += 1;
    }
    proof {
        assert(ms.take(ms.len() as int) =~= ms);
    }
    out
}

/// Collects the distinct non-empty models over all messages, as
/// `model_list` describes.
pub fn models_of(st: &MergeState) -> (r: Vec<String>)
    ensures
        r.deep_view() == model_list(msgs_of(*st)),
{
    let ghost ms = msgs_of(*st);
    let ghost ulen = st.users.entries@.len();
    let mut out: Vec<String> = Vec::new();
    proof {
        assert(ms.take(0) =~= Seq::<MsgV>::empty());
        assert(out.deep_view() =~= Seq::<Seq<char>>::empty());
    }
    let mut i: usize = 0;
    while i < st.users.entries.len()
        invariant
            0 <= i <= ulen,
            out.deep_view() == model_list(ms.take(i as int)),
        decreases ulen - i,
    {
        proof {
            assert(ms.take(i + 1).drop_last() =~= ms.take(i as int));
            assert(ms.take(i + 1).last() == ms[i as int]);
            assert(ms[i as int] == msg_of_user(st.users.entries@[i as int]));
        }
        i += 1;
    }
    let mut j: usize = 0;
    while j < st.assistant.entries.len()
        invariant
            0 <= j <= st.assistant.entries@.len(),
            out.deep_view() == model_list(ms.take(ulen + j)),
        decreases st.assistant.entries@.len() - j,
    {
        proof {
            assert(ms.take(ulen + j + 1).drop_last() =~= ms.take(ulen + j));
            assert(ms.take(ulen + j + 1).last() == ms[ulen + j]);
            assert(ms[ulen + j] == msg_of_asst(st.assistant.entries@[j as int]));
        }
        let en = &st.assistant.entries[j];
        if !en.1.model.as_str().is_empty() {
            let ghost prev = out.deep_view();
            if !seq_contains_str(&out, en.1.model.as_str()) {
                out.push(en.1.model.clone());
                proof {
                    assert(out.deep_view() =~= prev.push(en.1.model@));
                }
            }
        }
        j += 1;
    }
    proof {
        assert(ms.take(ms.len() as int) =~= ms);
    }
    out
}

/// Sums a model's output tokens on a date, as `tokens_date_model`
/// describes.
pub fn tokens_for(st: &MergeState, d: &str, m: &str) -> (r: u64)
    ensures
        r == tokens_date_model(msgs_of(*st), d@, m@),
{
    let ghost ms = msgs_of(*st);
    let ghost ulen = st.users.entries@.len();
    let mut acc: u64 = 0;
    proof {
        assert(ms.take(0) =~= Seq::<MsgV>::empty());
    }
    let mut i: usize = 0;
    while i < st.users.entries.len()
        invariant
            0 <= i <= ulen,
            acc == tokens_date_model(ms.take(i as int), d@, m@),
        decreases ulen - i,
    {
        proof {
            assert(ms.take(i + 1).drop_last() =~= ms.take(i as int));
            assert(ms.take(i + 1).last() == ms[i as int]);
            assert(ms[i as int] == msg_of_user(st.users.entries@[i as int]));
        }
        i += 1;
    }
    let mut j: usize = 0;
    while j < st.assistant.entries.len()
        invariant
            0 <= j <= st.assistant.entries@.len(),
            acc == tokens_date_model(ms.take(ulen + j), d@, m@),
        decreases st.assistant.entries@.len() - j,
    {
        proof {
            assert(ms.take(ulen + j + 1).drop_last() =~= ms.take(ulen + j));
            assert(ms.take(ulen + j + 1).last() == ms[ulen + j]);
            assert(ms[ulen + j] == msg_of_asst(st.assistant.entries@[j as int]));
        }
        let en = &st.assistant.entries[j];
        if str_eq(en.1.date.as_str(), d) && str_eq(en.1.model.as_str(), m) && !m.is_empty() {
            acc = sat_add_u64(acc, en.1.output_tokens);
        }
        j += 1;
    }
    proof {
        assert(ms.take(ms.len() as int) =~= ms);
    }
    acc
}

/// Sums a model's whole usage, as `usage_of` describes.
pub fn usage_for(st: &MergeState, m: &str) -> (r: ModelUsage)
    ensures
        r == usage_of(msgs_of(*st), m@),
{
    let ghost ms = msgs_of(*st);
    let ghost ulen = st.users.entries@.len();
    let mut acc = ModelUsage {
        input_tokens: 0,
        output_tokens: 0,
        cache_read_input_tokens: 0,
        cache_creation_input_tokens: 0,
        web_search_requests: 0,
        context_window: 0,
        max_output_tokens: 0,
    };
    proof {
        assert(ms.take(0) =~= Seq::<MsgV>::empty());
    }
    let mut i: usize = 0;
    while i < st.users.entries.len()
        invariant
            0 <= i <= ulen,
            acc == usage_of(ms.take(i as int), m@),
        decreases ulen - i,
    {
        proof {
            assert(ms.take(i + 1).drop_last() =~= ms.take(i as int));
            assert(ms.take(i + 1).last() == ms[i as int]);
            assert(ms[i as int] == msg_of_user(st.users.entries@[i as int]));
        }
        i += 1;
    }
    let mut j: usize = 0;
    while j < st.assistant.entries.len()
        invariant
            0 <= j <= st.assistant.entries@.len(),
            acc == usage_of(ms.take(ulen + j), m@),
        decreases st.assistant.entries@.len() - j,
    {
        proof {
            assert(ms.take(ulen + j + 1).drop_last() =~= ms.take(ulen + j));
            assert(ms.take(ulen + j + 1).last() == ms[ulen + j]);
            assert(ms[ulen + j] == msg_of_asst(st.assistant.entries@[j as int]));
        }
        let en = &st.assistant.entries[j];
        if str_eq(en.1.model.as_str(), m) && !m.is_empty() {
            acc = ModelUsage {
                input_tokens: sat_add_u64(acc.input_tokens, en.1.input_tokens),
                output_tokens: sat_add_u64(acc.output_tokens, en.1.output_tokens),
                cache_read_input_tokens: sat_add_u64(
                    acc.cache_read_input_tokens,
                    en.1.cache_read_input_tokens,
                ),
                cache_creation_input_tokens: sat_add_u64(
                    acc.cache_creation_input_tokens,
                    en.1.cache_creation_input_tokens,
                ),
                web_search_requests: sat_add_u64(
                    acc.web_search_requests,
                    en.1.web_search_requests,
                ),
                context_window: 0,
                max_output_tokens: 0,
            };
        }
        j += 1;
    }
    proof {
        assert(ms.take(ms.len() as int) =~= ms);
    }
    acc
}

/// Counts the messages of one hour bucket, as `hour_count` describes.
pub fn count_hour(st: &MergeState, h: u8) -> (r: u64)
    ensures
        r == hour_count(msgs_of(*st), h as int),
{
    let ghost ms = msgs_of(*st);
    let ghost ulen = st.users.entries@.len();
    let mut acc: u64 = 0;
    proof {
        assert(ms.take(0) =~= Seq::<MsgV>::empty());
    }
    let mut i: usize = 0;
    while i < st.users.entries.len()
        invariant
            0 <= i <= ulen,
            acc == hour_count(ms.take(i as int), h as int),
        decreases ulen - i,
    {
        proof {
            assert(ms.take(i + 1).drop_last() =~= ms.take(i as int));
            assert(ms.take(i + 1).last() == ms[i as int]);
            assert(ms[i as int] == msg_of_user(st.users.entries@[i as int]));
        }
        if st.users.entries[i].1.hour == h {
            acc = sat_add_u64(acc, 1);
        }
        i += 1;
    }
    let mut j: usize = 0;
    while j < st.assistant.entries.len()
        invariant
            0 <= j <= st.assistant.entries@.len(),
            acc == hour_count(ms.take(ulen + j), h as int),
        decreases st.assistant.entries@.len() - j,
    {
        proof {
            assert(ms.take(ulen + j + 1).drop_last() =~= ms.take(ulen + j));
            assert(ms.take(ulen + j + 1).last() == ms[ulen + j]);
            assert(ms[ulen + j] == msg_of_asst(st.assistant.entries@[j as int]));
        }
        if st.assistant.entries[j].1.hour == h {
            acc = sat_add_u64(acc, 1);
        }
        j += 1;
    }
    proof {
        assert(ms.take(ms.len() as int) =~= ms);
    }
    acc
}

/// One session's running window as the scan sees it: earliest and
/// latest instant, the earliest instant's rendering, and a message
/// count.
pub struct SessionAgg {
    pub first_ts_ms: i64,
    pub first_ts_iso: String,
    pub last_ts_ms: i64,
    pub message_count: u64,
}

/// Applies one message's timestamp to its session's window: a strictly
/// earlier instant takes over the earliest reading, a strictly later
/// one the latest, and the count grows by one, saturating. A session
/// not yet seen opens with this instant as both bounds.
pub fn update_session_agg(
    sessions: &mut crate::table::Table<SessionAgg>,
    session_id: &str,
    timestamp_ms: i64,
    timestamp_iso: &str,
)
    requires
        old(sessions).wf(),
    ensures
        final(sessions).wf(),
        final(sessions).spec_get(session_id@) matches Some(a) && (match old(sessions).spec_get(
            session_id@,
        ) {
            None => a.first_ts_ms == timestamp_ms && a.first_ts_iso@ == timestamp_iso@
                && a.last_ts_ms == timestamp_ms && a.message_count == 1,
            Some(b) => a.first_ts_ms == (if timestamp_ms < b.first_ts_ms {
                timestamp_ms
            } else {
                b.first_ts_ms
            }) && a.first_ts_iso@ == (if timestamp_ms < b.first_ts_ms {
                timestamp_iso@
            } else {
                b.first_ts_iso@
            }) && a.last_ts_ms == (if timestamp_ms > b.last_ts_ms {
                timestamp_ms
            } else {
                b.last_ts_ms
            }) && a.message_count == sat_add(b.message_count, 1),
        }),
        forall|k: Seq<char>|
            k != session_id@ ==> final(sessions).spec_get(k) == old(sessions).spec_get(k),
{
    match sessions.find(session_id) {
        Some(i) => {
            let b = &sessions.entries[i].1;
            let take_new = timestamp_ms < b.first_ts_ms;
            let a = SessionAgg {
                first_ts_ms: if take_new {
                    timestamp_ms
                } else {
                    b.first_ts_ms
                },
                first_ts_iso: if take_new {
                    timestamp_iso.to_owned()
                } else {
                    b.first_ts_iso.clone()
                },
                last_ts_ms: if timestamp_ms > b.last_ts_ms {
                    timestamp_ms
                } else {
                    b.last_ts_ms
                },
                message_count: sat_add_u64(b.message_count, 1),
            };
            sessions.set_at(i, a);
        },
        None => {
            let a = SessionAgg {
                first_ts_ms: timestamp_ms,
                first_ts_iso: timestamp_iso.to_owned(),
                last_ts_ms: timestamp_ms,
                message_count: 1,
            };
            sessions.push(session_id.to_owned(), a);
        },
    }
}

/// One session's window, executable form.
pub struct SessAcc {
    pub first_ms: i64,
    pub first_iso: String,
    pub first_date: String,
    pub last_ms: i64,
    pub count: u64,
}

/// The spec reading of an executable window.
pub open spec fn sess_acc_view(a: SessAcc) -> SessV {
    SessV {
        first_ms: a.first_ms,
        first_iso: a.first_iso@,
        first_date: a.first_date@,
        last_ms: a.last_ms,
        count: a.count,
    }
}

/// Folds one session's window, as `sess_fold` describes.
pub fn fold_session(st: &MergeState, sid: &str) -> (r: Option<SessAcc>)
    ensures
        match r {
            Some(a) => sess_fold(msgs_of(*st), sid@) == Some(sess_acc_view(a)),
            None => sess_fold(msgs_of(*st), sid@) is None,
        },
{
    let ghost ms = msgs_of(*st);
    let ghost ulen = st.users.entries@.len();
    let mut acc: Option<SessAcc> = None;
    proof {
        assert(ms.take(0) =~= Seq::<MsgV>::empty());
    }
    let mut i: usize = 0;
    while i < st.users.entries.len()
        invariant
            0 <= i <= ulen,
            match acc {
                Some(a) => sess_fold(ms.take(i as int), sid@) == Some(sess_acc_view(a)),
                None => sess_fold(ms.take(i as int), sid@) is None,
            },
        decreases ulen - i,
    {
        proof {
            assert(ms.take(i + 1).drop_last() =~= ms.take(i as int));
            assert(ms.take(i + 1).last() == ms[i as int]);
            assert(ms[i as int] == msg_of_user(st.users.entries@[i as int]));
        }
        let en = &st.users.entries[i];
        if str_eq(en.1.session_id.as_str(), sid) {
            acc = Some(step_session(acc, en.1.ms, &en.1.iso, &en.1.date));
        }
        i += 1;
    }
    let mut j: usize = 0;
    while j < st.assistant.entries.len()
        invariant
            0 <= j <= st.assistant.entries@.len(),
            match acc {
                Some(a) => sess_fold(ms.take(ulen + j), sid@) == Some(sess_acc_view(a)),
                None => sess_fold(ms.take(ulen + j), sid@) is None,
            },
        decreases st.assistant.entries@.len() - j,
    {
        proof {
            assert(ms.take(ulen + j + 1).drop_last() =~= ms.take(ulen + j));
            assert(ms.take(ulen + j + 1).last() == ms[ulen + j]);
            assert(ms[ulen + j] == msg_of_asst(st.assistant.entries@[j as int]));
        }
        let en = &st.assistant.entries[j];
        if str_eq(en.1.session_id.as_str(), sid) {
            acc = Some(step_session(acc, en.1.ms, &en.1.iso, &en.1.date));
        }
        j += 1;
    }
    proof {
        assert(ms.take(ms.len() as int) =~= ms);
    }
    acc
}

/// Applies one message to a session window: the earliest instant keeps
/// the first message attaining it, the count saturates.
fn step_session(acc: Option<SessAcc>, m_ms: i64, m_iso: &String, m_date: &String) -> (r: SessAcc)
    ensures
        match acc {
            None => sess_acc_view(r) == SessV {
                first_ms: m_ms,
                first_iso: m_iso@,
                first_date: m_date@,
                last_ms: m_ms,
                count: 1,
            },
            Some(a) => sess_acc_view(r) == SessV {
                first_ms: if m_ms < a.first_ms {
                    m_ms
                } else {
                    a.first_ms
                },
                first_iso: if m_ms < a.first_ms {
                    m_iso@
                } else {
                    a.first_iso@
                },
                first_date: if m_ms < a.first_ms {
                    m_date@
                } else {
                    a.first_date@
                },
                last_ms: if m_ms > a.last_ms {
                    m_ms
                } else {
                    a.last_ms
                },
                count: sat_add(a.count, 1),
            },
        },
{
    match acc {
        None => SessAcc {
            first_ms: m_ms,
            first_iso: m_iso.clone(),
            first_date: m_date.clone(),
            last_ms: m_ms,
            count: 1,
        },
        Some(a) => {
            let take_new = m_ms < a.first_ms;
            SessAcc {
                first_ms: if take_new {
                    m_ms
                } else {
                    a.first_ms
                },
                first_iso: if take_new {
                    m_iso.clone()
                } else {
                    a.first_iso
                },
                first_date: if take_new {
                    m_date.clone()
                } else {
                    a.first_date
                },
                last_ms: if m_ms > a.last_ms {
                    m_ms
                } else {
                    a.last_ms
                },
                count: sat_add_u64(a.count, 1),
            }
        },
    }
}

/// The dates named by a daily-activity sequence.
pub open spec fn activity_dates(v: Seq<crate::models::DailyActivity>) -> Seq<Seq<char>> {
    v.map_values(|a: crate::models::DailyActivity| a.date@)
}

/// The keys of a listing of string-keyed pairs.
pub open spec fn pair_keys<V>(s: Seq<(String, V)>) -> Seq<Seq<char>> {
    s.map_values(|e: (String, V)| e.0@)
}

/// Distinct listings stay distinct: what `date_list` and the model
/// listings collect never repeats an element.
pub proof fn lemma_collect_distinct(l: Seq<Seq<char>>, x: Seq<char>)
    requires
        crate::util::distinct_seqs(l),
        !l.contains(x),
    ensures
        crate::util::distinct_seqs(l.push(x)),
{
    assert forall|i: int, j: int| 0 <= i < j < l.push(x).len() implies l.push(x)[i] != l.push(
        x,
    )[j] by {
        if j < l.len() {
        } else {
            assert(l.push(x)[j] == x);
            assert(l.push(x)[i] == l[i]);
            if l[i] == x {
                assert(l.contains(x));
            }
        }
    }
}

/// `date_list` never repeats a date.
pub proof fn lemma_date_list_distinct(ms: Seq<MsgV>)
    ensures
        crate::util::distinct_seqs(date_list(ms)),
    decreases ms.len(),
{
    if ms.len() > 0 {
        lemma_date_list_distinct(ms.drop_last());
        let l = date_list(ms.drop_last());
        if !l.contains(ms.last().date) {
            lemma_collect_distinct(l, ms.last().date);
        }
    }
}

/// `model_list` never repeats a model.
pub proof fn lemma_model_list_distinct(ms: Seq<MsgV>)
    ensures
        crate::util::distinct_seqs(model_list(ms)),
    decreases ms.len(),
{
    if ms.len() > 0 {
        lemma_model_list_distinct(ms.drop_last());
        let l = model_list(ms.drop_last());
        if ms.last().model.len() > 0 && !l.contains(ms.last().model) {
            lemma_collect_distinct(l, ms.last().model);
        }
    }
}

/// `model_list_date` never repeats a model.
pub proof fn lemma_model_list_date_distinct(ms: Seq<MsgV>, d: Seq<char>)
    ensures
        crate::util::distinct_seqs(model_list_date(ms, d)),
    decreases ms.len(),
{
    if ms.len() > 0 {
        lemma_model_list_date_distinct(ms.drop_last(), d);
        let l = model_list_date(ms.drop_last(), d);
        if ms.last().date == d && ms.last().model.len() > 0 && !l.contains(ms.last().model) {
            lemma_collect_distinct(l, ms.last().model);
        }
    }
}

/// A session's duration, as `spec_duration` describes.
pub fn duration_of_acc(a: &SessAcc) -> (r: u64)
    ensures
        r == spec_duration(sess_acc_view(*a)),
{
    if a.last_ms >= a.first_ms {
        let d: i128 = a.last_ms as i128 - a.first_ms as i128;
        d as u64
    } else {
        0
    }
}

} // verus!
