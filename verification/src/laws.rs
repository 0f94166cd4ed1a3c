use crate::aggregate::MsgV;
use crate::aggregate::best_sess;
use crate::aggregate::date_list;
use crate::aggregate::dur_of;
use crate::aggregate::msg_of_asst;
use crate::aggregate::msg_of_user;
use crate::aggregate::msgs_of;
use crate::aggregate::pair_keys;
use crate::aggregate::sess_list;
use crate::event::Event;
use crate::merge::Counter;
use crate::merge::MergeState;
use crate::merge::add_sigs;
use crate::merge::asst_first;
use crate::merge::asst_ids;
use crate::merge::asst_max;
use crate::merge::asst_model;
use crate::merge::asst_tools;
use crate::merge::counter_of;
use crate::merge::is_asst_with;
use crate::merge::is_user_with;
use crate::merge::merge_post;
use crate::merge::tbl_keys;
use crate::merge::user_first;
use crate::merge::user_ids;
use crate::models::StatsCache;
use crate::stats::activity_dates;
use crate::stats::cache_matches_state;
use crate::util::chars_lt;
use crate::util::lemma_sorted_unique;
use crate::util::same_elems;
use crate::util::strictly_sorted;
use vstd::prelude::*;

verus! {

/// Two states digesting one event run carry the same canonical
/// messages: the stores are keyed alike and every reading is pinned by
/// the events alone.
pub proof fn lemma_same_events_same_messages(st1: MergeState, st2: MergeState, evs: Seq<Event>)
    requires
        merge_post(st1, evs),
        merge_post(st2, evs),
    ensures
        msgs_of(st1) == msgs_of(st2),
{
    let m1 = msgs_of(st1);
    let m2 = msgs_of(st2);
    assert(tbl_keys(st1.users.entries@).len() == st1.users.entries@.len());
    assert(tbl_keys(st2.users.entries@).len() == st2.users.entries@.len());
    assert(tbl_keys(st1.assistant.entries@).len() == st1.assistant.entries@.len());
    assert(tbl_keys(st2.assistant.entries@).len() == st2.assistant.entries@.len());
    let ulen = st1.users.entries@.len() as int;
    assert forall|j: int| 0 <= j < m1.len() implies m1[j] =~= m2[j] by {
        if j < ulen {
            assert(m1[j] == msg_of_user(st1.users.entries@[j]));
            assert(m2[j] == msg_of_user(st2.users.entries@[j]));
            assert(st1.users.entries@[j].0@ == tbl_keys(st1.users.entries@)[j]);
            assert(st2.users.entries@[j].0@ == tbl_keys(st2.users.entries@)[j]);
            assert(crate::merge::user_entry_ok(st1.users.entries@[j], evs));
            assert(crate::merge::user_entry_ok(st2.users.entries@[j], evs));
        } else {
            let k = j - ulen;
            assert(m1[j] == msg_of_asst(st1.assistant.entries@[k]));
            assert(m2[j] == msg_of_asst(st2.assistant.entries@[k]));
            assert(st1.assistant.entries@[k].0@ == tbl_keys(st1.assistant.entries@)[k]);
            assert(st2.assistant.entries@[k].0@ == tbl_keys(st2.assistant.entries@)[k]);
            assert(crate::merge::asst_entry_ok(st1.assistant.entries@[k], evs));
            assert(crate::merge::asst_entry_ok(st2.assistant.entries@[k], evs));
            let t1 = st1.assistant.entries@[k].1.tool_uses;
            let t2 = st2.assistant.entries@[k].1.tool_uses;
            let id = st1.assistant.entries@[k].0@;
            assert(t1.deep_view() == crate::merge::asst_tools(evs, id));
            assert(t2.deep_view() == crate::merge::asst_tools(evs, id));
            assert(t1.deep_view().len() == t1@.len());
            assert(t2.deep_view().len() == t2@.len());
        }
    }
    assert(m1 =~= m2);
}

/// Rebuilding over an unchanged event run yields the same summary in
/// every part but the computed-on date: each sorted listing is the one
/// listing its member set and order admit, and every tally is a
/// function of the canonical messages.
pub proof fn lemma_recompute_idempotent(
    r1: StatsCache,
    r2: StatsCache,
    st1: MergeState,
    st2: MergeState,
    evs: Seq<Event>,
    d1: Seq<char>,
    d2: Seq<char>,
)
    requires
        merge_post(st1, evs),
        merge_post(st2, evs),
        cache_matches_state(r1, st1, d1),
        cache_matches_state(r2, st2, d2),
    ensures
        r1.version == r2.version,
        r1.last_computed_date@ == d1,
        r2.last_computed_date@ == d2,
        activity_dates(r1.daily_activity@) == activity_dates(r2.daily_activity@),
        r1.daily_activity@.len() == r2.daily_activity@.len(),
        forall|i: int|
            0 <= i < r1.daily_activity@.len() ==> (#[trigger] r1.daily_activity@[i]).date@
                == r2.daily_activity@[i].date@ && r1.daily_activity@[i].message_count
                == r2.daily_activity@[i].message_count && r1.daily_activity@[i].session_count
                == r2.daily_activity@[i].session_count && r1.daily_activity@[i].tool_call_count
                == r2.daily_activity@[i].tool_call_count,
        r1.daily_model_tokens@.len() == r2.daily_model_tokens@.len(),
        forall|i: int|
            0 <= i < r1.daily_model_tokens@.len() ==> (#[trigger] r1.daily_model_tokens@[i]).date@
                == r2.daily_model_tokens@[i].date@ && pair_keys(
                r1.daily_model_tokens@[i].tokens_by_model@,
            ) == pair_keys(r2.daily_model_tokens@[i].tokens_by_model@) && (forall|q: int|
                0 <= q < r1.daily_model_tokens@[i].tokens_by_model@.len() ==> (
                #[trigger] r1.daily_model_tokens@[i].tokens_by_model@[q]).1
                    == r2.daily_model_tokens@[i].tokens_by_model@[q].1),
        pair_keys(r1.model_usage@) == pair_keys(r2.model_usage@),
        forall|i: int|
            0 <= i < r1.model_usage@.len() ==> (#[trigger] r1.model_usage@[i]).1
                == r2.model_usage@[i].1,
        r1.total_sessions == r2.total_sessions,
        r1.total_messages == r2.total_messages,
        match (r1.longest_session, r2.longest_session) {
            (Some(l1), Some(l2)) => l1.session_id@ == l2.session_id@ && l1.duration == l2.duration
                && l1.message_count == l2.message_count && l1.timestamp@ == l2.timestamp@,
            (None, None) => true,
            _ => false,
        },
        match (r1.first_session_date, r2.first_session_date) {
            (Some(f1), Some(f2)) => f1@ == f2@,
            (None, None) => true,
            _ => false,
        },
        r1.hour_counts@ == r2.hour_counts@,
        r1.total_speculation_time_saved_ms == r2.total_speculation_time_saved_ms,
{
    lemma_same_events_same_messages(st1, st2, evs);
    let ms = msgs_of(st1);
    assert(tbl_keys(st1.users.entries@).len() == st1.users.entries@.len());
    assert(tbl_keys(st2.users.entries@).len() == st2.users.entries@.len());
    assert(tbl_keys(st1.assistant.entries@).len() == st1.assistant.entries@.len());
    assert(tbl_keys(st2.assistant.entries@).len() == st2.assistant.entries@.len());
    lemma_sorted_unique(activity_dates(r1.daily_activity@), activity_dates(r2.daily_activity@));
    assert(activity_dates(r1.daily_activity@).len() == r1.daily_activity@.len());
    assert(activity_dates(r2.daily_activity@).len() == r2.daily_activity@.len());
    assert forall|i: int| 0 <= i < r1.daily_activity@.len() implies (
    #[trigger] r1.daily_activity@[i]).date@ == r2.daily_activity@[i].date@ by {
        assert(activity_dates(r1.daily_activity@)[i] == r1.daily_activity@[i].date@);
        assert(activity_dates(r2.daily_activity@)[i] == r2.daily_activity@[i].date@);
    }
    assert forall|i: int| 0 <= i < r1.daily_model_tokens@.len() implies (
    #[trigger] r1.daily_model_tokens@[i]).date@ == r2.daily_model_tokens@[i].date@ by {
        assert(r1.daily_model_tokens@[i].date@ == r1.daily_activity@[i].date@);
        assert(r2.daily_model_tokens@[i].date@ == r2.daily_activity@[i].date@);
    }
    assert forall|i: int| 0 <= i < r1.daily_model_tokens@.len() implies pair_keys(
        (#[trigger] r1.daily_model_tokens@[i]).tokens_by_model@,
    ) == pair_keys(r2.daily_model_tokens@[i].tokens_by_model@) by {
        assert(crate::stats::dmt_ok(r1.daily_model_tokens@[i], ms));
        assert(crate::stats::dmt_ok(r2.daily_model_tokens@[i], msgs_of(st2)));
        lemma_sorted_unique(
            pair_keys(r1.daily_model_tokens@[i].tokens_by_model@),
            pair_keys(r2.daily_model_tokens@[i].tokens_by_model@),
        );
    }
    assert forall|i: int|
        0 <= i < r1.daily_model_tokens@.len() implies (forall|q: int|
        0 <= q < (#[trigger] r1.daily_model_tokens@[i]).tokens_by_model@.len() ==> (
        #[trigger] r1.daily_model_tokens@[i].tokens_by_model@[q]).1
            == r2.daily_model_tokens@[i].tokens_by_model@[q].1) by {
        assert(crate::stats::dmt_ok(r1.daily_model_tokens@[i], ms));
        assert(crate::stats::dmt_ok(r2.daily_model_tokens@[i], msgs_of(st2)));
        assert(pair_keys(r1.daily_model_tokens@[i].tokens_by_model@).len()
            == r1.daily_model_tokens@[i].tokens_by_model@.len());
        assert(pair_keys(r2.daily_model_tokens@[i].tokens_by_model@).len()
            == r2.daily_model_tokens@[i].tokens_by_model@.len());
        assert forall|q: int|
            0 <= q < r1.daily_model_tokens@[i].tokens_by_model@.len() implies (
        #[trigger] r1.daily_model_tokens@[i].tokens_by_model@[q]).1
            == r2.daily_model_tokens@[i].tokens_by_model@[q].1 by {
            assert(pair_keys(r1.daily_model_tokens@[i].tokens_by_model@)[q]
                == r1.daily_model_tokens@[i].tokens_by_model@[q].0@);
            assert(pair_keys(r2.daily_model_tokens@[i].tokens_by_model@)[q]
                == r2.daily_model_tokens@[i].tokens_by_model@[q].0@);
        }
    }
    lemma_sorted_unique(pair_keys(r1.model_usage@), pair_keys(r2.model_usage@));
    assert(pair_keys(r1.model_usage@).len() == r1.model_usage@.len());
    assert(pair_keys(r2.model_usage@).len() == r2.model_usage@.len());
    assert forall|i: int| 0 <= i < r1.model_usage@.len() implies (#[trigger] r1.model_usage@[i]).1
        == r2.model_usage@[i].1 by {
        assert(pair_keys(r1.model_usage@)[i] == r1.model_usage@[i].0@);
        assert(pair_keys(r2.model_usage@)[i] == r2.model_usage@[i].0@);
    }
    assert forall|h: int| 0 <= h < 24 implies r1.hour_counts@[h] == r2.hour_counts@[h] by {
        assert(r1.hour_counts@[h] == crate::aggregate::hour_count(ms, h));
        assert(r2.hour_counts@[h] == crate::aggregate::hour_count(msgs_of(st2), h));
    }
    assert(r1.hour_counts@ =~= r2.hour_counts@);
}

/// Every chunk's counter stays at or below the merged reading.
pub proof fn lemma_merged_counter_bounds(evs: Seq<Event>, id: Seq<char>, c: Counter)
    ensures
        forall|i: int|
            0 <= i < evs.len() && is_asst_with(#[trigger] evs[i], id) ==> counter_of(evs[i], c)
                <= asst_max(evs, id, c),
    decreases evs.len(),
{
    if evs.len() > 0 {
        lemma_merged_counter_bounds(evs.drop_last(), id, c);
        assert forall|i: int|
            0 <= i < evs.len() && is_asst_with(#[trigger] evs[i], id) implies counter_of(evs[i], c)
            <= asst_max(evs, id, c) by {
            if i < evs.len() - 1 {
                assert(evs.drop_last()[i] == evs[i]);
            }
        }
    }
}

/// The merged reading is one chunk's counter, wherever a chunk exists.
pub proof fn lemma_merged_counter_attained(evs: Seq<Event>, id: Seq<char>, c: Counter)
    requires
        asst_first(evs, id) is Some,
    ensures
        exists|i: int|
            0 <= i < evs.len() && is_asst_with(#[trigger] evs[i], id) && counter_of(evs[i], c)
                == asst_max(evs, id, c),
    decreases evs.len(),
{
    if evs.len() > 0 {
        let last = evs.last();
        if asst_first(evs.drop_last(), id) is Some {
            if is_asst_with(last, id) && counter_of(last, c) > asst_max(evs.drop_last(), id, c) {
                assert(is_asst_with(evs[evs.len() - 1], id));
            } else {
                lemma_merged_counter_attained(evs.drop_last(), id, c);
                let i = choose|i: int|
                    0 <= i < evs.drop_last().len() && is_asst_with(
                        #[trigger] evs.drop_last()[i],
                        id,
                    ) && counter_of(evs.drop_last()[i], c) == asst_max(evs.drop_last(), id, c);
                assert(evs.drop_last()[i] == evs[i]);
                assert(is_asst_with(evs[i], id));
                assert(asst_max(evs, id, c) == asst_max(evs.drop_last(), id, c));
                assert(counter_of(evs[i], c) == asst_max(evs, id, c));
            }
        } else {
            crate::merge::lemma_none_empty(evs.drop_last(), id);
            assert(asst_max(evs.drop_last(), id, c) == 0);
            assert(is_asst_with(last, id));
            assert(is_asst_with(evs[evs.len() - 1], id));
            if counter_of(last, c) > 0 {
                assert(counter_of(evs[evs.len() - 1], c) == asst_max(evs, id, c));
            } else {
                assert(counter_of(evs[evs.len() - 1], c) == asst_max(evs, id, c));
            }
        }
    }
}

/// The deduplicated tool listing never repeats an identity.
pub proof fn lemma_add_sigs_distinct(t: Seq<Seq<char>>, sigs: Seq<Seq<char>>)
    requires
        crate::util::distinct_seqs(t),
    ensures
        crate::util::distinct_seqs(add_sigs(t, sigs)),
    decreases sigs.len(),
{
    if sigs.len() > 0 {
        if !t.contains(sigs[0]) {
            crate::aggregate::lemma_collect_distinct(t, sigs[0]);
        }
        lemma_add_sigs_distinct(
            if t.contains(sigs[0]) {
                t
            } else {
                t.push(sigs[0])
            },
            sigs.drop_first(),
        );
    }
}

/// The deduplicated listing holds exactly the identities given to it.
pub proof fn lemma_add_sigs_contains(t: Seq<Seq<char>>, sigs: Seq<Seq<char>>, x: Seq<char>)
    ensures
        add_sigs(t, sigs).contains(x) <==> t.contains(x) || sigs.contains(x),
    decreases sigs.len(),
{
    if sigs.len() == 0 {
    } else {
        let t2 = if t.contains(sigs[0]) {
            t
        } else {
            t.push(sigs[0])
        };
        lemma_add_sigs_contains(t2, sigs.drop_first(), x);
        if !t.contains(sigs[0]) {
            assert(t.push(sigs[0])[t.len() as int] == sigs[0]);
            assert forall|y: Seq<char>| t.push(sigs[0]).contains(y) implies t.contains(y) || y
                == sigs[0] by {
                let j = choose|j: int|
                    0 <= j < t.push(sigs[0]).len() && t.push(sigs[0])[j] == y;
                if j < t.len() {
                    assert(t[j] == y);
                }
            }
            assert forall|y: Seq<char>| t.contains(y) implies t.push(sigs[0]).contains(y) by {
                let j = choose|j: int| 0 <= j < t.len() && t[j] == y;
                assert(t.push(sigs[0])[j] == y);
            }
        }
        assert forall|y: Seq<char>| sigs.contains(y) implies y == sigs[0] || sigs.drop_first()
            .contains(y) by {
            let j = choose|j: int| 0 <= j < sigs.len() && sigs[j] == y;
            if j > 0 {
                assert(sigs.drop_first()[j - 1] == y);
            }
        }
        if sigs.drop_first().contains(x) {
            let j = choose|j: int|
                0 <= j < sigs.drop_first().len() && sigs.drop_first()[j] == x;
            assert(sigs[j + 1] == x);
        }
        if sigs.len() > 0 && x == sigs[0] {
            assert(sigs.contains(x));
        }
    }
}

/// The merged tool listing holds each distinct identity once: exactly
/// the identities observed in any chunk, never one twice, so its length
/// is the number of distinct identities.
pub proof fn lemma_merged_tools(evs: Seq<Event>, id: Seq<char>)
    ensures
        crate::util::distinct_seqs(asst_tools(evs, id)),
        forall|x: Seq<char>|
            #[trigger] asst_tools(evs, id).contains(x) <==> exists|i: int|
                0 <= i < evs.len() && is_asst_with(#[trigger] evs[i], id)
                    && evs[i]@.tool_uses.contains(x),
    decreases evs.len(),
{
    if evs.len() == 0 {
        assert forall|x: Seq<char>| !(#[trigger] asst_tools(evs, id).contains(x)) by {}
    } else {
        lemma_merged_tools(evs.drop_last(), id);
        let prev = asst_tools(evs.drop_last(), id);
        if is_asst_with(evs.last(), id) {
            lemma_add_sigs_distinct(prev, evs.last()@.tool_uses);
        }
        assert forall|x: Seq<char>| #[trigger] asst_tools(evs, id).contains(x) implies exists|
            i: int,
        |
            0 <= i < evs.len() && is_asst_with(#[trigger] evs[i], id) && evs[i]@.tool_uses.contains(
                x,
            ) by {
            if is_asst_with(evs.last(), id) {
                lemma_add_sigs_contains(prev, evs.last()@.tool_uses, x);
                if prev.contains(x) {
                    let i = choose|i: int|
                        0 <= i < evs.drop_last().len() && is_asst_with(
                            #[trigger] evs.drop_last()[i],
                            id,
                        ) && evs.drop_last()[i]@.tool_uses.contains(x);
                    assert(evs.drop_last()[i] == evs[i]);
                    assert(is_asst_with(evs[i], id) && evs[i]@.tool_uses.contains(x));
                } else {
                    assert(is_asst_with(evs[evs.len() - 1], id) && evs[evs.len()
                        - 1]@.tool_uses.contains(x));
                }
            } else {
                let i = choose|i: int|
                    0 <= i < evs.drop_last().len() && is_asst_with(
                        #[trigger] evs.drop_last()[i],
                        id,
                    ) && evs.drop_last()[i]@.tool_uses.contains(x);
                assert(evs.drop_last()[i] == evs[i]);
                assert(is_asst_with(evs[i], id) && evs[i]@.tool_uses.contains(x));
            }
        }
        assert forall|x: Seq<char>|
            (exists|i: int|
                0 <= i < evs.len() && is_asst_with(#[trigger] evs[i], id)
                    && evs[i]@.tool_uses.contains(x)) implies #[trigger] asst_tools(
            evs,
            id,
        ).contains(x) by {
            let i = choose|i: int|
                0 <= i < evs.len() && is_asst_with(#[trigger] evs[i], id)
                    && evs[i]@.tool_uses.contains(x);
            if i < evs.len() - 1 {
                assert(evs.drop_last()[i] == evs[i]);
                assert(is_asst_with(evs.drop_last()[i], id) && evs.drop_last()[i]@.tool_uses
                    .contains(x));
                assert(prev.contains(x));
                if is_asst_with(evs.last(), id) {
                    lemma_add_sigs_contains(prev, evs.last()@.tool_uses, x);
                }
            } else {
                assert(is_asst_with(evs.last(), id));
                lemma_add_sigs_contains(prev, evs.last()@.tool_uses, x);
            }
        }
    }
}

/// A user record whose identity was already observed changes nothing:
/// no listing and no canonical reading moves, so every tally derived
/// from the digested state is what it was.
pub proof fn lemma_user_duplicate_no_effect(evs: Seq<Event>, e: Event)
    requires
        e@.is_user,
        user_ids(evs).contains(e@.id),
    ensures
        user_ids(evs.push(e)) == user_ids(evs),
        asst_ids(evs.push(e)) == asst_ids(evs),
        forall|id: Seq<char>| #[trigger] user_first(evs.push(e), id) == user_first(evs, id),
        forall|id: Seq<char>| #[trigger] asst_first(evs.push(e), id) == asst_first(evs, id),
        forall|id: Seq<char>, c: Counter| #[trigger]
            asst_max(evs.push(e), id, c) == asst_max(evs, id, c),
        forall|id: Seq<char>| #[trigger] asst_model(evs.push(e), id) == asst_model(evs, id),
        forall|id: Seq<char>| #[trigger] asst_tools(evs.push(e), id) == asst_tools(evs, id),
        forall|st: MergeState| #[trigger] merge_post(st, evs.push(e)) <==> merge_post(st, evs),
{
    assert(evs.push(e).drop_last() =~= evs);
    assert(evs.push(e).last() == e);
    assert forall|id: Seq<char>| #[trigger] user_first(evs.push(e), id) == user_first(
        evs,
        id,
    ) by {
        if is_user_with(e, id) {
            crate::merge::lemma_user_ids_iff(evs, id);
        }
    }
    assert forall|st: MergeState| #[trigger] merge_post(st, evs.push(e)) <==> merge_post(
        st,
        evs,
    ) by {
        if merge_post(st, evs.push(e)) {
            assert forall|j: int| 0 <= j < st.users.entries@.len() implies
                crate::merge::user_entry_ok(#[trigger] st.users.entries@[j], evs) by {
                assert(crate::merge::user_entry_ok(st.users.entries@[j], evs.push(e)));
            }
            assert forall|j: int| 0 <= j < st.assistant.entries@.len() implies
                crate::merge::asst_entry_ok(#[trigger] st.assistant.entries@[j], evs) by {
                assert(crate::merge::asst_entry_ok(st.assistant.entries@[j], evs.push(e)));
            }
        }
        if merge_post(st, evs) {
            assert forall|j: int| 0 <= j < st.users.entries@.len() implies
                crate::merge::user_entry_ok(#[trigger] st.users.entries@[j], evs.push(e)) by {
                assert(crate::merge::user_entry_ok(st.users.entries@[j], evs));
            }
            assert forall|j: int| 0 <= j < st.assistant.entries@.len() implies
                crate::merge::asst_entry_ok(#[trigger] st.assistant.entries@[j], evs.push(e)) by {
                assert(crate::merge::asst_entry_ok(st.assistant.entries@[j], evs));
            }
        }
    }
}

/// No session outlasts the longest: the chosen window is at least every
/// listed session's, and there is a choice exactly where a session is.
pub proof fn lemma_best_sess_bound(sids: Seq<Seq<char>>, ms: Seq<MsgV>)
    ensures
        best_sess(sids, ms) is Some <==> sids.len() > 0,
        match best_sess(sids, ms) {
            Some(b) => forall|k: int| 0 <= k < sids.len() ==> dur_of(ms, #[trigger] sids[k])
                <= dur_of(ms, b),
            None => true,
        },
    decreases sids.len(),
{
    if sids.len() > 0 {
        lemma_best_sess_bound(sids.drop_last(), ms);
        assert forall|k: int|
            0 <= k < sids.len() implies dur_of(ms, #[trigger] sids[k]) <= dur_of(
            ms,
            best_sess(sids, ms)->0,
        ) by {
            if k < sids.len() - 1 {
                assert(sids.drop_last()[k] == sids[k]);
            }
        }
    }
}

/// The summary's longest session outlasts every session, and is absent
/// exactly where no session was seen.
pub proof fn lemma_longest_session(r: StatsCache, st: MergeState, today: Seq<char>)
    requires
        cache_matches_state(r, st, today),
    ensures
        match r.longest_session {
            Some(l) => forall|sid: Seq<char>|
                #[trigger] sess_list(msgs_of(st)).contains(sid) ==> dur_of(msgs_of(st), sid)
                    <= l.duration,
            None => sess_list(msgs_of(st)).len() == 0,
        },
        r.longest_session is Some <==> sess_list(msgs_of(st)).len() > 0,
{
    let ms = msgs_of(st);
    lemma_best_sess_bound(sess_list(ms), ms);
    match best_sess(sess_list(ms), ms) {
        Some(b) => {
            assert(r.longest_session matches Some(l) && l.session_id@ == b);
            let l = r.longest_session->0;
            assert(l.duration == dur_of(ms, b));
            assert forall|sid: Seq<char>| #[trigger] sess_list(ms).contains(sid) implies dur_of(
                ms,
                sid,
            ) <= l.duration by {
                let k = choose|k: int| 0 <= k < sess_list(ms).len() && sess_list(ms)[k] == sid;
                assert(dur_of(ms, sess_list(ms)[k]) <= dur_of(ms, b));
            }
        },
        None => {},
    }
}

/// The two date-keyed sequences of a finished summary list one date set:
/// pointwise equal dates, strictly ascending, and together exactly the
/// dates with any activity.
pub proof fn lemma_date_partition(r: StatsCache, st: MergeState, today: Seq<char>)
    requires
        cache_matches_state(r, st, today),
    ensures
        r.daily_activity@.len() == r.daily_model_tokens@.len(),
        forall|i: int|
            0 <= i < r.daily_activity@.len() ==> (#[trigger] r.daily_model_tokens@[i]).date@
                == r.daily_activity@[i].date@,
        forall|i: int, j: int|
            0 <= i < j < r.daily_activity@.len() ==> chars_lt(
                (#[trigger] r.daily_activity@[i]).date@,
                (#[trigger] r.daily_activity@[j]).date@,
            ),
        same_elems(activity_dates(r.daily_activity@), date_list(msgs_of(st))),
{
    assert forall|i: int, j: int| 0 <= i < j < r.daily_activity@.len() implies chars_lt(
        (#[trigger] r.daily_activity@[i]).date@,
        (#[trigger] r.daily_activity@[j]).date@,
    ) by {
        assert(activity_dates(r.daily_activity@)[i] == r.daily_activity@[i].date@);
        assert(activity_dates(r.daily_activity@)[j] == r.daily_activity@[j].date@);
        assert(strictly_sorted(activity_dates(r.daily_activity@)));
    }
}

} // verus!
