use crate::aggregate::MsgV;
use crate::aggregate::model_list_date;
use crate::aggregate::msg_of_asst;
use crate::aggregate::msg_of_user;
use crate::aggregate::msgs_of;
use crate::aggregate::sess_list_date;
use crate::aggregate::tokens_date_model;
use crate::aggregate::tools_date;
use crate::event::Event;
use crate::merge::add_sigs;
use crate::aggregate::count_date;
use crate::util::sat_add;
use vstd::prelude::*;

verus! {

/// No two events of one kind share an identity: every record is its own
/// message, with no duplicates and no streaming chunks to merge.
pub open spec fn clean(evs: Seq<Event>) -> bool {
    forall|i: int, j: int|
        0 <= i < j < evs.len() && (#[trigger] evs[i])@.is_user == (#[trigger] evs[j])@.is_user
            ==> evs[i]@.id != evs[j]@.id
}

/// The events dated on one calendar date, in order.
pub open spec fn sel_date(evs: Seq<Event>, d: Seq<char>) -> Seq<Event>
    decreases evs.len(),
{
    if evs.len() == 0 {
        Seq::empty()
    } else {
        sel_date(evs.drop_last(), d) + (if evs.last()@.date == d {
            seq![evs.last()]
        } else {
            Seq::empty()
        })
    }
}

/// The messages dated on one calendar date, in order.
pub open spec fn msgs_on_date(ms: Seq<MsgV>, d: Seq<char>) -> Seq<MsgV>
    decreases ms.len(),
{
    if ms.len() == 0 {
        Seq::empty()
    } else {
        msgs_on_date(ms.drop_last(), d) + (if ms.last().date == d {
            seq![ms.last()]
        } else {
            Seq::empty()
        })
    }
}

/// A user event, read directly as its own canonical message.
pub open spec fn msg_of_user_event(e: Event) -> MsgV {
    MsgV {
        session_id: e@.session_id,
        date: e@.date,
        hour: e@.hour,
        ms: e@.ms,
        iso: e@.iso,
        model: Seq::empty(),
        input_tokens: 0,
        output_tokens: 0,
        cache_read_input_tokens: 0,
        cache_creation_input_tokens: 0,
        web_search_requests: 0,
        tools: 0,
    }
}

/// An assistant event, read directly as its own canonical message: with
/// no other chunk of its identity, the merged record is the event
/// itself, its tool listing deduplicated.
pub open spec fn msg_of_asst_event(e: Event) -> MsgV {
    MsgV {
        session_id: e@.session_id,
        date: e@.date,
        hour: e@.hour,
        ms: e@.ms,
        iso: e@.iso,
        model: e@.model,
        input_tokens: e@.input_tokens,
        output_tokens: e@.output_tokens,
        cache_read_input_tokens: e@.cache_read_input_tokens,
        cache_creation_input_tokens: e@.cache_creation_input_tokens,
        web_search_requests: e@.web_search_requests,
        tools: add_sigs(Seq::empty(), e@.tool_uses).len() as u64,
    }
}

/// The user events of a run, each as its message.
pub open spec fn user_msgs(evs: Seq<Event>) -> Seq<MsgV>
    decreases evs.len(),
{
    if evs.len() == 0 {
        Seq::empty()
    } else {
        user_msgs(evs.drop_last()) + (if evs.last()@.is_user {
            seq![msg_of_user_event(evs.last())]
        } else {
            Seq::empty()
        })
    }
}

/// The assistant events of a run, each as its message.
pub open spec fn asst_msgs(evs: Seq<Event>) -> Seq<MsgV>
    decreases evs.len(),
{
    if evs.len() == 0 {
        Seq::empty()
    } else {
        asst_msgs(evs.drop_last()) + (if !evs.last()@.is_user {
            seq![msg_of_asst_event(evs.last())]
        } else {
            Seq::empty()
        })
    }
}

/// The user events of a run, in order.
pub open spec fn user_evts(evs: Seq<Event>) -> Seq<Event>
    decreases evs.len(),
{
    if evs.len() == 0 {
        Seq::empty()
    } else {
        user_evts(evs.drop_last()) + (if evs.last()@.is_user {
            seq![evs.last()]
        } else {
            Seq::empty()
        })
    }
}

/// The assistant events of a run, in order.
pub open spec fn asst_evts(evs: Seq<Event>) -> Seq<Event>
    decreases evs.len(),
{
    if evs.len() == 0 {
        Seq::empty()
    } else {
        asst_evts(evs.drop_last()) + (if !evs.last()@.is_user {
            seq![evs.last()]
        } else {
            Seq::empty()
        })
    }
}

/// On a clean run every canonical reading is the one event that carries
/// its identity: the identity listings walk the events in order, and
/// each merged field is that event's own.
proof fn lemma_clean_characterization(evs: Seq<Event>)
    requires
        clean(evs),
    ensures
        forall|k: int| 0 <= k < user_evts(evs).len() ==> (#[trigger] user_evts(evs)[k])@.is_user,
        forall|k: int| 0 <= k < asst_evts(evs).len() ==> !(#[trigger] asst_evts(evs)[k])@.is_user,
        crate::merge::user_ids(evs).len() == user_evts(evs).len(),
        forall|k: int|
            0 <= k < user_evts(evs).len() ==> crate::merge::user_ids(evs)[k] == (
            #[trigger] user_evts(evs)[k])@.id,
        forall|k: int|
            0 <= k < user_evts(evs).len() ==> crate::merge::user_first(
                evs,
                (#[trigger] user_evts(evs)[k])@.id,
            ) == Some(user_evts(evs)[k]),
        forall|k: int| 0 <= k < user_evts(evs).len() ==> evs.contains(#[trigger] user_evts(evs)[k]),
        user_msgs(evs).len() == user_evts(evs).len(),
        forall|k: int|
            0 <= k < user_evts(evs).len() ==> #[trigger] user_msgs(evs)[k] == msg_of_user_event(
                user_evts(evs)[k],
            ),
        crate::merge::asst_ids(evs).len() == asst_evts(evs).len(),
        forall|k: int|
            0 <= k < asst_evts(evs).len() ==> crate::merge::asst_ids(evs)[k] == (
            #[trigger] asst_evts(evs)[k])@.id,
        forall|k: int|
            0 <= k < asst_evts(evs).len() ==> crate::merge::asst_first(
                evs,
                (#[trigger] asst_evts(evs)[k])@.id,
            ) == Some(asst_evts(evs)[k]),
        forall|k: int| 0 <= k < asst_evts(evs).len() ==> evs.contains(#[trigger] asst_evts(evs)[k]),
        forall|k: int, c: crate::merge::Counter|
            0 <= k < asst_evts(evs).len() ==> #[trigger] crate::merge::asst_max(
                evs,
                (#[trigger] asst_evts(evs)[k])@.id,
                c,
            ) == crate::merge::counter_of(asst_evts(evs)[k], c),
        forall|k: int|
            0 <= k < asst_evts(evs).len() ==> crate::merge::asst_model(
                evs,
                (#[trigger] asst_evts(evs)[k])@.id,
            ) == (if asst_evts(evs)[k]@.model.len() > 0 {
                asst_evts(evs)[k]@.model
            } else {
                Seq::<char>::empty()
            }),
        forall|k: int|
            0 <= k < asst_evts(evs).len() ==> crate::merge::asst_tools(
                evs,
                (#[trigger] asst_evts(evs)[k])@.id,
            ) == add_sigs(Seq::empty(), asst_evts(evs)[k]@.tool_uses),
        asst_msgs(evs).len() == asst_evts(evs).len(),
        forall|k: int|
            0 <= k < asst_evts(evs).len() ==> #[trigger] asst_msgs(evs)[k] == msg_of_asst_event(
                asst_evts(evs)[k],
            ),
    decreases evs.len(),
{
    if evs.len() > 0 {
        let p = evs.drop_last();
        let e = evs.last();
        assert(clean(p)) by {
            assert(forall|i: int| 0 <= i < p.len() ==> p[i] == evs[i]);
        }
        lemma_clean_characterization(p);
        assert(forall|i: int| 0 <= i < p.len() ==> p[i] == evs[i]);
        if e@.is_user {
            assert(asst_evts(evs) =~= asst_evts(p));
            assert(asst_msgs(evs) =~= asst_msgs(p));
            assert(user_evts(evs) =~= user_evts(p).push(e));
            assert(user_msgs(evs) =~= user_msgs(p).push(msg_of_user_event(e)));
            assert(!crate::merge::user_ids(p).contains(e@.id)) by {
                if crate::merge::user_ids(p).contains(e@.id) {
                    let k = choose|k: int|
                        0 <= k < crate::merge::user_ids(p).len() && crate::merge::user_ids(p)[k]
                            == e@.id;
                    assert(user_evts(p)[k]@.id == e@.id);
                    assert(p.contains(user_evts(p)[k]));
                    let i = choose|i: int| 0 <= i < p.len() && p[i] == user_evts(p)[k];
                    assert(evs[i] == user_evts(p)[k]);
                    assert(evs[i]@.is_user == evs[evs.len() - 1]@.is_user);
                    assert(evs[i]@.id != evs[evs.len() - 1]@.id);
                }
            }
            assert(crate::merge::user_ids(evs) == crate::merge::user_ids(p).push(e@.id));
            assert(crate::merge::user_first(p, e@.id) is None) by {
                crate::merge::lemma_user_ids_iff(p, e@.id);
            }
            assert forall|k: int| 0 <= k < user_evts(evs).len() implies crate::merge::user_ids(
                evs,
            )[k] == (#[trigger] user_evts(evs)[k])@.id && crate::merge::user_first(
                evs,
                user_evts(evs)[k]@.id,
            ) == Some(user_evts(evs)[k]) && evs.contains(user_evts(evs)[k]) by {
                if k < user_evts(p).len() {
                    assert(user_evts(evs)[k] == user_evts(p)[k]);
                    assert(crate::merge::user_ids(evs)[k] == crate::merge::user_ids(p)[k]);
                    assert(crate::merge::user_first(p, user_evts(p)[k]@.id) == Some(
                        user_evts(p)[k],
                    ));
                    let i = choose|i: int| 0 <= i < p.len() && p[i] == user_evts(p)[k];
                    assert(evs[i] == user_evts(p)[k]);
                    assert(evs.contains(user_evts(evs)[k]));
                } else {
                    assert(user_evts(evs)[k] == e);
                    assert(crate::merge::user_ids(evs)[k] == e@.id);
                    assert(crate::merge::user_first(evs, e@.id) == Some(e));
                    assert(evs[evs.len() - 1] == e);
                    assert(evs.contains(e));
                }
            }
            assert forall|k: int| 0 <= k < user_evts(evs).len() implies #[trigger] user_msgs(
                evs,
            )[k] == msg_of_user_event(user_evts(evs)[k]) by {
                if k < user_evts(p).len() {
                    assert(user_msgs(evs)[k] == user_msgs(p)[k]);
                    assert(user_evts(evs)[k] == user_evts(p)[k]);
                }
            }
            assert forall|k: int| 0 <= k < asst_evts(evs).len() implies crate::merge::asst_ids(
                evs,
            )[k] == (#[trigger] asst_evts(evs)[k])@.id && crate::merge::asst_first(
                evs,
                asst_evts(evs)[k]@.id,
            ) == Some(asst_evts(evs)[k]) && evs.contains(asst_evts(evs)[k]) && #[trigger] asst_msgs(
                evs,
            )[k] == msg_of_asst_event(asst_evts(evs)[k]) by {
                assert(asst_evts(evs)[k] == asst_evts(p)[k]);
                assert(asst_msgs(evs)[k] == asst_msgs(p)[k]);
                assert(crate::merge::asst_ids(evs) == crate::merge::asst_ids(p));
                assert(crate::merge::asst_first(p, asst_evts(p)[k]@.id) == Some(asst_evts(p)[k]));
                let i = choose|i: int| 0 <= i < p.len() && p[i] == asst_evts(p)[k];
                assert(evs[i] == asst_evts(p)[k]);
                assert(evs.contains(asst_evts(evs)[k]));
            }
            assert forall|k: int, c: crate::merge::Counter|
                0 <= k < asst_evts(evs).len() implies #[trigger] crate::merge::asst_max(
                evs,
                (#[trigger] asst_evts(evs)[k])@.id,
                c,
            ) == crate::merge::counter_of(asst_evts(evs)[k], c) by {
                assert(asst_evts(evs)[k] == asst_evts(p)[k]);
                assert(crate::merge::asst_max(p, asst_evts(p)[k]@.id, c)
                    == crate::merge::counter_of(asst_evts(p)[k], c));
            }
            assert forall|k: int| 0 <= k < asst_evts(evs).len() implies crate::merge::asst_model(
                evs,
                (#[trigger] asst_evts(evs)[k])@.id,
            ) == (if asst_evts(evs)[k]@.model.len() > 0 {
                asst_evts(evs)[k]@.model
            } else {
                Seq::<char>::empty()
            }) && crate::merge::asst_tools(evs, asst_evts(evs)[k]@.id) == add_sigs(
                Seq::empty(),
                asst_evts(evs)[k]@.tool_uses,
            ) by {
                assert(asst_evts(evs)[k] == asst_evts(p)[k]);
            }
        } else {
            assert(user_evts(evs) =~= user_evts(p));
            assert(user_msgs(evs) =~= user_msgs(p));
            assert(asst_evts(evs) =~= asst_evts(p).push(e));
            assert(asst_msgs(evs) =~= asst_msgs(p).push(msg_of_asst_event(e)));
            assert(!crate::merge::asst_ids(p).contains(e@.id)) by {
                if crate::merge::asst_ids(p).contains(e@.id) {
                    let k = choose|k: int|
                        0 <= k < crate::merge::asst_ids(p).len() && crate::merge::asst_ids(p)[k]
                            == e@.id;
                    assert(asst_evts(p)[k]@.id == e@.id);
                    assert(p.contains(asst_evts(p)[k]));
                    let i = choose|i: int| 0 <= i < p.len() && p[i] == asst_evts(p)[k];
                    assert(evs[i] == asst_evts(p)[k]);
                    assert(evs[i]@.is_user == evs[evs.len() - 1]@.is_user);
                    assert(evs[i]@.id != evs[evs.len() - 1]@.id);
                }
            }
            assert(crate::merge::asst_ids(evs) == crate::merge::asst_ids(p).push(e@.id));
            assert(crate::merge::asst_first(p, e@.id) is None) by {
                crate::merge::lemma_asst_ids_iff(p, e@.id);
            }
            crate::merge::lemma_none_empty(p, e@.id);
            assert forall|k: int| 0 <= k < user_evts(evs).len() implies crate::merge::user_ids(
                evs,
            )[k] == (#[trigger] user_evts(evs)[k])@.id && crate::merge::user_first(
                evs,
                user_evts(evs)[k]@.id,
            ) == Some(user_evts(evs)[k]) && evs.contains(user_evts(evs)[k]) && #[trigger] user_msgs(
                evs,
            )[k] == msg_of_user_event(user_evts(evs)[k]) by {
                assert(user_evts(evs)[k] == user_evts(p)[k]);
                assert(user_msgs(evs)[k] == user_msgs(p)[k]);
                assert(crate::merge::user_ids(evs) == crate::merge::user_ids(p));
                assert(crate::merge::user_first(p, user_evts(p)[k]@.id) == Some(user_evts(p)[k]));
                let i = choose|i: int| 0 <= i < p.len() && p[i] == user_evts(p)[k];
                assert(evs[i] == user_evts(p)[k]);
                assert(evs.contains(user_evts(evs)[k]));
            }
            assert forall|k: int| 0 <= k < asst_evts(evs).len() implies crate::merge::asst_ids(
                evs,
            )[k] == (#[trigger] asst_evts(evs)[k])@.id && crate::merge::asst_first(
                evs,
                asst_evts(evs)[k]@.id,
            ) == Some(asst_evts(evs)[k]) && evs.contains(asst_evts(evs)[k]) && #[trigger] asst_msgs(
                evs,
            )[k] == msg_of_asst_event(asst_evts(evs)[k]) by {
                if k < asst_evts(p).len() {
                    assert(asst_evts(evs)[k] == asst_evts(p)[k]);
                    assert(asst_msgs(evs)[k] == asst_msgs(p)[k]);
                    assert(crate::merge::asst_ids(evs)[k] == crate::merge::asst_ids(p)[k]);
                    assert(crate::merge::asst_first(p, asst_evts(p)[k]@.id) == Some(
                        asst_evts(p)[k],
                    ));
                    let i = choose|i: int| 0 <= i < p.len() && p[i] == asst_evts(p)[k];
                    assert(evs[i] == asst_evts(p)[k]);
                    assert(evs.contains(asst_evts(evs)[k]));
                } else {
                    assert(asst_evts(evs)[k] == e);
                    assert(asst_msgs(evs)[k] == msg_of_asst_event(e));
                    assert(crate::merge::asst_ids(evs)[k] == e@.id);
                    assert(crate::merge::asst_first(evs, e@.id) == Some(e));
                    assert(evs[evs.len() - 1] == e);
                    assert(evs.contains(e));
                }
            }
            assert forall|k: int, c: crate::merge::Counter|
                0 <= k < asst_evts(evs).len() implies #[trigger] crate::merge::asst_max(
                evs,
                (#[trigger] asst_evts(evs)[k])@.id,
                c,
            ) == crate::merge::counter_of(asst_evts(evs)[k], c) by {
                if k < asst_evts(p).len() {
                    assert(asst_evts(evs)[k] == asst_evts(p)[k]);
                    assert(asst_evts(p)[k]@.id != e@.id) by {
                        if asst_evts(p)[k]@.id == e@.id {
                            assert(crate::merge::asst_ids(p)[k] == asst_evts(p)[k]@.id);
                            assert(crate::merge::asst_ids(p).contains(e@.id));
                        }
                    }
                    assert(crate::merge::asst_max(p, asst_evts(p)[k]@.id, c)
                        == crate::merge::counter_of(asst_evts(p)[k], c));
                } else {
                    assert(asst_evts(evs)[k] == e);
                    assert(crate::merge::asst_max(p, e@.id, c) == 0);
                }
            }
            assert forall|k: int| 0 <= k < asst_evts(evs).len() implies crate::merge::asst_model(
                evs,
                (#[trigger] asst_evts(evs)[k])@.id,
            ) == (if asst_evts(evs)[k]@.model.len() > 0 {
                asst_evts(evs)[k]@.model
            } else {
                Seq::<char>::empty()
            }) && crate::merge::asst_tools(evs, asst_evts(evs)[k]@.id) == add_sigs(
                Seq::empty(),
                asst_evts(evs)[k]@.tool_uses,
            ) by {
                if k < asst_evts(p).len() {
                    assert(asst_evts(evs)[k] == asst_evts(p)[k]);
                    assert(asst_evts(p)[k]@.id != e@.id) by {
                        if asst_evts(p)[k]@.id == e@.id {
                            assert(crate::merge::asst_ids(p)[k] == asst_evts(p)[k]@.id);
                            assert(crate::merge::asst_ids(p).contains(e@.id));
                        }
                    }
                } else {
                    assert(asst_evts(evs)[k] == e);
                    assert(crate::merge::asst_model(p, e@.id) == Seq::<char>::empty());
                    assert(crate::merge::asst_tools(p, e@.id) == Seq::<Seq<char>>::empty());
                }
            }
        }
    }
}

/// On a clean run a state's canonical messages are the events
/// themselves, users then assistants, each in order.
proof fn lemma_clean_msgs(st: crate::merge::MergeState, evs: Seq<Event>)
    requires
        clean(evs),
        crate::merge::merge_post(st, evs),
    ensures
        msgs_of(st) == user_msgs(evs) + asst_msgs(evs),
{
    lemma_clean_characterization(evs);
    let m = msgs_of(st);
    let target = user_msgs(evs) + asst_msgs(evs);
    assert(crate::merge::tbl_keys(st.users.entries@).len() == st.users.entries@.len());
    assert(crate::merge::tbl_keys(st.assistant.entries@).len() == st.assistant.entries@.len());
    let ulen = st.users.entries@.len() as int;
    assert(m.len() == target.len());
    assert forall|j: int| 0 <= j < m.len() implies m[j] =~= target[j] by {
        if j < ulen {
            assert(m[j] == msg_of_user(st.users.entries@[j]));
            assert(target[j] == user_msgs(evs)[j]);
            assert(st.users.entries@[j].0@ == crate::merge::tbl_keys(st.users.entries@)[j]);
            assert(crate::merge::user_entry_ok(st.users.entries@[j], evs));
            assert(crate::merge::user_ids(evs)[j] == user_evts(evs)[j]@.id);
            assert(crate::merge::user_first(evs, user_evts(evs)[j]@.id) == Some(
                user_evts(evs)[j],
            ));
            assert(user_msgs(evs)[j] == msg_of_user_event(user_evts(evs)[j]));
        } else {
            let k = j - ulen;
            assert(m[j] == msg_of_asst(st.assistant.entries@[k]));
            assert(target[j] == asst_msgs(evs)[k]);
            assert(st.assistant.entries@[k].0@ == crate::merge::tbl_keys(
                st.assistant.entries@,
            )[k]);
            assert(crate::merge::asst_entry_ok(st.assistant.entries@[k], evs));
            let ev = asst_evts(evs)[k];
            let id = ev@.id;
            assert(crate::merge::asst_ids(evs)[k] == id);
            assert(crate::merge::asst_first(evs, id) == Some(ev));
            assert(crate::merge::asst_max(evs, id, crate::merge::Counter::Input)
                == crate::merge::counter_of(ev, crate::merge::Counter::Input));
            assert(crate::merge::asst_max(evs, id, crate::merge::Counter::Output)
                == crate::merge::counter_of(ev, crate::merge::Counter::Output));
            assert(crate::merge::asst_max(evs, id, crate::merge::Counter::CacheRead)
                == crate::merge::counter_of(ev, crate::merge::Counter::CacheRead));
            assert(crate::merge::asst_max(evs, id, crate::merge::Counter::CacheCreation)
                == crate::merge::counter_of(ev, crate::merge::Counter::CacheCreation));
            assert(crate::merge::asst_max(evs, id, crate::merge::Counter::WebSearch)
                == crate::merge::counter_of(ev, crate::merge::Counter::WebSearch));
            assert(asst_msgs(evs)[k] == msg_of_asst_event(ev));
            let entry = st.assistant.entries@[k].1;
            if ev@.model.len() == 0 {
                assert(entry.model@ =~= ev@.model);
            }
            assert(entry.tool_uses.deep_view().len() == entry.tool_uses@.len());
        }
    }
    assert(m =~= target);
}

/// Selecting a date distributes over concatenation of messages.
proof fn lemma_mod_concat(a: Seq<MsgV>, b: Seq<MsgV>, d: Seq<char>)
    ensures
        msgs_on_date(a + b, d) == msgs_on_date(a, d) + msgs_on_date(b, d),
    decreases b.len(),
{
    if b.len() == 0 {
        assert(a + b =~= a);
        assert(msgs_on_date(b, d) =~= Seq::<MsgV>::empty());
        assert(msgs_on_date(a, d) + msgs_on_date(b, d) =~= msgs_on_date(a, d));
    } else {
        lemma_mod_concat(a, b.drop_last(), d);
        assert((a + b).drop_last() =~= a + b.drop_last());
        assert((a + b).last() == b.last());
        if b.last().date == d {
            assert(msgs_on_date(a + b, d) =~= msgs_on_date(a, d) + msgs_on_date(b, d));
        } else {
            assert(msgs_on_date(b, d) == msgs_on_date(b.drop_last(), d) + Seq::<MsgV>::empty());
            assert(msgs_on_date(b, d) =~= msgs_on_date(b.drop_last(), d));
            assert(msgs_on_date(a + b, d) =~= msgs_on_date(a, d) + msgs_on_date(b, d));
        }
    }
}

/// The user messages of the date-selected events are the date-selected
/// user messages; likewise for the assistant messages.
proof fn lemma_sel_msgs(evs: Seq<Event>, d: Seq<char>)
    ensures
        user_msgs(sel_date(evs, d)) == msgs_on_date(user_msgs(evs), d),
        asst_msgs(sel_date(evs, d)) == msgs_on_date(asst_msgs(evs), d),
    decreases evs.len(),
{
    if evs.len() > 0 {
        let p = evs.drop_last();
        let e = evs.last();
        lemma_sel_msgs(p, d);
        if e@.date == d {
            assert(sel_date(evs, d) =~= sel_date(p, d).push(e));
            assert(sel_date(evs, d).drop_last() =~= sel_date(p, d));
            assert(sel_date(evs, d).last() == e);
            if e@.is_user {
                assert(user_msgs(evs) =~= user_msgs(p).push(msg_of_user_event(e)));
                assert(user_msgs(evs).drop_last() =~= user_msgs(p));
                assert(msg_of_user_event(e).date == d);
                assert(user_msgs(sel_date(evs, d)) =~= msgs_on_date(user_msgs(evs), d));
                assert(asst_msgs(evs) =~= asst_msgs(p));
                assert(asst_msgs(sel_date(evs, d)) =~= asst_msgs(sel_date(p, d)));
                assert(asst_msgs(sel_date(evs, d)) =~= msgs_on_date(asst_msgs(evs), d));
            } else {
                assert(asst_msgs(evs) =~= asst_msgs(p).push(msg_of_asst_event(e)));
                assert(asst_msgs(evs).drop_last() =~= asst_msgs(p));
                assert(msg_of_asst_event(e).date == d);
                assert(asst_msgs(sel_date(evs, d)) =~= msgs_on_date(asst_msgs(evs), d));
                assert(user_msgs(evs) =~= user_msgs(p));
                assert(user_msgs(sel_date(evs, d)) =~= user_msgs(sel_date(p, d)));
                assert(user_msgs(sel_date(evs, d)) =~= msgs_on_date(user_msgs(evs), d));
            }
        } else {
            assert(sel_date(evs, d) =~= sel_date(p, d));
            if e@.is_user {
                assert(user_msgs(evs) =~= user_msgs(p).push(msg_of_user_event(e)));
                assert(user_msgs(evs).drop_last() =~= user_msgs(p));
                assert(msg_of_user_event(e).date != d);
                assert(msgs_on_date(user_msgs(evs), d) =~= msgs_on_date(user_msgs(p), d));
                assert(asst_msgs(evs) =~= asst_msgs(p));
            } else {
                assert(asst_msgs(evs) =~= asst_msgs(p).push(msg_of_asst_event(e)));
                assert(asst_msgs(evs).drop_last() =~= asst_msgs(p));
                assert(msg_of_asst_event(e).date != d);
                assert(msgs_on_date(asst_msgs(evs), d) =~= msgs_on_date(asst_msgs(p), d));
                assert(user_msgs(evs) =~= user_msgs(p));
            }
        }
    }
}

/// A clean run stays clean when a date is selected out of it.
proof fn lemma_clean_sel(evs: Seq<Event>, d: Seq<char>)
    requires
        clean(evs),
    ensures
        clean(sel_date(evs, d)),
        forall|k: int|
            0 <= k < sel_date(evs, d).len() ==> evs.contains(#[trigger] sel_date(evs, d)[k]),
    decreases evs.len(),
{
    if evs.len() > 0 {
        let p = evs.drop_last();
        let e = evs.last();
        assert(clean(p)) by {
            assert(forall|i: int| 0 <= i < p.len() ==> p[i] == evs[i]);
        }
        lemma_clean_sel(p, d);
        assert(forall|i: int| 0 <= i < p.len() ==> p[i] == evs[i]);
        if e@.date == d {
            let s = sel_date(p, d);
            assert(sel_date(evs, d) =~= s.push(e));
            assert forall|k: int|
                0 <= k < sel_date(evs, d).len() implies evs.contains(
                #[trigger] sel_date(evs, d)[k],
            ) by {
                if k < s.len() {
                    assert(sel_date(evs, d)[k] == s[k]);
                    assert(p.contains(s[k]));
                    let i = choose|i: int| 0 <= i < p.len() && p[i] == s[k];
                    assert(evs[i] == s[k]);
                } else {
                    assert(sel_date(evs, d)[k] == e);
                    assert(evs[evs.len() - 1] == e);
                }
            }
            assert forall|k1: int, k2: int|
                0 <= k1 < k2 < sel_date(evs, d).len() && (#[trigger] sel_date(evs, d)[k1])@.is_user
                    == (#[trigger] sel_date(evs, d)[k2])@.is_user implies sel_date(evs, d)[k1]@.id
                != sel_date(evs, d)[k2]@.id by {
                if k2 < s.len() {
                    assert(sel_date(evs, d)[k1] == s[k1]);
                    assert(sel_date(evs, d)[k2] == s[k2]);
                } else {
                    assert(sel_date(evs, d)[k1] == s[k1]);
                    assert(sel_date(evs, d)[k2] == e);
                    assert(p.contains(s[k1]));
                    let i = choose|i: int| 0 <= i < p.len() && p[i] == s[k1];
                    assert(evs[i] == s[k1]);
                    assert(evs[evs.len() - 1] == e);
                    if s[k1]@.is_user == e@.is_user {
                        assert(evs[i]@.id != evs[evs.len() - 1]@.id);
                    }
                }
            }
        } else {
            assert(sel_date(evs, d) =~= sel_date(p, d));
            assert forall|k: int|
                0 <= k < sel_date(evs, d).len() implies evs.contains(
                #[trigger] sel_date(evs, d)[k],
            ) by {
                assert(sel_date(evs, d)[k] == sel_date(p, d)[k]);
                assert(p.contains(sel_date(p, d)[k]));
                let i = choose|i: int| 0 <= i < p.len() && p[i] == sel_date(p, d)[k];
                assert(evs[i] == sel_date(p, d)[k]);
            }
        }
    }
}

/// Every date tally reads only the date's own messages: restricting to
/// them first changes nothing.
proof fn lemma_restrict_tallies(ms: Seq<MsgV>, d: Seq<char>)
    ensures
        count_date(msgs_on_date(ms, d), d) == count_date(ms, d),
        tools_date(msgs_on_date(ms, d), d) == tools_date(ms, d),
        sess_list_date(msgs_on_date(ms, d), d) == sess_list_date(ms, d),
        model_list_date(msgs_on_date(ms, d), d) == model_list_date(ms, d),
        forall|m: Seq<char>|
            #[trigger] tokens_date_model(msgs_on_date(ms, d), d, m) == tokens_date_model(ms, d, m),
    decreases ms.len(),
{
    if ms.len() > 0 {
        let p = ms.drop_last();
        let x = ms.last();
        lemma_restrict_tallies(p, d);
        if x.date == d {
            assert(msgs_on_date(ms, d) =~= msgs_on_date(p, d).push(x));
            assert(msgs_on_date(ms, d).drop_last() =~= msgs_on_date(p, d));
            assert(msgs_on_date(ms, d).last() == x);
            assert forall|m: Seq<char>| #[trigger]
                tokens_date_model(msgs_on_date(ms, d), d, m) == tokens_date_model(ms, d, m) by {
                assert(tokens_date_model(msgs_on_date(p, d), d, m) == tokens_date_model(p, d, m));
            }
        } else {
            assert(msgs_on_date(ms, d) =~= msgs_on_date(p, d));
            assert forall|m: Seq<char>| #[trigger]
                tokens_date_model(msgs_on_date(ms, d), d, m) == tokens_date_model(ms, d, m) by {
                assert(tokens_date_model(ms, d, m) == sat_add(tokens_date_model(p, d, m), 0));
                assert(tokens_date_model(msgs_on_date(p, d), d, m) == tokens_date_model(p, d, m));
            }
        }
    }
}

/// On clean logs the reduced, date-selected digest tallies the current
/// date exactly as the full digest does: the message, tool and session
/// tallies and every model's tokens agree. Cross-date streaming chunks
/// or duplicate identities are the one thing that can part them.
pub proof fn lemma_today_fast_path_equivalence(
    evs: Seq<Event>,
    d: Seq<char>,
    full: crate::merge::MergeState,
    restricted: crate::merge::MergeState,
)
    requires
        clean(evs),
        crate::merge::merge_post(full, evs),
        crate::merge::merge_post(restricted, sel_date(evs, d)),
    ensures
        count_date(msgs_of(restricted), d) == count_date(msgs_of(full), d),
        tools_date(msgs_of(restricted), d) == tools_date(msgs_of(full), d),
        sess_list_date(msgs_of(restricted), d) == sess_list_date(msgs_of(full), d),
        model_list_date(msgs_of(restricted), d) == model_list_date(msgs_of(full), d),
        forall|m: Seq<char>|
            #[trigger] tokens_date_model(msgs_of(restricted), d, m) == tokens_date_model(
                msgs_of(full),
                d,
                m,
            ),
{
    lemma_clean_sel(evs, d);
    lemma_clean_msgs(full, evs);
    lemma_clean_msgs(restricted, sel_date(evs, d));
    lemma_sel_msgs(evs, d);
    lemma_mod_concat(user_msgs(evs), asst_msgs(evs), d);
    assert(msgs_of(restricted) == msgs_on_date(msgs_of(full), d));
    lemma_restrict_tallies(msgs_of(full), d);
}

/// A date listed by no message has every tally at its neutral value.
proof fn lemma_absent_date_tallies(ms: Seq<MsgV>, d: Seq<char>)
    requires
        !crate::aggregate::date_list(ms).contains(d),
    ensures
        count_date(ms, d) == 0,
        tools_date(ms, d) == 0,
        sess_list_date(ms, d) == Seq::<Seq<char>>::empty(),
        model_list_date(ms, d) == Seq::<Seq<char>>::empty(),
        forall|m: Seq<char>| #[trigger] tokens_date_model(ms, d, m) == 0,
    decreases ms.len(),
{
    if ms.len() > 0 {
        let p = ms.drop_last();
        let l = crate::aggregate::date_list(p);
        assert(!l.contains(d)) by {
            if l.contains(d) {
                let j = choose|j: int| 0 <= j < l.len() && l[j] == d;
                if !l.contains(ms.last().date) {
                    assert(l.push(ms.last().date)[j] == d);
                    assert(crate::aggregate::date_list(ms).contains(d));
                } else {
                    assert(crate::aggregate::date_list(ms).contains(d));
                }
            }
        }
        lemma_absent_date_tallies(p, d);
        assert(ms.last().date != d) by {
            if ms.last().date == d {
                if !l.contains(ms.last().date) {
                    assert(l.push(d)[l.len() as int] == d);
                    assert(crate::aggregate::date_list(ms).contains(d));
                } else {
                    assert(crate::aggregate::date_list(ms).contains(d));
                }
            }
        }
        assert forall|m: Seq<char>| #[trigger] tokens_date_model(ms, d, m) == 0 by {
            assert(tokens_date_model(p, d, m) == 0);
        }
    }
}

/// A date search over the daily-activity entries misses exactly where
/// no entry carries the date, and otherwise yields a listed entry of
/// that date.
proof fn lemma_find_activity(s: Seq<crate::models::DailyActivity>, d: Seq<char>)
    ensures
        crate::cache::find_activity(s, d) is None <==> (forall|i: int|
            0 <= i < s.len() ==> (#[trigger] s[i]).date@ != d),
        match crate::cache::find_activity(s, d) {
            Some(a) => a.date@ == d && exists|i: int| 0 <= i < s.len() && #[trigger] s[i] == a,
            None => true,
        },
    decreases s.len(),
{
    if s.len() > 0 {
        lemma_find_activity(s.drop_first(), d);
        assert(forall|i: int| 1 <= i < s.len() ==> s.drop_first()[i - 1] == s[i]);
        if s[0].date@ != d {
            match crate::cache::find_activity(s.drop_first(), d) {
                Some(a) => {
                    let i = choose|i: int|
                        0 <= i < s.drop_first().len() && #[trigger] s.drop_first()[i] == a;
                    assert(s[i + 1] == a);
                },
                None => {},
            }
        } else {
            assert(s[0] == s[0]);
        }
    }
}

/// The same search over the model-token entries.
proof fn lemma_find_tokens(s: Seq<crate::models::DailyModelTokens>, d: Seq<char>)
    ensures
        crate::cache::find_tokens(s, d) is None <==> (forall|i: int|
            0 <= i < s.len() ==> (#[trigger] s[i]).date@ != d),
        match crate::cache::find_tokens(s, d) {
            Some(t) => t.date@ == d && exists|i: int| 0 <= i < s.len() && #[trigger] s[i] == t,
            None => true,
        },
    decreases s.len(),
{
    if s.len() > 0 {
        lemma_find_tokens(s.drop_first(), d);
        assert(forall|i: int| 1 <= i < s.len() ==> s.drop_first()[i - 1] == s[i]);
        if s[0].date@ != d {
            match crate::cache::find_tokens(s.drop_first(), d) {
                Some(t) => {
                    let i = choose|i: int|
                        0 <= i < s.drop_first().len() && #[trigger] s.drop_first()[i] == t;
                    assert(s[i + 1] == t);
                },
                None => {},
            }
        } else {
            assert(s[0] == s[0]);
        }
    }
}

/// Two listings of equal values sum alike, whatever their keys.
proof fn lemma_sum_pairs_values(a: Seq<(String, u64)>, b: Seq<(String, u64)>)
    requires
        a.len() == b.len(),
        forall|i: int| 0 <= i < a.len() ==> (#[trigger] a[i]).1 == b[i].1,
    ensures
        crate::cache::sum_pairs(a) == crate::cache::sum_pairs(b),
    decreases a.len(),
{
    if a.len() > 0 {
        assert(forall|i: int| 0 <= i < a.len() - 1 ==> a.drop_last()[i] == a[i]);
        assert(forall|i: int| 0 <= i < b.len() - 1 ==> b.drop_last()[i] == b[i]);
        lemma_sum_pairs_values(a.drop_last(), b.drop_last());
        assert(a.last().1 == b.last().1);
    }
}

/// On clean logs the reduced current-date summary restates the full
/// summary's entry for that date: the same message, session and tool
/// tallies, the same models with the same tokens, and the same total;
/// where the full summary lists no such date, the reduced one is zero.
pub proof fn lemma_today_summary_matches_cache(
    r: crate::models::TodaySummary,
    c: crate::models::StatsCache,
    evs: Seq<Event>,
    d: Seq<char>,
    computed_on: Seq<char>,
    full: crate::merge::MergeState,
    restricted: crate::merge::MergeState,
)
    requires
        clean(evs),
        crate::merge::merge_post(full, evs),
        crate::stats::cache_matches_state(c, full, computed_on),
        crate::merge::merge_post(restricted, sel_date(evs, d)),
        crate::today::today_state_repr(r, restricted, d),
    ensures
        match crate::cache::find_activity(c.daily_activity@, d) {
            Some(a) => r.messages == a.message_count && r.sessions == a.session_count
                && r.tool_calls == a.tool_call_count,
            None => r.messages == 0 && r.sessions == 0 && r.tool_calls == 0,
        },
        match crate::cache::find_tokens(c.daily_model_tokens@, d) {
            Some(t) => crate::aggregate::pair_keys(r.tokens_by_model@)
                == crate::aggregate::pair_keys(t.tokens_by_model@) && (forall|q: int|
                0 <= q < r.tokens_by_model@.len() ==> (#[trigger] r.tokens_by_model@[q]).1
                    == t.tokens_by_model@[q].1) && r.total_tokens == crate::cache::sum_pairs(
                t.tokens_by_model@,
            ),
            None => r.total_tokens == 0 && r.tokens_by_model@.len() == 0,
        },
{
    lemma_today_fast_path_equivalence(evs, d, full, restricted);
    let ms = msgs_of(full);
    lemma_find_activity(c.daily_activity@, d);
    lemma_find_tokens(c.daily_model_tokens@, d);
    match crate::cache::find_activity(c.daily_activity@, d) {
        Some(a) => {
            let i = choose|i: int|
                0 <= i < c.daily_activity@.len() && #[trigger] c.daily_activity@[i] == a;
            assert(crate::stats::daily_ok(c.daily_activity@[i], ms));
        },
        None => {
            assert(!crate::aggregate::date_list(ms).contains(d)) by {
                if crate::aggregate::date_list(ms).contains(d) {
                    assert(crate::stats::activity_dates(c.daily_activity@).contains(d));
                    let j = choose|j: int|
                        0 <= j < crate::stats::activity_dates(c.daily_activity@).len()
                            && crate::stats::activity_dates(c.daily_activity@)[j] == d;
                    assert(c.daily_activity@[j].date@ == d);
                }
            }
            lemma_absent_date_tallies(ms, d);
        },
    }
    match crate::cache::find_tokens(c.daily_model_tokens@, d) {
        Some(t) => {
            let i = choose|i: int|
                0 <= i < c.daily_model_tokens@.len() && #[trigger] c.daily_model_tokens@[i] == t;
            assert(crate::stats::dmt_ok(c.daily_model_tokens@[i], ms));
            crate::util::lemma_sorted_unique(
                crate::aggregate::pair_keys(r.tokens_by_model@),
                crate::aggregate::pair_keys(t.tokens_by_model@),
            );
            assert(crate::aggregate::pair_keys(r.tokens_by_model@).len()
                == r.tokens_by_model@.len());
            assert(crate::aggregate::pair_keys(t.tokens_by_model@).len()
                == t.tokens_by_model@.len());
            assert forall|q: int| 0 <= q < r.tokens_by_model@.len() implies (
            #[trigger] r.tokens_by_model@[q]).1 == t.tokens_by_model@[q].1 by {
                assert(crate::aggregate::pair_keys(r.tokens_by_model@)[q]
                    == r.tokens_by_model@[q].0@);
                assert(crate::aggregate::pair_keys(t.tokens_by_model@)[q]
                    == t.tokens_by_model@[q].0@);
                assert(r.tokens_by_model@[q].1 == tokens_date_model(
                    msgs_of(restricted),
                    d,
                    r.tokens_by_model@[q].0@,
                ));
            }
            lemma_sum_pairs_values(r.tokens_by_model@, t.tokens_by_model@);
        },
        None => {
            assert(crate::cache::find_activity(c.daily_activity@, d) is None) by {
                match crate::cache::find_activity(c.daily_activity@, d) {
                    Some(a) => {
                        let i = choose|i: int|
                            0 <= i < c.daily_activity@.len() && #[trigger] c.daily_activity@[i]
                                == a;
                        assert(c.daily_model_tokens@[i].date@ == c.daily_activity@[i].date@);
                    },
                    None => {},
                }
            }
            assert(!crate::aggregate::date_list(ms).contains(d)) by {
                if crate::aggregate::date_list(ms).contains(d) {
                    assert(crate::stats::activity_dates(c.daily_activity@).contains(d));
                    let j = choose|j: int|
                        0 <= j < crate::stats::activity_dates(c.daily_activity@).len()
                            && crate::stats::activity_dates(c.daily_activity@)[j] == d;
                    assert(c.daily_activity@[j].date@ == d);
                }
            }
            lemma_absent_date_tallies(ms, d);
            assert(r.tokens_by_model@.len() == 0) by {
                if r.tokens_by_model@.len() > 0 {
                    assert(crate::aggregate::pair_keys(r.tokens_by_model@)[0]
                        == r.tokens_by_model@[0].0@);
                    assert(crate::aggregate::pair_keys(r.tokens_by_model@).contains(
                        r.tokens_by_model@[0].0@,
                    ));
                    assert(model_list_date(msgs_of(restricted), d).contains(
                        r.tokens_by_model@[0].0@,
                    ));
                }
            }
            assert(r.tokens_by_model@ =~= Seq::<(String, u64)>::empty());
        },
    }
}

} // verus!
