use crate::event::Event;
use crate::event::EventKind;
use crate::table::Table;
use crate::table::assoc;
use crate::util::clone_strings;
use crate::util::seq_contains_str;
use vstd::prelude::*;

verus! {

/// The canonical record of one user turn: the fields of its first
/// observation; later observations of the same identity have no effect.
#[derive(Debug)]
pub struct UserMsg {
    pub session_id: String,
    pub date: String,
    pub hour: u8,
    pub ms: i64,
    pub iso: String,
}

/// The canonical record of one assistant message, merged over all its
/// observed chunks: first-seen calendar fields, last non-empty model,
/// the pointwise maximum of every counter, and the identity-deduplicated
/// tool uses.
#[derive(Debug)]
pub struct AssistantAgg {
    pub session_id: String,
    pub date: String,
    pub hour: u8,
    pub ms: i64,
    pub iso: String,
    pub model: String,
    pub input_tokens: u64,
    pub output_tokens: u64,
    pub cache_read_input_tokens: u64,
    pub cache_creation_input_tokens: u64,
    pub web_search_requests: u64,
    pub tool_uses: Vec<String>,
}

/// Both canonical stores, keyed by message identity.
pub struct MergeState {
    pub users: Table<UserMsg>,
    pub assistant: Table<AssistantAgg>,
}

/// Whether an event is a user turn with this identity.
pub open spec fn is_user_with(e: Event, id: Seq<char>) -> bool {
    e@.is_user && e@.id == id
}

/// Whether an event is an assistant chunk with this identity.
pub open spec fn is_asst_with(e: Event, id: Seq<char>) -> bool {
    !e@.is_user && e@.id == id
}

/// The first user event carrying an identity.
pub open spec fn user_first(evs: Seq<Event>, id: Seq<char>) -> Option<Event>
    decreases evs.len(),
{
    if evs.len() == 0 {
        None
    } else {
        let r = user_first(evs.drop_last(), id);
        if r is Some {
            r
        } else if is_user_with(evs.last(), id) {
            Some(evs.last())
        } else {
            None
        }
    }
}

/// The first assistant chunk carrying an identity.
pub open spec fn asst_first(evs: Seq<Event>, id: Seq<char>) -> Option<Event>
    decreases evs.len(),
{
    if evs.len() == 0 {
        None
    } else {
        let r = asst_first(evs.drop_last(), id);
        if r is Some {
            r
        } else if is_asst_with(evs.last(), id) {
            Some(evs.last())
        } else {
            None
        }
    }
}

/// Which counter of a chunk a merge rule reads.
pub enum Counter {
    Input,
    Output,
    CacheRead,
    CacheCreation,
    WebSearch,
}

/// One counter of one event.
pub open spec fn counter_of(e: Event, c: Counter) -> u64 {
    match c {
        Counter::Input => e@.input_tokens,
        Counter::Output => e@.output_tokens,
        Counter::CacheRead => e@.cache_read_input_tokens,
        Counter::CacheCreation => e@.cache_creation_input_tokens,
        Counter::WebSearch => e@.web_search_requests,
    }
}

/// The greatest value of a counter over all chunks of an identity; zero
/// where there is none. Counters report running totals, so the greatest
/// observation is the complete one.
pub open spec fn asst_max(evs: Seq<Event>, id: Seq<char>, c: Counter) -> u64
    decreases evs.len(),
{
    if evs.len() == 0 {
        0
    } else {
        let m = asst_max(evs.drop_last(), id, c);
        if is_asst_with(evs.last(), id) && counter_of(evs.last(), c) > m {
            counter_of(evs.last(), c)
        } else {
            m
        }
    }
}

/// The last non-empty model name over the chunks of an identity; empty
/// where none was given.
pub open spec fn asst_model(evs: Seq<Event>, id: Seq<char>) -> Seq<char>
    decreases evs.len(),
{
    if evs.len() == 0 {
        Seq::empty()
    } else if is_asst_with(evs.last(), id) && evs.last()@.model.len() > 0 {
        evs.last()@.model
    } else {
        asst_model(evs.drop_last(), id)
    }
}

/// Adds tool identities to a listing, keeping each identity once, in
/// order of first appearance.
pub open spec fn add_sigs(t: Seq<Seq<char>>, sigs: Seq<Seq<char>>) -> Seq<Seq<char>>
    decreases sigs.len(),
{
    if sigs.len() == 0 {
        t
    } else {
        add_sigs(
            if t.contains(sigs[0]) {
                t
            } else {
                t.push(sigs[0])
            },
            sigs.drop_first(),
        )
    }
}

/// The distinct tool identities over all chunks of an identity, in order
/// of first appearance.
pub open spec fn asst_tools(evs: Seq<Event>, id: Seq<char>) -> Seq<Seq<char>>
    decreases evs.len(),
{
    if evs.len() == 0 {
        Seq::empty()
    } else {
        let t = asst_tools(evs.drop_last(), id);
        if is_asst_with(evs.last(), id) {
            add_sigs(t, evs.last()@.tool_uses)
        } else {
            t
        }
    }
}

/// The identities of user turns, in order of first appearance.
pub open spec fn user_ids(evs: Seq<Event>) -> Seq<Seq<char>>
    decreases evs.len(),
{
    if evs.len() == 0 {
        Seq::empty()
    } else {
        let ids = user_ids(evs.drop_last());
        if evs.last()@.is_user && !ids.contains(evs.last()@.id) {
            ids.push(evs.last()@.id)
        } else {
            ids
        }
    }
}

/// The identities of assistant messages, in order of first appearance.
pub open spec fn asst_ids(evs: Seq<Event>) -> Seq<Seq<char>>
    decreases evs.len(),
{
    if evs.len() == 0 {
        Seq::empty()
    } else {
        let ids = asst_ids(evs.drop_last());
        if !evs.last()@.is_user && !ids.contains(evs.last()@.id) {
            ids.push(evs.last()@.id)
        } else {
            ids
        }
    }
}

/// An identity is listed exactly where some user turn carries it.
pub proof fn lemma_user_ids_iff(evs: Seq<Event>, id: Seq<char>)
    ensures
        user_ids(evs).contains(id) <==> user_first(evs, id) is Some,
    decreases evs.len(),
{
    if evs.len() > 0 {
        lemma_user_ids_iff(evs.drop_last(), id);
        let ids = user_ids(evs.drop_last());
        if evs.last()@.is_user && !ids.contains(evs.last()@.id) {
            assert(ids.push(evs.last()@.id)[ids.len() as int] == evs.last()@.id);
            assert(ids.push(evs.last()@.id).contains(evs.last()@.id));
            assert forall|k: Seq<char>| ids.push(evs.last()@.id).contains(k) implies ids.contains(
                k,
            ) || k == evs.last()@.id by {
                let j = choose|j: int|
                    0 <= j < ids.push(evs.last()@.id).len() && ids.push(evs.last()@.id)[j] == k;
                if j < ids.len() {
                    assert(ids[j] == k);
                }
            }
            assert forall|k: Seq<char>| ids.contains(k) implies ids.push(
                evs.last()@.id,
            ).contains(k) by {
                let j = choose|j: int| 0 <= j < ids.len() && ids[j] == k;
                assert(ids.push(evs.last()@.id)[j] == k);
            }
        }
    }
}

/// An identity is listed exactly where some assistant chunk carries it.
pub proof fn lemma_asst_ids_iff(evs: Seq<Event>, id: Seq<char>)
    ensures
        asst_ids(evs).contains(id) <==> asst_first(evs, id) is Some,
    decreases evs.len(),
{
    if evs.len() > 0 {
        lemma_asst_ids_iff(evs.drop_last(), id);
        let ids = asst_ids(evs.drop_last());
        if !evs.last()@.is_user && !ids.contains(evs.last()@.id) {
            assert(ids.push(evs.last()@.id)[ids.len() as int] == evs.last()@.id);
            assert(ids.push(evs.last()@.id).contains(evs.last()@.id));
            assert forall|k: Seq<char>| ids.contains(k) implies ids.push(
                evs.last()@.id,
            ).contains(k) by {
                let j = choose|j: int| 0 <= j < ids.len() && ids[j] == k;
                assert(ids.push(evs.last()@.id)[j] == k);
            }
            assert forall|k: Seq<char>| ids.push(evs.last()@.id).contains(k) implies ids.contains(
                k,
            ) || k == evs.last()@.id by {
                let j = choose|j: int|
                    0 <= j < ids.push(evs.last()@.id).len() && ids.push(evs.last()@.id)[j] == k;
                if j < ids.len() {
                    assert(ids[j] == k);
                }
            }
        }
    }
}

/// The key views of a table's entries, in order.
pub open spec fn tbl_keys<V>(s: Seq<(String, V)>) -> Seq<Seq<char>> {
    s.map_values(|e: (String, V)| e.0@)
}

/// A key is bound exactly where it occurs among the key views.
pub proof fn lemma_assoc_keys<V>(s: Seq<(String, V)>, key: Seq<char>)
    ensures
        assoc(s, key) is Some <==> tbl_keys(s).contains(key),
    decreases s.len(),
{
    if s.len() == 0 {
    } else {
        lemma_assoc_keys(s.drop_first(), key);
        assert(tbl_keys(s.drop_first()) =~= tbl_keys(s).drop_first());
        if s[0].0@ == key {
            assert(tbl_keys(s)[0] == key);
        } else {
            if tbl_keys(s).contains(key) {
                let j = choose|j: int| 0 <= j < tbl_keys(s).len() && tbl_keys(s)[j] == key;
                assert(tbl_keys(s).drop_first()[j - 1] == key);
            }
            if tbl_keys(s).drop_first().contains(key) {
                let j = choose|j: int|
                    0 <= j < tbl_keys(s).drop_first().len() && tbl_keys(s).drop_first()[j] == key;
                assert(tbl_keys(s)[j + 1] == key);
            }
        }
    }
}

/// What one canonical user entry must hold: the fields of the identity's
/// first observation.
pub open spec fn user_entry_ok(en: (String, UserMsg), evs: Seq<Event>) -> bool {
    match user_first(evs, en.0@) {
        Some(e) => en.1.session_id@ == e@.session_id && en.1.date@ == e@.date && en.1.hour
            == e@.hour && en.1.ms == e@.ms && en.1.iso@ == e@.iso,
        None => false,
    }
}

/// What one canonical assistant entry must hold: first-seen calendar
/// fields, last non-empty model, greatest counters, deduplicated tools.
pub open spec fn asst_entry_ok(en: (String, AssistantAgg), evs: Seq<Event>) -> bool {
    let id = en.0@;
    let a = en.1;
    &&& match asst_first(evs, id) {
        Some(e) => a.session_id@ == e@.session_id && a.date@ == e@.date && a.hour == e@.hour
            && a.ms == e@.ms && a.iso@ == e@.iso,
        None => false,
    }
    &&& a.model@ == asst_model(evs, id)
    &&& a.input_tokens == asst_max(evs, id, Counter::Input)
    &&& a.output_tokens == asst_max(evs, id, Counter::Output)
    &&& a.cache_read_input_tokens == asst_max(evs, id, Counter::CacheRead)
    &&& a.cache_creation_input_tokens == asst_max(evs, id, Counter::CacheCreation)
    &&& a.web_search_requests == asst_max(evs, id, Counter::WebSearch)
    &&& a.tool_uses.deep_view() == asst_tools(evs, id)
}

/// The whole relation between a merge state and the events it digests:
/// each store keyed by the identities in order of first appearance, each
/// entry canonical for its identity.
pub open spec fn merge_post(st: MergeState, evs: Seq<Event>) -> bool {
    &&& st.users.wf()
    &&& st.assistant.wf()
    &&& tbl_keys(st.users.entries@) == user_ids(evs)
    &&& forall|j: int|
        0 <= j < st.users.entries@.len() ==> user_entry_ok(#[trigger] st.users.entries@[j], evs)
    &&& tbl_keys(st.assistant.entries@) == asst_ids(evs)
    &&& forall|j: int|
        0 <= j < st.assistant.entries@.len() ==> asst_entry_ok(
            #[trigger] st.assistant.entries@[j],
            evs,
        )
}

/// Appending an event that is no user turn, or repeats a seen identity,
/// leaves every user reading unchanged; likewise for the assistant side.
pub proof fn lemma_push_frame(evs: Seq<Event>, e: Event)
    ensures
        evs.push(e).drop_last() == evs,
        evs.push(e).last() == e,
        forall|id: Seq<char>|
            user_first(evs, id) is Some ==> #[trigger] user_first(evs.push(e), id) == user_first(
                evs,
                id,
            ),
        forall|id: Seq<char>|
            asst_first(evs, id) is Some ==> #[trigger] asst_first(evs.push(e), id) == asst_first(
                evs,
                id,
            ),
        forall|id: Seq<char>|
            !is_user_with(e, id) ==> #[trigger] user_first(evs.push(e), id) == user_first(evs, id),
        forall|id: Seq<char>|
            !is_asst_with(e, id) ==> #[trigger] asst_first(evs.push(e), id) == asst_first(evs, id),
        forall|id: Seq<char>, c: Counter|
            !is_asst_with(e, id) ==> #[trigger] asst_max(evs.push(e), id, c) == asst_max(
                evs,
                id,
                c,
            ),
        forall|id: Seq<char>|
            !is_asst_with(e, id) ==> #[trigger] asst_model(evs.push(e), id) == asst_model(evs, id),
        forall|id: Seq<char>|
            !is_asst_with(e, id) ==> #[trigger] asst_tools(evs.push(e), id) == asst_tools(evs, id),
{
    assert(evs.push(e).drop_last() =~= evs);
}

/// Digests one event into the state, as the canonical readings describe.
fn merge_one(st: &mut MergeState, e: &Event, Ghost(evs): Ghost<Seq<Event>>)
    requires
        merge_post(*old(st), evs),
    ensures
        merge_post(*final(st), evs.push(*e)),
{
    proof {
        lemma_push_frame(evs, *e);
    }
    match e.kind {
        EventKind::User => {
            proof {
                lemma_assoc_keys(st.users.entries@, e.id@);
            }
            match st.users.find(e.id.as_str()) {
                Some(_) => {
                    proof {
                        assert(user_ids(evs.push(*e)) == user_ids(evs));
                        assert forall|j: int| 0 <= j < st.users.entries@.len() implies
                            user_entry_ok(#[trigger] st.users.entries@[j], evs.push(*e)) by {
                            assert(user_entry_ok(st.users.entries@[j], evs));
                            lemma_assoc_keys(st.users.entries@, st.users.entries@[j].0@);
                        }
                    }
                },
                None => {
                    let msg = UserMsg {
                        session_id: e.session_id.clone(),
                        date: e.date.clone(),
                        hour: e.hour,
                        ms: e.ms,
                        iso: e.iso.clone(),
                    };
                    proof {
                        assert(!user_ids(evs).contains(e.id@)) by {
                            lemma_user_ids_iff(evs, e.id@);
                            lemma_assoc_keys(st.users.entries@, e.id@);
                        }
                    }
                    st.users.push(e.id.clone(), msg);
                    proof {
                        assert(tbl_keys(st.users.entries@) =~= user_ids(evs.push(*e)));
                        assert forall|j: int| 0 <= j < st.users.entries@.len() implies
                            user_entry_ok(#[trigger] st.users.entries@[j], evs.push(*e)) by {
                            if j < st.users.entries@.len() - 1 {
                                assert(st.users.entries@[j] == old(st).users.entries@[j]);
                                assert(user_entry_ok(st.users.entries@[j], evs));
                                lemma_assoc_keys(old(st).users.entries@, st.users.entries@[j].0@);
                            } else {
                                assert(user_first(evs, e.id@) is None) by {
                                    lemma_user_ids_iff(evs, e.id@);
                                }
                                assert(user_first(evs.push(*e), e.id@) == Some(*e));
                            }
                        }
                    }
                },
            }
            proof {
                assert(tbl_keys(st.assistant.entries@) == asst_ids(evs.push(*e)));
                assert forall|j: int| 0 <= j < st.assistant.entries@.len() implies asst_entry_ok(
                    #[trigger] st.assistant.entries@[j],
                    evs.push(*e),
                ) by {
                    assert(asst_entry_ok(st.assistant.entries@[j], evs));
                    lemma_assoc_keys(st.assistant.entries@, st.assistant.entries@[j].0@);
                }
            }
        },
        EventKind::Assistant => {
            proof {
                lemma_assoc_keys(st.assistant.entries@, e.id@);
            }
            match st.assistant.find(e.id.as_str()) {
                Some(i) => {
                    let merged = merge_asst(&st.assistant.entries[i].1, e);
                    proof {
                        assert(asst_entry_ok(st.assistant.entries@[i as int], evs));
                    }
                    st.assistant.set_at(i, merged);
                    proof {
                        assert(tbl_keys(st.assistant.entries@) =~= tbl_keys(
                            old(st).assistant.entries@,
                        ));
                        assert(asst_ids(evs.push(*e)) == asst_ids(evs)) by {
                            lemma_asst_ids_iff(evs, e.id@);
                            assert(asst_first(evs, e.id@) is Some);
                        }
                        lemma_merge_asst_ok(old(st).assistant.entries@[i as int], merged, *e, evs);
                        assert(st.assistant.entries@[i as int] == (
                            old(st).assistant.entries@[i as int].0,
                            merged,
                        ));
                        assert(asst_entry_ok(st.assistant.entries@[i as int], evs.push(*e)));
                        assert forall|j: int| 0 <= j < st.assistant.entries@.len() implies
                            asst_entry_ok(#[trigger] st.assistant.entries@[j], evs.push(*e)) by {
                            if j == i {
                                lemma_merge_asst_ok(
                                    old(st).assistant.entries@[i as int],
                                    merged,
                                    *e,
                                    evs,
                                );
                                assert(st.assistant.entries@[i as int] == (
                                    old(st).assistant.entries@[i as int].0,
                                    merged,
                                ));
                                assert(asst_entry_ok(st.assistant.entries@[j], evs.push(*e)));
                            } else {
                                assert(st.assistant.entries@[j] == old(st).assistant.entries@[j]);
                                assert(asst_entry_ok(st.assistant.entries@[j], evs));
                                let jid = st.assistant.entries@[j].0@;
                                assert(jid != e.id@) by {
                                    assert(old(st).assistant.wf());
                                    assert(old(st).assistant.entries@[i as int].0@ == e.id@);
                                }
                                assert(!is_asst_with(*e, jid));
                                assert(asst_first(evs.push(*e), jid) == asst_first(evs, jid));
                                assert(asst_model(evs.push(*e), jid) == asst_model(evs, jid));
                                assert(asst_tools(evs.push(*e), jid) == asst_tools(evs, jid));
                                assert(forall|c: Counter|
                                    asst_max(evs.push(*e), jid, c) == asst_max(evs, jid, c));
                                assert(asst_entry_ok(st.assistant.entries@[j], evs.push(*e)));
                            }
                        }
                    }
                },
                None => {
                    let tools = dedup_strings(&e.tool_uses);
                    let agg = AssistantAgg {
                        session_id: e.session_id.clone(),
                        date: e.date.clone(),
                        hour: e.hour,
                        ms: e.ms,
                        iso: e.iso.clone(),
                        model: e.model.clone(),
                        input_tokens: e.input_tokens,
                        output_tokens: e.output_tokens,
                        cache_read_input_tokens: e.cache_read_input_tokens,
                        cache_creation_input_tokens: e.cache_creation_input_tokens,
                        web_search_requests: e.web_search_requests,
                        tool_uses: tools,
                    };
                    proof {
                        assert(!asst_ids(evs).contains(e.id@)) by {
                            lemma_asst_ids_iff(evs, e.id@);
                            lemma_assoc_keys(st.assistant.entries@, e.id@);
                        }
                    }
                    st.assistant.push(e.id.clone(), agg);
                    proof {
                        assert(tbl_keys(st.assistant.entries@) =~= asst_ids(evs.push(*e)));
                        assert forall|j: int| 0 <= j < st.assistant.entries@.len() implies
                            asst_entry_ok(#[trigger] st.assistant.entries@[j], evs.push(*e)) by {
                            if j < st.assistant.entries@.len() - 1 {
                                assert(st.assistant.entries@[j] == old(st).assistant.entries@[j]);
                                assert(asst_entry_ok(st.assistant.entries@[j], evs));
                                let jid = st.assistant.entries@[j].0@;
                                assert(tbl_keys(old(st).assistant.entries@)[j] == jid);
                                lemma_assoc_keys(old(st).assistant.entries@, jid);
                                assert(jid != e.id@);
                                assert(!is_asst_with(*e, jid));
                                assert(asst_first(evs.push(*e), jid) == asst_first(evs, jid));
                                assert(asst_model(evs.push(*e), jid) == asst_model(evs, jid));
                                assert(asst_tools(evs.push(*e), jid) == asst_tools(evs, jid));
                                assert(forall|c: Counter|
                                    asst_max(evs.push(*e), jid, c) == asst_max(evs, jid, c));
                            } else {
                                assert(asst_first(evs, e.id@) is None) by {
                                    lemma_asst_ids_iff(evs, e.id@);
                                }
                                assert(asst_first(evs.push(*e), e.id@) == Some(*e));
                                lemma_fresh_asst_ok(*e, evs);
                                if e@.model.len() == 0 {
                                    assert(e@.model =~= Seq::<char>::empty());
                                }
                                let a = st.assistant.entries@[j].1;
                                assert(st.assistant.entries@[j].0@ == e.id@);
                                assert(a.model@ == asst_model(evs.push(*e), e.id@));
                                assert(a.tool_uses.deep_view() == asst_tools(evs.push(*e), e.id@));
                                assert(a.input_tokens == asst_max(
                                    evs.push(*e),
                                    e.id@,
                                    Counter::Input,
                                ));
                            }
                        }
                    }
                },
            }
            proof {
                assert(tbl_keys(st.users.entries@) == user_ids(evs.push(*e)));
                assert forall|j: int| 0 <= j < st.users.entries@.len() implies user_entry_ok(
                    #[trigger] st.users.entries@[j],
                    evs.push(*e),
                ) by {
                    assert(user_entry_ok(st.users.entries@[j], evs));
                    lemma_assoc_keys(st.users.entries@, st.users.entries@[j].0@);
                }
            }
        },
    }
}

/// A fresh assistant identity's canonical entry is the event itself, its
/// tool list deduplicated.
pub proof fn lemma_fresh_asst_ok(e: Event, evs: Seq<Event>)
    requires
        !e@.is_user,
        asst_first(evs, e@.id) is None,
    ensures
        asst_model(evs.push(e), e@.id) == (if e@.model.len() > 0 {
            e@.model
        } else {
            Seq::<char>::empty()
        }),
        forall|c: Counter| #[trigger] asst_max(evs.push(e), e@.id, c) == counter_of(e, c),
        asst_tools(evs.push(e), e@.id) == add_sigs(Seq::empty(), e@.tool_uses),
{
    assert(evs.push(e).drop_last() =~= evs);
    lemma_none_empty(evs, e@.id);
    assert forall|c: Counter| #[trigger] asst_max(evs.push(e), e@.id, c) == counter_of(e, c) by {
        assert(asst_max(evs, e@.id, c) == 0);
    }
}

/// Where no chunk carries an identity, every merged reading is at its
/// neutral value.
pub proof fn lemma_none_empty(evs: Seq<Event>, id: Seq<char>)
    requires
        asst_first(evs, id) is None,
    ensures
        asst_model(evs, id) == Seq::<char>::empty(),
        forall|c: Counter| #[trigger] asst_max(evs, id, c) == 0,
        asst_tools(evs, id) == Seq::<Seq<char>>::empty(),
    decreases evs.len(),
{
    if evs.len() > 0 {
        lemma_none_empty(evs.drop_last(), id);
        assert forall|c: Counter| #[trigger] asst_max(evs, id, c) == 0 by {
            assert(asst_max(evs.drop_last(), id, c) == 0);
        }
    }
}

/// Merging one more chunk into a canonical entry keeps it canonical.
proof fn lemma_merge_asst_ok(
    en: (String, AssistantAgg),
    merged: AssistantAgg,
    e: Event,
    evs: Seq<Event>,
)
    requires
        asst_entry_ok(en, evs),
        !e@.is_user,
        e@.id == en.0@,
        merged.session_id == en.1.session_id,
        merged.date == en.1.date,
        merged.hour == en.1.hour,
        merged.ms == en.1.ms,
        merged.iso == en.1.iso,
        merged.model@ == (if e@.model.len() > 0 {
            e@.model
        } else {
            en.1.model@
        }),
        merged.input_tokens == (if e@.input_tokens > en.1.input_tokens {
            e@.input_tokens
        } else {
            en.1.input_tokens
        }),
        merged.output_tokens == (if e@.output_tokens > en.1.output_tokens {
            e@.output_tokens
        } else {
            en.1.output_tokens
        }),
        merged.cache_read_input_tokens == (if e@.cache_read_input_tokens
            > en.1.cache_read_input_tokens {
            e@.cache_read_input_tokens
        } else {
            en.1.cache_read_input_tokens
        }),
        merged.cache_creation_input_tokens == (if e@.cache_creation_input_tokens
            > en.1.cache_creation_input_tokens {
            e@.cache_creation_input_tokens
        } else {
            en.1.cache_creation_input_tokens
        }),
        merged.web_search_requests == (if e@.web_search_requests > en.1.web_search_requests {
            e@.web_search_requests
        } else {
            en.1.web_search_requests
        }),
        merged.tool_uses.deep_view() == add_sigs(en.1.tool_uses.deep_view(), e@.tool_uses),
    ensures
        asst_entry_ok((en.0, merged), evs.push(e)),
{
    assert(evs.push(e).drop_last() =~= evs);
    assert(asst_first(evs, en.0@) is Some);
}

/// Builds the merged entry for one more chunk of a known identity.
fn merge_asst(a: &AssistantAgg, e: &Event) -> (r: AssistantAgg)
    ensures
        r.session_id == a.session_id,
        r.date == a.date,
        r.hour == a.hour,
        r.ms == a.ms,
        r.iso == a.iso,
        r.model@ == (if e@.model.len() > 0 {
            e@.model
        } else {
            a.model@
        }),
        r.input_tokens == (if e@.input_tokens > a.input_tokens {
            e@.input_tokens
        } else {
            a.input_tokens
        }),
        r.output_tokens == (if e@.output_tokens > a.output_tokens {
            e@.output_tokens
        } else {
            a.output_tokens
        }),
        r.cache_read_input_tokens == (if e@.cache_read_input_tokens > a.cache_read_input_tokens {
            e@.cache_read_input_tokens
        } else {
            a.cache_read_input_tokens
        }),
        r.cache_creation_input_tokens == (if e@.cache_creation_input_tokens
            > a.cache_creation_input_tokens {
            e@.cache_creation_input_tokens
        } else {
            a.cache_creation_input_tokens
        }),
        r.web_search_requests == (if e@.web_search_requests > a.web_search_requests {
            e@.web_search_requests
        } else {
            a.web_search_requests
        }),
        r.tool_uses.deep_view() == add_sigs(a.tool_uses.deep_view(), e@.tool_uses),
{
    let mut tools = clone_strings(&a.tool_uses);
    proof {
        assert(tools.deep_view() =~= a.tool_uses.deep_view());
        assert(e.tool_uses.deep_view().skip(0) =~= e.tool_uses.deep_view());
    }
    let mut i: usize = 0;
    while i < e.tool_uses.len()
        invariant
            0 <= i <= e.tool_uses@.len(),
            add_sigs(a.tool_uses.deep_view(), e.tool_uses.deep_view()) == add_sigs(
                tools.deep_view(),
                e.tool_uses.deep_view().skip(i as int),
            ),
        decreases e.tool_uses@.len() - i,
    {
        proof {
            assert(e.tool_uses.deep_view().skip(i as int).drop_first()
                =~= e.tool_uses.deep_view().skip(i + 1));
            assert(e.tool_uses.deep_view().skip(i as int)[0] == e.tool_uses.deep_view()[i as int]);
        }
        let ghost prev = tools.deep_view();
        if !seq_contains_str(&tools, e.tool_uses[i].as_str()) {
            tools.push(e.tool_uses[i].clone());
            proof {
                assert(tools.deep_view() =~= prev.push(e.tool_uses.deep_view()[i as int]));
            }
        }
        i += 1;
    }
    proof {
        assert(e.tool_uses.deep_view().skip(e.tool_uses@.len() as int)
            =~= Seq::<Seq<char>>::empty());
    }
    AssistantAgg {
        session_id: a.session_id.clone(),
        date: a.date.clone(),
        hour: a.hour,
        ms: a.ms,
        iso: a.iso.clone(),
        model: if !e.model.as_str().is_empty() {
            e.model.clone()
        } else {
            a.model.clone()
        },
        input_tokens: if e.input_tokens > a.input_tokens {
            e.input_tokens
        } else {
            a.input_tokens
        },
        output_tokens: if e.output_tokens > a.output_tokens {
            e.output_tokens
        } else {
            a.output_tokens
        },
        cache_read_input_tokens: if e.cache_read_input_tokens > a.cache_read_input_tokens {
            e.cache_read_input_tokens
        } else {
            a.cache_read_input_tokens
        },
        cache_creation_input_tokens: if e.cache_creation_input_tokens
            > a.cache_creation_input_tokens {
            e.cache_creation_input_tokens
        } else {
            a.cache_creation_input_tokens
        },
        web_search_requests: if e.web_search_requests > a.web_search_requests {
            e.web_search_requests
        } else {
            a.web_search_requests
        },
        tool_uses: tools,
    }
}

/// Deduplicates one event's own tool identities, as a fresh entry needs.
fn dedup_strings(v: &Vec<String>) -> (r: Vec<String>)
    ensures
        r.deep_view() == add_sigs(Seq::empty(), v.deep_view()),
{
    let mut r: Vec<String> = Vec::new();
    proof {
        assert(r.deep_view() =~= Seq::<Seq<char>>::empty());
        assert(v.deep_view().skip(0) =~= v.deep_view());
    }
    let mut i: usize = 0;
    while i < v.len()
        invariant
            0 <= i <= v@.len(),
            add_sigs(Seq::empty(), v.deep_view()) == add_sigs(
                r.deep_view(),
                v.deep_view().skip(i as int),
            ),
        decreases v@.len() - i,
    {
        proof {
            assert(v.deep_view().skip(i as int).drop_first() =~= v.deep_view().skip(i + 1));
            assert(v.deep_view().skip(i as int)[0] == v.deep_view()[i as int]);
        }
        let ghost prev = r.deep_view();
        if !seq_contains_str(&r, v[i].as_str()) {
            r.push(v[i].clone());
            proof {
                assert(r.deep_view() =~= prev.push(v.deep_view()[i as int]));
            }
        }
        i += 1;
    }
    proof {
        assert(v.deep_view().skip(v@.len() as int) =~= Seq::<Seq<char>>::empty());
    }
    r
}

/// Digests a whole run of events, in order.
pub fn merge_events(events: &Vec<Event>) -> (st: MergeState)
    ensures
        merge_post(st, events@),
{
    let mut st = MergeState { users: Table::new(), assistant: Table::new() };
    proof {
        assert(tbl_keys(st.users.entries@) =~= user_ids(events@.take(0)));
        assert(tbl_keys(st.assistant.entries@) =~= asst_ids(events@.take(0)));
        assert(events@.take(0) =~= Seq::<Event>::empty());
    }
    let mut i: usize = 0;
    while i < events.len()
        invariant
            0 <= i <= events@.len(),
            merge_post(st, events@.take(i as int)),
        decreases events@.len() - i,
    {
        merge_one(&mut st, &events[i], Ghost(events@.take(i as int)));
        proof {
            assert(events@.take(i as int).push(events@[i as int]) =~= events@.take(i + 1));
        }
        i += 1;
    }
    proof {
        assert(events@.take(events@.len() as int) =~= events@);
    }
    st
}

} // verus!
