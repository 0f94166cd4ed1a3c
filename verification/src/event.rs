use crate::json::JVal;
use crate::json::jas_arr;
use crate::json::jget;
use crate::json::jget_str;
use crate::json::jget_u64;
use crate::json::json_of;
use crate::json::parse_json;
use crate::json::render_json;
use crate::json::spec_arr;
use crate::json::spec_get;
use crate::json::spec_get_str;
use crate::json::spec_get_u64;
use crate::json::spec_render;
use crate::stamp::parse_local_timestamp;
use crate::stamp::rfc3339_epoch_ms;
use crate::util::spec_digits;
use crate::util::str_eq;
use crate::util::u64_to_string;
use vstd::prelude::*;
use vstd::string::StringExecFns;

verus! {

/// Which kind of turn a record logs.
#[derive(Debug, Clone, Copy, PartialEq, Eq, Structural)]
pub enum EventKind {
    User,
    Assistant,
}

/// One recognized log record, reduced to the fields the engine reads.
/// For a user turn the model, the counters and the tool uses stay empty.
#[derive(Debug)]
pub struct Event {
    pub kind: EventKind,
    pub id: String,
    pub session_id: String,
    pub ms: i64,
    pub iso: String,
    pub date: String,
    pub hour: u8,
    pub model: String,
    pub input_tokens: u64,
    pub output_tokens: u64,
    pub cache_read_input_tokens: u64,
    pub cache_creation_input_tokens: u64,
    pub web_search_requests: u64,
    pub tool_uses: Vec<String>,
}

/// The mathematical shadow of an `Event`: every text as its characters.
#[verifier::ext_equal]
pub struct EventV {
    pub is_user: bool,
    pub id: Seq<char>,
    pub session_id: Seq<char>,
    pub ms: i64,
    pub iso: Seq<char>,
    pub date: Seq<char>,
    pub hour: u8,
    pub model: Seq<char>,
    pub input_tokens: u64,
    pub output_tokens: u64,
    pub cache_read_input_tokens: u64,
    pub cache_creation_input_tokens: u64,
    pub web_search_requests: u64,
    pub tool_uses: Seq<Seq<char>>,
}

impl View for Event {
    type V = EventV;

    open spec fn view(&self) -> EventV {
        EventV {
            is_user: self.kind is User,
            id: self.id@,
            session_id: self.session_id@,
            ms: self.ms,
            iso: self.iso@,
            date: self.date@,
            hour: self.hour,
            model: self.model@,
            input_tokens: self.input_tokens,
            output_tokens: self.output_tokens,
            cache_read_input_tokens: self.cache_read_input_tokens,
            cache_creation_input_tokens: self.cache_creation_input_tokens,
            web_search_requests: self.web_search_requests,
            tool_uses: self.tool_uses.deep_view(),
        }
    }
}

/// A string field's characters, or a fallback.
pub open spec fn str_or(v: Option<Seq<char>>, d: Seq<char>) -> Seq<char> {
    match v {
        Some(s) => s,
        None => d,
    }
}

/// A numeric field, or zero: absent and non-numeric counters count as zero.
pub open spec fn u64_or_zero(v: Option<u64>) -> u64 {
    match v {
        Some(n) => n,
        None => 0,
    }
}

/// The session a record belongs to: its own session field where present,
/// else the name of the file it sits in.
pub open spec fn spec_session_of(v: JVal, fallback: Seq<char>) -> Seq<char> {
    str_or(spec_get_str(v, "sessionId"@), fallback)
}

/// The synthetic identity of a record that carries none: session, line
/// index and kind, which no two records of one scan share.
pub open spec fn spec_synth_id(session: Seq<char>, idx: nat, suffix: Seq<char>) -> Seq<char> {
    session + ":"@ + spec_digits(idx) + suffix
}

/// A user record's identity: its uuid, else the synthetic fallback.
pub open spec fn spec_user_id(v: JVal, session: Seq<char>, idx: nat) -> Seq<char> {
    str_or(spec_get_str(v, "uuid"@), spec_synth_id(session, idx, ":user"@))
}

/// The nested message object, or null where there is none.
pub open spec fn spec_msg(v: JVal) -> JVal {
    match spec_get(v, "message"@) {
        Some(m) => m,
        None => JVal::Null,
    }
}

/// An assistant record's identity: the upstream message id, else the
/// record's uuid, else the synthetic fallback.
pub open spec fn spec_asst_id(v: JVal, session: Seq<char>, idx: nat) -> Seq<char> {
    match spec_get_str(spec_msg(v), "id"@) {
        Some(mid) => mid,
        None => str_or(spec_get_str(v, "uuid"@), spec_synth_id(session, idx, ":assistant"@)),
    }
}

/// The nested usage object, or null.
pub open spec fn spec_usage(v: JVal) -> JVal {
    match spec_get(spec_msg(v), "usage"@) {
        Some(u) => u,
        None => JVal::Null,
    }
}

/// One usage counter of the record.
pub open spec fn spec_tok(v: JVal, key: Seq<char>) -> u64 {
    u64_or_zero(spec_get_u64(spec_usage(v), key))
}

/// The web-search count: the larger of the direct counter and the one
/// nested under the server tool-use object.
pub open spec fn spec_web_search(v: JVal) -> u64 {
    let direct = spec_tok(v, "web_search_requests"@);
    let server = match spec_get(spec_usage(v), "server_tool_use"@) {
        Some(s) => u64_or_zero(spec_get_u64(s, "web_search_requests"@)),
        None => 0,
    };
    if direct >= server {
        direct
    } else {
        server
    }
}

/// The record's model name; empty where none is given.
pub open spec fn spec_model(v: JVal) -> Seq<char> {
    str_or(spec_get_str(spec_msg(v), "model"@), Seq::empty())
}

/// The content blocks of the message; empty where there are none.
pub open spec fn spec_content(v: JVal) -> Seq<JVal> {
    match spec_get(spec_msg(v), "content"@) {
        Some(c) => match spec_arr(c) {
            Some(a) => a,
            None => Seq::empty(),
        },
        None => Seq::empty(),
    }
}

/// A tool block's identity: its id where it has one, else its content.
pub open spec fn spec_tool_sig(b: JVal) -> Seq<char> {
    match spec_get_str(b, "id"@) {
        Some(id) => "id:"@ + id,
        None => "anon:"@ + spec_render(b),
    }
}

/// The identities of the tool blocks among the content, in order.
pub open spec fn spec_tool_sigs(blocks: Seq<JVal>) -> Seq<Seq<char>>
    decreases blocks.len(),
{
    if blocks.len() == 0 {
        Seq::empty()
    } else {
        let head: Seq<Seq<char>> = if spec_get_str(blocks[0], "type"@) == Some("tool_use"@) {
            seq![spec_tool_sig(blocks[0])]
        } else {
            Seq::empty()
        };
        head + spec_tool_sigs(blocks.drop_first())
    }
}

/// One more block extends the identities by that block's, where it is a
/// tool block.
proof fn lemma_tool_sigs_snoc(blocks: Seq<JVal>, i: int)
    requires
        0 <= i < blocks.len(),
    ensures
        spec_tool_sigs(blocks.take(i + 1)) == spec_tool_sigs(blocks.take(i)) + (
        if spec_get_str(blocks[i], "type"@) == Some("tool_use"@) {
            seq![spec_tool_sig(blocks[i])]
        } else {
            Seq::empty()
        }),
    decreases i,
{
    if i == 0 {
        assert(blocks.take(1).drop_first() =~= Seq::<JVal>::empty());
        assert(blocks.take(0) =~= Seq::<JVal>::empty());
        assert(blocks.take(1)[0] == blocks[0]);
        assert(spec_tool_sigs(blocks.take(1)) =~= spec_tool_sigs(blocks.take(0)) + (
        if spec_get_str(blocks[0], "type"@) == Some("tool_use"@) {
            seq![spec_tool_sig(blocks[0])]
        } else {
            Seq::empty()
        }));
    } else {
        lemma_tool_sigs_snoc(blocks.drop_first(), i - 1);
        assert(blocks.take(i + 1).drop_first() =~= blocks.drop_first().take(i));
        assert(blocks.take(i).drop_first() =~= blocks.drop_first().take(i - 1));
        assert(blocks.take(i + 1)[0] == blocks[0]);
        assert(blocks.take(i)[0] == blocks[0]);
        assert(blocks.drop_first()[i - 1] == blocks[i]);
        assert(spec_tool_sigs(blocks.take(i + 1)) =~= spec_tool_sigs(blocks.take(i)) + (
        if spec_get_str(blocks[i], "type"@) == Some("tool_use"@) {
            seq![spec_tool_sig(blocks[i])]
        } else {
            Seq::empty()
        }));
    }
}

/// What one parsed record means, given the calendar readings of its
/// timestamp: a recognized turn, or nothing for any other record kind.
pub open spec fn spec_parse(
    v: JVal,
    fallback: Seq<char>,
    idx: nat,
    ms: i64,
    iso: Seq<char>,
    date: Seq<char>,
    hour: u8,
) -> Option<EventV> {
    let session = spec_session_of(v, fallback);
    let kind = spec_get_str(v, "type"@);
    if kind == Some("user"@) {
        Some(
            EventV {
                is_user: true,
                id: spec_user_id(v, session, idx),
                session_id: session,
                ms,
                iso,
                date,
                hour,
                model: Seq::empty(),
                input_tokens: 0,
                output_tokens: 0,
                cache_read_input_tokens: 0,
                cache_creation_input_tokens: 0,
                web_search_requests: 0,
                tool_uses: Seq::empty(),
            },
        )
    } else if kind == Some("assistant"@) {
        Some(
            EventV {
                is_user: false,
                id: spec_asst_id(v, session, idx),
                session_id: session,
                ms,
                iso,
                date,
                hour,
                model: spec_model(v),
                input_tokens: spec_tok(v, "input_tokens"@),
                output_tokens: spec_tok(v, "output_tokens"@),
                cache_read_input_tokens: spec_tok(v, "cache_read_input_tokens"@),
                cache_creation_input_tokens: spec_tok(v, "cache_creation_input_tokens"@),
                web_search_requests: spec_web_search(v),
                tool_uses: spec_tool_sigs(spec_content(v)),
            },
        )
    } else {
        None
    }
}

/// Builds the synthetic identity, as `spec_synth_id` describes.
fn make_synth_id(session: &str, idx: usize, suffix: &str) -> (r: String)
    ensures
        r@ == spec_synth_id(session@, idx as nat, suffix@),
{
    let mut s = session.to_owned();
    s.append(":");
    let d = u64_to_string(idx as u64);
    s.append(d.as_str());
    s.append(suffix);
    proof {
        assert(s@ =~= spec_synth_id(session@, idx as nat, suffix@));
    }
    s
}

/// One usage counter, read as `spec_tok` describes.
fn read_tok(usage: &JVal, key: &str) -> (r: u64)
    ensures
        r == u64_or_zero(spec_get_u64(*usage, key@)),
{
    match jget_u64(usage, key) {
        Some(n) => n,
        None => 0,
    }
}

/// What one read line yields: skipped for any line that is not valid
/// JSON, lacks a readable timestamp, or logs no user or assistant turn;
/// otherwise an event carrying the line's fields as `spec_parse`
/// describes, with the calendar readings of its own timestamp.
pub open spec fn line_event_ok(
    fallback: Seq<char>,
    idx: nat,
    line: Seq<char>,
    r: Option<Event>,
) -> bool {
    match json_of(line) {
        None => r is None,
        Some(v) => match spec_get_str(v, "timestamp"@) {
            None => r is None,
            Some(ts) => match rfc3339_epoch_ms(ts) {
                None => r is None,
                Some(ms) => match r {
                    Some(e) => e@.hour < 24 && e@.ms == ms && Some(e@) == spec_parse(
                        v,
                        fallback,
                        idx,
                        ms,
                        e@.iso,
                        e@.date,
                        e@.hour,
                    ),
                    None => spec_parse(
                        v,
                        fallback,
                        idx,
                        ms,
                        Seq::empty(),
                        Seq::empty(),
                        0,
                    ) is None,
                },
            },
        },
    }
}

/// Reads one line of a session log, as `line_event_ok` describes.
pub fn parse_line(fallback_session: &str, idx: usize, line: &str) -> (r: Option<Event>)
    ensures
        line_event_ok(fallback_session@, idx as nat, line@, r),
{
    let v = match parse_json(line) {
        Some(v) => v,
        None => {
            return None;
        },
    };
    let ts = match jget_str(&v, "timestamp") {
        Some(t) => t,
        None => {
            return None;
        },
    };
    let st = match parse_local_timestamp(ts.as_str()) {
        Some(st) => st,
        None => {
            return None;
        },
    };
    let session_id: String = match jget_str(&v, "sessionId") {
        Some(s) => s.clone(),
        None => fallback_session.to_owned(),
    };
    let kind: &String = match jget_str(&v, "type") {
        Some(k) => k,
        None => {
            return None;
        },
    };
    if str_eq(kind.as_str(), "user") {
        let id = match jget_str(&v, "uuid") {
            Some(u) => u.clone(),
            None => make_synth_id(session_id.as_str(), idx, ":user"),
        };
        let e = Event {
            kind: EventKind::User,
            id,
            session_id,
            ms: st.ms,
            iso: st.iso,
            date: st.date,
            hour: st.hour,
            model: String::new(),
            input_tokens: 0,
            output_tokens: 0,
            cache_read_input_tokens: 0,
            cache_creation_input_tokens: 0,
            web_search_requests: 0,
            tool_uses: Vec::new(),
        };
        proof {
            assert(Some(e@) =~= spec_parse(
                v,
                fallback_session@,
                idx as nat,
                st.ms,
                e@.iso,
                e@.date,
                e@.hour,
            ));
        }
        Some(e)
    } else if str_eq(kind.as_str(), "assistant") {
        let null = JVal::Null;
        let msg: &JVal = match jget(&v, "message") {
            Some(m) => m,
            None => &null,
        };
        let id = match jget_str(msg, "id") {
            Some(mid) => mid.clone(),
            None => match jget_str(&v, "uuid") {
                Some(u) => u.clone(),
                None => make_synth_id(session_id.as_str(), idx, ":assistant"),
            },
        };
        let model = match jget_str(msg, "model") {
            Some(m) => m.clone(),
            None => String::new(),
        };
        let usage: &JVal = match jget(msg, "usage") {
            Some(u) => u,
            None => &null,
        };
        let direct_ws = read_tok(usage, "web_search_requests");
        let server_ws = match jget(usage, "server_tool_use") {
            Some(s) => read_tok(s, "web_search_requests"),
            None => 0,
        };
        let web_search_requests = if direct_ws >= server_ws {
            direct_ws
        } else {
            server_ws
        };
        let mut tool_uses: Vec<String> = Vec::new();
        let empty_blocks: Vec<JVal> = Vec::new();
        let blocks: &Vec<JVal> = match jget(msg, "content") {
            Some(c) => match jas_arr(c) {
                Some(a) => a,
                None => &empty_blocks,
            },
            None => &empty_blocks,
        };
        proof {
            assert(blocks@.take(0) =~= Seq::<JVal>::empty());
        }
        let mut bi: usize = 0;
        while bi < blocks.len()
            invariant
                0 <= bi <= blocks@.len(),
                tool_uses.deep_view() == spec_tool_sigs(blocks@.take(bi as int)),
            decreases blocks@.len() - bi,
        {
            let block = &blocks[bi];
            let is_tool = match jget_str(block, "type") {
                Some(t) => str_eq(t.as_str(), "tool_use"),
                None => false,
            };
            if is_tool {
                let sig = match jget_str(block, "id") {
                    Some(bid) => {
                        let mut s = "id:".to_owned();
                        s.append(bid.as_str());
                        s
                    },
                    None => {
                        let mut s = "anon:".to_owned();
                        let rendered = render_json(block);
                        s.append(rendered.as_str());
                        s
                    },
                };
                proof {
                    assert(sig@ == spec_tool_sig(blocks@[bi as int]));
                }
                tool_uses.push(sig);
            }
            proof {
                lemma_tool_sigs_snoc(blocks@, bi as int);
                assert(tool_uses.deep_view() =~= spec_tool_sigs(blocks@.take(bi + 1)));
            }
            bi += 1;
        }
        proof {
            assert(blocks@.take(blocks@.len() as int) =~= blocks@);
        }
        let e = Event {
            kind: EventKind::Assistant,
            id,
            session_id,
            ms: st.ms,
            iso: st.iso,
            date: st.date,
            hour: st.hour,
            model,
            input_tokens: read_tok(usage, "input_tokens"),
            output_tokens: read_tok(usage, "output_tokens"),
            cache_read_input_tokens: read_tok(usage, "cache_read_input_tokens"),
            cache_creation_input_tokens: read_tok(usage, "cache_creation_input_tokens"),
            web_search_requests,
            tool_uses,
        };
        proof {
            assert(Some(e@) =~= spec_parse(
                v,
                fallback_session@,
                idx as nat,
                st.ms,
                e@.iso,
                e@.date,
                e@.hour,
            ));
        }
        Some(e)
    } else {
        None
    }
}

} // verus!
