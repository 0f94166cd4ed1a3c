use crate::util::spec_digits;
use crate::util::str_eq;
use crate::util::u64_to_string;
use vstd::prelude::*;
use vstd::string::StrSliceExecFns;
use vstd::string::StringExecFns;

verus! {

/// One parsed JSON value. A number keeps its unsigned and signed readings
/// (where they exist) together with its source text, so that nothing of the
/// original token is lost; an object keeps its entries as a key-ordered list
/// with pairwise-distinct keys, as the underlying parser hands them out.
pub enum JVal {
    Null,
    Bool(bool),
    Num { u: Option<u64>, i: Option<i64>, raw: String },
    Str(String),
    Arr(Vec<JVal>),
    Obj(Vec<(String, JVal)>),
}

/// What parsing a line of text as JSON yields: `None` where the text is not
/// valid JSON. Parsing is a pure function of the text, so the result is
/// given a name here and the trusted parser below is its sole source.
pub uninterp spec fn json_of(s: Seq<char>) -> Option<JVal>;

/// Relies on serde_json::from_str::<serde_json::Value> to parse one JSON
/// document, and on serde_json::Number::{as_u64, as_i64} and the number's
/// rendering to read each numeric token. The result is a pure function of
/// the input text, named `json_of`.
#[verifier::external_body]
pub fn parse_json(s: &str) -> (r: Option<JVal>)
    ensures
        r == json_of(s@),
{
    serde_json::from_str::<serde_json::Value>(s).ok().map(jval_of_value)
}

/// Declares serde_json::Value so the conversion below may take it.
#[verifier::external_type_specification]
#[verifier::external_body]
pub struct ExJsonValue(serde_json::Value);

/// Carries a serde_json::Value over into `JVal`, variant by variant:
/// only moves, and the readings its caller's contract names.
#[verifier::external_body]
fn jval_of_value(v: serde_json::Value) -> JVal {
    match v {
        serde_json::Value::Null => JVal::Null,
        serde_json::Value::Bool(b) => JVal::Bool(b),
        serde_json::Value::Number(n) => JVal::Num {
            u: n.as_u64(),
            i: n.as_i64(),
            raw: n.to_string(),
        },
        serde_json::Value::String(s) => JVal::Str(s),
        serde_json::Value::Array(a) => JVal::Arr(a.into_iter().map(jval_of_value).collect()),
        serde_json::Value::Object(o) => JVal::Obj(
            o.into_iter().map(|(k, w)| (k, jval_of_value(w))).collect(),
        ),
    }
}

/// Looks a key up among an object's entries: the first entry whose key
/// matches. Entries carry distinct keys, so "first" is the only one.
pub open spec fn spec_lookup(entries: Seq<(String, JVal)>, key: Seq<char>) -> Option<JVal>
    decreases entries.len(),
{
    if entries.len() == 0 {
        None
    } else if entries[0].0@ == key {
        Some(entries[0].1)
    } else {
        spec_lookup(entries.drop_first(), key)
    }
}

/// The field of an object under a key; `None` for a missing field or for a
/// value that is no object, as the engine treats both alike.
pub open spec fn spec_get(v: JVal, key: Seq<char>) -> Option<JVal> {
    match v {
        JVal::Obj(entries) => spec_lookup(entries@, key),
        _ => None,
    }
}

/// Fetches the field of `v` under `key`, as `spec_get` describes.
pub fn jget<'a>(v: &'a JVal, key: &str) -> (r: Option<&'a JVal>)
    ensures
        match r {
            Some(f) => spec_get(*v, key@) == Some(*f),
            None => spec_get(*v, key@) is None,
        },
{
    match v {
        JVal::Obj(entries) => {
            proof {
                assert(entries@.skip(0) =~= entries@);
            }
            let mut i: usize = 0;
            while i < entries.len()
                invariant
                    0 <= i <= entries@.len(),
                    spec_lookup(entries@, key@) == spec_lookup(entries@.skip(i as int), key@),
                decreases entries@.len() - i,
            {
                proof {
                    assert(entries@.skip(i as int).drop_first() =~= entries@.skip(i + 1));
                    assert(entries@.skip(i as int)[0] == entries@[i as int]);
                }
                if str_eq(entries[i].0.as_str(), key) {
                    proof {
                        assert(spec_lookup(entries@.skip(i as int), key@)
                            == Some(entries@[i as int].1));
                    }
                    return Some(&entries[i].1);
                }
                i += 1;
            }
            None
        },
        _ => None,
    }
}

/// The characters of a string value; `None` for any other value.
pub open spec fn spec_str(v: JVal) -> Option<Seq<char>> {
    match v {
        JVal::Str(s) => Some(s@),
        _ => None,
    }
}

/// The unsigned reading of a number value; `None` elsewhere, and `None`
/// for a number that has no such reading.
pub open spec fn spec_u64(v: JVal) -> Option<u64> {
    match v {
        JVal::Num { u, .. } => u,
        _ => None,
    }
}

/// The signed reading of a number value.
pub open spec fn spec_i64(v: JVal) -> Option<i64> {
    match v {
        JVal::Num { i, .. } => i,
        _ => None,
    }
}

/// The elements of an array value.
pub open spec fn spec_arr(v: JVal) -> Option<Seq<JVal>> {
    match v {
        JVal::Arr(a) => Some(a@),
        _ => None,
    }
}

/// Reads `v` as a string, as `spec_str` describes.
pub fn jas_str<'a>(v: &'a JVal) -> (r: Option<&'a String>)
    ensures
        match r {
            Some(s) => spec_str(*v) == Some(s@),
            None => spec_str(*v) is None,
        },
{
    match v {
        JVal::Str(s) => Some(s),
        _ => None,
    }
}

/// Reads `v` as an unsigned number, as `spec_u64` describes.
pub fn jas_u64(v: &JVal) -> (r: Option<u64>)
    ensures
        r == spec_u64(*v),
{
    match v {
        JVal::Num { u, .. } => *u,
        _ => None,
    }
}

/// Reads `v` as a signed number, as `spec_i64` describes.
pub fn jas_i64(v: &JVal) -> (r: Option<i64>)
    ensures
        r == spec_i64(*v),
{
    match v {
        JVal::Num { i, .. } => *i,
        _ => None,
    }
}

/// Reads `v` as an array, as `spec_arr` describes.
pub fn jas_arr<'a>(v: &'a JVal) -> (r: Option<&'a Vec<JVal>>)
    ensures
        match r {
            Some(a) => spec_arr(*v) == Some(a@),
            None => spec_arr(*v) is None,
        },
{
    match v {
        JVal::Arr(a) => Some(a),
        _ => None,
    }
}

/// The entries of an object value.
pub open spec fn spec_obj(v: JVal) -> Option<Seq<(String, JVal)>> {
    match v {
        JVal::Obj(o) => Some(o@),
        _ => None,
    }
}

/// Reads `v` as an object, as `spec_obj` describes.
pub fn jas_obj<'a>(v: &'a JVal) -> (r: Option<&'a Vec<(String, JVal)>>)
    ensures
        match r {
            Some(o) => spec_obj(*v) == Some(o@),
            None => spec_obj(*v) is None,
        },
{
    match v {
        JVal::Obj(o) => Some(o),
        _ => None,
    }
}

/// The string field of an object under a key.
pub open spec fn spec_get_str(v: JVal, key: Seq<char>) -> Option<Seq<char>> {
    match spec_get(v, key) {
        Some(f) => spec_str(f),
        None => None,
    }
}

/// The unsigned numeric field of an object under a key.
pub open spec fn spec_get_u64(v: JVal, key: Seq<char>) -> Option<u64> {
    match spec_get(v, key) {
        Some(f) => spec_u64(f),
        None => None,
    }
}

/// Fetches a string field, as `spec_get_str` describes.
pub fn jget_str<'a>(v: &'a JVal, key: &str) -> (r: Option<&'a String>)
    ensures
        match r {
            Some(s) => spec_get_str(*v, key@) == Some(s@),
            None => spec_get_str(*v, key@) is None,
        },
{
    match jget(v, key) {
        Some(f) => jas_str(f),
        None => None,
    }
}

/// The signed numeric field of an object under a key.
pub open spec fn spec_get_i64(v: JVal, key: Seq<char>) -> Option<i64> {
    match spec_get(v, key) {
        Some(f) => spec_i64(f),
        None => None,
    }
}

/// Fetches a signed numeric field, as `spec_get_i64` describes.
pub fn jget_i64(v: &JVal, key: &str) -> (r: Option<i64>)
    ensures
        r == spec_get_i64(*v, key@),
{
    match jget(v, key) {
        Some(f) => jas_i64(f),
        None => None,
    }
}

/// Fetches an unsigned numeric field, as `spec_get_u64` describes.
pub fn jget_u64(v: &JVal, key: &str) -> (r: Option<u64>)
    ensures
        r == spec_get_u64(*v, key@),
{
    match jget(v, key) {
        Some(f) => jas_u64(f),
        None => None,
    }
}

/// A canonical, self-delimiting rendering of a value, used to derive a
/// content identity for values that carry no identifier of their own.
/// Strings and number tokens are length-prefixed, so no escaping is needed.
pub open spec fn spec_render(v: JVal) -> Seq<char>
    decreases v,
{
    match v {
        JVal::Null => seq!['n'],
        JVal::Bool(b) => if b {
            seq!['t']
        } else {
            seq!['f']
        },
        JVal::Num { u: _, i: _, raw } => seq!['d'] + spec_digits(raw@.len()) + seq![':'] + raw@,
        JVal::Str(s) => seq!['s'] + spec_digits(s@.len()) + seq![':'] + s@,
        JVal::Arr(a) => seq!['['] + spec_render_list(a@) + seq![']'],
        JVal::Obj(o) => seq!['{'] + spec_render_entries(o@) + seq!['}'],
    }
}

/// Renders array elements, each followed by a separator.
pub open spec fn spec_render_list(elems: Seq<JVal>) -> Seq<char>
    decreases elems,
{
    if elems.len() == 0 {
        Seq::empty()
    } else {
        spec_render(elems[0]) + seq![','] + spec_render_list(elems.drop_first())
    }
}

/// Renders object entries, each key then value, each followed by a separator.
pub open spec fn spec_render_entries(entries: Seq<(String, JVal)>) -> Seq<char>
    decreases entries,
{
    if entries.len() == 0 {
        Seq::empty()
    } else {
        seq!['s'] + spec_digits(entries[0].0@.len()) + seq![':'] + entries[0].0@ + seq![':']
            + spec_render(entries[0].1) + seq![','] + spec_render_entries(entries.drop_first())
    }
}

/// Appending one element extends the rendered list by that element's text.
proof fn lemma_render_list_snoc(elems: Seq<JVal>, i: int)
    requires
        0 <= i < elems.len(),
    ensures
        spec_render_list(elems.take(i + 1)) == spec_render_list(elems.take(i)) + spec_render(
            elems[i],
        ) + seq![','],
    decreases i,
{
    if i == 0 {
        assert(elems.take(1).drop_first() =~= Seq::<JVal>::empty());
        assert(elems.take(0) =~= Seq::<JVal>::empty());
        assert(spec_render_list(elems.take(1)) =~= spec_render(elems[0]) + seq![',']);
    } else {
        lemma_render_list_snoc(elems.drop_first(), i - 1);
        assert(elems.take(i + 1).drop_first() =~= elems.drop_first().take(i));
        assert(elems.take(i).drop_first() =~= elems.drop_first().take(i - 1));
        assert(elems.take(i + 1)[0] == elems[0]);
        assert(elems.drop_first()[i - 1] == elems[i]);
    }
}

/// Appending one entry extends the rendered entries by that entry's text.
proof fn lemma_render_entries_snoc(entries: Seq<(String, JVal)>, i: int)
    requires
        0 <= i < entries.len(),
    ensures
        spec_render_entries(entries.take(i + 1)) == spec_render_entries(entries.take(i))
            + seq!['s'] + spec_digits(entries[i].0@.len()) + seq![':'] + entries[i].0@ + seq![':']
            + spec_render(entries[i].1) + seq![','],
    decreases i,
{
    if i == 0 {
        assert(entries.take(1).drop_first() =~= Seq::<(String, JVal)>::empty());
        assert(entries.take(0) =~= Seq::<(String, JVal)>::empty());
        assert(entries.take(1)[0] == entries[0]);
    } else {
        lemma_render_entries_snoc(entries.drop_first(), i - 1);
        assert(entries.take(i + 1).drop_first() =~= entries.drop_first().take(i));
        assert(entries.take(i).drop_first() =~= entries.drop_first().take(i - 1));
        assert(entries.take(i + 1)[0] == entries[0]);
        assert(entries.drop_first()[i - 1] == entries[i]);
    }
}

/// Renders a length-prefixed string token.
fn render_str_token(s: &str) -> (r: String)
    ensures
        r@ == seq!['s'] + spec_digits(s@.len()) + seq![':'] + s@,
{
    proof {
        reveal_strlit("s");
        reveal_strlit(":");
    }
    let mut out = "s".to_owned();
    let len = s.unicode_len();
    let digits = u64_to_string(len as u64);
    out.append(digits.as_str());
    out.append(":");
    out.append(s);
    out
}

/// Renders a value, as `spec_render` describes.
#[verifier::rlimit(60)]
pub fn render_json(v: &JVal) -> (r: String)
    ensures
        r@ == spec_render(*v),
    decreases *v,
{
    match v {
        JVal::Null => {
            proof {
                reveal_strlit("n");
            }
            let r = "n".to_owned();
            assert(r@ =~= spec_render(*v));
            r
        },
        JVal::Bool(b) => {
            proof {
                reveal_strlit("t");
                reveal_strlit("f");
            }
            let r = if *b {
                "t".to_owned()
            } else {
                "f".to_owned()
            };
            assert(r@ =~= spec_render(*v));
            r
        },
        JVal::Num { u: _, i: _, raw } => {
            proof {
                reveal_strlit("d");
                reveal_strlit(":");
            }
            let mut out = "d".to_owned();
            let len = raw.as_str().unicode_len();
            let digits = u64_to_string(len as u64);
            out.append(digits.as_str());
            out.append(":");
            out.append(raw.as_str());
            assert(out@ =~= spec_render(*v));
            out
        },
        JVal::Str(s) => {
            let r = render_str_token(s.as_str());
            assert(r@ =~= spec_render(*v));
            r
        },
        JVal::Arr(a) => {
            proof {
                reveal_strlit("[");
                reveal_strlit("]");
                reveal_strlit(",");
                assert(a@.take(0) =~= Seq::<JVal>::empty());
            }
            let mut out = "[".to_owned();
            let mut i: usize = 0;
            while i < a.len()
                invariant
                    0 <= i <= a@.len(),
                    out@ == seq!['['] + spec_render_list(a@.take(i as int)),
                decreases a@.len() - i,
            {
                let e = render_json(&a[i]);
                out.append(e.as_str());
                out.append(",");
                proof {
                    lemma_render_list_snoc(a@, i as int);
                }
                i += 1;
            }
            proof {
                assert(a@.take(a@.len() as int) =~= a@);
            }
            out.append("]");
            assert(out@ =~= spec_render(*v));
            out
        },
        JVal::Obj(o) => {
            proof {
                reveal_strlit("{");
                reveal_strlit("}");
                reveal_strlit(",");
                reveal_strlit(":");
                assert(o@.take(0) =~= Seq::<(String, JVal)>::empty());
            }
            let mut out = "{".to_owned();
            let mut i: usize = 0;
            while i < o.len()
                invariant
                    0 <= i <= o@.len(),
                    out@ == seq!['{'] + spec_render_entries(o@.take(i as int)),
                decreases o@.len() - i,
            {
                let k = render_str_token(o[i].0.as_str());
                out.append(k.as_str());
                out.append(":");
                let e = render_json(&o[i].1);
                out.append(e.as_str());
                out.append(",");
                proof {
                    lemma_render_entries_snoc(o@, i as int);
                }
                i += 1;
            }
            proof {
                assert(o@.take(o@.len() as int) =~= o@);
            }
            out.append("}");
            assert(out@ =~= spec_render(*v));
            out
        },
    }
}

} // verus!
