use vstd::prelude::*;
use vstd::string::StrSliceExecFns;
use vstd::string::StringExecFns;
use vstd::string::StringSliceAdditionalSpecFns;

verus! {

/// Saturating addition on `u64`: sums of token counters and message tallies
/// clamp at the maximum instead of wrapping.
pub open spec fn sat_add(a: u64, b: u64) -> u64 {
    if a + b > u64::MAX {
        u64::MAX
    } else {
        (a + b) as u64
    }
}

/// Executable counterpart of `sat_add`.
pub fn sat_add_u64(a: u64, b: u64) -> (r: u64)
    ensures
        r == sat_add(a, b),
{
    if a <= u64::MAX - b {
        a + b
    } else {
        u64::MAX
    }
}

/// The character for one decimal digit.
pub open spec fn digit_char(d: nat) -> char {
    ((48 + d) as u8) as char
}

/// The decimal rendering of a number, most significant digit first.
pub open spec fn spec_digits(n: nat) -> Seq<char>
    decreases n,
{
    if n < 10 {
        seq![digit_char(n)]
    } else {
        spec_digits(n / 10) + seq![digit_char(n % 10)]
    }
}

/// One decimal digit as a string.
fn digit_str(d: u64) -> (r: String)
    requires
        d < 10,
    ensures
        r@ == seq![digit_char(d as nat)],
{
    let s: &str = match d {
        0 => "0",
        1 => "1",
        2 => "2",
        3 => "3",
        4 => "4",
        5 => "5",
        6 => "6",
        7 => "7",
        8 => "8",
        _ => "9",
    };
    proof {
        reveal_strlit("0");
        reveal_strlit("1");
        reveal_strlit("2");
        reveal_strlit("3");
        reveal_strlit("4");
        reveal_strlit("5");
        reveal_strlit("6");
        reveal_strlit("7");
        reveal_strlit("8");
        reveal_strlit("9");
        assert(s@ =~= seq![digit_char(d as nat)]);
    }
    s.to_owned()
}

/// Renders a number in decimal, as `spec_digits` describes.
pub fn u64_to_string(n: u64) -> (r: String)
    ensures
        r@ == spec_digits(n as nat),
    decreases n,
{
    if n < 10 {
        digit_str(n)
    } else {
        let mut s = u64_to_string(n / 10);
        let d = digit_str(n % 10);
        s.append(d.as_str());
        s
    }
}

/// Strict lexicographic order on character sequences, by code point.
pub open spec fn chars_lt(a: Seq<char>, b: Seq<char>) -> bool
    decreases a.len(),
{
    if b.len() == 0 {
        false
    } else if a.len() == 0 {
        true
    } else if (a[0] as u32) < (b[0] as u32) {
        true
    } else if (a[0] as u32) > (b[0] as u32) {
        false
    } else {
        chars_lt(a.drop_first(), b.drop_first())
    }
}

/// The order is trichotomous: of two sequences, either one is strictly
/// below the other or they are equal.
pub proof fn lemma_chars_lt_trichotomy(a: Seq<char>, b: Seq<char>)
    ensures
        chars_lt(a, b) || chars_lt(b, a) || a == b,
        chars_lt(a, b) ==> !chars_lt(b, a) && a != b,
    decreases a.len(),
{
    if a.len() == 0 || b.len() == 0 {
        if a.len() == 0 && b.len() == 0 {
            assert(a =~= b);
        }
    } else {
        lemma_chars_lt_trichotomy(a.drop_first(), b.drop_first());
        if (a[0] as u32) == (b[0] as u32) {
            vstd::utf8::char_u32_cast(a[0], a[0] as u32);
            vstd::utf8::char_u32_cast(b[0], b[0] as u32);
            if a.drop_first() == b.drop_first() {
                assert forall|i: int| 1 <= i < a.len() implies a[i] == b[i] by {
                    assert(a[i] == a.drop_first()[i - 1]);
                    assert(b[i] == b.drop_first()[i - 1]);
                }
                assert(a =~= b);
            }
        }
    }
}

/// The order is transitive.
pub proof fn lemma_chars_lt_transitive(a: Seq<char>, b: Seq<char>, c: Seq<char>)
    requires
        chars_lt(a, b),
        chars_lt(b, c),
    ensures
        chars_lt(a, c),
    decreases a.len(),
{
    if a.len() == 0 || b.len() == 0 || c.len() == 0 {
    } else {
        if (a[0] as u32) == (b[0] as u32) && (b[0] as u32) == (c[0] as u32) {
            lemma_chars_lt_transitive(a.drop_first(), b.drop_first(), c.drop_first());
        }
    }
}

/// Compares two strings in the order `chars_lt` describes.
pub fn str_lt(a: &str, b: &str) -> (r: bool)
    ensures
        r == chars_lt(a@, b@),
{
    let alen = a.unicode_len();
    let blen = b.unicode_len();
    proof {
        assert(a@.skip(0) =~= a@);
        assert(b@.skip(0) =~= b@);
    }
    let mut i: usize = 0;
    loop
        invariant
            0 <= i <= alen,
            i <= blen,
            alen == a@.len(),
            blen == b@.len(),
            chars_lt(a@, b@) == chars_lt(a@.skip(i as int), b@.skip(i as int)),
        decreases alen - i,
    {
        if i >= blen {
            return false;
        }
        if i >= alen {
            return true;
        }
        let ca = a.get_char(i) as u32;
        let cb = b.get_char(i) as u32;
        proof {
            assert(a@.skip(i as int)[0] == a@[i as int]);
            assert(b@.skip(i as int)[0] == b@[i as int]);
            assert(a@.skip(i as int).drop_first() =~= a@.skip(i + 1));
            assert(b@.skip(i as int).drop_first() =~= b@.skip(i + 1));
        }
        if ca < cb {
            return true;
        }
        if ca > cb {
            return false;
        }
        i += 1;
    }
}

/// Whether two string slices hold the same characters. Equal byte encodings
/// mean equal character sequences, since UTF-8 decoding undoes encoding.
pub fn str_eq(a: &str, b: &str) -> (r: bool)
    ensures
        r == (a@ == b@),
{
    let ab = a.as_bytes();
    let bb = b.as_bytes();
    if ab.len() != bb.len() {
        return false;
    }
    let mut i: usize = 0;
    while i < ab.len()
        invariant
            0 <= i <= ab@.len(),
            ab@.len() == bb@.len(),
            ab@ == a.spec_bytes(),
            bb@ == b.spec_bytes(),
            forall|j: int| 0 <= j < i ==> ab@[j] == bb@[j],
        decreases ab@.len() - i,
    {
        if ab[i] != bb[i] {
            return false;
        }
        i += 1;
    }
    proof {
        assert(a.spec_bytes() =~= b.spec_bytes());
        vstd::utf8::encode_utf8_decode_utf8(a@);
        vstd::utf8::encode_utf8_decode_utf8(b@);
    }
    true
}

/// Whether a vector of strings holds one with the given characters.
pub fn seq_contains_str(v: &Vec<String>, s: &str) -> (r: bool)
    ensures
        r == v.deep_view().contains(s@),
{
    let mut i: usize = 0;
    while i < v.len()
        invariant
            0 <= i <= v@.len(),
            forall|j: int| 0 <= j < i ==> v.deep_view()[j] != s@,
        decreases v@.len() - i,
    {
        if str_eq(v[i].as_str(), s) {
            assert(v.deep_view()[i as int] == s@);
            return true;
        }
        i += 1;
    }
    false
}

/// Copies a vector of strings.
pub fn clone_strings(v: &Vec<String>) -> (r: Vec<String>)
    ensures
        r@ == v@,
{
    let mut r: Vec<String> = Vec::new();
    let mut i: usize = 0;
    while i < v.len()
        invariant
            0 <= i <= v@.len(),
            r@ == v@.take(i as int),
        decreases v@.len() - i,
    {
        r.push(v[i].clone());
        proof {
            assert(r@ =~= v@.take(i + 1));
        }
        i += 1;
    }
    proof {
        assert(v@.take(v@.len() as int) =~= v@);
    }
    r
}

/// A character's code point, folded to lower case where it is an ASCII
/// capital.
pub open spec fn ascii_lower(c: char) -> int {
    if 65 <= c as u32 <= 90 {
        c as u32 + 32
    } else {
        c as u32 as int
    }
}

/// Whether a file extension names a session log: the five letters of
/// the newline-delimited record format, in any casing.
pub open spec fn spec_is_jsonl_ext(s: Seq<char>) -> bool {
    s.len() == 5 && ascii_lower(s[0]) == 'j' as u32 && ascii_lower(s[1]) == 's' as u32
        && ascii_lower(s[2]) == 'o' as u32 && ascii_lower(s[3]) == 'n' as u32 && ascii_lower(
        s[4],
    ) == 'l' as u32
}

/// Tests a file extension, as `spec_is_jsonl_ext` describes.
pub fn is_jsonl_ext(ext: &str) -> (r: bool)
    ensures
        r == spec_is_jsonl_ext(ext@),
{
    let n = ext.unicode_len();
    if n != 5 {
        return false;
    }
    lower_is(ext.get_char(0), 'j') && lower_is(ext.get_char(1), 's') && lower_is(
        ext.get_char(2),
        'o',
    ) && lower_is(ext.get_char(3), 'n') && lower_is(ext.get_char(4), 'l')
}

/// Whether a character, folded, is the given lower-case letter.
fn lower_is(c: char, l: char) -> (r: bool)
    ensures
        r == (ascii_lower(c) == l as u32),
{
    let cu = c as u32;
    let lu = l as u32;
    let folded: u32 = if 65 <= cu && cu <= 90 {
        cu + 32
    } else {
        cu
    };
    folded == lu
}

/// Pairwise-distinct character sequences.
pub open spec fn distinct_seqs(s: Seq<Seq<char>>) -> bool {
    forall|i: int, j: int| 0 <= i < j < s.len() ==> s[i] != s[j]
}

/// Strictly ascending in the order `chars_lt` describes.
pub open spec fn strictly_sorted(s: Seq<Seq<char>>) -> bool {
    forall|i: int, j: int| 0 <= i < j < s.len() ==> chars_lt(s[i], s[j])
}

/// Two listings with the same members.
pub open spec fn same_elems(a: Seq<Seq<char>>, b: Seq<Seq<char>>) -> bool {
    forall|x: Seq<char>| a.contains(x) <==> b.contains(x)
}

/// Inserting splits membership into the old members and the new one.
pub proof fn lemma_insert_contains(s: Seq<Seq<char>>, p: int, x: Seq<char>)
    requires
        0 <= p <= s.len(),
    ensures
        forall|y: Seq<char>| s.insert(p, x).contains(y) <==> s.contains(y) || y == x,
{
    let t = s.insert(p, x);
    assert forall|y: Seq<char>| t.contains(y) implies s.contains(y) || y == x by {
        let j = choose|j: int| 0 <= j < t.len() && t[j] == y;
        if j < p {
            assert(s[j] == y);
        } else if j > p {
            assert(s[j - 1] == y);
        }
    }
    assert forall|y: Seq<char>| s.contains(y) || y == x implies t.contains(y) by {
        if s.contains(y) {
            let j = choose|j: int| 0 <= j < s.len() && s[j] == y;
            if j < p {
                assert(t[j] == y);
            } else {
                assert(t[j + 1] == y);
            }
        } else {
            assert(t[p] == y);
        }
    }
}

/// Two strictly sorted listings with the same members are one listing.
pub proof fn lemma_sorted_unique(a: Seq<Seq<char>>, b: Seq<Seq<char>>)
    requires
        strictly_sorted(a),
        strictly_sorted(b),
        same_elems(a, b),
    ensures
        a == b,
    decreases a.len(),
{
    if a.len() == 0 {
        if b.len() > 0 {
            assert(b.contains(b[0]));
        }
        assert(a =~= b);
    } else if b.len() == 0 {
        assert(a.contains(a[0]));
    } else {
        assert(a.contains(a[0]));
        assert(b.contains(b[0]));
        let ia = choose|i: int| 0 <= i < b.len() && b[i] == a[0];
        let ib = choose|i: int| 0 <= i < a.len() && a[i] == b[0];
        lemma_chars_lt_trichotomy(a[0], b[0]);
        if chars_lt(a[0], b[0]) {
            assert(chars_lt(b[0], b[ia]) || b[0] == a[0]);
            lemma_chars_lt_transitive(a[0], b[0], b[ia]);
            assert(false);
        } else if chars_lt(b[0], a[0]) {
            assert(chars_lt(a[0], a[ib]) || a[0] == b[0]);
            lemma_chars_lt_transitive(b[0], a[0], a[ib]);
            assert(false);
        }
        assert(a[0] == b[0]);
        assert forall|x: Seq<char>| a.drop_first().contains(x) implies b.drop_first().contains(
            x,
        ) by {
            let j = choose|j: int| 0 <= j < a.drop_first().len() && a.drop_first()[j] == x;
            assert(a[j + 1] == x);
            assert(chars_lt(a[0], x));
            assert(b.contains(x));
            let k = choose|k: int| 0 <= k < b.len() && b[k] == x;
            if k == 0 {
                lemma_chars_lt_trichotomy(a[0], x);
                assert(false);
            }
            assert(b.drop_first()[k - 1] == x);
        }
        assert forall|x: Seq<char>| b.drop_first().contains(x) implies a.drop_first().contains(
            x,
        ) by {
            let j = choose|j: int| 0 <= j < b.drop_first().len() && b.drop_first()[j] == x;
            assert(b[j + 1] == x);
            assert(chars_lt(b[0], x));
            assert(a.contains(x));
            let k = choose|k: int| 0 <= k < a.len() && a[k] == x;
            if k == 0 {
                lemma_chars_lt_trichotomy(b[0], x);
                assert(false);
            }
            assert(a.drop_first()[k - 1] == x);
        }
        assert(strictly_sorted(a.drop_first())) by {
            assert(forall|i: int, j: int|
                0 <= i < j < a.drop_first().len() ==> a.drop_first()[i] == a[i + 1]
                    && a.drop_first()[j] == a[j + 1]);
        }
        assert(strictly_sorted(b.drop_first())) by {
            assert(forall|i: int, j: int|
                0 <= i < j < b.drop_first().len() ==> b.drop_first()[i] == b[i + 1]
                    && b.drop_first()[j] == b[j + 1]);
        }
        lemma_sorted_unique(a.drop_first(), b.drop_first());
        assert forall|i: int| 0 <= i < a.len() implies a[i] == b[i] by {
            if i > 0 {
                assert(a[i] == a.drop_first()[i - 1]);
                assert(b[i] == b.drop_first()[i - 1]);
            }
        }
        assert(a =~= b);
    }
}

/// Sorts pairwise-distinct strings into strictly ascending order, keeping
/// exactly the members of the input.
pub fn sort_strings(v: Vec<String>) -> (r: Vec<String>)
    requires
        distinct_seqs(v.deep_view()),
    ensures
        strictly_sorted(r.deep_view()),
        same_elems(r.deep_view(), v.deep_view()),
        distinct_seqs(r.deep_view()),
        r.deep_view().len() == v.deep_view().len(),
{
    let mut src = v;
    let mut out: Vec<String> = Vec::new();
    proof {
        assert(src.deep_view().skip(0) =~= src.deep_view());
    }
    let ghost orig = src.deep_view();
    let mut i: usize = 0;
    while i < src.len()
        invariant
            0 <= i <= src@.len(),
            src.deep_view() == orig,
            distinct_seqs(orig),
            strictly_sorted(out.deep_view()),
            distinct_seqs(out.deep_view()),
            out.deep_view().len() == i,
            same_elems(out.deep_view(), orig.take(i as int)),
        decreases src@.len() - i,
    {
        let x = src[i].clone();
        proof {
            assert(orig[i as int] == x@);
            assert(orig.take(i as int + 1).contains(x@)) by {
                assert(orig.take(i as int + 1)[i as int] == x@);
            }
            assert(!out.deep_view().contains(x@)) by {
                if out.deep_view().contains(x@) {
                    assert(orig.take(i as int).contains(x@));
                    let j = choose|j: int|
                        0 <= j < orig.take(i as int).len() && orig.take(i as int)[j] == x@;
                    assert(orig[j] == orig[i as int]);
                }
            }
        }
        let mut p: usize = 0;
        while p < out.len()
            invariant
                0 <= p <= out.deep_view().len(),
                forall|k: int| 0 <= k < p ==> chars_lt(out.deep_view()[k], x@),
            decreases out.deep_view().len() - p,
        {
            if !str_lt(out[p].as_str(), x.as_str()) {
                break;
            }
            p += 1;
        }
        proof {
            if p < out.deep_view().len() {
                lemma_chars_lt_trichotomy(out.deep_view()[p as int], x@);
                assert(chars_lt(x@, out.deep_view()[p as int]));
            }
        }
        let ghost prev = out.deep_view();
        out.insert(p, x);
        proof {
            assert(out.deep_view() =~= prev.insert(p as int, x@));
            lemma_insert_contains(prev, p as int, x@);
            assert forall|y: Seq<char>|
                out.deep_view().contains(y) <==> prev.contains(y) || y == x@ by {
                assert(out.deep_view().contains(y) == prev.insert(p as int, x@).contains(y));
            }
            assert(strictly_sorted(out.deep_view())) by {
                assert forall|a: int, b: int|
                    0 <= a < b < out.deep_view().len() implies chars_lt(
                    out.deep_view()[a],
                    out.deep_view()[b],
                ) by {
                    let dv = out.deep_view();
                    if a < p && b < p {
                    } else if a == p as int {
                        assert(dv[b] == prev[b - 1]);
                        if b - 1 > p as int - 1 {
                            if p < prev.len() {
                                if b - 1 == p as int {
                                    assert(chars_lt(x@, prev[p as int]));
                                } else {
                                    lemma_chars_lt_transitive(x@, prev[p as int], prev[b - 1]);
                                }
                            }
                        }
                    } else if b == p as int {
                        assert(dv[a] == prev[a]);
                        assert(chars_lt(prev[a], x@));
                    } else if a < p as int && b > p as int {
                        assert(dv[a] == prev[a]);
                        assert(dv[b] == prev[b - 1]);
                        assert(chars_lt(prev[a], x@));
                        if b - 1 == p as int {
                            assert(p < prev.len());
                            assert(chars_lt(x@, prev[p as int]));
                            lemma_chars_lt_transitive(prev[a], x@, prev[p as int]);
                        } else {
                            assert(chars_lt(prev[a], prev[b - 1]));
                        }
                    } else {
                        assert(dv[a] == prev[a - 1]);
                        assert(dv[b] == prev[b - 1]);
                    }
                }
            }
            assert(distinct_seqs(out.deep_view())) by {
                assert forall|a: int, b: int|
                    0 <= a < b < out.deep_view().len() implies out.deep_view()[a]
                    != out.deep_view()[b] by {
                    assert(chars_lt(out.deep_view()[a], out.deep_view()[b]));
                    lemma_chars_lt_trichotomy(out.deep_view()[a], out.deep_view()[b]);
                }
            }
            assert forall|y: Seq<char>|
                out.deep_view().contains(y) <==> orig.take(i + 1).contains(y) by {
                assert(out.deep_view().contains(y) == prev.insert(p as int, x@).contains(y));
                assert(prev.contains(y) <==> orig.take(i as int).contains(y));
                if orig.take(i + 1).contains(y) {
                    let j = choose|j: int|
                        0 <= j < orig.take(i + 1).len() && #[trigger] orig.take(i + 1)[j] == y;
                    if j < i {
                        assert(orig.take(i as int)[j] == y);
                        assert(orig.take(i as int).contains(y));
                    } else {
                        assert(y == x@);
                    }
                }
                if prev.contains(y) {
                    let j = choose|j: int|
                        0 <= j < orig.take(i as int).len() && #[trigger] orig.take(i as int)[j]
                            == y;
                    assert(orig.take(i + 1)[j] == y);
                    assert(orig.take(i + 1).contains(y));
                }
                if y == x@ {
                    assert(orig.take(i + 1)[i as int] == y);
                    assert(orig.take(i + 1).contains(y));
                }
            }
            assert(same_elems(out.deep_view(), orig.take(i + 1)));
        }
        i += 1;
    }
    proof {
        assert(orig.take(orig.len() as int) =~= orig);
    }
    out
}

} // verus!
