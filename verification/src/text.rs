use vstd::prelude::*;
use vstd::string::StringExecFns;
use vstd::utf8::{decode_utf8, encode_utf8};

verus! {

broadcast use vstd::utf8::encode_utf8_decode_utf8;

/// Compares two strings.
pub fn str_eq(a: &str, b: &str) -> (equal: bool)
    ensures
        equal == (a@ == b@),
{
    let equal = crate::ids::bytes_equal(a.as_bytes(), b.as_bytes());
    proof {
        if equal {
            assert(decode_utf8(encode_utf8(a@)) == a@);
            assert(decode_utf8(encode_utf8(b@)) == b@);
        }
    }
    equal
}

/// Calls `String::push`: appends one character.
#[verifier::external_body]
pub(crate) fn push_char(s: &mut String, c: char)
    ensures
        final(s)@ == old(s)@.push(c),
{
    s.push(c);
}

/// Appends a string.
pub fn push_str(s: &mut String, other: &str)
    ensures
        final(s)@ == old(s)@ + other@,
{
    s.append(other);
}

/// A new string with the given contents.
pub fn owned(s: &str) -> (owned: String)
    ensures
        owned@ == s@,
{
    s.to_owned()
}

/// The Unicode `White_Space` property, as `char::is_whitespace` documents it.
pub open spec fn is_whitespace_spec(c: char) -> bool {
    ||| ('\u{9}' <= c && c <= '\u{d}')
    ||| c == ' '
    ||| c == '\u{85}'
    ||| c == '\u{a0}'
    ||| c == '\u{1680}'
    ||| ('\u{2000}' <= c && c <= '\u{200a}')
    ||| c == '\u{2028}'
    ||| c == '\u{2029}'
    ||| c == '\u{202f}'
    ||| c == '\u{205f}'
    ||| c == '\u{3000}'
}

pub fn is_whitespace(c: char) -> (whitespace: bool)
    ensures
        whitespace == is_whitespace_spec(c),
{
    ('\u{9}' <= c && c <= '\u{d}') || c == ' ' || c == '\u{85}' || c == '\u{a0}' || c == '\u{1680}'
        || ('\u{2000}' <= c && c <= '\u{200a}') || c == '\u{2028}' || c == '\u{2029}' || c
        == '\u{202f}' || c == '\u{205f}' || c == '\u{3000}'
}

/// The lowercase mapping of a character under Unicode's case tables.
pub uninterp spec fn lowercase_spec(c: char) -> Seq<char>;

/// Calls `char::to_lowercase` and collects what it yields. Claimed: the
/// characters are the lowercase mapping of `c`, a function of `c` alone,
/// and there is at least one of them (std documents that the mapping
/// yields one or more characters).
#[verifier::external_body]
pub(crate) fn char_to_lowercase(c: char) -> (lower: Vec<char>)
    ensures
        lower@ == lowercase_spec(c),
        lower@.len() >= 1,
{
    c.to_lowercase().collect()
}

/// What replaces a non-whitespace character in a normalized string.
pub open spec fn mapped_char(c: char, lowercase: bool) -> Seq<char> {
    if lowercase {
        lowercase_spec(c)
    } else {
        seq![c]
    }
}

/// Whitespace collapsing, character by character: the output so far and
/// whether a separating space is owed before the next character.
pub open spec fn collapse_state(s: Seq<char>, lowercase: bool) -> (Seq<char>, bool)
    decreases s.len(),
{
    if s.len() == 0 {
        (seq![], false)
    } else {
        let (out, pending) = collapse_state(s.drop_last(), lowercase);
        let c = s.last();
        if is_whitespace_spec(c) {
            (out, pending || out.len() > 0)
        } else {
            let spaced = if pending {
                out.push(' ')
            } else {
                out
            };
            (spaced + mapped_char(c, lowercase), false)
        }
    }
}

/// `s` with leading and trailing whitespace removed and every inner run of
/// whitespace replaced by one space, optionally lowercased.
pub open spec fn collapse_whitespace(s: Seq<char>, lowercase: bool) -> Seq<char> {
    collapse_state(s, lowercase).0
}

/// A string in collapsed form: its only whitespace characters are single
/// spaces, each between two characters that are not whitespace, so it has
/// no leading, trailing or repeated whitespace.
pub open spec fn is_collapsed(t: Seq<char>) -> bool {
    forall|i: int|
        0 <= i < t.len() && is_whitespace_spec(#[trigger] t[i]) ==> t[i] == ' ' && 0 < i < t.len()
            - 1 && !is_whitespace_spec(t[i - 1]) && !is_whitespace_spec(t[i + 1])
}

proof fn lemma_collapse_state_collapsed(s: Seq<char>)
    ensures
        is_collapsed(collapse_state(s, false).0),
        collapse_state(s, false).0.len() > 0 ==> !is_whitespace_spec(
            collapse_state(s, false).0.last(),
        ),
        collapse_state(s, false).1 ==> collapse_state(s, false).0.len() > 0,
    decreases s.len(),
{
    if s.len() > 0 {
        lemma_collapse_state_collapsed(s.drop_last());
        let (out, pending) = collapse_state(s.drop_last(), false);
        let c = s.last();
        if !is_whitespace_spec(c) {
            let spaced = if pending {
                out.push(' ')
            } else {
                out
            };
            let next = spaced + seq![c];
            assert(is_whitespace_spec(' '));
            assert forall|i: int| 0 <= i < next.len() && is_whitespace_spec(#[trigger] next[i]) implies next[i]
                == ' ' && 0 < i < next.len() - 1 && !is_whitespace_spec(next[i - 1])
                && !is_whitespace_spec(next[i + 1]) by {
                if i < out.len() {
                    assert(next[i] == out[i]);
                    if i + 1 < out.len() {
                        assert(next[i + 1] == out[i + 1]);
                    } else {
                        assert(!is_whitespace_spec(out.last()));
                    }
                    if i > 0 {
                        assert(next[i - 1] == out[i - 1]);
                    }
                } else if pending && i == out.len() {
                    assert(next[i - 1] == out.last());
                    assert(next[i + 1] == c);
                }
            }
        }
    }
}

proof fn lemma_collapse_state_of_collapsed(t: Seq<char>, k: int)
    requires
        is_collapsed(t),
        0 <= k <= t.len(),
    ensures
        collapse_state(t.take(k), false) == if k > 0 && is_whitespace_spec(t[k - 1]) {
            (t.take(k - 1), true)
        } else {
            (t.take(k), false)
        },
    decreases k,
{
    if k > 0 {
        lemma_collapse_state_of_collapsed(t, k - 1);
        assert(t.take(k).drop_last() =~= t.take(k - 1));
        assert(t.take(k).last() == t[k - 1]);
        let c = t[k - 1];
        if is_whitespace_spec(c) {
            assert(!is_whitespace_spec(t[k - 2]));
        } else if k > 1 && is_whitespace_spec(t[k - 2]) {
            assert(t[k - 2] == ' ');
            assert(t.take(k - 2).push(' ') =~= t.take(k - 1));
            assert(t.take(k - 1) + seq![c] =~= t.take(k));
        } else {
            assert(t.take(k - 1) + seq![c] =~= t.take(k));
        }
    } else {
        assert(t.take(0) =~= Seq::<char>::empty());
    }
}

/// Collapsing whitespace without lowercasing gives the collapsed form, and
/// collapsing that again changes nothing.
pub proof fn law_collapse_is_idempotent(s: Seq<char>)
    ensures
        is_collapsed(collapse_whitespace(s, false)),
        collapse_whitespace(collapse_whitespace(s, false), false) == collapse_whitespace(s, false),
{
    lemma_collapse_state_collapsed(s);
    let t = collapse_whitespace(s, false);
    lemma_collapse_state_of_collapsed(t, t.len() as int);
    assert(t.take(t.len() as int) =~= t);
    if t.len() > 0 {
        assert(t.last() == t[t.len() - 1]);
    }
}

/// Each character of `s` replaced by its full lowercase mapping.
pub open spec fn lowercase_each(s: Seq<char>) -> Seq<char>
    decreases s.len(),
{
    if s.len() == 0 {
        seq![]
    } else {
        lowercase_each(s.drop_last()) + lowercase_spec(s.last())
    }
}

proof fn lemma_collapse_blank(p: Seq<char>, lowercase: bool)
    requires
        is_blank(p),
    ensures
        collapse_state(p, lowercase) == (Seq::<char>::empty(), false),
    decreases p.len(),
{
    if p.len() > 0 {
        assert(p.last() == p[p.len() - 1]);
        lemma_collapse_blank(p.drop_last(), lowercase);
    }
}

proof fn lemma_collapse_word(p: Seq<char>, w: Seq<char>)
    requires
        is_blank(p),
        forall|i: int| 0 <= i < w.len() ==> !is_whitespace_spec(#[trigger] w[i]),
    ensures
        collapse_state(p + w, true) == (lowercase_each(w), false),
    decreases w.len(),
{
    if w.len() == 0 {
        assert(p + w =~= p);
        lemma_collapse_blank(p, true);
    } else {
        let v = w.drop_last();
        assert forall|i: int| 0 <= i < v.len() implies !is_whitespace_spec(#[trigger] v[i]) by {
            assert(v[i] == w[i]);
        }
        lemma_collapse_word(p, v);
        assert((p + w).drop_last() =~= p + v);
        assert((p + w).last() == w[w.len() - 1]);
        assert(w.last() == w[w.len() - 1]);
    }
}

proof fn lemma_collapse_trailing(x: Seq<char>, q: Seq<char>, out: Seq<char>)
    requires
        is_blank(q),
        collapse_state(x, true).0 == out,
    ensures
        collapse_state(x + q, true).0 == out,
    decreases q.len(),
{
    if q.len() == 0 {
        assert(x + q =~= x);
    } else {
        let r = q.drop_last();
        assert forall|i: int| 0 <= i < r.len() implies is_whitespace_spec(#[trigger] r[i]) by {
            assert(r[i] == q[i]);
        }
        lemma_collapse_trailing(x, r, out);
        assert((x + q).drop_last() =~= x + r);
        assert((x + q).last() == q[q.len() - 1]);
    }
}

/// Lowercasing collapse maps a word, with any whitespace around it, to the
/// word with every character replaced by its full Unicode lowercase
/// mapping; no character is left as it was, ASCII or not.
pub proof fn law_collapse_lowercases_every_character(p: Seq<char>, w: Seq<char>, q: Seq<char>)
    requires
        is_blank(p),
        is_blank(q),
        forall|i: int| 0 <= i < w.len() ==> !is_whitespace_spec(#[trigger] w[i]),
    ensures
        collapse_whitespace(p + w + q, true) == lowercase_each(w),
{
    lemma_collapse_word(p, w);
    lemma_collapse_trailing(p + w, q, lowercase_each(w));
}

/// Collapses whitespace as `collapse_whitespace` describes.
pub fn collapse(value: &str, lowercase: bool) -> (normalized: String)
    ensures
        normalized@ == collapse_whitespace(value@, lowercase),
        normalized@.len() == 0 <==> is_blank(value@),
{
    let mut normalized = String::new();
    let mut pending_space = false;
    for character in it: value.chars()
        invariant
            it.seq() == value@,
            (normalized@, pending_space) == collapse_state(
                value@.take(it.index() as int),
                lowercase,
            ),
            normalized@.len() == 0 <==> is_blank(value@.take(it.index() as int)),
    {
        proof {
            let index = it.index() as int;
            assert(value@.take(index + 1).drop_last() =~= value@.take(index));
            assert(value@.take(index + 1).last() == character);
            assert(value@.take(index + 1)[index] == character);
            assert forall|k: int| 0 <= k < index implies value@.take(index + 1)[k] == #[trigger] value@.take(index)[k] by {}
            if is_whitespace_spec(character) {
                if is_blank(value@.take(index)) {
                    assert forall|k: int| 0 <= k < index + 1 implies is_whitespace_spec(#[trigger] value@.take(index + 1)[k]) by {
                        if k < index {
                            assert(is_whitespace_spec(value@.take(index)[k]));
                        }
                    }
                } else {
                    let k = choose|k: int| 0 <= k < index && !is_whitespace_spec(#[trigger] value@.take(index)[k]);
                    assert(!is_whitespace_spec(value@.take(index + 1)[k]));
                }
            } else {
                assert(!is_whitespace_spec(value@.take(index + 1)[index]));
            }
        }
        if is_whitespace(character) {
            if !normalized.as_str().is_empty() {
                pending_space = true;
            }
        } else {
            if pending_space {
                push_char(&mut normalized, ' ');
                pending_space = false;
            }
            if lowercase {
                let lower = char_to_lowercase(character);
                let ghost before = normalized@;
                let mut k: usize = 0;
                while k < lower.len()
                    invariant
                        k <= lower@.len(),
                        normalized@ == before + lower@.subrange(0, k as int),
                    decreases lower@.len() - k,
                {
                    push_char(&mut normalized, lower[k]);
                    k = k + 1;
                    assert(before + lower@.subrange(0, k as int) =~= (before + lower@.subrange(0, k - 1)).push(lower@[k - 1]));
                }
                assert(lower@.subrange(0, lower@.len() as int) =~= lower@);
            } else {
                push_char(&mut normalized, character);
            }
        }
    }
    proof {
        assert(value@.take(value@.len() as int) =~= value@);
    }
    normalized
}

/// Every character is whitespace: what trimming leaves empty.
pub open spec fn is_blank(s: Seq<char>) -> bool {
    forall|i: int| 0 <= i < s.len() ==> is_whitespace_spec(#[trigger] s[i])
}

/// Whether trimming `value` leaves nothing.
pub fn blank(value: &str) -> (empty: bool)
    ensures
        empty == is_blank(value@),
{
    let mut empty = true;
    for character in it: value.chars()
        invariant
            it.seq() == value@,
            empty == is_blank(value@.take(it.index() as int)),
    {
        proof {
            let index = it.index() as int;
            assert(value@.take(index + 1)[index] == character);
            if !empty {
                let k = choose|k: int|
                    0 <= k < index && !is_whitespace_spec(#[trigger] value@.take(index)[k]);
                assert(value@.take(index + 1)[k] == value@.take(index)[k]);
            }
        }
        if !is_whitespace(character) {
            empty = false;
        }
        proof {
            let index = it.index() as int;
            if empty {
                assert forall|k: int| 0 <= k < index + 1 implies is_whitespace_spec(
                    #[trigger] value@.take(index + 1)[k],
                ) by {
                    if k < index {
                        assert(value@.take(index + 1)[k] == value@.take(index)[k]);
                    }
                }
            }
        }
    }
    proof {
        assert(value@.take(value@.len() as int) =~= value@);
    }
    empty
}

/// The characters of a string.
pub fn chars_of(value: &str) -> (chars: Vec<char>)
    ensures
        chars@ == value@,
{
    let mut chars: Vec<char> = Vec::new();
    for character in it: value.chars()
        invariant
            it.seq() == value@,
            chars@ == value@.take(it.index() as int),
    {
        proof {
            let index = it.index() as int;
            assert(value@.take(index + 1) =~= value@.take(index).push(character));
            assert(value@[index] == character);
        }
        chars.push(character);
    }
    assert(value@.take(value@.len() as int) =~= value@);
    chars
}

/// The string of some characters.
pub fn string_of(chars: &[char]) -> (value: String)
    ensures
        value@ == chars@,
{
    let mut value = String::new();
    let mut i: usize = 0;
    while i < chars.len()
        invariant
            i <= chars@.len(),
            value@ == chars@.take(i as int),
        decreases chars@.len() - i,
    {
        assert(chars@.take(i + 1) =~= chars@.take(i as int).push(chars@[i as int]));
        push_char(&mut value, chars[i]);
        i = i + 1;
    }
    assert(chars@.take(chars@.len() as int) =~= chars@);
    value
}

/// Appends characters to a character vector.
pub fn extend_chars(out: &mut Vec<char>, value: &[char])
    ensures
        final(out)@ == old(out)@ + value@,
{
    let mut i: usize = 0;
    while i < value.len()
        invariant
            i <= value@.len(),
            out@ == old(out)@ + value@.take(i as int),
        decreases value@.len() - i,
    {
        assert(value@.take(i + 1) =~= value@.take(i as int).push(value@[i as int]));
        out.push(value[i]);
        i = i + 1;
        assert(out@ =~= old(out)@ + value@.take(i as int));
    }
    assert(value@.take(value@.len() as int) =~= value@);
}

/// Calls `String::from_utf8`: the bytes become a string exactly when they
/// are valid UTF-8, and the string's bytes are then the input bytes.
#[verifier::external_body]
pub(crate) fn string_from_utf8(bytes: Vec<u8>) -> (result: Option<String>)
    ensures
        result is Some <==> vstd::utf8::valid_utf8(bytes@),
        result matches Some(value) ==> encode_utf8(value@) == bytes@,
{
    String::from_utf8(bytes).ok()
}

/// The decimal digits of a number.
pub open spec fn decimal_spec(n: nat) -> Seq<char>
    decreases n,
{
    if n < 10 {
        seq![(n + 48) as char]
    } else {
        decimal_spec(n / 10).push(((n % 10) + 48) as char)
    }
}

/// Writes a number in decimal.
pub fn decimal(n: u64) -> (text: String)
    ensures
        text@ == decimal_spec(n as nat),
    decreases n,
{
    if n < 10 {
        let mut text = String::new();
        push_char(&mut text, ((n as u8) + 48) as char);
        text
    } else {
        let mut text = decimal(n / 10);
        push_char(&mut text, (((n % 10) as u8) + 48) as char);
        text
    }
}

/// Writes a signed number in decimal.
pub fn signed_decimal(n: i64) -> (text: String)
    ensures
        n >= 0 ==> text@ == decimal_spec(n as nat),
        n < 0 ==> text@ == seq!['-'] + decimal_spec((-n) as nat),
{
    if n >= 0 {
        decimal(n as u64)
    } else {
        let magnitude: u64 = if n == i64::MIN {
            9223372036854775808u64
        } else {
            (-n) as u64
        };
        let mut text = String::new();
        push_char(&mut text, '-');
        let digits = decimal(magnitude);
        push_str(&mut text, digits.as_str());
        text
    }
}

} // verus!
