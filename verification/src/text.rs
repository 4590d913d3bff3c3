//! Character-level text operations: white space, trimming, splitting and
//! prefix handling, each with a mathematical definition over `Seq<char>` and an
//! executable counterpart over `&str`.

use vstd::prelude::*;
use vstd::std_specs::iter::IteratorSpec;
use vstd::string::*;
use vstd::utf8::*;

verus! {

/// Whether `c` carries the Unicode property `White_Space`.
pub open spec fn is_whitespace(c: char) -> bool {
    ||| ('\u{9}' <= c && c <= '\u{d}')
    ||| c == ' '
    ||| c == '\u{85}'
    ||| c == '\u{a0}'
    ||| c == '\u{1680}'
    ||| ('\u{2000}' <= c && c <= '\u{200a}')
    ||| c == '\u{2028}'
    ||| c == '\u{2029}'
    ||| c == '\u{202f}'
    ||| c == '\u{205f}'
    ||| c == '\u{3000}'
}

/// `s` without its leading white space.
pub open spec fn trimmed_start(s: Seq<char>) -> Seq<char>
    decreases s.len(),
{
    if s.len() > 0 && is_whitespace(s[0]) {
        trimmed_start(s.drop_first())
    } else {
        s
    }
}

/// `s` without its trailing white space.
pub open spec fn trimmed_end(s: Seq<char>) -> Seq<char>
    decreases s.len(),
{
    if s.len() > 0 && is_whitespace(s.last()) {
        trimmed_end(s.drop_last())
    } else {
        s
    }
}

/// `s` without leading and trailing white space.
pub open spec fn trimmed(s: Seq<char>) -> Seq<char> {
    trimmed_end(trimmed_start(s))
}

/// The length of the longest prefix of `s` that holds no white space.
pub open spec fn word_len(s: Seq<char>) -> int
    decreases s.len(),
{
    if s.len() == 0 || is_whitespace(s[0]) {
        0
    } else {
        1 + word_len(s.drop_first())
    }
}

/// The maximal runs of characters of `s` that are not white space, in order.
pub open spec fn words(s: Seq<char>) -> Seq<Seq<char>>
    decreases s.len(),
{
    if s.len() == 0 {
        Seq::empty()
    } else if is_whitespace(s[0]) {
        words(s.drop_first())
    } else {
        proof {
            lemma_word_len_bounds(s);
        }
        seq![s.take(word_len(s))] + words(s.skip(word_len(s)))
    }
}

/// The index of the first `c` in `s`, or `s.len()` where `s` holds none.
pub open spec fn first_index(s: Seq<char>, c: char) -> int
    decreases s.len(),
{
    if s.len() == 0 || s[0] == c {
        0
    } else {
        1 + first_index(s.drop_first(), c)
    }
}

/// `s` without its leading `prefix`, where it has one; else `s`.
pub open spec fn without_prefix(s: Seq<char>, prefix: Seq<char>) -> Seq<char> {
    if prefix.is_prefix_of(s) {
        s.skip(prefix.len() as int)
    } else {
        s
    }
}

/// The views of a sequence of strings.
pub open spec fn views(v: Seq<String>) -> Seq<Seq<char>> {
    Seq::new(v.len(), |i: int| v[i]@)
}

/// The first word of `s` lies within `s`, holds no white space, ends at
/// white space or at the end of `s`, and is not empty where `s` begins with a
/// character that is not white space.
pub proof fn lemma_word_len_bounds(s: Seq<char>)
    ensures
        0 <= word_len(s) <= s.len(),
        word_len(s) < s.len() ==> is_whitespace(s[word_len(s)]),
        forall|k: int| 0 <= k < word_len(s) ==> !is_whitespace(#[trigger] s[k]),
        s.len() > 0 && !is_whitespace(s[0]) ==> word_len(s) > 0,
    decreases s.len(),
{
    if s.len() == 0 || is_whitespace(s[0]) {
    } else {
        let t = s.drop_first();
        lemma_word_len_bounds(t);
        assert forall|k: int| 0 <= k < word_len(s) implies !is_whitespace(#[trigger] s[k]) by {
            if k > 0 {
                assert(s[k] == t[k - 1]);
            }
        }
        if word_len(s) < s.len() {
            assert(s[word_len(s)] == t[word_len(t)]);
        }
    }
}

/// No word holds white space: every character of every word of `s` is of
/// another kind.
pub proof fn lemma_words_hold_no_whitespace(s: Seq<char>, k: int)
    requires
        0 <= k < words(s).len(),
    ensures
        forall|i: int| 0 <= i < words(s)[k].len() ==> !is_whitespace(#[trigger] words(s)[k][i]),
    decreases s.len(),
{
    let word = words(s)[k];
    if s.len() == 0 {
    } else if is_whitespace(s[0]) {
        assert(words(s) == words(s.drop_first()));
        lemma_words_hold_no_whitespace(s.drop_first(), k);
    } else {
        lemma_word_len_bounds(s);
        let first = s.take(word_len(s));
        let after = s.skip(word_len(s));
        let rest = words(after);
        assert(words(s) == seq![first] + rest);
        if k == 0 {
            assert(word == first);
            assert forall|i: int| 0 <= i < word.len() implies !is_whitespace(
                #[trigger] word[i],
            ) by {
                assert(first[i] == s[i]);
            }
        } else {
            assert(0 <= k - 1 < rest.len());
            assert(word == rest[k - 1]);
            lemma_words_hold_no_whitespace(after, k - 1);
            assert forall|i: int| 0 <= i < word.len() implies !is_whitespace(
                #[trigger] word[i],
            ) by {
                assert(word[i] == words(after)[k - 1][i]);
            }
        }
    }
}

/// The first index of `c` lies within `s` or at its end, holds `c` where it
/// lies within, and has no `c` before it.
pub proof fn lemma_first_index_bounds(s: Seq<char>, c: char)
    ensures
        0 <= first_index(s, c) <= s.len(),
        first_index(s, c) < s.len() ==> s[first_index(s, c)] == c,
        forall|k: int| 0 <= k < first_index(s, c) ==> #[trigger] s[k] != c,
    decreases s.len(),
{
    if s.len() == 0 || s[0] == c {
    } else {
        let t = s.drop_first();
        lemma_first_index_bounds(t, c);
        assert forall|k: int| 0 <= k < first_index(s, c) implies #[trigger] s[k] != c by {
            if k > 0 {
                assert(s[k] == t[k - 1]);
            }
        }
        if first_index(s, c) < s.len() {
            assert(s[first_index(s, c)] == t[first_index(t, c)]);
        }
    }
}

/// Whether `c` is white space.
pub fn is_whitespace_char(c: char) -> (r: bool)
    ensures
        r == is_whitespace(c),
{
    ('\u{9}' <= c && c <= '\u{d}') || c == ' ' || c == '\u{85}' || c == '\u{a0}' || c == '\u{1680}'
        || ('\u{2000}' <= c && c <= '\u{200a}') || c == '\u{2028}' || c == '\u{2029}' || c
        == '\u{202f}' || c == '\u{205f}' || c == '\u{3000}'
}

/// The characters of `s`.
pub fn chars_of(s: &str) -> (v: Vec<char>)
    ensures
        v@ == s@,
{
    broadcast use vstd::string::group_string_axioms;

    let n: usize = s.unicode_len();
    let mut v: Vec<char> = Vec::new();
    let mut it = s.chars();
    let mut i: usize = 0;
    while i < n
        invariant
            n == s@.len(),
            i == v@.len(),
            i <= n,
            v@ + it.remaining() == s@,
        decreases n - i,
    {
        if let Some(c) = it.next() {
            v.push(c);
        }
        i = i + 1;
    }
    assert(it.remaining().len() == 0);
    v
}

/// Whether `a` and `b` hold the same characters.
pub fn str_eq(a: &str, b: &str) -> (r: bool)
    ensures
        r == (a@ == b@),
{
    proof {
        encode_utf8_decode_utf8(a@);
        encode_utf8_decode_utf8(b@);
    }
    let x = a.as_bytes();
    let y = b.as_bytes();
    if x.len() != y.len() {
        return false;
    }
    let n: usize = x.len();
    let mut i: usize = 0;
    while i < n
        invariant
            n == x@.len(),
            n == y@.len(),
            i <= n,
            x@.take(i as int) == y@.take(i as int),
            x@ == encode_utf8(a@),
            y@ == encode_utf8(b@),
            decode_utf8(encode_utf8(a@)) == a@,
            decode_utf8(encode_utf8(b@)) == b@,
        decreases n - i,
    {
        if x[i] != y[i] {
            assert(x@[i as int] != y@[i as int]);
            return false;
        }
        assert(x@.take(i + 1) == x@.take(i as int).push(x@[i as int]));
        assert(y@.take(i + 1) == y@.take(i as int).push(y@[i as int]));
        i = i + 1;
    }
    assert(x@ == x@.take(n as int));
    assert(y@ == y@.take(n as int));
    true
}

/// A prefix of white space that ends at a character of another kind, or at the
/// end of `s`, is what `trimmed_start` removes.
pub proof fn lemma_trimmed_start_is(s: Seq<char>, a: int)
    requires
        0 <= a <= s.len(),
        forall|k: int| 0 <= k < a ==> is_whitespace(#[trigger] s[k]),
        a < s.len() ==> !is_whitespace(s[a]),
    ensures
        trimmed_start(s) == s.skip(a),
    decreases a,
{
    if a == 0 {
        assert(s.skip(0) == s);
    } else {
        let t = s.drop_first();
        assert forall|k: int| 0 <= k < a - 1 implies is_whitespace(#[trigger] t[k]) by {
            assert(t[k] == s[k + 1]);
        }
        lemma_trimmed_start_is(t, a - 1);
        assert(t.skip(a - 1) == s.skip(a));
    }
}

/// A suffix of white space that begins after a character of another kind, or
/// at the start of `s`, is what `trimmed_end` removes.
pub proof fn lemma_trimmed_end_is(s: Seq<char>, b: int)
    requires
        0 <= b <= s.len(),
        forall|k: int| b <= k < s.len() ==> is_whitespace(#[trigger] s[k]),
        b > 0 ==> !is_whitespace(s[b - 1]),
    ensures
        trimmed_end(s) == s.take(b),
    decreases s.len() - b,
{
    if b == s.len() {
        assert(s.take(b) == s);
    } else {
        let t = s.drop_last();
        lemma_trimmed_end_is(t, b);
        assert(t.take(b) == s.take(b));
    }
}

/// A run without white space that ends at white space, or at the end of `s`,
/// is the first word of `s`.
pub proof fn lemma_word_len_is(s: Seq<char>, m: int)
    requires
        0 <= m <= s.len(),
        forall|k: int| 0 <= k < m ==> !is_whitespace(#[trigger] s[k]),
        m < s.len() ==> is_whitespace(s[m]),
    ensures
        word_len(s) == m,
    decreases m,
{
    if m > 0 {
        let t = s.drop_first();
        assert forall|k: int| 0 <= k < m - 1 implies !is_whitespace(#[trigger] t[k]) by {
            assert(t[k] == s[k + 1]);
        }
        lemma_word_len_is(t, m - 1);
    }
}

/// The first position that holds `c`, with none before it, is `first_index`.
pub proof fn lemma_first_index_is(s: Seq<char>, c: char, m: int)
    requires
        0 <= m <= s.len(),
        forall|k: int| 0 <= k < m ==> #[trigger] s[k] != c,
        m < s.len() ==> s[m] == c,
    ensures
        first_index(s, c) == m,
    decreases m,
{
    if m > 0 {
        let t = s.drop_first();
        assert forall|k: int| 0 <= k < m - 1 implies #[trigger] t[k] != c by {
            assert(t[k] == s[k + 1]);
        }
        lemma_first_index_is(t, c, m - 1);
    }
}

/// `s` without leading and trailing white space.
pub fn trim(s: &str) -> (out: String)
    ensures
        out@ == trimmed(s@),
{
    let chars = chars_of(s);
    let n: usize = chars.len();
    let mut a: usize = 0;
    while a < n && is_whitespace_char(chars[a])
        invariant
            n == chars@.len(),
            a <= n,
            forall|k: int| 0 <= k < a ==> is_whitespace(#[trigger] chars@[k]),
        decreases n - a,
    {
        a = a + 1;
    }
    let mut b: usize = n;
    while b > a && is_whitespace_char(chars[b - 1])
        invariant
            n == chars@.len(),
            a <= b <= n,
            forall|k: int| b <= k < n ==> is_whitespace(#[trigger] chars@[k]),
        decreases b,
    {
        b = b - 1;
    }
    proof {
        let rest = s@.skip(a as int);
        lemma_trimmed_start_is(s@, a as int);
        assert forall|k: int| b - a <= k < rest.len() implies is_whitespace(
            #[trigger] rest[k],
        ) by {
            assert(rest[k] == chars@[k + a]);
        }
        if b > a {
            assert(rest[b - a - 1] == chars@[b - 1]);
        }
        lemma_trimmed_end_is(rest, b - a);
        assert(rest.take(b - a) == s@.subrange(a as int, b as int));
    }
    String::from_str(s.substring_char(a, b))
}

/// The words of `s`: its maximal runs of characters that are not white space.
pub fn split_whitespace(s: &str) -> (out: Vec<String>)
    ensures
        views(out@) == words(s@),
{
    let chars = chars_of(s);
    let n: usize = chars.len();
    let mut out: Vec<String> = Vec::new();
    let mut i: usize = 0;
    assert(s@.skip(0) == s@);
    assert(views(out@) + words(s@) == words(s@));
    while i < n
        invariant
            chars@ == s@,
            n == chars@.len(),
            i <= n,
            words(s@) == views(out@) + words(s@.skip(i as int)),
        decreases n - i,
    {
        let ghost rest = s@.skip(i as int);
        if is_whitespace_char(chars[i]) {
            assert(rest.drop_first() == s@.skip(i + 1));
            i = i + 1;
        } else {
            let mut j: usize = i + 1;
            while j < n && !is_whitespace_char(chars[j])
                invariant
                    n == chars@.len(),
                    i < j <= n,
                    forall|k: int| i <= k < j ==> !is_whitespace(#[trigger] chars@[k]),
                decreases n - j,
            {
                j = j + 1;
            }
            let word = String::from_str(s.substring_char(i, j));
            proof {
                assert forall|k: int| 0 <= k < j - i implies !is_whitespace(
                    #[trigger] rest[k],
                ) by {
                    assert(rest[k] == chars@[k + i]);
                }
                lemma_word_len_is(rest, j - i);
                assert(rest.take(j - i) == s@.subrange(i as int, j as int));
                assert(rest.skip(j - i) == s@.skip(j as int));
                assert(views(out@.push(word)) == views(out@).push(word@));
                assert(views(out@).push(word@) + words(s@.skip(j as int)) == views(out@) + (
                seq![word@] + words(s@.skip(j as int))));
            }
            out.push(word);
            i = j;
        }
    }
    assert(views(out@) + Seq::<Seq<char>>::empty() == views(out@));
    out
}

/// The index of the first `c` in `s`, or the number of characters of `s`
/// where it holds none.
pub fn find_char(s: &str, c: char) -> (i: usize)
    ensures
        i == first_index(s@, c),
        i <= s@.len(),
{
    let chars = chars_of(s);
    let n: usize = chars.len();
    let mut i: usize = 0;
    while i < n && chars[i] != c
        invariant
            n == chars@.len(),
            i <= n,
            forall|k: int| 0 <= k < i ==> #[trigger] chars@[k] != c,
        decreases n - i,
    {
        i = i + 1;
    }
    proof {
        lemma_first_index_is(s@, c, i as int);
    }
    i
}

/// Whether `s` begins with `prefix`.
pub fn starts_with(s: &str, prefix: &str) -> (r: bool)
    ensures
        r == prefix@.is_prefix_of(s@),
{
    let chars = chars_of(s);
    let head = chars_of(prefix);
    let n: usize = chars.len();
    let m: usize = head.len();
    if m > n {
        return false;
    }
    let mut k: usize = 0;
    while k < m
        invariant
            chars@ == s@,
            head@ == prefix@,
            n == chars@.len(),
            m == head@.len(),
            k <= m <= n,
            prefix@.take(k as int) == s@.take(k as int),
        decreases m - k,
    {
        if chars[k] != head[k] {
            assert(s@.subrange(0, m as int)[k as int] != prefix@[k as int]);
            return false;
        }
        assert(prefix@.take(k + 1) == prefix@.take(k as int).push(prefix@[k as int]));
        assert(s@.take(k + 1) == s@.take(k as int).push(s@[k as int]));
        k = k + 1;
    }
    assert(prefix@.take(m as int) == prefix@);
    assert(s@.take(m as int) == s@.subrange(0, m as int));
    true
}

/// `s` without its leading `prefix`, where it has one; else `s`. The prefix
/// is removed once: what follows it is kept as it is.
pub fn strip_prefix(s: &str, prefix: &str) -> (out: String)
    ensures
        out@ == without_prefix(s@, prefix@),
{
    if starts_with(s, prefix) {
        let n: usize = s.unicode_len();
        let m: usize = prefix.unicode_len();
        assert(s@.skip(m as int) == s@.subrange(m as int, n as int));
        String::from_str(s.substring_char(m, n))
    } else {
        String::from_str(s)
    }
}

/// Reads `bytes` as UTF-8 text.
///
/// Trusted: this is `std::str::from_utf8`, whose result is taken on faith.
/// The claim is what its documentation says: the call succeeds exactly when
/// `bytes` is well-formed UTF-8, and the text it gives is made of those same
/// bytes.
#[verifier::external_body]
pub(crate) fn str_from_utf8(bytes: &[u8]) -> (text: Option<&str>)
    ensures
        match text {
            Some(t) => valid_utf8(bytes@) && t.spec_bytes() == bytes@,
            None => !valid_utf8(bytes@),
        },
{
    std::str::from_utf8(bytes).ok()
}

/// The text that `bytes` encodes in UTF-8, or `None` where `bytes` is not
/// well-formed UTF-8.
pub fn decode_text(bytes: &[u8]) -> (text: Option<String>)
    ensures
        match text {
            Some(t) => valid_utf8(bytes@) && t@ == decode_utf8(bytes@),
            None => !valid_utf8(bytes@),
        },
{
    match str_from_utf8(bytes) {
        Some(t) => {
            proof {
                encode_utf8_decode_utf8(t@);
            }
            Some(String::from_str(t))
        },
        None => None,
    }
}

} // verus!
