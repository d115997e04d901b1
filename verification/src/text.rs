//! Character-level text primitives shared by the rest of the crate.
//!
//! Every string is modelled by its sequence of Unicode scalar values, the
//! view that `vstd` gives `str` and `String`. The executable functions work
//! on a `&[char]` obtained once through [`to_chars`], so that positions are
//! character positions throughout.

use vstd::prelude::*;
use vstd::utf8::{decode_utf8, valid_utf8};

verus! {

/// Whether `c` is whitespace as Unicode defines it (`White_Space`).
pub open spec fn is_whitespace(c: char) -> bool {
    ||| ('\u{0009}' <= c && c <= '\u{000D}')
    ||| c == ' '
    ||| c == '\u{0085}'
    ||| c == '\u{00A0}'
    ||| c == '\u{1680}'
    ||| ('\u{2000}' <= c && c <= '\u{200A}')
    ||| c == '\u{2028}'
    ||| c == '\u{2029}'
    ||| c == '\u{202F}'
    ||| c == '\u{205F}'
    ||| c == '\u{3000}'
}

/// Whether every character of `s` is whitespace.
pub open spec fn all_whitespace(s: Seq<char>) -> bool {
    forall|i: int| 0 <= i < s.len() ==> is_whitespace(#[trigger] s[i])
}

/// `s` without its leading whitespace.
pub open spec fn trim_start(s: Seq<char>) -> Seq<char>
    decreases s.len(),
{
    if s.len() > 0 && is_whitespace(s.first()) {
        trim_start(s.drop_first())
    } else {
        s
    }
}

/// `s` without its trailing whitespace.
pub open spec fn trim_end(s: Seq<char>) -> Seq<char>
    decreases s.len(),
{
    if s.len() > 0 && is_whitespace(s.last()) {
        trim_end(s.drop_last())
    } else {
        s
    }
}

/// `s` without its leading and trailing whitespace.
pub open spec fn trim(s: Seq<char>) -> Seq<char> {
    trim_end(trim_start(s))
}

/// The position of the first `c` in `s`, or `s.len()` where `s` holds none.
pub open spec fn first_index_of(s: Seq<char>, c: char) -> int
    decreases s.len(),
{
    if s.len() == 0 || s.first() == c {
        0
    } else {
        1 + first_index_of(s.drop_first(), c)
    }
}

/// The text that bytes encode in UTF-8; there is none where they are no
/// valid UTF-8.
pub open spec fn decoded_text(bytes: Seq<u8>) -> Option<Seq<char>> {
    if valid_utf8(bytes) {
        Some(decode_utf8(bytes))
    } else {
        None
    }
}

/// Whether `needle` stands in `hay` at position `i`.
pub open spec fn occurs_at(hay: Seq<char>, needle: Seq<char>, i: int) -> bool {
    &&& 0 <= i
    &&& i + needle.len() <= hay.len()
    &&& hay.subrange(i, i + needle.len()) == needle
}

/// Whether `needle` stands somewhere in `hay`.
pub open spec fn contains_text(hay: Seq<char>, needle: Seq<char>) -> bool {
    exists|i: int| occurs_at(hay, needle, i)
}

/// [`first_index_of`] is the least position that holds `c`.
pub proof fn lemma_first_index_of(s: Seq<char>, c: char)
    ensures
        0 <= first_index_of(s, c) <= s.len(),
        first_index_of(s, c) < s.len() ==> s[first_index_of(s, c)] == c,
        forall|j: int| 0 <= j < first_index_of(s, c) ==> #[trigger] s[j] != c,
    decreases s.len(),
{
    if s.len() == 0 || s.first() == c {
    } else {
        let rest = s.drop_first();
        lemma_first_index_of(rest, c);
        assert forall|j: int| 0 <= j < first_index_of(s, c) implies #[trigger] s[j] != c by {
            if j > 0 {
                assert(s[j] == rest[j - 1]);
            }
        }
    }
}

/// A position that holds `c` after a stretch without it is [`first_index_of`].
pub proof fn lemma_first_index_of_unique(s: Seq<char>, c: char, k: int)
    requires
        0 <= k <= s.len(),
        k < s.len() ==> s[k] == c,
        forall|j: int| 0 <= j < k ==> #[trigger] s[j] != c,
    ensures
        first_index_of(s, c) == k,
{
    lemma_first_index_of(s, c);
}

/// Leading whitespace does not change what [`trim_start`] leaves.
pub proof fn lemma_trim_start_skips(w: Seq<char>, s: Seq<char>)
    requires
        all_whitespace(w),
    ensures
        trim_start(w + s) == trim_start(s),
    decreases w.len(),
{
    if w.len() > 0 {
        assert((w + s).drop_first() =~= w.drop_first() + s);
        lemma_trim_start_skips(w.drop_first(), s);
    }
}

/// Trailing whitespace does not change what [`trim_end`] leaves.
pub proof fn lemma_trim_end_skips(s: Seq<char>, w: Seq<char>)
    requires
        all_whitespace(w),
    ensures
        trim_end(s + w) == trim_end(s),
    decreases w.len(),
{
    if w.len() > 0 {
        assert((s + w).drop_last() =~= s + w.drop_last());
        lemma_trim_end_skips(s, w.drop_last());
    }
}

/// What [`trim_start`] leaves of `a + b`: that of `b` where `a` is all
/// whitespace, else that of `a` followed by the whole of `b`.
pub proof fn lemma_trim_start_concat(a: Seq<char>, b: Seq<char>)
    ensures
        all_whitespace(a) ==> trim_start(a + b) == trim_start(b),
        !all_whitespace(a) ==> trim_start(a + b) == trim_start(a) + b,
        all_whitespace(a) ==> trim_start(a) == Seq::<char>::empty(),
    decreases a.len(),
{
    if all_whitespace(a) {
        lemma_trim_start_skips(a, b);
        lemma_trim_start_skips(a, Seq::<char>::empty());
    } else if is_whitespace(a.first()) {
        let rest = a.drop_first();
        assert(!all_whitespace(rest)) by {
            if all_whitespace(rest) {
                assert forall|i: int| 0 <= i < a.len() implies is_whitespace(#[trigger] a[i]) by {
                    if i > 0 {
                        assert(a[i] == rest[i - 1]);
                    }
                }
            }
        }
        lemma_trim_start_concat(rest, b);
        assert((a + b).drop_first() =~= rest + b);
    }
}

/// Whitespace around a text does not change what [`trim`] leaves of it.
pub proof fn lemma_trim_ignores_padding(before: Seq<char>, s: Seq<char>, after: Seq<char>)
    requires
        all_whitespace(before),
        all_whitespace(after),
    ensures
        trim(before + s + after) == trim(s),
{
    assert(before + s + after =~= before + (s + after));
    lemma_trim_start_skips(before, s + after);
    lemma_trim_start_concat(s, after);
    if all_whitespace(s) {
        lemma_trim_start_skips(after, Seq::<char>::empty());
    } else {
        lemma_trim_end_skips(trim_start(s), after);
    }
}

/// [`trim_start`] leaves a suffix that does not begin with whitespace.
pub proof fn lemma_trim_start_shape(s: Seq<char>)
    ensures
        trim_start(s).len() <= s.len(),
        trim_start(s) == s.subrange(s.len() - trim_start(s).len(), s.len() as int),
        trim_start(s).len() > 0 ==> !is_whitespace(trim_start(s).first()),
        all_whitespace(s.subrange(0, s.len() - trim_start(s).len())),
    decreases s.len(),
{
    if s.len() > 0 && is_whitespace(s.first()) {
        let rest = s.drop_first();
        lemma_trim_start_shape(rest);
        let t = trim_start(rest);
        let lead = s.subrange(0, s.len() - t.len());
        assert forall|i: int| 0 <= i < lead.len() implies is_whitespace(#[trigger] lead[i]) by {
            if i > 0 {
                assert(lead[i] == rest.subrange(0, rest.len() - t.len())[i - 1]);
            }
        }
    }
}

/// [`trim_end`] leaves a prefix that does not end with whitespace.
pub proof fn lemma_trim_end_shape(s: Seq<char>)
    ensures
        trim_end(s).len() <= s.len(),
        trim_end(s) == s.subrange(0, trim_end(s).len() as int),
        trim_end(s).len() > 0 ==> !is_whitespace(trim_end(s).last()),
        all_whitespace(s.subrange(trim_end(s).len() as int, s.len() as int)),
    decreases s.len(),
{
    if s.len() > 0 && is_whitespace(s.last()) {
        let rest = s.drop_last();
        lemma_trim_end_shape(rest);
        let t = trim_end(rest);
        let tail = s.subrange(t.len() as int, s.len() as int);
        assert forall|i: int| 0 <= i < tail.len() implies is_whitespace(#[trigger] tail[i]) by {
            if i < tail.len() - 1 {
                assert(tail[i] == rest.subrange(t.len() as int, rest.len() as int)[i]);
            }
        }
    }
}

/// Decides [`is_whitespace`] for one character.
pub fn char_is_whitespace(c: char) -> (r: bool)
    ensures
        r == is_whitespace(c),
{
    ('\u{0009}' <= c && c <= '\u{000D}') || c == ' ' || c == '\u{0085}' || c == '\u{00A0}'
        || c == '\u{1680}' || ('\u{2000}' <= c && c <= '\u{200A}') || c == '\u{2028}'
        || c == '\u{2029}' || c == '\u{202F}' || c == '\u{205F}' || c == '\u{3000}'
}

/// The characters of `s`, in order.
pub fn to_chars(s: &str) -> (v: Vec<char>)
    ensures
        v@ == s@,
{
    let mut v: Vec<char> = Vec::new();
    for c in it: s.chars()
        invariant
            it.seq() == s@,
            v@ == s@.take(it.index()),
    {
        v.push(c);
    }
    v
}

/// Reads bytes as text.
///
/// Trusted: this is `String::from_utf8` of the standard library, which gives
/// the text that the bytes encode where they are valid UTF-8 and else an
/// error that hands the bytes back.
#[verifier::external_body]
pub(crate) fn text_of_bytes(bytes: Vec<u8>) -> (r: Result<String, Vec<u8>>)
    ensures
        match r {
            Ok(text) => decoded_text(bytes@) == Some(text@),
            Err(raw) => decoded_text(bytes@) is None && raw@ == bytes@,
        },
{
    match String::from_utf8(bytes) {
        Ok(text) => Ok(text),
        Err(not_text) => Err(not_text.into_bytes()),
    }
}

/// Appends one character to a string.
///
/// Trusted: this is `String::push` of the standard library, which leaves the
/// string with the character added behind what it held.
#[verifier::external_body]
pub(crate) fn push_char(s: &mut String, c: char)
    ensures
        final(s)@ == old(s)@.push(c),
{
    s.push(c);
}

/// Appends the characters `chars[from..to]` to a string.
pub fn push_chars(s: &mut String, chars: &[char], from: usize, to: usize)
    requires
        from <= to <= chars@.len(),
    ensures
        final(s)@ == old(s)@ + chars@.subrange(from as int, to as int),
{
    let mut i: usize = from;
    while i < to
        invariant
            from <= i <= to <= chars@.len(),
            s@ == old(s)@ + chars@.subrange(from as int, i as int),
        decreases to - i,
    {
        push_char(s, chars[i]);
        i = i + 1;
    }
}

/// The string that holds the characters `chars[from..to]`.
pub fn string_of(chars: &[char], from: usize, to: usize) -> (s: String)
    requires
        from <= to <= chars@.len(),
    ensures
        s@ == chars@.subrange(from as int, to as int),
{
    let mut s = String::new();
    push_chars(&mut s, chars, from, to);
    s
}

/// The bounds of what [`trim`] leaves of `s[from..to]`.
pub fn trim_range(s: &[char], from: usize, to: usize) -> (r: (usize, usize))
    requires
        from <= to <= s@.len(),
    ensures
        from <= r.0 <= r.1 <= to,
        s@.subrange(r.0 as int, r.1 as int) == trim(s@.subrange(from as int, to as int)),
        r.0 == to - trim_start(s@.subrange(from as int, to as int)).len(),
{
    let mut a: usize = from;
    while a < to && char_is_whitespace(s[a])
        invariant
            from <= a <= to <= s@.len(),
            trim_start(s@.subrange(from as int, to as int)) == trim_start(
                s@.subrange(a as int, to as int),
            ),
        decreases to - a,
    {
        assert(s@.subrange(a as int, to as int).drop_first() =~= s@.subrange(
            a as int + 1,
            to as int,
        ));
        a = a + 1;
    }
    let mut b: usize = to;
    while b > a && char_is_whitespace(s[b - 1])
        invariant
            a <= b <= to <= s@.len(),
            trim_end(s@.subrange(a as int, to as int)) == trim_end(s@.subrange(a as int, b as int)),
        decreases b,
    {
        assert(s@.subrange(a as int, b as int).drop_last() =~= s@.subrange(
            a as int,
            b as int - 1,
        ));
        b = b - 1;
    }
    (a, b)
}

/// The position of the first `c` in `s[from..to]`, or `to` where it holds none.
pub fn find_char(s: &[char], c: char, from: usize, to: usize) -> (k: usize)
    requires
        from <= to <= s@.len(),
    ensures
        from <= k <= to,
        k == from + first_index_of(s@.subrange(from as int, to as int), c),
{
    let mut k: usize = from;
    while k < to && s[k] != c
        invariant
            from <= k <= to <= s@.len(),
            forall|j: int| from <= j < k ==> #[trigger] s@[j] != c,
        decreases to - k,
    {
        k = k + 1;
    }
    proof {
        lemma_first_index_of_unique(s@.subrange(from as int, to as int), c, k - from);
    }
    k
}

/// Decides [`occurs_at`].
pub fn text_occurs_at(hay: &[char], needle: &[char], i: usize) -> (r: bool)
    ensures
        r == occurs_at(hay@, needle@, i as int),
{
    if needle.len() > hay.len() || i > hay.len() - needle.len() {
        return false;
    }
    let mut k: usize = 0;
    while k < needle.len()
        invariant
            k <= needle@.len(),
            i + needle@.len() <= hay@.len() <= usize::MAX,
            forall|j: int| 0 <= j < k ==> #[trigger] hay@[i + j] == needle@[j],
        decreases needle@.len() - k,
    {
        if hay[i + k] != needle[k] {
            return false;
        }
        k = k + 1;
    }
    proof {
        let part = hay@.subrange(i as int, i + needle@.len());
        assert forall|j: int| 0 <= j < part.len() implies part[j] == needle@[j] by {
            assert(part[j] == hay@[i + j]);
        }
        assert(part =~= needle@);
    }
    true
}

/// Decides [`contains_text`].
pub fn text_contains(hay: &[char], needle: &[char]) -> (r: bool)
    ensures
        r == contains_text(hay@, needle@),
{
    if needle.len() > hay.len() {
        assert forall|i: int| !occurs_at(hay@, needle@, i) by {}
        return false;
    }
    let last: usize = hay.len() - needle.len();
    let mut i: usize = 0;
    while i < last
        invariant
            last == hay@.len() - needle@.len(),
            i <= last,
            forall|j: int| 0 <= j < i ==> !occurs_at(hay@, needle@, j),
        decreases last - i,
    {
        if text_occurs_at(hay, needle, i) {
            return true;
        }
        i = i + 1;
    }
    if text_occurs_at(hay, needle, last) {
        return true;
    }
    assert forall|j: int| !occurs_at(hay@, needle@, j) by {}
    false
}

} // verus!
