//! The cookies of a request: the `Cookie` header parsed into a map from names
//! to values in which the first occurrence of a name wins.
//!
//! The header is cut at every `;`. A segment with a `=` gives a cookie: the
//! name is what stands before the first `=`, the value what stands behind it,
//! both trimmed. A segment without `=` gives nothing.

use vstd::prelude::*;
use crate::text::{
    all_whitespace, find_char, first_index_of, lemma_first_index_of,
    lemma_first_index_of_unique, lemma_trim_ignores_padding, string_of, to_chars, trim,
    trim_range,
};

verus! {

/// The cookie that the segment `seg` gives, as name and value.
pub open spec fn segment_pair(seg: Seq<char>) -> Option<(Seq<char>, Seq<char>)> {
    let eq = first_index_of(seg, '=');
    if eq < seg.len() {
        Some((trim(seg.take(eq)), trim(seg.skip(eq + 1))))
    } else {
        None
    }
}

/// The cookies that the segment `seg` gives: one or none.
pub open spec fn segment_pairs(seg: Seq<char>) -> Seq<(Seq<char>, Seq<char>)> {
    match segment_pair(seg) {
        Some(pair) => seq![pair],
        None => Seq::empty(),
    }
}

/// The cookies of a header in the order in which it holds them, a name as
/// often as it occurs.
pub open spec fn cookie_pairs(header: Seq<char>) -> Seq<(Seq<char>, Seq<char>)>
    decreases header.len(),
{
    let end = first_index_of(header, ';');
    if 0 <= end < header.len() {
        segment_pairs(header.take(end)) + cookie_pairs(header.skip(end + 1))
    } else {
        segment_pairs(header)
    }
}

/// The value of the first of `pairs` that has the name `name`.
pub open spec fn first_value(pairs: Seq<(Seq<char>, Seq<char>)>, name: Seq<char>) -> Option<
    Seq<char>,
>
    decreases pairs.len(),
{
    if pairs.len() == 0 {
        None
    } else if pairs.first().0 == name {
        Some(pairs.first().1)
    } else {
        first_value(pairs.drop_first(), name)
    }
}

/// The map that `pairs` stand for: every name that occurs, with the value of
/// its first occurrence.
pub open spec fn pairs_map(pairs: Seq<(Seq<char>, Seq<char>)>) -> Map<Seq<char>, Seq<char>> {
    Map::new(
        |name: Seq<char>| first_value(pairs, name) is Some,
        |name: Seq<char>| first_value(pairs, name)->0,
    )
}

/// The cookies of a header as a map.
pub open spec fn cookie_map(header: Seq<char>) -> Map<Seq<char>, Seq<char>> {
    pairs_map(cookie_pairs(header))
}

/// The value that a header gives the cookie `name`.
pub open spec fn cookie_value(header: Seq<char>, name: Seq<char>) -> Option<Seq<char>> {
    first_value(cookie_pairs(header), name)
}

/// A pair added behind others is found only where none of them has its name.
pub proof fn lemma_first_value_push(
    pairs: Seq<(Seq<char>, Seq<char>)>,
    pair: (Seq<char>, Seq<char>),
    name: Seq<char>,
)
    ensures
        first_value(pairs.push(pair), name) == match first_value(pairs, name) {
            Some(v) => Some(v),
            None => if pair.0 == name {
                Some(pair.1)
            } else {
                None
            },
        },
    decreases pairs.len(),
{
    let rest = pairs.push(pair).drop_first();
    if pairs.len() == 0 {
        assert(rest.len() == 0);
    } else {
        assert(rest =~= pairs.drop_first().push(pair));
        lemma_first_value_push(pairs.drop_first(), pair, name);
    }
}

/// The map of pairs with one more: the pair is added where its name is new
/// and dropped where an earlier pair has it.
pub proof fn lemma_pairs_map_push(pairs: Seq<(Seq<char>, Seq<char>)>, pair: (Seq<char>, Seq<char>))
    ensures
        pairs_map(pairs.push(pair)) == if pairs_map(pairs).contains_key(pair.0) {
            pairs_map(pairs)
        } else {
            pairs_map(pairs).insert(pair.0, pair.1)
        },
{
    let before = pairs_map(pairs);
    let after = pairs_map(pairs.push(pair));
    let expected = if before.contains_key(pair.0) {
        before
    } else {
        before.insert(pair.0, pair.1)
    };
    assert forall|name: Seq<char>| #[trigger]
        after.contains_key(name) == expected.contains_key(name) && (after.contains_key(name)
            ==> after[name] == expected[name]) by {
        lemma_first_value_push(pairs, pair, name);
    }
}

/// A header cut at one of its `;` gives the cookies of the part before it,
/// then those of the part behind it.
pub proof fn lemma_cookie_pairs_split(a: Seq<char>, b: Seq<char>)
    ensures
        cookie_pairs(a + seq![';'] + b) == cookie_pairs(a) + cookie_pairs(b),
    decreases a.len(),
{
    let whole = a + seq![';'] + b;
    let end = first_index_of(a, ';');
    lemma_first_index_of(a, ';');
    if end < a.len() {
        let rest = a.skip(end + 1);
        lemma_first_index_of_unique(whole, ';', end);
        assert(whole.take(end) =~= a.take(end));
        assert(whole.skip(end + 1) =~= rest + seq![';'] + b);
        lemma_cookie_pairs_split(rest, b);
    } else {
        lemma_first_index_of_unique(whole, ';', a.len() as int);
        assert(whole.take(a.len() as int) =~= a);
        assert(whole.skip(a.len() as int + 1) =~= b);
    }
}

/// Whitespace around the name and around the value of a cookie changes
/// nothing: the segment gives the cookie that it gives without it.
pub proof fn lemma_segment_ignores_padding(
    w1: Seq<char>,
    name: Seq<char>,
    w2: Seq<char>,
    w3: Seq<char>,
    value: Seq<char>,
    w4: Seq<char>,
)
    requires
        all_whitespace(w1),
        all_whitespace(w2),
        all_whitespace(w3),
        all_whitespace(w4),
        first_index_of(name, '=') == name.len(),
    ensures
        segment_pair(w1 + name + w2 + seq!['='] + w3 + value + w4) == Some(
            (trim(name), trim(value)),
        ),
        segment_pair(name + seq!['='] + value) == Some((trim(name), trim(value))),
{
    lemma_first_index_of(name, '=');
    let padded_name = w1 + name + w2;
    let padded_value = w3 + value + w4;
    let padded = w1 + name + w2 + seq!['='] + w3 + value + w4;
    lemma_first_index_of_unique(padded, '=', padded_name.len() as int);
    assert(padded.take(padded_name.len() as int) =~= padded_name);
    assert(padded.skip(padded_name.len() as int + 1) =~= padded_value);
    lemma_trim_ignores_padding(w1, name, w2);
    lemma_trim_ignores_padding(w3, value, w4);

    let plain = name + seq!['='] + value;
    lemma_first_index_of_unique(plain, '=', name.len() as int);
    assert(plain.take(name.len() as int) =~= name);
    assert(plain.skip(name.len() as int + 1) =~= value);
}

/// Parsing is insensitive to whitespace around `;` and `=`: a cookie may have
/// whitespace before and behind its name and before and behind its value,
/// and the header gives the same cookies, in the same order, as without that
/// whitespace. The cookie stands anywhere in the header: what stands before
/// it is empty or ends with a `;`, what stands behind it is empty or begins
/// with one.
pub proof fn law_cookies_ignore_whitespace(
    before: Seq<char>,
    w1: Seq<char>,
    name: Seq<char>,
    w2: Seq<char>,
    w3: Seq<char>,
    value: Seq<char>,
    w4: Seq<char>,
    behind: Seq<char>,
)
    requires
        all_whitespace(w1),
        all_whitespace(w2),
        all_whitespace(w3),
        all_whitespace(w4),
        first_index_of(name, '=') == name.len(),
        first_index_of(name, ';') == name.len(),
        first_index_of(value, ';') == value.len(),
        before.len() == 0 || before.last() == ';',
        behind.len() == 0 || behind.first() == ';',
    ensures
        cookie_pairs(before + (w1 + name + w2 + seq!['='] + w3 + value + w4) + behind)
            == cookie_pairs(before + (name + seq!['='] + value) + behind),
{
    let padded = w1 + name + w2 + seq!['='] + w3 + value + w4;
    let plain = name + seq!['='] + value;
    lemma_segment_ignores_padding(w1, name, w2, w3, value, w4);
    lemma_first_index_of(name, ';');
    lemma_first_index_of(value, ';');
    lemma_first_index_of_unique(padded, ';', padded.len() as int);
    lemma_first_index_of_unique(plain, ';', plain.len() as int);
    lemma_cookie_pairs_within(before, padded, behind);
    lemma_cookie_pairs_within(before, plain, behind);
}

/// The cookies of a part of a header that is cut off from what stands before
/// it and behind it: those of what stands before it without the `;` that
/// cuts it off, then its own, then those of what stands behind it without
/// the `;` that cuts it off.
proof fn lemma_cookie_pairs_within(before: Seq<char>, part: Seq<char>, behind: Seq<char>)
    requires
        before.len() == 0 || before.last() == ';',
        behind.len() == 0 || behind.first() == ';',
    ensures
        cookie_pairs(before + part + behind) == (if before.len() == 0 {
            Seq::empty()
        } else {
            cookie_pairs(before.drop_last())
        }) + cookie_pairs(part) + (if behind.len() == 0 {
            Seq::empty()
        } else {
            cookie_pairs(behind.drop_first())
        }),
{
    let front = before + part;
    if before.len() > 0 {
        assert(front =~= before.drop_last() + seq![';'] + part);
        lemma_cookie_pairs_split(before.drop_last(), part);
    } else {
        assert(front =~= part);
    }
    if behind.len() > 0 {
        assert(front + behind =~= front + seq![';'] + behind.drop_first());
        lemma_cookie_pairs_split(front, behind.drop_first());
    } else {
        assert(front + behind =~= front);
    }
}

/// One cookie.
#[derive(Debug)]
pub struct Cookie {
    pub name: String,
    pub value: String,
}

/// The cookies of a request, each name once.
#[derive(Debug)]
pub struct CookieMap {
    entries: Vec<Cookie>,
}

impl View for CookieMap {
    type V = Map<Seq<char>, Seq<char>>;

    closed spec fn view(&self) -> Map<Seq<char>, Seq<char>> {
        pairs_map(self.pairs())
    }
}

impl CookieMap {
    /// The entries as names and values, in the order in which they are held.
    spec fn pairs(&self) -> Seq<(Seq<char>, Seq<char>)> {
        Seq::new(
            self.entries@.len(),
            |i: int| (self.entries@[i].name@, self.entries@[i].value@),
        )
    }

    /// The invariant of the type: no two entries have the same name.
    pub closed spec fn wf(&self) -> bool {
        forall|i: int, j: int|
            0 <= i < j < self.entries@.len() ==> self.entries@[i].name@ != self.entries@[j].name@
    }

    /// The map without any cookie.
    pub fn new() -> (map: CookieMap)
        ensures
            map.wf(),
            map@ == Map::<Seq<char>, Seq<char>>::empty(),
    {
        CookieMap { entries: Vec::new() }
    }

    /// Where the entry of the name `name` stands.
    fn position(&self, name: &String) -> (at: Option<usize>)
        ensures
            match at {
                Some(i) => i < self.entries@.len() && self.entries@[i as int].name@ == name@
                    && first_value(self.pairs(), name@) == Some(self.entries@[i as int].value@),
                None => first_value(self.pairs(), name@) is None,
            },
    {
        let ghost pairs = self.pairs();
        assert(pairs.skip(0) =~= pairs);
        let mut i: usize = 0;
        while i < self.entries.len()
            invariant
                i <= self.entries@.len(),
                pairs == self.pairs(),
                first_value(pairs, name@) == first_value(pairs.skip(i as int), name@),
            decreases self.entries@.len() - i,
        {
            assert(pairs.skip(i as int).drop_first() =~= pairs.skip(i + 1));
            if self.entries[i].name == *name {
                return Some(i);
            }
            i = i + 1;
        }
        None
    }

    /// The value of the cookie `name`, where the map holds one.
    pub fn get(&self, name: &str) -> (value: Option<&String>)
        ensures
            match value {
                Some(v) => self@.contains_key(name@) && self@[name@] == v@,
                None => !self@.contains_key(name@),
            },
    {
        let key = name.to_owned();
        match self.position(&key) {
            Some(i) => Some(&self.entries[i].value),
            None => None,
        }
    }

    /// Adds a cookie unless the map holds one of that name already: the
    /// first occurrence of a name wins.
    pub fn insert_first(&mut self, name: String, value: String)
        requires
            old(self).wf(),
        ensures
            final(self).wf(),
            final(self)@ == if old(self)@.contains_key(name@) {
                old(self)@
            } else {
                old(self)@.insert(name@, value@)
            },
    {
        proof {
            lemma_pairs_map_push(self.pairs(), (name@, value@));
        }
        if self.position(&name).is_none() {
            let ghost before = self.pairs();
            assert forall|i: int| 0 <= i < self.entries@.len() implies self.entries@[i].name@
                != name@ by {
                lemma_first_value_at(before, i);
            }
            self.entries.push(Cookie { name, value });
            assert(self.pairs() =~= before.push((name@, value@)));
        }
    }
}

/// A pair of a sequence is found under its name, itself or an earlier one.
proof fn lemma_first_value_at(pairs: Seq<(Seq<char>, Seq<char>)>, i: int)
    requires
        0 <= i < pairs.len(),
    ensures
        first_value(pairs, pairs[i].0) is Some,
    decreases i,
{
    if i > 0 && pairs.first().0 != pairs[i].0 {
        lemma_first_value_at(pairs.drop_first(), i - 1);
    }
}

/// Parses a `Cookie` header.
pub fn parse_cookies(cookie_header: &str) -> (map: CookieMap)
    ensures
        map.wf(),
        map@ == cookie_map(cookie_header@),
{
    let chars = to_chars(cookie_header);
    let s = chars.as_slice();
    let n = s.len();
    let mut map = CookieMap::new();
    let ghost mut seen: Seq<(Seq<char>, Seq<char>)> = Seq::empty();
    let mut start: usize = 0;
    let mut done = false;
    assert(s@.skip(0) =~= s@);
    while !done
        invariant
            n == s@.len(),
            start <= n,
            map.wf(),
            map@ == pairs_map(seen),
            !done ==> cookie_pairs(s@) == seen + cookie_pairs(s@.skip(start as int)),
            done ==> cookie_pairs(s@) == seen,
        decreases
            (if done {
                0int
            } else {
                n - start + 1
            }),
    {
        let ghost rest = s@.skip(start as int);
        let end = find_char(s, ';', start, n);
        let eq = find_char(s, '=', start, end);
        proof {
            assert(rest.take(end - start) =~= s@.subrange(start as int, end as int));
            lemma_first_index_of(rest, ';');
        }
        let ghost segment = s@.subrange(start as int, end as int);
        let ghost found = segment_pairs(segment);
        if eq < end {
            let (name_from, name_to) = trim_range(s, start, eq);
            let (value_from, value_to) = trim_range(s, eq + 1, end);
            let name = string_of(s, name_from, name_to);
            let value = string_of(s, value_from, value_to);
            proof {
                assert(segment.take(eq - start) =~= s@.subrange(start as int, eq as int));
                assert(segment.skip(eq - start + 1) =~= s@.subrange(eq + 1, end as int));
                lemma_pairs_map_push(seen, (name@, value@));
                assert(seen + found =~= seen.push((name@, value@)));
            }
            map.insert_first(name, value);
        }
        proof {
            if end < n {
                assert(rest.skip(end - start + 1) =~= s@.skip(end + 1));
            }
            seen = seen + found;
        }
        if end < n {
            start = end + 1;
        } else {
            done = true;
        }
    }
    map
}

} // verus!
