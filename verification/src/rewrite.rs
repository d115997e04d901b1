//! The content rewriter: finds every ticket parameter of a launch descriptor
//! and appends the signed token and the session credential to its value.
//!
//! A ticket parameter is the text
//!
//! ```text
//! <param WS name="http_ticket" WS value="VALUE"
//! ```
//!
//! or, with the two attributes in the other order,
//!
//! ```text
//! <param WS value="VALUE" WS name="http_ticket"
//! ```
//!
//! where `WS` is one or more whitespace characters and `VALUE` is one or more
//! characters other than `"`. Nothing is asked of what follows. The rewrite
//! inserts its addition between `VALUE` and the `"` that closes it and copies
//! everything else.

use vstd::prelude::*;
use crate::credential::{embed_credential, embedded_credential};
use crate::text::{
    char_is_whitespace, contains_text, find_char, first_index_of, is_whitespace,
    lemma_first_index_of, lemma_first_index_of_unique, occurs_at, push_char, push_chars,
    text_occurs_at, to_chars,
};

verus! {

/// The opening of a parameter element.
pub open spec fn open_tag() -> Seq<char> {
    "<param"@
}

/// The attribute that names the ticket parameter.
pub open spec fn name_attribute() -> Seq<char> {
    "name=\"http_ticket\""@
}

/// The opening of the value attribute, up to and including its quote.
pub open spec fn value_opening() -> Seq<char> {
    "value=\""@
}

/// The name of the ticket parameter, which every ticket parameter holds.
pub open spec fn ticket_marker() -> Seq<char> {
    "http_ticket"@
}

/// What separates the parts of a rewritten value.
pub open spec fn separator() -> Seq<char> {
    "++"@
}

/// The first position at or after `i` that holds no whitespace, or `s.len()`.
pub open spec fn whitespace_end(s: Seq<char>, i: int) -> int
    decreases s.len() - i,
{
    if 0 <= i < s.len() && is_whitespace(s[i]) {
        whitespace_end(s, i + 1)
    } else {
        i
    }
}

/// The first position at or after `i` that holds a `"`, or `s.len()`.
pub open spec fn closing_quote(s: Seq<char>, i: int) -> int {
    i + first_index_of(s.skip(i), '"')
}

/// Where the value of a ticket parameter lies: `value_start` is the position
/// after the opening quote, `value_end` that of the closing quote.
pub struct TicketValue {
    pub value_start: int,
    pub value_end: int,
}

/// The ticket parameter that starts at `i` with the name before the value.
pub open spec fn name_first_at(s: Seq<char>, i: int) -> Option<TicketValue> {
    let a = i + open_tag().len();
    let b = whitespace_end(s, a);
    let c = b + name_attribute().len();
    let d = whitespace_end(s, c);
    let v = d + value_opening().len();
    let e = closing_quote(s, v);
    if occurs_at(s, open_tag(), i) && a < b && occurs_at(s, name_attribute(), b) && c < d
        && occurs_at(s, value_opening(), d) && v < e && e < s.len() {
        Some(TicketValue { value_start: v, value_end: e })
    } else {
        None
    }
}

/// The ticket parameter that starts at `i` with the value before the name.
pub open spec fn value_first_at(s: Seq<char>, i: int) -> Option<TicketValue> {
    let a = i + open_tag().len();
    let b = whitespace_end(s, a);
    let v = b + value_opening().len();
    let e = closing_quote(s, v);
    let f = e + 1;
    let g = whitespace_end(s, f);
    if occurs_at(s, open_tag(), i) && a < b && occurs_at(s, value_opening(), b) && v < e && e
        < s.len() && f < g && occurs_at(s, name_attribute(), g) {
        Some(TicketValue { value_start: v, value_end: e })
    } else {
        None
    }
}

/// The ticket parameter that starts at `i`, in either order of its attributes.
pub open spec fn ticket_at(s: Seq<char>, i: int) -> Option<TicketValue> {
    match name_first_at(s, i) {
        Some(t) => Some(t),
        None => value_first_at(s, i),
    }
}

/// What is appended to a ticket value: the token and the credential, each
/// behind a separator.
pub open spec fn addition(token: Seq<char>, credential: Seq<char>) -> Seq<char> {
    separator() + token + separator() + credential
}

/// The rewriting of `s[i..]`: scanning from `i`, each ticket parameter met
/// gets `insert` before the quote that closes its value and the scan goes on
/// behind that quote; every other character is copied.
pub open spec fn rewrite_from(s: Seq<char>, i: int, insert: Seq<char>) -> Seq<char>
    decreases s.len() - i,
{
    if i < 0 || i >= s.len() {
        Seq::empty()
    } else {
        match ticket_at(s, i) {
            Some(t) if i < t.value_end => s.subrange(i, t.value_end) + insert + seq![
                s[t.value_end],
            ] + rewrite_from(s, t.value_end + 1, insert),
            _ => seq![s[i]] + rewrite_from(s, i + 1, insert),
        }
    }
}

/// The rewriting of a whole body.
pub open spec fn rewrite(s: Seq<char>, insert: Seq<char>) -> Seq<char> {
    rewrite_from(s, 0, insert)
}

/// A run of whitespace ends where [`whitespace_end`] says.
pub proof fn lemma_whitespace_end(s: Seq<char>, i: int)
    requires
        0 <= i <= s.len(),
    ensures
        i <= whitespace_end(s, i) <= s.len(),
        forall|k: int| i <= k < whitespace_end(s, i) ==> is_whitespace(#[trigger] s[k]),
        whitespace_end(s, i) < s.len() ==> !is_whitespace(s[whitespace_end(s, i)]),
    decreases s.len() - i,
{
    if i < s.len() && is_whitespace(s[i]) {
        lemma_whitespace_end(s, i + 1);
    }
}

/// A value ends where [`closing_quote`] says: at the next `"`.
pub proof fn lemma_closing_quote(s: Seq<char>, i: int)
    requires
        0 <= i <= s.len(),
    ensures
        i <= closing_quote(s, i) <= s.len(),
        forall|k: int| i <= k < closing_quote(s, i) ==> #[trigger] s[k] != '"',
        closing_quote(s, i) < s.len() ==> s[closing_quote(s, i)] == '"',
{
    let rest = s.skip(i);
    lemma_first_index_of(rest, '"');
    assert forall|k: int| i <= k < closing_quote(s, i) implies #[trigger] s[k] != '"' by {
        assert(s[k] == rest[k - i]);
    }
}

/// The shape of a ticket parameter: it opens with `<`, its value is not
/// empty, holds no `"` and is closed by one, and it holds the ticket marker.
pub proof fn lemma_ticket_shape(s: Seq<char>, i: int)
    requires
        ticket_at(s, i) is Some,
    ensures
        0 <= i < ticket_at(s, i)->0.value_start < ticket_at(s, i)->0.value_end < s.len(),
        s[i] == '<',
        s[ticket_at(s, i)->0.value_end] == '"',
        forall|k: int|
            ticket_at(s, i)->0.value_start <= k < ticket_at(s, i)->0.value_end ==> #[trigger] s[k]
                != '"',
        contains_text(s, ticket_marker()),
{
    reveal_strlit("<param");
    reveal_strlit("name=\"http_ticket\"");
    reveal_strlit("value=\"");
    reveal_strlit("http_ticket");
    let a = i + open_tag().len();
    assert(s.subrange(i, a)[0] == s[i]);
    lemma_whitespace_end(s, a);
    let b = whitespace_end(s, a);
    if name_first_at(s, i) is Some {
        let c = b + name_attribute().len();
        lemma_whitespace_end(s, c);
        let d = whitespace_end(s, c);
        let v = d + value_opening().len();
        lemma_closing_quote(s, v);
        lemma_marker_in_name(s, b);
    } else {
        let v = b + value_opening().len();
        lemma_closing_quote(s, v);
        let e = closing_quote(s, v);
        lemma_whitespace_end(s, e + 1);
        lemma_marker_in_name(s, whitespace_end(s, e + 1));
    }
}

/// Where the name attribute stands, the ticket marker stands six places on.
proof fn lemma_marker_in_name(s: Seq<char>, b: int)
    requires
        occurs_at(s, name_attribute(), b),
    ensures
        occurs_at(s, ticket_marker(), b + 6),
        contains_text(s, ticket_marker()),
{
    reveal_strlit("name=\"http_ticket\"");
    reveal_strlit("http_ticket");
    let name = s.subrange(b, b + name_attribute().len());
    let marker = s.subrange(b + 6, b + 6 + ticket_marker().len());
    assert forall|k: int| 0 <= k < marker.len() implies marker[k] == ticket_marker()[k] by {
        assert(marker[k] == name[k + 6]);
    }
    assert(marker =~= ticket_marker());
    assert(occurs_at(s, ticket_marker(), b + 6));
}

/// Behind the last ticket parameter the rewrite copies the body.
pub proof fn lemma_rewrite_from_without_ticket(s: Seq<char>, i: int, insert: Seq<char>)
    requires
        0 <= i <= s.len(),
        forall|j: int| i <= j < s.len() ==> ticket_at(s, j) is None,
    ensures
        rewrite_from(s, i, insert) == s.subrange(i, s.len() as int),
    decreases s.len() - i,
{
    if i < s.len() {
        lemma_rewrite_from_without_ticket(s, i + 1, insert);
    }
}

/// A body without a ticket parameter is returned unchanged.
pub proof fn law_rewrite_without_ticket(s: Seq<char>, insert: Seq<char>)
    requires
        forall|j: int| 0 <= j < s.len() ==> ticket_at(s, j) is None,
    ensures
        rewrite(s, insert) == s,
{
    lemma_rewrite_from_without_ticket(s, 0, insert);
}

/// A body that does not hold the ticket marker is returned unchanged,
/// whatever else it holds.
pub proof fn law_rewrite_without_marker(s: Seq<char>, insert: Seq<char>)
    requires
        !contains_text(s, ticket_marker()),
    ensures
        rewrite(s, insert) == s,
{
    assert forall|j: int| 0 <= j < s.len() implies ticket_at(s, j) is None by {
        if ticket_at(s, j) is Some {
            lemma_ticket_shape(s, j);
        }
    }
    law_rewrite_without_ticket(s, insert);
}

/// Up to the only ticket parameter of a body the rewrite copies the body,
/// and it makes its insertion before the quote that closes the value.
proof fn lemma_rewrite_from_before_ticket(s: Seq<char>, k: int, i: int, insert: Seq<char>)
    requires
        0 <= k <= i,
        ticket_at(s, i) is Some,
        forall|j: int| 0 <= j < s.len() && j != i ==> ticket_at(s, j) is None,
    ensures
        rewrite_from(s, k, insert) == s.subrange(k, ticket_at(s, i)->0.value_end) + insert
            + s.subrange(ticket_at(s, i)->0.value_end, s.len() as int),
    decreases i - k,
{
    lemma_ticket_shape(s, i);
    if k == i {
        lemma_rewrite_from_without_ticket(s, ticket_at(s, i)->0.value_end + 1, insert);
    } else {
        lemma_rewrite_from_before_ticket(s, k + 1, i, insert);
    }
}

/// In a body with exactly one ticket parameter the rewrite changes nothing
/// but that parameter's value: the body up to the end of the value and the
/// body from the closing quote on are kept as they are, and the insertion
/// stands between them.
pub proof fn law_rewrite_single_ticket(s: Seq<char>, i: int, insert: Seq<char>)
    requires
        ticket_at(s, i) is Some,
        forall|j: int| 0 <= j < s.len() && j != i ==> ticket_at(s, j) is None,
    ensures
        rewrite(s, insert) == s.subrange(0, ticket_at(s, i)->0.value_end) + insert + s.subrange(
            ticket_at(s, i)->0.value_end,
            s.len() as int,
        ),
        s[ticket_at(s, i)->0.value_end] == '"',
{
    lemma_ticket_shape(s, i);
    lemma_rewrite_from_before_ticket(s, 0, i, insert);
}

/// An insertion that holds no `"` leaves the document in shape: in a body
/// with exactly one ticket parameter the rewritten value begins where the
/// value began, is the value followed by the insertion, and is closed by the
/// quote that closed the value.
pub proof fn law_rewrite_keeps_value_quoted(s: Seq<char>, i: int, insert: Seq<char>)
    requires
        ticket_at(s, i) is Some,
        forall|j: int| 0 <= j < s.len() && j != i ==> ticket_at(s, j) is None,
        first_index_of(insert, '"') == insert.len(),
    ensures
        closing_quote(rewrite(s, insert), ticket_at(s, i)->0.value_start) == ticket_at(
            s,
            i,
        )->0.value_end + insert.len(),
        rewrite(s, insert).subrange(
            ticket_at(s, i)->0.value_start,
            ticket_at(s, i)->0.value_end + insert.len(),
        ) == s.subrange(ticket_at(s, i)->0.value_start, ticket_at(s, i)->0.value_end) + insert,
{
    let start = ticket_at(s, i)->0.value_start;
    let end = ticket_at(s, i)->0.value_end;
    let out = rewrite(s, insert);
    law_rewrite_single_ticket(s, i, insert);
    lemma_ticket_shape(s, i);
    lemma_first_index_of(insert, '"');
    let rest = out.skip(start);
    assert forall|k: int| 0 <= k < end - start + insert.len() implies #[trigger] rest[k]
        != '"' by {
        if k < end - start {
            assert(rest[k] == s[start + k]);
        } else {
            assert(rest[k] == insert[k - (end - start)]);
        }
    }
    lemma_first_index_of_unique(rest, '"', end - start + insert.len());
}

/// With nothing to insert the rewrite is the identity: whatever it adds to a
/// body is made of insertions alone.
pub proof fn law_rewrite_empty_insertion(s: Seq<char>)
    ensures
        rewrite(s, Seq::empty()) == s,
{
    lemma_rewrite_from_empty_insertion(s, 0);
}

proof fn lemma_rewrite_from_empty_insertion(s: Seq<char>, i: int)
    requires
        0 <= i <= s.len(),
    ensures
        rewrite_from(s, i, Seq::empty()) == s.subrange(i, s.len() as int),
    decreases s.len() - i,
{
    if i < s.len() {
        match ticket_at(s, i) {
            Some(t) => {
                lemma_ticket_shape(s, i);
                lemma_rewrite_from_empty_insertion(s, t.value_end + 1);
            },
            None => {
                lemma_rewrite_from_empty_insertion(s, i + 1);
            },
        }
    }
}

/// The literal texts of the grammar, as characters.
struct Markers {
    open: Vec<char>,
    name: Vec<char>,
    value: Vec<char>,
}

impl Markers {
    /// Whether the fields hold the texts of the grammar.
    spec fn wf(&self) -> bool {
        &&& self.open@ == open_tag()
        &&& self.name@ == name_attribute()
        &&& self.value@ == value_opening()
    }

    /// The texts of the grammar.
    fn new() -> (m: Markers)
        ensures
            m.wf(),
    {
        Markers {
            open: to_chars("<param"),
            name: to_chars("name=\"http_ticket\""),
            value: to_chars("value=\""),
        }
    }
}

/// Computes [`whitespace_end`].
fn skip_whitespace(s: &[char], i: usize) -> (k: usize)
    requires
        i <= s@.len(),
    ensures
        i <= k <= s@.len(),
        k == whitespace_end(s@, i as int),
{
    let mut k: usize = i;
    while k < s.len() && char_is_whitespace(s[k])
        invariant
            i <= k <= s@.len(),
            whitespace_end(s@, i as int) == whitespace_end(s@, k as int),
        decreases s@.len() - k,
    {
        k = k + 1;
    }
    k
}

/// Computes [`name_first_at`]: the bounds of the value, where there is one.
fn match_name_first(s: &[char], i: usize, m: &Markers) -> (r: Option<(usize, usize)>)
    requires
        m.wf(),
    ensures
        match r {
            Some((v, e)) => name_first_at(s@, i as int) == Some(
                TicketValue { value_start: v as int, value_end: e as int },
            ),
            None => name_first_at(s@, i as int) is None,
        },
{
    let n = s.len();
    if !text_occurs_at(s, m.open.as_slice(), i) {
        return None;
    }
    let a = i + m.open.len();
    let b = skip_whitespace(s, a);
    if !(a < b) || !text_occurs_at(s, m.name.as_slice(), b) {
        return None;
    }
    let c = b + m.name.len();
    let d = skip_whitespace(s, c);
    if !(c < d) || !text_occurs_at(s, m.value.as_slice(), d) {
        return None;
    }
    let v = d + m.value.len();
    let e = find_char(s, '"', v, n);
    if v < e && e < n {
        Some((v, e))
    } else {
        None
    }
}

/// Computes [`value_first_at`]: the bounds of the value, where there is one.
fn match_value_first(s: &[char], i: usize, m: &Markers) -> (r: Option<(usize, usize)>)
    requires
        m.wf(),
    ensures
        match r {
            Some((v, e)) => value_first_at(s@, i as int) == Some(
                TicketValue { value_start: v as int, value_end: e as int },
            ),
            None => value_first_at(s@, i as int) is None,
        },
{
    let n = s.len();
    if !text_occurs_at(s, m.open.as_slice(), i) {
        return None;
    }
    let a = i + m.open.len();
    let b = skip_whitespace(s, a);
    if !(a < b) || !text_occurs_at(s, m.value.as_slice(), b) {
        return None;
    }
    let v = b + m.value.len();
    let e = find_char(s, '"', v, n);
    if !(v < e && e < n) {
        return None;
    }
    let f = e + 1;
    let g = skip_whitespace(s, f);
    if f < g && text_occurs_at(s, m.name.as_slice(), g) {
        Some((v, e))
    } else {
        None
    }
}

/// Computes [`ticket_at`]: the bounds of the value, where there is one.
fn match_ticket(s: &[char], i: usize, m: &Markers) -> (r: Option<(usize, usize)>)
    requires
        m.wf(),
    ensures
        match r {
            Some((v, e)) => ticket_at(s@, i as int) == Some(
                TicketValue { value_start: v as int, value_end: e as int },
            ),
            None => ticket_at(s@, i as int) is None,
        },
{
    match match_name_first(s, i, m) {
        Some(found) => Some(found),
        None => match_value_first(s, i, m),
    }
}

/// Appends `token` and `credential` to the value of every ticket parameter
/// of `body`; a body without one comes back unchanged.
pub fn rewrite_tickets(body: &str, token: &str, credential: &str) -> (out: String)
    ensures
        out@ == rewrite(body@, addition(token@, credential@)),
{
    let mut insert = String::new();
    insert.append("++");
    insert.append(token);
    insert.append("++");
    insert.append(credential);
    let chars = to_chars(body);
    let s = chars.as_slice();
    let markers = Markers::new();
    let mut out = String::new();
    let mut i: usize = 0;
    while i < s.len()
        invariant
            markers.wf(),
            i <= s@.len(),
            out@ + rewrite_from(s@, i as int, insert@) == rewrite(s@, insert@),
        decreases s@.len() - i,
    {
        match match_ticket(s, i, &markers) {
            Some((_, e)) => {
                proof {
                    lemma_ticket_shape(s@, i as int);
                }
                push_chars(&mut out, s, i, e);
                out.append(insert.as_str());
                push_char(&mut out, s[e]);
                i = e + 1;
            },
            None => {
                push_char(&mut out, s[i]);
                i = i + 1;
            },
        }
    }
    out
}

/// Rewrites the launch descriptor `jnlp_content`: the value of every ticket
/// parameter gets `hmac_token` and the session credential `cf_auth` appended,
/// the credential decoded from its percent-encoding, without line feeds and
/// trimmed, or empty where it cannot be decoded.
pub fn modify_jnlp_content(jnlp_content: &str, hmac_token: &str, cf_auth: &str) -> (out: String)
    ensures
        out@ == rewrite(jnlp_content@, addition(hmac_token@, embedded_credential(cf_auth@))),
{
    let credential = embed_credential(cf_auth);
    rewrite_tickets(jnlp_content, hmac_token, credential.as_str())
}

} // verus!
