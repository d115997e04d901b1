//! The origin's reply, the classifier that decides whether it is rewritten,
//! and the emitter that builds the response sent back.

use vstd::prelude::*;
use crate::rewrite::ticket_marker;
use crate::text::{contains_text, text_contains, to_chars};

verus! {

/// One header line of a response.
#[derive(Debug)]
pub struct Header {
    pub name: String,
    pub value: String,
}

/// A response: what the origin sent, or what the filter sends back.
#[derive(Debug)]
pub struct OriginResponse {
    pub status_code: u16,
    /// The header lines in their order; a name may occur more than once.
    pub headers: Vec<Header>,
    pub body: String,
}

/// A response as plain values.
pub struct ResponseView {
    pub status_code: u16,
    pub headers: Seq<(Seq<char>, Seq<char>)>,
    pub body: Seq<char>,
}

/// Header lines as names and values.
pub open spec fn headers_view(headers: Seq<Header>) -> Seq<(Seq<char>, Seq<char>)> {
    Seq::new(headers.len(), |i: int| (headers[i].name@, headers[i].value@))
}

impl View for OriginResponse {
    type V = ResponseView;

    open spec fn view(&self) -> ResponseView {
        ResponseView {
            status_code: self.status_code,
            headers: headers_view(self.headers@),
            body: self.body@,
        }
    }
}

/// What opens the root element of a launch descriptor.
pub open spec fn root_marker() -> Seq<char> {
    "<jnlp"@
}

/// Whether a body is rewritten: it holds the opening of the root element of
/// a launch descriptor and the name of the ticket parameter, both.
pub open spec fn is_jnlp(body: Seq<char>) -> bool {
    contains_text(body, root_marker()) && contains_text(body, ticket_marker())
}

/// Classifies a body: whether it is a launch descriptor that holds the
/// ticket marker.
pub fn is_jnlp_file(body: &str) -> (eligible: bool)
    ensures
        eligible == is_jnlp(body@),
{
    let chars = to_chars(body);
    let root = to_chars("<jnlp");
    let marker = to_chars("http_ticket");
    text_contains(chars.as_slice(), root.as_slice()) && text_contains(
        chars.as_slice(),
        marker.as_slice(),
    )
}

/// Copies header lines.
pub fn copy_headers(headers: &Vec<Header>) -> (copy: Vec<Header>)
    ensures
        headers_view(copy@) == headers_view(headers@),
{
    let mut copy: Vec<Header> = Vec::new();
    let mut i: usize = 0;
    while i < headers.len()
        invariant
            i <= headers@.len(),
            copy@.len() == i,
            forall|k: int|
                0 <= k < i ==> (#[trigger] copy@[k]).name@ == headers@[k].name@ && copy@[k].value@
                    == headers@[k].value@,
        decreases headers@.len() - i,
    {
        copy.push(Header { name: headers[i].name.clone(), value: headers[i].value.clone() });
        i = i + 1;
    }
    copy
}

/// The name of the header that states the length of a body, in lower case.
pub open spec fn length_header() -> Seq<char> {
    "content-length"@
}

/// `c` in lower case where it is an ASCII capital, else `c`.
pub open spec fn ascii_lowercase(c: char) -> char {
    if 'A' <= c && c <= 'Z' {
        ((c as u8 + 32) as u8) as char
    } else {
        c
    }
}

/// Whether a header of this name states the length of the body: the name is
/// `Content-Length` in any spelling of upper and lower case.
pub open spec fn is_length_header(name: Seq<char>) -> bool {
    &&& name.len() == length_header().len()
    &&& forall|i: int|
        0 <= i < name.len() ==> ascii_lowercase(#[trigger] name[i]) == length_header()[i]
}

/// Header lines without those that state the length of the body.
pub open spec fn without_length_headers(headers: Seq<(Seq<char>, Seq<char>)>) -> Seq<
    (Seq<char>, Seq<char>),
>
    decreases headers.len(),
{
    if headers.len() == 0 {
        headers
    } else if is_length_header(headers.last().0) {
        without_length_headers(headers.drop_last())
    } else {
        without_length_headers(headers.drop_last()).push(headers.last())
    }
}

/// Computes [`ascii_lowercase`].
fn to_ascii_lowercase(c: char) -> (lower: char)
    ensures
        lower == ascii_lowercase(c),
{
    if 'A' <= c && c <= 'Z' {
        ((c as u8) + 32) as char
    } else {
        c
    }
}

/// Decides [`is_length_header`].
pub fn is_length_header_name(name: &str) -> (r: bool)
    ensures
        r == is_length_header(name@),
{
    let chars = to_chars(name);
    let wanted = to_chars("content-length");
    if chars.len() != wanted.len() {
        return false;
    }
    let mut i: usize = 0;
    while i < chars.len()
        invariant
            i <= chars@.len(),
            chars@ == name@,
            wanted@ == length_header(),
            chars@.len() == wanted@.len(),
            forall|k: int| 0 <= k < i ==> ascii_lowercase(#[trigger] chars@[k]) == wanted@[k],
        decreases chars@.len() - i,
    {
        if to_ascii_lowercase(chars[i]) != wanted[i] {
            return false;
        }
        i = i + 1;
    }
    true
}

/// Copies header lines but those that state the length of the body.
pub fn drop_length_headers(headers: &Vec<Header>) -> (kept: Vec<Header>)
    ensures
        headers_view(kept@) == without_length_headers(headers_view(headers@)),
{
    let mut kept: Vec<Header> = Vec::new();
    let mut i: usize = 0;
    while i < headers.len()
        invariant
            i <= headers@.len(),
            headers_view(kept@) == without_length_headers(headers_view(headers@).take(i as int)),
        decreases headers@.len() - i,
    {
        let ghost all = headers_view(headers@);
        assert(all.take(i + 1).drop_last() =~= all.take(i as int));
        if !is_length_header_name(headers[i].name.as_str()) {
            kept.push(Header { name: headers[i].name.clone(), value: headers[i].value.clone() });
        }
        i = i + 1;
    }
    assert(headers_view(headers@).take(i as int) =~= headers_view(headers@));
    kept
}

/// Builds the response sent back: the given body under the status code and
/// the header lines of the origin, all of them, as they are. A header that
/// states the length of the body is copied like the others.
pub fn create_response(body: &str, status: u16, headers: &Vec<Header>) -> (response: OriginResponse)
    ensures
        response@ == (ResponseView {
            status_code: status,
            headers: headers_view(headers@),
            body: body@,
        }),
{
    OriginResponse { status_code: status, headers: copy_headers(headers), body: body.to_owned() }
}

} // verus!
