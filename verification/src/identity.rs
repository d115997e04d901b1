//! The identity extractor: the caller's address and session credential,
//! taken from the headers of the request.

use vstd::prelude::*;
use crate::cookies::{cookie_value, parse_cookies};
use crate::error::FilterError;
use crate::text::{find_char, first_index_of, string_of, to_chars, trim, trim_range};

verus! {

/// The name of the cookie that holds the session credential.
pub const SESSION_COOKIE: &'static str = "CF_Authorization";

/// The address used where the request names none. A token signed for it
/// binds to no caller; [`ip_source`] tells when it was used.
pub const LOOPBACK_ADDRESS: &'static str = "127.0.0.1";

/// The headers of a request that the filter reads, each as it came or absent.
#[derive(Debug)]
pub struct RequestHeaders {
    /// `CF-Connecting-IP`: the address of the connecting peer, set by a
    /// trusted proxy.
    pub peer_ip: Option<String>,
    /// `X-Forwarded-For`: the chain of addresses that forwarded the request.
    pub forwarded_for: Option<String>,
    /// `Cookie`.
    pub cookie: Option<String>,
}

/// Who sent a request.
#[derive(Debug)]
pub struct ClientIdentity {
    pub ip: String,
    pub session_credential: String,
}

/// Where the address of a caller was taken from.
#[derive(Debug, Clone, Copy, PartialEq, Eq, Structural)]
pub enum IpSource {
    /// The header of the trusted proxy.
    PeerHeader,
    /// The first entry of the forwarding chain.
    ForwardedFor,
    /// Neither header was there: the address is the fallback, and a
    /// diagnostic is due.
    Fallback,
}

/// The view of an optional text.
pub open spec fn text_view(text: Option<String>) -> Option<Seq<char>> {
    match text {
        Some(t) => Some(t@),
        None => None,
    }
}

/// The first entry of a forwarding chain: what stands before its first
/// comma, trimmed.
pub open spec fn first_forwarded(chain: Seq<char>) -> Seq<char> {
    trim(chain.take(first_index_of(chain, ',')))
}

/// The address of the caller: the peer header as it is where there is one,
/// else the first entry of the forwarding chain, else the fallback.
pub open spec fn client_ip(
    peer_ip: Option<Seq<char>>,
    forwarded_for: Option<Seq<char>>,
    fallback: Seq<char>,
) -> Seq<char> {
    match peer_ip {
        Some(peer) => peer,
        None => match forwarded_for {
            Some(chain) => first_forwarded(chain),
            None => fallback,
        },
    }
}

/// Where [`client_ip`] takes the address from.
pub open spec fn client_ip_source(
    peer_ip: Option<Seq<char>>,
    forwarded_for: Option<Seq<char>>,
) -> IpSource {
    if peer_ip is Some {
        IpSource::PeerHeader
    } else if forwarded_for is Some {
        IpSource::ForwardedFor
    } else {
        IpSource::Fallback
    }
}

/// The session credential that a `Cookie` header holds; an absent header
/// holds none.
pub open spec fn session_credential_of(cookie: Option<Seq<char>>) -> Option<Seq<char>> {
    match cookie {
        Some(header) => cookie_value(header, SESSION_COOKIE@),
        None => None,
    }
}

/// Resolves the address of the caller.
pub fn extract_client_ip(headers: &RequestHeaders, fallback: &str) -> (ip: String)
    ensures
        ip@ == client_ip(
            text_view(headers.peer_ip),
            text_view(headers.forwarded_for),
            fallback@,
        ),
{
    match &headers.peer_ip {
        Some(peer) => peer.clone(),
        None => match &headers.forwarded_for {
            Some(chain) => {
                let chars = to_chars(chain.as_str());
                let s = chars.as_slice();
                let comma = find_char(s, ',', 0, s.len());
                assert(s@.subrange(0, s@.len() as int) =~= s@);
                let (from, to) = trim_range(s, 0, comma);
                string_of(s, from, to)
            },
            None => fallback.to_owned(),
        },
    }
}

/// Tells where [`extract_client_ip`] takes the address from.
pub fn ip_source(headers: &RequestHeaders) -> (source: IpSource)
    ensures
        source == client_ip_source(text_view(headers.peer_ip), text_view(headers.forwarded_for)),
{
    if headers.peer_ip.is_some() {
        IpSource::PeerHeader
    } else if headers.forwarded_for.is_some() {
        IpSource::ForwardedFor
    } else {
        IpSource::Fallback
    }
}

/// Resolves the session credential: the value of the session cookie, or
/// [`FilterError::AuthenticationMissing`] where the request has none.
pub fn session_credential(headers: &RequestHeaders) -> (r: Result<String, FilterError>)
    ensures
        match r {
            Ok(credential) => session_credential_of(text_view(headers.cookie)) == Some(
                credential@,
            ),
            Err(e) => e == FilterError::AuthenticationMissing && session_credential_of(
                text_view(headers.cookie),
            ) is None,
        },
{
    match &headers.cookie {
        Some(header) => {
            let cookies = parse_cookies(header.as_str());
            match cookies.get(SESSION_COOKIE) {
                Some(value) => Ok(value.clone()),
                None => Err(FilterError::AuthenticationMissing),
            }
        },
        None => Err(FilterError::AuthenticationMissing),
    }
}

/// Derives the identity of the caller from the headers of the request. The
/// address always resolves; the credential has no fallback.
pub fn identify(headers: &RequestHeaders, fallback_ip: &str) -> (r: Result<
    ClientIdentity,
    FilterError,
>)
    ensures
        match r {
            Ok(identity) => {
                &&& session_credential_of(text_view(headers.cookie)) == Some(
                    identity.session_credential@,
                )
                &&& identity.ip@ == client_ip(
                    text_view(headers.peer_ip),
                    text_view(headers.forwarded_for),
                    fallback_ip@,
                )
            },
            Err(e) => e == FilterError::AuthenticationMissing && session_credential_of(
                text_view(headers.cookie),
            ) is None,
        },
{
    let ip = extract_client_ip(headers, fallback_ip);
    match session_credential(headers) {
        Ok(session_credential) => Ok(ClientIdentity { ip, session_credential }),
        Err(e) => Err(e),
    }
}

} // verus!
