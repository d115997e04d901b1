//! The decisions of the filter, one request at a time.
//!
//! A request passes three points at which the filter decides and between
//! which its caller acts:
//!
//! 1. [`on_request`] reads the headers of the request and either accepts it,
//!    with the identity of the caller, or rejects it. An accepted request is
//!    forwarded to the origin unchanged; a rejected one is not forwarded.
//! 2. [`on_reply`] reads what came of forwarding, the body as bytes, and says
//!    what the reply needs: nothing, or a token, for which the clock has to
//!    be read.
//! 3. [`on_clock`] takes the reading of the clock and builds the response
//!    with the rewritten body.
//!
//! Nothing is kept between requests.

use vstd::prelude::*;
use vstd::utf8::encode_utf8;
use crate::credential::embedded_credential;
use crate::error::FilterError;
use crate::identity::{
    client_ip, identify, session_credential_of, text_view, ClientIdentity, RequestHeaders,
    LOOPBACK_ADDRESS,
};
use crate::response::{
    create_response, drop_length_headers, headers_view, is_jnlp, is_jnlp_file,
    without_length_headers, Header, OriginResponse, ResponseView,
};
use crate::rewrite::{addition, modify_jnlp_content, rewrite};
use crate::text::{decoded_text, text_of_bytes};
use crate::token::{generate_simple_token, signed_token};

verus! {

/// The secret that signs tokens where none is configured. It keeps the
/// filter running without configuration and is known to whoever reads this
/// line: a deployment whose tokens are to prove anything configures its own.
pub const DEFAULT_HMAC_SECRET: &'static str = "default-secret";

/// What the filter is run with.
#[derive(Debug)]
pub struct FilterConfig {
    /// The key of the token signatures.
    pub hmac_secret: String,
    /// The address of a caller whose request names none.
    pub fallback_ip: String,
    /// Whether intermediate values are traced.
    pub debug: bool,
}

/// Whether a setting switches tracing on: it does where it is there and
/// reads `true`.
pub open spec fn debug_enabled(setting: Option<Seq<char>>) -> bool {
    setting == Some("true"@)
}

/// Decides whether tracing is on. Without a setting it is off.
pub fn is_debug_enabled(setting: Option<&str>) -> (enabled: bool)
    ensures
        enabled == debug_enabled(
            match setting {
                Some(s) => Some(s@),
                None => None,
            },
        ),
{
    match setting {
        Some(s) => s.to_owned() == "true".to_owned(),
        None => false,
    }
}

impl FilterConfig {
    /// The configuration for the given settings: the secret as configured or,
    /// where none is, [`DEFAULT_HMAC_SECRET`]; tracing as [`is_debug_enabled`]
    /// decides; the loopback address as the fallback address.
    pub fn new(hmac_secret: Option<String>, debug: Option<&str>) -> (config: FilterConfig)
        ensures
            config.hmac_secret@ == match hmac_secret {
                Some(secret) => secret@,
                None => DEFAULT_HMAC_SECRET@,
            },
            config.fallback_ip@ == LOOPBACK_ADDRESS@,
            config.debug == debug_enabled(
                match debug {
                    Some(s) => Some(s@),
                    None => None,
                },
            ),
    {
        FilterConfig {
            hmac_secret: match hmac_secret {
                Some(secret) => secret,
                None => DEFAULT_HMAC_SECRET.to_owned(),
            },
            fallback_ip: LOOPBACK_ADDRESS.to_owned(),
            debug: is_debug_enabled(debug),
        }
    }
}

/// What the origin sent in reply, the body as the bytes that came.
#[derive(Debug)]
pub struct OriginReply {
    pub status_code: u16,
    pub headers: Vec<Header>,
    pub body: Vec<u8>,
}

/// A reply as plain values.
pub struct ReplyView {
    pub status_code: u16,
    pub headers: Seq<(Seq<char>, Seq<char>)>,
    pub body: Seq<u8>,
}

impl View for OriginReply {
    type V = ReplyView;

    open spec fn view(&self) -> ReplyView {
        ReplyView {
            status_code: self.status_code,
            headers: headers_view(self.headers@),
            body: self.body@,
        }
    }
}

/// What a reply needs before the caller gets its response.
#[derive(Debug)]
pub enum Plan {
    /// The body is no text: this reply, which is the origin's, is handed on
    /// as it came.
    PassThrough(OriginReply),
    /// The body is not rewritten: this response, which is the origin's, is
    /// sent back.
    Emit(OriginResponse),
    /// The body is rewritten: the clock is read and [`on_clock`] builds the
    /// response from this one.
    Sign(OriginResponse),
}

/// First decision: accepts a request or rejects it. A request is accepted
/// exactly when its `Cookie` header holds the session cookie.
pub fn on_request(config: &FilterConfig, headers: &RequestHeaders) -> (r: Result<
    ClientIdentity,
    FilterError,
>)
    ensures
        match r {
            Ok(identity) => {
                &&& session_credential_of(text_view(headers.cookie)) == Some(
                    identity.session_credential@,
                )
                &&& identity.ip@ == client_ip(
                    text_view(headers.peer_ip),
                    text_view(headers.forwarded_for),
                    config.fallback_ip@,
                )
            },
            Err(e) => e == FilterError::AuthenticationMissing && session_credential_of(
                text_view(headers.cookie),
            ) is None,
        },
{
    identify(headers, config.fallback_ip.as_str())
}

/// Second decision: what comes of the origin's reply. Without a reply the
/// request fails. A reply whose body is no text, that is no valid UTF-8, is
/// passed through as it came. A body that is no launch descriptor with a
/// ticket marker is sent back as it is, under the status code and the
/// headers of the origin. Any other body needs a token.
pub fn on_reply(origin: Option<OriginReply>) -> (r: Result<Plan, FilterError>)
    ensures
        match origin {
            None => r == Err::<Plan, FilterError>(FilterError::OriginUnreachable),
            Some(reply) => match decoded_text(reply.body@) {
                None => r matches Ok(Plan::PassThrough(passed)) && passed@ == reply@,
                Some(text) => {
                    let same = ResponseView {
                        status_code: reply.status_code,
                        headers: headers_view(reply.headers@),
                        body: text,
                    };
                    if is_jnlp(text) {
                        r matches Ok(Plan::Sign(response)) && response@ == same
                    } else {
                        r matches Ok(Plan::Emit(response)) && response@ == same
                    }
                },
            },
        },
{
    match origin {
        None => Err(FilterError::OriginUnreachable),
        Some(reply) => match text_of_bytes(reply.body) {
            Err(body) => Ok(
                Plan::PassThrough(
                    OriginReply { status_code: reply.status_code, headers: reply.headers, body },
                ),
            ),
            Ok(body) => {
                let eligible = is_jnlp_file(body.as_str());
                let response = OriginResponse {
                    status_code: reply.status_code,
                    headers: reply.headers,
                    body,
                };
                if eligible {
                    Ok(Plan::Sign(response))
                } else {
                    Ok(Plan::Emit(response))
                }
            },
        },
    }
}

/// The body that a caller gets for the body `body` of the origin: every
/// ticket value has the token for the caller's address and the caller's
/// credential appended.
pub open spec fn rewritten_body(
    body: Seq<char>,
    ip: Seq<char>,
    credential: Seq<char>,
    secret: Seq<char>,
    timestamp: Seq<char>,
) -> Seq<char> {
    rewrite(
        body,
        addition(signed_token(ip, encode_utf8(secret), timestamp), embedded_credential(credential)),
    )
}

/// The header lines that go with the body `body` sent in place of the body
/// `origin` that they came with: all of them where the body is the same;
/// where it is not, all but those that state the length of the body, which
/// would state the wrong one.
pub open spec fn headers_for(
    headers: Seq<(Seq<char>, Seq<char>)>,
    origin: Seq<char>,
    body: Seq<char>,
) -> Seq<(Seq<char>, Seq<char>)> {
    if body == origin {
        headers
    } else {
        without_length_headers(headers)
    }
}

/// Third decision: the response for a reply that needs a token. The token
/// is signed for the caller's address at `timestamp`, the reading of the
/// clock as text. The status code is the origin's, and so are the headers,
/// but for the length of a body that the rewriting has changed.
pub fn on_clock(
    config: &FilterConfig,
    identity: &ClientIdentity,
    reply: &OriginResponse,
    timestamp: &str,
) -> (response: OriginResponse)
    ensures
        response@.status_code == reply@.status_code,
        response@.body == rewritten_body(
            reply@.body,
            identity.ip@,
            identity.session_credential@,
            config.hmac_secret@,
            timestamp@,
        ),
        response@.headers == headers_for(reply@.headers, reply@.body, response@.body),
{
    let token = generate_simple_token(
        identity.ip.as_str(),
        config.hmac_secret.as_str(),
        timestamp,
    );
    let body = modify_jnlp_content(
        reply.body.as_str(),
        token.as_str(),
        identity.session_credential.as_str(),
    );
    if body == reply.body {
        create_response(body.as_str(), reply.status_code, &reply.headers)
    } else {
        OriginResponse {
            status_code: reply.status_code,
            headers: drop_length_headers(&reply.headers),
            body,
        }
    }
}

} // verus!
