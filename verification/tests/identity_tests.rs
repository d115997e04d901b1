use jnlp_filter::error::FilterError;
use jnlp_filter::identity::{
    extract_client_ip, identify, ip_source, session_credential, IpSource, RequestHeaders,
    LOOPBACK_ADDRESS, SESSION_COOKIE,
};

fn headers(peer: Option<&str>, forwarded: Option<&str>, cookie: Option<&str>) -> RequestHeaders {
    RequestHeaders {
        peer_ip: peer.map(String::from),
        forwarded_for: forwarded.map(String::from),
        cookie: cookie.map(String::from),
    }
}

#[test]
fn first_forwarded_entry_is_the_address() {
    let h = headers(None, Some("9.9.9.9, 1.2.3.4"), None);
    assert_eq!(extract_client_ip(&h, "127.0.0.1"), "9.9.9.9");
    assert_eq!(ip_source(&h), IpSource::ForwardedFor);
}

#[test]
fn peer_header_is_used_as_it_is() {
    let h = headers(Some(" 5.6.7.8 "), Some("9.9.9.9, 1.2.3.4"), None);
    assert_eq!(extract_client_ip(&h, "127.0.0.1"), " 5.6.7.8 ");
    assert_eq!(ip_source(&h), IpSource::PeerHeader);
    let empty = headers(Some(""), Some("9.9.9.9"), None);
    assert_eq!(extract_client_ip(&empty, "127.0.0.1"), "");
}

#[test]
fn forwarded_entry_is_trimmed() {
    assert_eq!(extract_client_ip(&headers(None, Some("  9.9.9.9\t,1.2.3.4"), None), "x"), "9.9.9.9");
    assert_eq!(extract_client_ip(&headers(None, Some("2001:db8::1"), None), "x"), "2001:db8::1");
    assert_eq!(extract_client_ip(&headers(None, Some(""), None), "x"), "");
    assert_eq!(extract_client_ip(&headers(None, Some(" , 1.2.3.4"), None), "x"), "");
    assert_eq!(extract_client_ip(&headers(None, Some(",1.2.3.4"), None), "x"), "");
}

#[test]
fn without_headers_the_fallback_is_the_address() {
    let h = headers(None, None, Some("CF_Authorization=t"));
    assert_eq!(extract_client_ip(&h, LOOPBACK_ADDRESS), "127.0.0.1");
    assert_eq!(extract_client_ip(&h, "10.0.0.1"), "10.0.0.1");
    assert_eq!(ip_source(&h), IpSource::Fallback);
    assert_eq!(LOOPBACK_ADDRESS, "127.0.0.1");
}

#[test]
fn session_cookie_is_the_credential() {
    assert_eq!(SESSION_COOKIE, "CF_Authorization");
    let h = headers(None, None, Some("theme=dark; CF_Authorization = abc.def ; x=y"));
    assert_eq!(session_credential(&h), Ok("abc.def".to_string()));
    let twice = headers(None, None, Some("CF_Authorization=one; CF_Authorization=two"));
    assert_eq!(session_credential(&twice), Ok("one".to_string()));
    let empty = headers(None, None, Some("CF_Authorization="));
    assert_eq!(session_credential(&empty), Ok("".to_string()));
}

#[test]
fn missing_session_cookie_is_an_error() {
    for cookie in [None, Some(""), Some("theme=dark"), Some("CF_Authorization"), Some("cf_authorization=x")] {
        let h = headers(Some("1.2.3.4"), None, cookie);
        assert_eq!(session_credential(&h), Err(FilterError::AuthenticationMissing));
        assert!(matches!(identify(&h, "127.0.0.1"), Err(FilterError::AuthenticationMissing)));
    }
}

#[test]
fn identity_holds_address_and_credential() {
    let h = headers(None, Some("9.9.9.9, 1.2.3.4"), Some("CF_Authorization=sess1"));
    let identity = identify(&h, "127.0.0.1").unwrap();
    assert_eq!(identity.ip, "9.9.9.9");
    assert_eq!(identity.session_credential, "sess1");
    let degraded = identify(&headers(None, None, Some("CF_Authorization=sess1")), "127.0.0.1").unwrap();
    assert_eq!(degraded.ip, "127.0.0.1");
}

#[test]
fn errors_have_messages() {
    assert_eq!(FilterError::AuthenticationMissing.message(), "CF_Authorization not found in cookies");
    assert_eq!(FilterError::OriginUnreachable.message(), "origin unreachable");
}
