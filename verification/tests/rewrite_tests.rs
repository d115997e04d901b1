use jnlp_filter::rewrite::{modify_jnlp_content, rewrite_tickets};
use regex::{Captures, Regex};

const NAME_FIRST: &str = r#"(<param\s+name="http_ticket"\s+value=")([^"]+)(")"#;

fn by_pattern(body: &str, token: &str, credential: &str) -> String {
    let pattern = Regex::new(NAME_FIRST).unwrap();
    pattern
        .replace_all(body, |caps: &Captures| {
            format!("{}{}++{}++{}{}", &caps[1], &caps[2], token, credential, &caps[3])
        })
        .to_string()
}

#[test]
fn single_ticket_gets_token_and_credential() {
    let body = r#"<jnlp><param name="http_ticket" value="T1"></jnlp>"#;
    let out = modify_jnlp_content(body, "1000.0-ABC=", "sess1");
    assert!(out.contains(r#"value="T1++1000.0-ABC=++sess1""#));
    assert_eq!(out, r#"<jnlp><param name="http_ticket" value="T1++1000.0-ABC=++sess1"></jnlp>"#);
}

#[test]
fn single_ticket_keeps_prefix_and_suffix() {
    let body = "<jnlp>\n  <param name=\"http_ticket\" value=\"abc\"/>\n  <param name=\"other\" value=\"x\"/>\n</jnlp>";
    let out = rewrite_tickets(body, "TOKEN", "CRED");
    let cut = body.find("abc\"").unwrap() + 3;
    assert_eq!(&out[..cut], &body[..cut]);
    assert_eq!(&out[cut..cut + 15], "++TOKEN++CRED\"/");
    assert_eq!(&out[cut + 13..], &body[cut..]);
    assert_eq!(out.len(), body.len() + 13);
}

#[test]
fn body_without_ticket_is_unchanged() {
    for body in [
        "",
        "plain text",
        "<jnlp></jnlp>",
        r#"<jnlp><param name="other" value="T1"></jnlp>"#,
        r#"<jnlp>http_ticket</jnlp>"#,
        r#"<param name="http_ticket" value="">"#,
        r#"<param name="http_ticket" value="open"#,
        r#"<param name="http_ticket"value="v">"#,
        r#"<paramname="http_ticket" value="v">"#,
        r#"<param id="1" name="http_ticket" value="v">"#,
        r#"<param name='http_ticket' value='v'>"#,
        r#"<PARAM NAME="http_ticket" VALUE="v">"#,
        r#"<param name="http_ticket" value="#,
        r#"<param name="http_ticket" "#,
        "<param",
    ] {
        assert_eq!(rewrite_tickets(body, "tok", "cred"), body, "body {:?}", body);
    }
}

#[test]
fn every_ticket_is_rewritten() {
    let body = r#"<param name="http_ticket" value="a"/><param name="http_ticket" value="b"/>"#;
    assert_eq!(
        rewrite_tickets(body, "t", "c"),
        r#"<param name="http_ticket" value="a++t++c"/><param name="http_ticket" value="b++t++c"/>"#
    );
}

#[test]
fn any_whitespace_separates_the_attributes() {
    let body = "<param\t\n name=\"http_ticket\"\r\n\u{00A0}\u{3000}value=\"v w\"/>";
    assert_eq!(
        rewrite_tickets(body, "t", "c"),
        "<param\t\n name=\"http_ticket\"\r\n\u{00A0}\u{3000}value=\"v w++t++c\"/>"
    );
}

#[test]
fn value_may_hold_anything_but_a_quote() {
    let body = "<param name=\"http_ticket\" value=\"l1\nl2 <x> é ü ' = ;\">";
    assert_eq!(
        rewrite_tickets(body, "t", "c"),
        "<param name=\"http_ticket\" value=\"l1\nl2 <x> é ü ' = ;++t++c\">"
    );
}

#[test]
fn value_before_name_is_rewritten_too() {
    let body = r#"<jnlp><param value="T1" name="http_ticket"/></jnlp>"#;
    assert_eq!(
        rewrite_tickets(body, "tok", "cred"),
        r#"<jnlp><param value="T1++tok++cred" name="http_ticket"/></jnlp>"#
    );
    let other = r#"<jnlp><param value="T1" name="other"/></jnlp>"#;
    assert_eq!(rewrite_tickets(other, "tok", "cred"), other);
    let glued = r#"<jnlp><param value="T1"name="http_ticket"/></jnlp>"#;
    assert_eq!(rewrite_tickets(glued, "tok", "cred"), glued);
}

#[test]
fn scan_goes_on_behind_the_closing_quote() {
    let body = r#"<param name="http_ticket" value="<param name="http_ticket" value="x"/>"#;
    assert_eq!(
        rewrite_tickets(body, "t", "c"),
        r#"<param name="http_ticket" value="<param name=++t++c"http_ticket" value="x"/>"#
    );
    assert_eq!(rewrite_tickets(body, "t", "c"), by_pattern(body, "t", "c"));
}

#[test]
fn empty_token_and_credential_leave_the_separators() {
    let body = r#"<param name="http_ticket" value="v">"#;
    assert_eq!(rewrite_tickets(body, "", ""), r#"<param name="http_ticket" value="v++++">"#);
}

#[test]
fn agrees_with_the_pattern_on_name_first_bodies() {
    let bodies = [
        "",
        "no markup at all",
        r#"<jnlp><param name="http_ticket" value="T1"></jnlp>"#,
        r#"<jnlp><param  name="http_ticket"   value="T1"/><param name="x" value="y"/></jnlp>"#,
        "<jnlp>\n<param\nname=\"http_ticket\"\nvalue=\"multi\nline\"/>\n</jnlp>",
        r#"<param name="http_ticket" value="a"><param name="http_ticket" value="b">"#,
        r#"<param name="http_ticket" value=""><param name="http_ticket" value="b">"#,
        r#"<param name="http_ticket" value="unterminated"#,
        r#"<<param name="http_ticket" value="x">>"#,
        r#"<param name="http_ticket" value="x"<param name="http_ticket" value="y""#,
        "<param\u{2003}name=\"http_ticket\"\u{0085}value=\"ü\u{1F600}\">",
        "<param\u{200B}name=\"http_ticket\" value=\"zero width is no space\">",
        r#"<param name="http_ticket" value="$1 \1 ${2}">"#,
    ];
    for body in bodies {
        for (token, credential) in [("t", "c"), ("1000.0-ABC=", "sess1"), ("$2", "\\")] {
            assert_eq!(
                rewrite_tickets(body, token, credential),
                by_pattern(body, token, credential),
                "body {:?}",
                body
            );
        }
    }
}

#[test]
fn credential_is_decoded_before_it_is_embedded() {
    let body = r#"<param name="http_ticket" value="v">"#;
    assert_eq!(
        modify_jnlp_content(body, "t", "a%3Db"),
        r#"<param name="http_ticket" value="v++t++a=b">"#
    );
    assert_eq!(
        modify_jnlp_content(body, "t", "%20a%0Ab%0A%20"),
        r#"<param name="http_ticket" value="v++t++ab">"#
    );
    assert_eq!(
        modify_jnlp_content(body, "t", "bad%FFbytes"),
        r#"<param name="http_ticket" value="v++t++">"#
    );
}
