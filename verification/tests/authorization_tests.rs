use book_catalog::authorization::{header_text, JWTAuthorization, JWTError};
use std::str::FromStr;

fn token(s: &str) -> Result<String, JWTError> {
    JWTAuthorization::parse(s).map(|a| a.token)
}

#[test]
fn bearer_header_gives_its_token() {
    assert_eq!(token("bearer: abc.def.ghi").unwrap(), "abc.def.ghi");
}

#[test]
fn surrounding_white_space_is_ignored() {
    assert_eq!(token("  \tbearer: abc \n").unwrap(), "abc");
    assert_eq!(token("\u{3000}bearer: abc\u{a0}").unwrap(), "abc");
}

#[test]
fn token_ends_at_the_next_marker() {
    assert_eq!(token("bearer: abcbearer: def").unwrap(), "abc");
    assert_eq!(token("x bearer: y").unwrap(), "y");
}

#[test]
fn trailing_marker_space_is_trimmed_away() {
    assert!(matches!(JWTAuthorization::parse("bearer: "), Err(JWTError::MissingJWT)));
    assert_eq!(token("bearer: bearer: ").unwrap(), "bearer:");
    assert_eq!(token("bearer: x bearer: ").unwrap(), "x bearer:");
}

#[test]
fn missing_marker_is_refused() {
    assert!(matches!(JWTAuthorization::parse("Bearer: abc"), Err(JWTError::MissingJWT)));
    assert!(matches!(JWTAuthorization::parse("bearer:abc"), Err(JWTError::MissingJWT)));
    assert!(matches!(JWTAuthorization::parse(""), Err(JWTError::MissingJWT)));
}

#[test]
fn parse_agrees_with_std_split() {
    let cases = [
        "bearer: a",
        " bearer: a bearer: b ",
        "bearer: bearer: ",
        "\u{2003}bearer: \u{2003}x\u{2003}",
        "abc",
        "bearer: é€ bearer:",
        "bearer: bearer: bearer: x",
    ];
    for c in cases {
        let mut split = c.trim().split("bearer: ");
        let (_, expected) = (split.next(), split.next());
        match (token(c), expected) {
            (Ok(t), Some(e)) => assert_eq!(t, e),
            (Err(JWTError::MissingJWT), None) => {}
            other => panic!("mismatch for {:?}: {:?}", c, other),
        }
    }
}

#[test]
fn from_header_reports_a_missing_header() {
    assert!(matches!(JWTAuthorization::from_header(None), Err(JWTError::AuthorizationMissing)));
    assert_eq!(JWTAuthorization::from_header(Some("bearer: t")).unwrap().token, "t");
    assert!(matches!(JWTAuthorization::from_header(Some("t")), Err(JWTError::MissingJWT)));
}

#[test]
fn from_str_parses_like_parse() {
    assert_eq!(JWTAuthorization::from_str(" bearer: tok").unwrap().token, "tok");
    assert!(JWTAuthorization::from_str("tok").is_err());
}

#[test]
fn error_messages() {
    assert_eq!(JWTError::AuthorizationMissing.message(), "Authorization header missing");
    assert_eq!(JWTError::MissingJWT.message(), "Invalid bearer prefix or jwt missing");
}

#[test]
fn formatted_header_round_trips() {
    for tok in ["a", "eyJhbGciOi.x.y", "with space inside", " leading"] {
        let header = format!("bearer: {}", tok);
        assert_eq!(token(&header).unwrap(), tok);
    }
}

#[test]
fn header_text_accepts_visible_ascii_and_tabs() {
    assert_eq!(header_text(b"bearer: abc"), Some("bearer: abc".to_string()));
    assert_eq!(header_text(b"a\tb ~"), Some("a\tb ~".to_string()));
    assert_eq!(header_text(b""), Some(String::new()));
    assert_eq!(header_text(b"a\nb"), None);
    assert_eq!(header_text(&[0x7f]), None);
    assert_eq!(header_text("caf\u{e9}".as_bytes()), None);
}
