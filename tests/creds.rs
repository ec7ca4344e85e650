use dynonym::creds::{basic_token_of, Credentials};
use dynonym::model::User;

#[test]
fn basic_header_decodes() {
    let c = Credentials::from_header("Basic YWxpY2U6c2VjcmV0").unwrap();
    assert_eq!(c.user, "alice");
    assert_eq!(c.pw, "secret");
}

#[test]
fn basic_header_with_spaces_and_extra_words() {
    let c = Credentials::from_header("  Basic \t YWxpY2U6c2VjcmV0 trailing").unwrap();
    assert_eq!(c.user, "alice");
    assert_eq!(c.pw, "secret");
}

#[test]
fn password_keeps_later_colons() {
    let c = Credentials::from_header("Basic YTpiOmM=").unwrap();
    assert_eq!(c.user, "a");
    assert_eq!(c.pw, "b:c");
    let e = Credentials::from_header("Basic Og==").unwrap();
    assert_eq!(e.user, "");
    assert_eq!(e.pw, "");
}

#[test]
fn basic_header_rejects() {
    assert!(Credentials::from_header("Bearer YWxpY2U6c2VjcmV0").is_none());
    assert!(Credentials::from_header("basic YWxpY2U6c2VjcmV0").is_none());
    assert!(Credentials::from_header("Basic").is_none());
    assert!(Credentials::from_header("Basic ***").is_none());
    assert!(Credentials::from_header("Basic Ym9i").is_none());
    assert!(Credentials::from_header("").is_none());
}

#[test]
fn decoded_bytes_must_be_utf8() {
    assert!(Credentials::from_decoded(vec![0xff, b':', b'x']).is_none());
    let c = Credentials::from_decoded(b"u:p".to_vec()).unwrap();
    assert_eq!((c.user.as_str(), c.pw.as_str()), ("u", "p"));
}

#[test]
fn token_is_second_word() {
    assert_eq!(basic_token_of("Basic abc def"), Some("abc".to_string()));
    assert_eq!(basic_token_of("Basicabc"), None);
}

#[test]
fn model_user_from_header() {
    let u = User::from_header("Basic YWxpY2U6c2VjcmV0").unwrap();
    assert_eq!(u.user, "alice");
    assert_eq!(u.password, "secret");
    assert!(User::from_header("Basic").is_none());
}
