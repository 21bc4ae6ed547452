use faasta::{parse_credential, verify_login, Credential, GitHubAuth, ProviderReply};

fn body(text: &str) -> ProviderReply {
    ProviderReply::Body { bytes: text.as_bytes().to_vec() }
}

#[test]
fn credential_with_user_and_bearer() {
    let c = parse_credential("alice:Bearer ghp_xxx ");
    assert_eq!(c.username, Some("alice".to_string()));
    assert_eq!(c.token, "ghp_xxx");
}

#[test]
fn bare_credential_is_trimmed() {
    let c = parse_credential("  tok\n");
    assert_eq!(c, Credential { username: None, token: "tok".to_string() });
    assert_eq!(parse_credential("Bearer abc").token, "abc");
    assert_eq!(parse_credential("abc  ").token, "abc");
    assert_eq!(parse_credential("u:\u{3000}abc\u{A0}").token, "abc");
}

#[test]
fn mismatched_login_fails() {
    let auth = GitHubAuth::new(Vec::new());
    let c = parse_credential("alice:ghp_xxx");
    let r = auth.authenticate_github(&c, body("{\"login\":\"bob\",\"id\":1}"));
    assert_eq!(r, ("bob".to_string(), false));
}

#[test]
fn bare_token_takes_reported_login() {
    let auth = GitHubAuth::new(Vec::new());
    let c = parse_credential("ghp_valid");
    let r = auth.authenticate_github(&c, body("{\"login\":\"alice\"}"));
    assert_eq!(r, ("alice".to_string(), true));
    let c = parse_credential("alice:ghp_valid");
    assert_eq!(auth.authenticate_github(&c, body("{\"login\":\"alice\"}")), ("alice".to_string(), true));
}

#[test]
fn failed_requests_are_unverified() {
    let auth = GitHubAuth::new(Vec::new());
    let c = parse_credential("tok");
    assert_eq!(auth.authenticate_github(&c, ProviderReply::Unreachable), (String::new(), false));
    assert_eq!(auth.authenticate_github(&c, ProviderReply::ErrorStatus), (String::new(), false));
    assert_eq!(auth.authenticate_github(&c, body("not json")), (String::new(), false));
}

#[test]
fn missing_login_is_unverified() {
    let auth = GitHubAuth::new(Vec::new());
    let c = parse_credential("tok");
    assert_eq!(auth.authenticate_github(&c, body("{\"id\":3}")), (String::new(), false));
    assert_eq!(auth.authenticate_github(&c, body("{\"login\":null}")), (String::new(), false));
    let c = parse_credential("alice:tok");
    assert_eq!(auth.authenticate_github(&c, body("{\"login\":7}")), (String::new(), false));
}

#[test]
fn verify_login_cases() {
    assert_eq!(verify_login(&None, None), (String::new(), false));
    assert_eq!(verify_login(&Some("a".to_string()), Some(Some("a".to_string()))), ("a".to_string(), true));
    assert_eq!(verify_login(&Some("a".to_string()), Some(Some("b".to_string()))), ("b".to_string(), false));
    assert_eq!(verify_login(&None, Some(None)), (String::new(), false));
    assert_eq!(verify_login(&Some("a".to_string()), Some(None)), (String::new(), false));
    assert_eq!(verify_login(&None, Some(Some("z".to_string()))), ("z".to_string(), true));
}
