use tun_proxy::auth::valid_bearer;

#[test]
fn test_valid_bearer() {
    let token = "test-token-123";

    assert!(valid_bearer("Bearer test-token-123", token));
    assert!(valid_bearer("bearer test-token-123", token));
    assert!(valid_bearer("BEARER test-token-123", token));
    assert!(valid_bearer("Bearer  test-token-123  ", token));

    assert!(!valid_bearer("test-token-123", token));
    assert!(!valid_bearer("Basic test-token-123", token));
    assert!(!valid_bearer("Bearer wrong-token", token));
    assert!(!valid_bearer("", token));
}

#[test]
fn bearer_mixed_case_and_unicode_whitespace() {
    assert!(valid_bearer("bEaReR \t\u{a0}abc\u{3000}\n", "abc"));
    assert!(!valid_bearer("Bearer", ""));
    assert!(valid_bearer("Bearer ", ""));
    assert!(!valid_bearer("Bearerabc", "abc"));
    assert!(!valid_bearer("Bearer abc", "ABC"));
    assert!(!valid_bearer("Bearer a b c", "abc"));
}
