use hyprtrace::server::like::like_match;

#[test]
fn like_wildcards() {
    assert!(like_match("code%", "code-insiders"));
    assert!(like_match("code%", "Code"));
    assert!(!like_match("code%", "vscode"));
    assert!(like_match("%fox", "Firefox"));
    assert!(like_match("f_r%", "firefox"));
    // `?` is not a wildcard: it matches only itself.
    assert!(!like_match("f?r%", "firefox"));
    assert!(!like_match("a?c", "abc"));
    assert!(like_match("a?c", "a?c"));
    assert!(like_match("_ode%", "CODE-oss"));
    assert!(!like_match("code", "codes"));
    assert!(!like_match("firefox", "firefox-esr"));
    assert!(like_match("%", ""));
    assert!(like_match("", ""));
    assert!(!like_match("", "a"));
    assert!(like_match("a%b%c", "aXXbYYc"));
    assert!(!like_match("a%b%c", "aXXbYY"));
}

#[test]
fn percent_in_text_is_an_ordinary_character() {
    assert!(like_match("%a", "%b%a"));
    assert!(like_match("%", "%"));
    assert!(like_match("50%%", "50% off"));
    assert!(like_match("_%", "%"));
    assert!(!like_match("a%", "%a"));
}
