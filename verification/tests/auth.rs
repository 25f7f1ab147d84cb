use hyprtrace::server::auth::{constant_time_eq, is_loopback_origin};

#[test]
fn loopback_origins_are_allowed() {
    for ok in [
        "http://localhost:9420",
        "http://localhost:5173",
        "http://127.0.0.1:9420",
        "http://127.0.0.1",
        "http://[::1]:9420",
        "https://localhost",
    ] {
        assert!(is_loopback_origin(ok), "should allow {ok}");
    }
}

#[test]
fn foreign_origins_are_rejected() {
    for bad in [
        "https://evil.com",
        "http://evil.com:8080",
        "https://localhost.evil.com",
        "http://192.168.1.5:9420",
        "null",
    ] {
        assert!(!is_loopback_origin(bad), "should reject {bad}");
    }
}

#[test]
fn constant_time_eq_basics() {
    assert!(constant_time_eq("abc", "abc"));
    assert!(!constant_time_eq("abc", "abd"));
    assert!(!constant_time_eq("abc", "abcd"));
    assert!(!constant_time_eq("", "a"));
}

#[test]
fn loopback_host_is_case_insensitive() {
    assert!(is_loopback_origin("http://LOCALHOST:9420"));
}

#[test]
fn only_ipv4_loopback_addresses_count() {
    assert!(is_loopback_origin("http://127.1.2.3:8080"));
    assert!(is_loopback_origin("http://127.255.0.0"));
    for bad in [
        "http://127.evil.com",
        "http://127.0.0.1.evil.com",
        "http://127.0.0.256",
        "http://127.0.0",
        "http://127.00.0.1",
        "http://128.0.0.1",
    ] {
        assert!(!is_loopback_origin(bad), "should reject {bad}");
    }
}

#[test]
fn shorthand_loopback_forms_are_refused() {
    assert!(!is_loopback_origin("http://127.1"));
    assert!(!is_loopback_origin("http://127.0.1:9420"));
    assert!(is_loopback_origin("http://127.0.0.1"));
}
