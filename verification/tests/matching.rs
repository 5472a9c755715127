use see::matcher::{HostMatcher, IpMatcher, LocationMatcher};
use see::wildcard::WildcardMatcher;

fn host_matcher(pattern: &str) -> HostMatcher {
    HostMatcher::new(vec![pattern.to_string()]).unwrap()
}

#[test]
fn test_host_create() {}

#[test]
fn test_host_text() {
    let matcher = host_matcher("example.com");
    assert!(matcher.is_match("example.com"));
    assert!(!matcher.is_match("-example.com"));
    assert!(!matcher.is_match("example.com.cn"));
}

#[test]
fn test_host_wildcard() {
    let matcher = host_matcher("*");
    assert!(matcher.is_match("localhost"));
    assert!(!matcher.is_match(".localhost"));
    assert!(!matcher.is_match("localhost."));
    assert!(!matcher.is_match("local.host"));

    let matcher = host_matcher("*.com");
    assert!(matcher.is_match("test.com"));
    assert!(matcher.is_match("example.com"));
    assert!(!matcher.is_match("test.test"));
    assert!(!matcher.is_match(".test.com"));
    assert!(!matcher.is_match("test.com."));
    assert!(!matcher.is_match("test.test.com"));

    let matcher = host_matcher("*.*");
    assert!(matcher.is_match("test.test"));
    assert!(!matcher.is_match(".test.test"));
    assert!(!matcher.is_match("test.test."));
    assert!(!matcher.is_match("test.test.test"));

    let matcher = host_matcher("*.example.com");
    assert!(matcher.is_match("test.example.com"));
    assert!(matcher.is_match("example.example.com"));
    assert!(!matcher.is_match("test.example.com.com"));
    assert!(!matcher.is_match("test.test.example.com"));

    let matcher = host_matcher("*.example.*");
    assert!(matcher.is_match("test.example.com"));
    assert!(matcher.is_match("example.example.com"));
    assert!(!matcher.is_match("test.test.example.test"));
    assert!(!matcher.is_match("test.example.test.test"));
}

#[test]
fn test_host_regex() {
    let matcher = host_matcher("~^example.com$");
    assert!(matcher.is_match("example.com"));
    assert!(!matcher.is_match("test.example.com"));
}

#[test]
fn host_create() {}

#[test]
fn text() {
    let matcher = HostMatcher::new(vec!["example.com".to_string()]).unwrap();
    assert!(matcher.is_match("example.com"));
    assert!(!matcher.is_match("-example.com"));
    assert!(!matcher.is_match("example.com.cn"));
}

#[test]
fn wildcard() {
    let matcher = HostMatcher::new(vec!["*.com".to_string()]).unwrap();
    assert!(matcher.is_match("a.com"));
    assert!(!matcher.is_match("a.cn"));
    assert!(!matcher.is_match("a.a.cn"));
}

#[test]
fn wildcard_wildcard() {
    let matcher = WildcardMatcher::new("*");
    assert!(matcher.is_match("localhost"));
    assert!(!matcher.is_match(".localhost"));
    assert!(!matcher.is_match("localhost."));
    assert!(!matcher.is_match("local.host"));

    let matcher = WildcardMatcher::new("*.com");
    assert!(matcher.is_match("test.com"));
    assert!(matcher.is_match("example.com"));
    assert!(!matcher.is_match("test.test"));
    assert!(!matcher.is_match(".test.com"));
    assert!(!matcher.is_match("test.com."));
    assert!(!matcher.is_match("test.test.com"));

    let matcher = WildcardMatcher::new("*.*");
    assert!(matcher.is_match("test.test"));
    assert!(!matcher.is_match(".test.test"));
    assert!(!matcher.is_match("test.test."));
    assert!(!matcher.is_match("test.test.test"));

    let matcher = WildcardMatcher::new("*.example.com");
    assert!(matcher.is_match("test.example.com"));
    assert!(matcher.is_match("example.example.com"));
    assert!(!matcher.is_match("test.example.com.com"));
    assert!(!matcher.is_match("test.test.example.com"));

    let matcher = WildcardMatcher::new("*.example.*");
    assert!(matcher.is_match("test.example.com"));
    assert!(matcher.is_match("example.example.com"));
    assert!(!matcher.is_match("test.test.example.test"));
    assert!(!matcher.is_match("test.example.test.test"));
}

#[test]
fn test_location_create() {}

#[test]
fn test_location_glob() {
    let matcher = LocationMatcher::new("/test/*").unwrap();
    assert!(matcher.is_match("/test/a"));
    assert!(matcher.is_match("/test/a/b"));
}

#[test]
fn test_location_regex() {
    let matcher = LocationMatcher::new(r"~/test/\.*").unwrap();
    assert!(matcher.is_match("/test/a"));
    assert!(matcher.is_match("/test/a/b"));
}

#[test]
fn location_create() {}

#[test]
fn start() {
    let matcher = LocationMatcher::start("/test/");
    assert!(matcher.is_match("/test/a"));
    assert!(matcher.is_match("/test/a/b"));
}

#[test]
fn end() {
    let matcher = LocationMatcher::end(".png");
    assert!(matcher.is_match("/test/a.png"));
    assert!(matcher.is_match("/test/a/b.png"));
}

#[test]
fn regex() {
    let matcher = LocationMatcher::regex(r"/test/.*").unwrap();
    assert!(matcher.is_match("/test/a"));
    assert!(matcher.is_match("/test/a/b"));
}

#[test]
fn glob() {
    let matcher = LocationMatcher::glob("/test/*").unwrap();
    assert!(matcher.is_match("/test/a"));
    assert!(matcher.is_match("/test/a/b"));
}

#[test]
fn ip() {}

#[test]
fn ip_allow_exclusive() {
    let m = IpMatcher::new(vec!["1.2.3.4".to_string()], vec![]).unwrap();
    assert!(m.is_pass("1.2.3.4"));
    assert!(!m.is_pass("1.2.3.5"));
}

#[test]
fn ip_deny_excludes() {
    let m = IpMatcher::new(vec![], vec!["10.0.0.*".to_string()]).unwrap();
    assert!(!m.is_pass("10.0.0.7"));
    assert!(m.is_pass("10.0.1.7"));
}

#[test]
fn ip_bad_pattern() {
    assert!(IpMatcher::new(vec!["not-an-ip".to_string()], vec![]).is_err());
    assert!(IpMatcher::new(vec!["1.2.3.256".to_string()], vec![]).is_err());
}

#[test]
fn bad_host_regex_refused() {
    assert!(HostMatcher::new(vec!["~[".to_string()]).is_err());
}

#[test]
fn host_regex_is_anchored() {
    // A host regex must match the whole hostname, not a substring of it.
    let matcher = host_matcher("~example");
    assert!(matcher.is_match("example"));
    assert!(!matcher.is_match("example.com"));
    assert!(!matcher.is_match("an-example"));

    let matcher = host_matcher("~ex.*com");
    assert!(matcher.is_match("example.com"));
    assert!(!matcher.is_match("my-example.com.org"));
}
