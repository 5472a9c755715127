use see::base64::encode;
use see::compress::{Compress, ContentEncoding};
use see::config::{Location, SiteConfig};
use see::dispatch::{dispatch, file_route, find_site, Action, FileKind, FileRoute};
use see::directory::format_size;
use see::matcher::{HostMatcher, LocationMatcher};
use see::options::{Auth, HeaderField, Headers, Method, StatusPage};
use see::request::{HeaderEntry, RequestInfo};
use see::setting::Setting;
use see::var::{expand_template, Replace, Var};

fn empty_site() -> SiteConfig {
    SiteConfig {
        host: HostMatcher::default(),
        root: None,
        echo: Setting::NotSet,
        file: Setting::NotSet,
        index: Setting::NotSet,
        directory: Setting::NotSet,
        headers: Setting::NotSet,
        rewrite: Setting::NotSet,
        compress: Setting::NotSet,
        method: Setting::NotSet,
        auth: Setting::NotSet,
        try_: Setting::NotSet,
        error: Setting::NotSet,
        proxy: Setting::NotSet,
        log: Setting::NotSet,
        ip: Setting::NotSet,
        location: Vec::new(),
    }
}

fn empty_location(pattern: LocationMatcher) -> Location {
    Location {
        location: pattern,
        break_: false,
        root: None,
        echo: Setting::NotSet,
        file: Setting::NotSet,
        index: Setting::NotSet,
        directory: Setting::NotSet,
        headers: Setting::NotSet,
        rewrite: Setting::NotSet,
        compress: Setting::NotSet,
        method: Setting::NotSet,
        auth: Setting::NotSet,
        try_: Setting::NotSet,
        error: Setting::NotSet,
        proxy: Setting::NotSet,
        log: Setting::NotSet,
        ip: Setting::NotSet,
    }
}

fn request(method: &str, path: &str, query: Option<&str>, headers: Vec<(&str, &str)>)
    -> RequestInfo {
    RequestInfo {
        scheme: "http".to_string(),
        host: "example.com".to_string(),
        port: 80,
        method: method.to_string(),
        path: path.to_string(),
        query: query.map(|q| q.to_string()),
        headers: headers
            .into_iter()
            .map(|(n, v)| HeaderEntry { name: n.to_string(), value: v.to_string() })
            .collect(),
    }
}

#[test]
fn to_decimal() {}

#[test]
fn to_binary() {}

#[test]
fn to_encode() {}

#[test]
fn encode_test() {}

#[test]
fn encoding_test() {}

#[test]
fn base64_known_values() {
    assert_eq!(encode(b""), "");
    assert_eq!(encode(b"f"), "Zg==");
    assert_eq!(encode(b"fo"), "Zm8=");
    assert_eq!(encode(b"foo"), "Zm9v");
    assert_eq!(encode(b"user:pass"), "dXNlcjpwYXNz");
}

#[test]
fn auth_credential_line() {
    let auth = Auth::basic("user", "pass");
    assert_eq!(auth.credential, "Basic dXNlcjpwYXNz");
    let req = request("GET", "/", None, vec![("authorization", "Basic dXNlcjpwYXNz")]);
    assert!(auth.check(&req));
    let bad = request("GET", "/", None, vec![("authorization", "Basic nope")]);
    assert!(!auth.check(&bad));
    let missing = request("GET", "/", None, vec![]);
    assert!(!auth.check(&missing));
}

#[test]
fn test_var() {
    let _ = Var::from("$`path`");
}

#[test]
fn variable_expansion() {
    let req = request(
        "POST",
        "/a/b",
        Some("x=1&y=2"),
        vec![("user-agent", "tester"), ("host", "example.com")],
    );
    assert_eq!(expand_template("${request_path}", &req), "/a/b");
    assert_eq!(expand_template("${request_query}", &req), "?x=1&y=2");
    assert_eq!(expand_template("${request_uri}", &req), "/a/b?x=1&y=2");
    assert_eq!(expand_template("${request_method}", &req), "POST");
    assert_eq!(expand_template("${request_scheme}", &req), "http");
    assert_eq!(expand_template("${request_host}", &req), "example.com");
    assert_eq!(expand_template("${request_port}", &req), "80");
    assert_eq!(expand_template("${request_query_x}", &req), "1");
    assert_eq!(expand_template("${request_query_z}", &req), "");
    assert_eq!(expand_template("${request_header_User-Agent}", &req), "tester");
    assert_eq!(expand_template("a ${request_method} b", &req), "a POST b");
    assert_eq!(expand_template("${not_a_token}", &req), "${not_a_token}");
}

#[test]
fn variable_closure_example() {
    let req = request("GET", "/p", Some("q=v"), vec![("h", "w")]);
    let out = expand_template(
        "${request_path}${request_query}${request_method}${request_header_h}",
        &req,
    );
    assert!(!out.contains('$'));
}

#[test]
fn replace_plan_records_classes() {
    let rep = Replace::new("${request_path} and ${request_query_k}").unwrap();
    assert!(rep.path);
    assert!(rep.query_key);
    assert!(!rep.method);
    assert!(Replace::new("plain text").is_none());
}

#[test]
fn directory_test_format_size() {
    assert_eq!(format_size(0), "0 B");
    assert_eq!(format_size(1), "1 B");
    assert_eq!(format_size(1023), "1023 B");
    assert_eq!(format_size(1024), "1.00 KB");
    assert_eq!(format_size(1 * 1024 * 1024), "1.00 MB");
    assert_eq!(format_size(1 * 1024 * 1024 * 1024 * 1024), "1.00 TB");
    assert_eq!(format_size(u64::max_value()), "16.00 EB");
}

#[test]
fn compression_choice_order() {
    let compress = Compress {
        modes: vec![ContentEncoding::Br(6), ContentEncoding::Gzip(6)],
        extensions: vec!["html".to_string()],
    };
    // The first configured mode the client accepts wins.
    assert_eq!(
        compress.get_compress_mode("gzip, br", "html"),
        Some(ContentEncoding::Br(6))
    );
    // A mode the client does not accept is skipped.
    assert_eq!(
        compress.get_compress_mode("gzip", "html"),
        Some(ContentEncoding::Gzip(6))
    );
    // Auto expands to the first of gzip, deflate, br the client accepts.
    let auto = Compress {
        modes: vec![ContentEncoding::Auto(3)],
        extensions: vec!["html".to_string()],
    };
    assert_eq!(
        auto.get_compress_mode("br, gzip", "html"),
        Some(ContentEncoding::Gzip(3))
    );
    assert_eq!(
        auto.get_compress_mode("br", "html"),
        Some(ContentEncoding::Br(3))
    );
    // An unlisted extension is never compressed.
    assert_eq!(compress.get_compress_mode("gzip, br", "png"), None);
    // A client accepting nothing relevant gets identity.
    assert_eq!(compress.get_compress_mode("zstd", "html"), None);
}

#[test]
fn merge_none_keeps_site() {
    let mut site = empty_site();
    site.echo = Setting::Value(Var::from("hello"));
    site.location = vec![empty_location(LocationMatcher::start("/"))];
    let merged = site.merge("/x");
    match merged.echo {
        Setting::Value(Var::Literal(s)) => assert_eq!(s, "hello"),
        _ => panic!("echo should be kept"),
    }
    assert!(merged.location.is_empty());
}

#[test]
fn merge_off_disables() {
    let mut site = empty_site();
    site.echo = Setting::Value(Var::from("hello"));
    let mut loc = empty_location(LocationMatcher::start("/"));
    loc.echo = Setting::Off;
    site.location = vec![loc];
    let merged = site.merge("/x");
    assert!(matches!(merged.echo, Setting::Off));
}

#[test]
fn merge_break_stops() {
    let mut site = empty_site();
    let mut first = empty_location(LocationMatcher::start("/"));
    first.echo = Setting::Value(Var::from("first"));
    first.break_ = true;
    let mut second = empty_location(LocationMatcher::start("/"));
    second.echo = Setting::Value(Var::from("second"));
    site.location = vec![first, second];
    let merged = site.merge("/x");
    match merged.echo {
        Setting::Value(Var::Literal(s)) => assert_eq!(s, "first"),
        _ => panic!("break must stop the walk"),
    }
}

#[test]
fn merge_header_union() {
    let mut site = empty_site();
    let mut base = Headers::new();
    base.insert(HeaderField { name: "x-a".to_string(), value: Var::from("1") });
    base.insert(HeaderField { name: "x-b".to_string(), value: Var::from("2") });
    site.headers = Setting::Value(base);
    let mut loc = empty_location(LocationMatcher::start("/"));
    let mut over = Headers::new();
    over.insert(HeaderField { name: "x-b".to_string(), value: Var::from("3") });
    over.insert(HeaderField { name: "x-c".to_string(), value: Var::from("4") });
    loc.headers = Setting::Value(over);
    site.location = vec![loc];
    let merged = site.merge("/x");
    match merged.headers {
        Setting::Value(h) => {
            let get = |name: &str| -> Option<String> {
                h.fields.iter().find(|f| f.name == name).map(|f| match &f.value {
                    Var::Literal(v) => v.clone(),
                    Var::Template(s, _) => s.clone(),
                })
            };
            assert_eq!(get("x-a"), Some("1".to_string()));
            assert_eq!(get("x-b"), Some("3".to_string()));
            assert_eq!(get("x-c"), Some("4".to_string()));
        },
        _ => panic!("headers must merge"),
    }
}

#[test]
fn host_matching_first_site_wins() {
    let mut a = empty_site();
    a.host = HostMatcher::new(vec!["a.com".to_string()]).unwrap();
    let mut b = empty_site();
    b.host = HostMatcher::new(vec!["b.com".to_string()]).unwrap();
    let catch_all = empty_site();
    let sites = vec![a, b, catch_all];
    assert_eq!(find_site(&sites, "b.com"), Some(1));
    assert_eq!(find_site(&sites, "a.com"), Some(0));
    // No pattern matches: the catch-all (empty pattern list) wins.
    assert_eq!(find_site(&sites, "other.com"), Some(2));
    let strict = vec![
        {
            let mut s = empty_site();
            s.host = HostMatcher::new(vec!["only.com".to_string()]).unwrap();
            s
        },
    ];
    assert_eq!(find_site(&strict, "other.com"), None);
}

#[test]
fn directory_redirect_carries_query() {
    let r = file_route(FileKind::Directory, "/dir", &Some("a=1".to_string()));
    match r {
        FileRoute::Redirect(status, location) => {
            assert_eq!(status, 301);
            assert_eq!(location, "/dir/a=1");
        },
        _ => panic!("a directory without a trailing slash redirects"),
    }
    let r = file_route(FileKind::Directory, "/dir", &None);
    match r {
        FileRoute::Redirect(status, location) => {
            assert_eq!(status, 301);
            assert_eq!(location, "/dir/");
        },
        _ => panic!("a directory without a trailing slash redirects"),
    }
    assert!(matches!(file_route(FileKind::Directory, "/dir/", &None), FileRoute::Directory));
    assert!(matches!(file_route(FileKind::File, "/f", &None), FileRoute::Found));
    assert!(matches!(file_route(FileKind::Missing, "/f", &None), FileRoute::Missing));
}

#[test]
fn dispatch_ladder_order() {
    let req = request("GET", "/a", Some("b=1"), vec![]);

    let mut echo_site = empty_site();
    echo_site.echo = Setting::Value(Var::from("hi ${request_method}"));
    match dispatch(&echo_site, &req, "9.9.9.9") {
        Action::Echo(s) => assert_eq!(s, "hi GET"),
        _ => panic!("echo must answer"),
    }

    let mut rewrite_site = empty_site();
    rewrite_site.rewrite = Setting::Value(
        see::options::Rewrite::new("https://example.com${request_uri}", see::options::RewriteStatus::_301)
            .unwrap(),
    );
    match dispatch(&rewrite_site, &req, "9.9.9.9") {
        Action::Redirect(code, location) => {
            assert_eq!(code, 301);
            assert_eq!(location, "https://example.com/a?b=1");
        },
        _ => panic!("rewrite must answer"),
    }

    let mut method_site = empty_site();
    method_site.method = Setting::Value(Method::new(vec!["GET".to_string()]));
    method_site.echo = Setting::Value(Var::from("ok"));
    let post = request("POST", "/a", None, vec![]);
    assert!(matches!(dispatch(&method_site, &post, "9.9.9.9"), Action::NotAllowed(None)));
    let options_req = request("OPTIONS", "/a", None, vec![]);
    match dispatch(&method_site, &options_req, "9.9.9.9") {
        Action::NotAllowed(Some(allow)) => assert_eq!(allow, "GET"),
        _ => panic!("OPTIONS must carry the allow list"),
    }

    let mut auth_site = empty_site();
    auth_site.auth = Setting::Value(Auth::basic("u", "p"));
    assert!(matches!(dispatch(&auth_site, &req, "9.9.9.9"), Action::Unauthorized));

    let mut fs_site = empty_site();
    fs_site.root = Some("/srv".to_string());
    match dispatch(&fs_site, &req, "9.9.9.9") {
        Action::Fs(path) => assert_eq!(path, "/srv/./a"),
        _ => panic!("a rooted site serves files"),
    }

    let bare = empty_site();
    assert!(matches!(dispatch(&bare, &req, "9.9.9.9"), Action::Forbidden));

    let mut ip_site = empty_site();
    ip_site.ip = Setting::Value(
        see::matcher::IpMatcher::new(vec!["1.1.1.1".to_string()], vec![]).unwrap(),
    );
    assert!(matches!(dispatch(&ip_site, &req, "2.2.2.2"), Action::Forbidden));
}

#[test]
fn resolve_decodes_percent_escapes() {
    let site = empty_site();
    let (merged, decoded) = site.resolve("/a%20b");
    assert_eq!(decoded, "/a b");
    assert!(merged.location.is_empty());
}

#[test]
fn error_pages_and_default_bodies() {
    assert_eq!(see::dispatch::default_error_body(403), "403 Forbidden");
    assert_eq!(see::dispatch::default_error_body(404), "404 Not Found");
    assert_eq!(see::dispatch::default_error_body(502), "502 Bad Gateway");
    let mut site = empty_site();
    let mut pages = StatusPage::new();
    pages.insert(see::options::StatusEntry {
        status: 404,
        file: Setting::Value("/srv/404.html".to_string()),
    });
    site.error = Setting::Value(pages);
    assert_eq!(see::dispatch::error_page(&site, 404), Some(&"/srv/404.html".to_string()));
    assert_eq!(see::dispatch::error_page(&site, 500), None);
}

#[test]
fn headers_merge_overlays_and_expands() {
    let req = request("GET", "/p", None, vec![]);
    let base = vec![
        HeaderEntry { name: "x-old".to_string(), value: "1".to_string() },
        HeaderEntry { name: "X-Both".to_string(), value: "base".to_string() },
    ];
    let mut over = Headers::new();
    over.insert(HeaderField { name: "x-both".to_string(), value: Var::from("over") });
    over.insert(HeaderField { name: "x-path".to_string(), value: Var::from("${request_path}") });
    let merged = see::dispatch::headers_merge(base, &over, &req);
    assert!(merged.iter().any(|h| h.name == "x-old" && h.value == "1"));
    assert!(merged.iter().any(|h| h.name.eq_ignore_ascii_case("x-both") && h.value == "over"));
    assert!(merged.iter().any(|h| h.name == "x-path" && h.value == "/p"));
    assert_eq!(merged.iter().filter(|h| h.name.eq_ignore_ascii_case("x-both")).count(), 1);
}

#[test]
fn auth_accepts_any_text() {
    // Credentials are base64 over the UTF-8 bytes of user:password.
    let auth = Auth::basic("usér", "påss");
    assert_eq!(auth.credential, format!("Basic {}", encode("usér:påss".as_bytes())));
}
