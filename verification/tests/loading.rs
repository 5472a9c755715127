use see::conf::Block;
use see::dispatch::{dispatch, Action};
use see::loader::{parse_server, to_socket_addr};
use see::options::LogOutput;
use see::request::{HeaderEntry, RequestInfo};
use see::setting::Setting;

fn request(method: &str, path: &str, query: Option<&str>, headers: Vec<(&str, &str)>)
    -> RequestInfo {
    RequestInfo {
        scheme: "http".to_string(),
        host: "example.com".to_string(),
        port: 80,
        method: method.to_string(),
        path: path.to_string(),
        query: query.map(|q| q.to_string()),
        headers: headers
            .into_iter()
            .map(|(n, v)| HeaderEntry { name: n.to_string(), value: v.to_string() })
            .collect(),
    }
}

const CONFIG: &str = "\
# a small two-site configuration\n\
server {\n\
    listen 80\n\
    host example.com\n\
    root /srv\n\
    index index.html\n\
    header {\n\
        x-powered-by tests\n\
    }\n\
    ^ /api/ {\n\
        echo api ${request_path}\n\
        break on\n\
    }\n\
    $ .md {\n\
        echo markdown\n\
    }\n\
}\n\
server {\n\
    listen 81\n\
    echo fallback\n\
}\n\
";

#[test]
fn parse_and_dispatch() {
    let block = Block::from_str(CONFIG).unwrap();
    let configs = parse_server(&block, "/etc/conf").unwrap();
    assert_eq!(configs.len(), 2);
    assert_eq!(configs[0].listen, "0.0.0.0:80");
    assert_eq!(configs[1].listen, "0.0.0.0:81");
    assert_eq!(configs[0].sites.len(), 1);

    let site = configs[0].sites[0].clone();
    assert!(site.host.is_match("example.com"));
    assert!(!site.host.is_match("other.com"));
    assert_eq!(site.root, Some("/srv".to_string()));
    assert_eq!(site.location.len(), 2);

    // A request under /api/ answers from the first matching location.
    let (merged, decoded) = site.resolve("/api/v1");
    assert_eq!(decoded, "/api/v1");
    let req = request("GET", "/api/v1", None, vec![]);
    match dispatch(&merged, &req, "1.2.3.4") {
        Action::Echo(s) => assert_eq!(s, "api /api/v1"),
        other => panic!("expected an echo, got {:?}", other),
    }

    // A plain file request falls through to the filesystem under the root.
    let site2 = configs[0].sites[0].clone();
    let (merged2, _) = site2.resolve("/file.txt");
    let req2 = request("GET", "/file.txt", None, vec![]);
    match dispatch(&merged2, &req2, "1.2.3.4") {
        Action::Fs(path) => assert_eq!(path, "/srv/./file.txt"),
        other => panic!("expected a file path, got {:?}", other),
    }
}

#[test]
fn break_blocks_later_locations() {
    let block = Block::from_str(CONFIG).unwrap();
    let configs = parse_server(&block, "/etc/conf").unwrap();
    let site = configs[0].sites[0].clone();
    // /api/x.md matches both locations; break on the first hides the second.
    let (merged, _) = site.resolve("/api/x.md");
    let req = request("GET", "/api/x.md", None, vec![]);
    match dispatch(&merged, &req, "1.2.3.4") {
        Action::Echo(s) => assert_eq!(s, "api /api/x.md"),
        other => panic!("expected the api echo, got {:?}", other),
    }
}

#[test]
fn unknown_directive_is_refused() {
    let block = Block::from_str("server {\n listen 80\n bogus on\n}\n").unwrap();
    assert!(parse_server(&block, "/etc").is_err());
}

#[test]
fn missing_listen_is_refused() {
    let block = Block::from_str("server {\n echo hi\n}\n").unwrap();
    assert!(parse_server(&block, "/etc").is_err());
}

#[test]
fn parse_error_reports_line() {
    let err = Block::from_str("server {\n").unwrap_err();
    assert_eq!(err.to_text(), "[line: 1] Missing '}'");
    let err = Block::from_str("}\n").unwrap_err();
    assert_eq!(err.to_text(), "[line: 1] Redundant '}'");
}

#[test]
fn socket_addr_forms() {
    assert_eq!(to_socket_addr("80"), Some("0.0.0.0:80".to_string()));
    assert_eq!(to_socket_addr("0.0.0.0"), Some("0.0.0.0:80".to_string()));
    assert_eq!(to_socket_addr("0.0.0.0:80"), Some("0.0.0.0:80".to_string()));
    assert_eq!(to_socket_addr("err"), None);
}

#[test]
fn test_try_to_socket_addr() {
    assert_eq!(to_socket_addr("80").unwrap(), "0.0.0.0:80");
    assert_eq!(to_socket_addr("0.0.0.0").unwrap(), "0.0.0.0:80");
    assert_eq!(to_socket_addr("0.0.0.0:80").unwrap(), "0.0.0.0:80");
    assert!(to_socket_addr("err").is_none());
}

#[test]
fn proxy_plan_rewrites_request() {
    let text = "\
server {\n\
    listen 80\n\
    proxy {\n\
        url http://127.0.0.1:9000${request_uri}\n\
        method POST\n\
        header {\n\
            x-extra yes\n\
        }\n\
    }\n\
}\n\
";
    let block = Block::from_str(text).unwrap();
    let configs = parse_server(&block, "/etc").unwrap();
    let site = configs[0].sites[0].clone();
    let (merged, _) = site.resolve("/api/v1");
    let req = request("GET", "/api/v1", Some("x=1"), vec![("host", "example.com"), ("a", "b")]);
    match dispatch(&merged, &req, "1.2.3.4") {
        Action::Proxy(plan) => {
            assert_eq!(plan.url, "http://127.0.0.1:9000/api/v1?x=1");
            assert_eq!(plan.method, Some("POST".to_string()));
            assert_eq!(plan.timeout, 5000);
            assert!(plan.headers.iter().all(|h| !h.name.eq_ignore_ascii_case("host")));
            assert!(plan.headers.iter().any(|h| h.name == "a" && h.value == "b"));
            assert!(plan.headers.iter().any(|h| h.name == "x-extra" && h.value == "yes"));
        },
        other => panic!("expected a proxy plan, got {:?}", other),
    }
}

#[test]
fn log_and_compress_options() {
    let text = "\
server {\n\
    listen 80\n\
    compress {\n\
        mode gzip br\n\
        level best\n\
        extension html css\n\
    }\n\
    log {\n\
        mode stdout\n\
        format ${request_method}\n\
    }\n\
}\n\
";
    let block = Block::from_str(text).unwrap();
    let configs = parse_server(&block, "/etc").unwrap();
    let site = configs[0].sites[0].clone();
    match site.compress {
        Setting::Value(c) => {
            assert_eq!(
                c.modes,
                vec![
                    see::compress::ContentEncoding::Gzip(9),
                    see::compress::ContentEncoding::Br(9),
                ]
            );
            assert_eq!(c.extensions, vec!["html".to_string(), "css".to_string()]);
        },
        _ => panic!("compress must be set"),
    }
    match site.log {
        Setting::Value(lg) => {
            assert!(matches!(lg.output, LogOutput::Stdout));
            let req = request("GET", "/", None, vec![]);
            assert_eq!(lg.format_line(&req), "GET\n");
        },
        _ => panic!("log must be set"),
    }
}

#[test]
fn directory_listing_page() {
    let dir = see::options::Directory { time: None, size: true };
    let rows = vec![
        see::directory::DirRow {
            name: "sub".to_string(),
            is_dir: true,
            time: None,
            size: None,
        },
        see::directory::DirRow {
            name: "a.txt".to_string(),
            is_dir: false,
            time: None,
            size: Some(2048),
        },
    ];
    let html = dir.render(&rows, "/dir/");
    assert!(html.contains("<a href=\"../\">../</a>"));
    assert!(html.contains("<a href=\"sub/\">sub/</a>"));
    assert!(html.contains("<a href=\"a.txt\">a.txt</a>"));
    assert!(html.contains("<span>2.00 KB</span>"));
    assert!(html.contains("Index of /dir/"));
}

#[test]
fn mime_lookup_by_extension() {
    assert_eq!(see::dispatch::mime_from_extension("html"), "text/html");
    assert_eq!(see::dispatch::mime_from_extension("css"), "text/css");
    assert_eq!(
        see::dispatch::mime_from_extension("bin-unknown"),
        "application/octet-stream"
    );
}

#[test]
fn bad_time_format_is_refused() {
    let text = "server {\n listen 80\n directory {\n  time %QQQQ-\n }\n}\n";
    let block = Block::from_str(text).unwrap();
    assert!(parse_server(&block, "/etc").is_err());
}

#[test]
fn repeated_directive_is_refused() {
    let block = Block::from_str("server {\n listen 80\n echo a\n echo b\n}\n").unwrap();
    assert!(parse_server(&block, "/etc").is_err());
}

#[test]
fn block_language_shapes() {
    let text = "\
# comment line\n\
flag on\n\
feature off\n\
name value with spaces   # trailing comment\n\
bare\n\
outer {\n\
    inner {\n\
        deep 1\n\
    }\n\
}\n\
tagged v {\n\
    k w\n\
}\n\
";
    let block = Block::from_str(text).unwrap();
    assert_eq!(block.directives().len(), 6);
    assert!(block.get("flag").unwrap().is_on());
    assert!(block.get("feature").unwrap().is_off());
    assert_eq!(block.get("name").unwrap().as_source_str(), Some("value with spaces"));
    assert!(block.get("bare").unwrap().as_source_str().is_none());
    let outer = block.get("outer").unwrap().as_block().unwrap();
    let inner = outer.get("inner").unwrap().as_block().unwrap();
    assert_eq!(inner.get("deep").unwrap().as_source_str(), Some("1"));
    let (v, tb) = block.get("tagged").unwrap().as_value_block().unwrap();
    assert_eq!(v, "v");
    assert_eq!(tb.get("k").unwrap().as_source_str(), Some("w"));
    assert_eq!(block.get("tagged").unwrap().line(), 11);
}

#[test]
fn good_time_format_is_accepted() {
    let text = "server {\n listen 80\n directory {\n  time %Y-%m-%d %H:%M\n  size on\n }\n}\n";
    let block = Block::from_str(text).unwrap();
    let configs = parse_server(&block, "/etc").unwrap();
    match &configs[0].sites[0].directory {
        Setting::Value(d) => {
            assert_eq!(d.time.as_deref(), Some("%Y-%m-%d %H:%M"));
            assert!(d.size);
        },
        _ => panic!("directory must be set"),
    }
}

#[test]
fn proxy_timeout_beyond_five_digits() {
    let text = "server {\n listen 80\n proxy {\n  url http://u/\n  timeout 3600000\n }\n}\n";
    let block = Block::from_str(text).unwrap();
    let configs = parse_server(&block, "/etc").unwrap();
    match &configs[0].sites[0].proxy {
        Setting::Value(p) => assert_eq!(p.timeout, 3_600_000),
        _ => panic!("proxy must be set"),
    }
}

#[test]
fn listen_accepts_bracketed_addresses() {
    assert_eq!(to_socket_addr("[::1]:8080"), Some("[::1]:8080".to_string()));
    assert_eq!(to_socket_addr("[2001:db8::1]:80"), Some("[2001:db8::1]:80".to_string()));
    assert_eq!(to_socket_addr("[::1]"), None);
    assert_eq!(to_socket_addr("[zz]:80"), None);
}
