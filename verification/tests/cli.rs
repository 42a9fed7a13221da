use httpmark::cli::{check_args, method_or_get, split_header_line, Args, ArgsError, RequestBody};
use httpmark::text::{same_text, trim};

fn args_with(method: &str, headers: &[&str], body: Option<&str>) -> Args {
    Args {
        url: "http://localhost:8080/".to_string(),
        connections: 10,
        duration: 10,
        qps: 0,
        ramp: 0,
        threads: None,
        headers: headers.iter().map(|h| h.to_string()).collect(),
        method: method.to_string(),
        body: body.map(|b| b.to_string()),
        content_type: "application/json".to_string(),
        tls_skip_verify: false,
        http2: false,
        json: false,
        csv_interval: 0,
        compare: None,
    }
}

fn pairs(v: Vec<(String, String)>) -> Vec<(String, String)> {
    v
}

fn p(a: &str, b: &str) -> (String, String) {
    (a.to_string(), b.to_string())
}

#[test]
fn default_settings_are_accepted_unchanged() {
    let a = Args::parse_and_validate(args_with("GET", &[], None));
    match a {
        Ok(a) => {
            assert_eq!(a.method, "GET");
            assert_eq!(a.connections, 10);
            assert_eq!(a.duration, 10);
        }
        Err(_) => panic!("default settings refused"),
    }
}

#[test]
fn zero_connections_are_refused() {
    let mut a = args_with("GET", &[], None);
    a.connections = 0;
    a.duration = 0;
    a.method = "BREW".to_string();
    match Args::parse_and_validate(a) {
        Err(e) => {
            assert!(matches!(e, ArgsError::NoConnections));
            assert_eq!(e.message(), "--connections must be >= 1");
        }
        Ok(_) => panic!("accepted"),
    }
}

#[test]
fn zero_duration_is_refused() {
    let mut a = args_with("brew", &[], None);
    a.duration = 0;
    match Args::parse_and_validate(a) {
        Err(e) => {
            assert!(matches!(e, ArgsError::NoDuration));
            assert_eq!(e.message(), "--duration must be >= 1");
        }
        Ok(_) => panic!("accepted"),
    }
}

#[test]
fn unknown_method_is_refused_with_its_spelling() {
    match Args::parse_and_validate(args_with("brew", &[], None)) {
        Err(e) => {
            assert!(matches!(&e, ArgsError::UnsupportedMethod(m) if m == "brew"));
            assert_eq!(e.message(), "unsupported method: brew");
        }
        Ok(_) => panic!("accepted"),
    }
    for m in ["TRACE", "CONNECT", "", "GET ", "QUERY", "PATCH", "patch"] {
        assert!(Args::parse_and_validate(args_with(m, &[], None)).is_err(), "{m}");
    }
}

#[test]
fn methods_are_checked_in_any_case() {
    for m in ["get", "Post", "pUt", "delete", "HEAD", "options"] {
        assert!(Args::parse_and_validate(args_with(m, &[], None)).is_ok(), "{m}");
    }
}

#[test]
fn accepted_method_is_sent_in_upper_case() {
    for (m, sent) in [("get", "GET"), ("Post", "POST"), ("options", "OPTIONS"), ("delete", "DELETE")] {
        let a = Args::parse_and_validate(args_with(m, &[], None)).ok().unwrap();
        assert_eq!(a.method_http(), sent);
    }
}

#[test]
fn invalid_method_name_is_sent_as_get() {
    assert_eq!(args_with("bad method", &[], None).method_http(), "GET");
    assert_eq!(args_with("", &[], None).method_http(), "GET");
    assert_eq!(args_with("caf\u{e9}", &[], None).method_http(), "GET");
    assert_eq!(args_with("brew", &[], None).method_http(), "BREW");
    assert_eq!(args_with("m-search", &[], None).method_http(), "M-SEARCH");
    assert_eq!(args_with("patch", &[], None).method_http(), "PATCH");
}

#[test]
fn headers_are_split_at_first_colon_and_trimmed() {
    let a = args_with(
        "GET",
        &["X-API-Key: secret", "  Host :  example.com:8080  ", "NoColon", ":empty name", "Empty:"],
        None,
    );
    assert_eq!(
        pairs(a.parsed_headers()),
        vec![
            p("X-API-Key", "secret"),
            p("Host", "example.com:8080"),
            p("", "empty name"),
            p("Empty", ""),
        ]
    );
}

#[test]
fn no_headers_give_no_pairs() {
    assert!(args_with("GET", &[], None).parsed_headers().is_empty());
    assert!(args_with("GET", &["", "plain"], None).parsed_headers().is_empty());
}

#[test]
fn header_trim_uses_unicode_white_space() {
    let a = args_with("GET", &["\tName\u{a0}:\u{3000}value\r\n", "\u{85}A\u{2028}:\u{200a}b\u{205f}"], None);
    assert_eq!(pairs(a.parsed_headers()), vec![p("Name", "value"), p("A", "b")]);
    assert_eq!(trim("\u{1c}x\u{200b}"), "\u{1c}x\u{200b}");
}

#[test]
fn split_header_line_examples() {
    assert_eq!(split_header_line("a:b:c"), Some(p("a", "b:c")));
    assert_eq!(split_header_line("abc"), None);
    assert_eq!(split_header_line(":"), Some(p("", "")));
}

#[test]
fn trim_examples() {
    assert_eq!(trim("  hello \t"), "hello");
    assert_eq!(trim("\n\r "), "");
    assert_eq!(trim("a b"), "a b");
    assert_eq!(trim(""), "");
    assert_eq!(trim(&trim(" x ")), "x");
}

#[test]
fn same_text_examples() {
    assert!(same_text("GET", "GET"));
    assert!(!same_text("GET", "get"));
    assert!(!same_text("GET", "GETS"));
    assert!(same_text("", ""));
}

#[test]
fn body_source_from_prefix() {
    assert!(matches!(args_with("POST", &[], None).request_body(), RequestBody::Empty));
    match args_with("POST", &[], Some("@/tmp/body.json")).request_body() {
        RequestBody::File(path) => assert_eq!(path, "/tmp/body.json"),
        _ => panic!("not a file"),
    }
    match args_with("POST", &[], Some("{\"name\":\"test\"}")).request_body() {
        RequestBody::Text(t) => assert_eq!(t, "{\"name\":\"test\"}"),
        _ => panic!("not text"),
    }
    match args_with("POST", &[], Some("")).request_body() {
        RequestBody::Text(t) => assert_eq!(t, ""),
        _ => panic!("not text"),
    }
}

#[test]
fn content_type_follows_a_body() {
    let with = args_with("POST", &["A: 1"], Some("x"));
    assert_eq!(with.request_headers(), vec![p("A", "1"), p("content-type", "application/json")]);
    let without = args_with("GET", &["A: 1"], None);
    assert_eq!(without.request_headers(), vec![p("A", "1")]);
}

#[test]
fn method_or_get_keeps_valid_names() {
    assert_eq!(method_or_get("PATCH"), "PATCH");
    assert_eq!(method_or_get("X-CUSTOM_1.0"), "X-CUSTOM_1.0");
    assert_eq!(method_or_get("A VERY LONG METHOD NAME"), "GET");
    assert_eq!(method_or_get("ABCDEFGHIJKLMNOPQRSTUVWXYZ"), "ABCDEFGHIJKLMNOPQRSTUVWXYZ");
    assert_eq!(method_or_get("GET\n"), "GET");
    assert_eq!(method_or_get("(GET)"), "GET");
}

#[test]
fn check_args_uses_the_given_upper_case() {
    assert!(check_args(args_with("whatever", &[], None), "DELETE").is_ok());
    assert!(matches!(check_args(args_with("delete", &[], None), "delete"), Err(ArgsError::UnsupportedMethod(m)) if m == "delete"));
}
