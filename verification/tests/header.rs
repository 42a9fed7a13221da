use httpmark::cli::Args;
use httpmark::header::{compare_header_lines, decimal_text, rule_text};

fn settings(url: &str, qps: u64, ramp: u64, http2: bool, json: bool) -> Args {
    Args {
        url: url.to_string(),
        connections: 50,
        duration: 30,
        qps,
        ramp,
        threads: None,
        headers: Vec::new(),
        method: "GET".to_string(),
        body: None,
        content_type: "application/json".to_string(),
        tls_skip_verify: false,
        http2,
        json,
        csv_interval: 0,
        compare: None,
    }
}

fn column_titles() -> String {
    format!(
        "  {:<8}  {:>10}  {:>10}  {:>10}  {:>10}  {:>10}",
        "t(s)", "req/s", "2xx/s", "errors/s", "MB/s", "~latency"
    )
}

#[test]
fn decimal_text_writes_numbers_as_display_does() {
    for n in [0u64, 7, 10, 99, 100, 1234567, u64::MAX] {
        assert_eq!(decimal_text(n), format!("{n}"));
    }
}

#[test]
fn rule_text_repeats_the_dash() {
    assert_eq!(rule_text(0), "");
    assert_eq!(rule_text(3), "───");
    assert_eq!(rule_text(72), "─".repeat(72));
}

#[test]
fn header_is_empty_in_json_mode() {
    let a = settings("http://localhost:8080/", 100, 5, false, true);
    assert!(a.header_lines("0.1.0").is_empty());
}

#[test]
fn header_without_rate_or_ramp() {
    let a = settings("http://localhost:8080/", 0, 0, false, false);
    let expected = vec![
        String::new(),
        "  httpmark v0.1.0".to_string(),
        "  URL          : http://localhost:8080/".to_string(),
        "  Connections  : 50".to_string(),
        "  Duration     : 30s".to_string(),
        "  HTTP/2       : no".to_string(),
        String::new(),
        column_titles(),
        format!("  {}", "─".repeat(72)),
    ];
    assert_eq!(a.header_lines("0.1.0"), expected);
}

#[test]
fn header_with_rate_ramp_and_http2() {
    let a = settings("https://example.com/api", 2500, 10, true, false);
    let expected = vec![
        String::new(),
        "  httpmark v1.2.3".to_string(),
        "  URL          : https://example.com/api".to_string(),
        "  Connections  : 50".to_string(),
        "  Duration     : 30s".to_string(),
        "  Target QPS   : 2500".to_string(),
        "  Ramp         : 10s".to_string(),
        "  HTTP/2       : yes".to_string(),
        String::new(),
        column_titles(),
        format!("  {}", "─".repeat(72)),
    ];
    assert_eq!(a.header_lines("1.2.3"), expected);
}

#[test]
fn compare_header_names_both_targets() {
    let a = settings("http://a.local/", 300, 4, true, false);
    let b = settings("http://b.local/", 0, 0, false, false);
    let expected = vec![
        String::new(),
        "  httpmark v0.1.0  —  COMPARE MODE".to_string(),
        "  A : http://a.local/".to_string(),
        "  B : http://b.local/".to_string(),
        "  Connections per target : 50".to_string(),
        "  Duration               : 30s".to_string(),
        "  Target QPS             : 300".to_string(),
        "  HTTP/2                 : yes".to_string(),
        String::new(),
        "  Running both benchmarks in parallel...".to_string(),
        String::new(),
    ];
    assert_eq!(compare_header_lines(&a, &b, "0.1.0"), expected);
}

#[test]
fn compare_header_without_rate() {
    let a = settings("http://a.local/", 0, 0, false, false);
    let b = settings("http://b.local/", 0, 0, false, false);
    let lines = compare_header_lines(&a, &b, "0.1.0");
    assert_eq!(lines.len(), 10);
    assert_eq!(lines[6], "  HTTP/2                 : no");
}
