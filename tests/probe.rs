use http_probe::response::{build_request, split_lines, split_results, target_address, HttpReturn};
use http_probe::stats::{aggregate, AggregateStats, ProbeError};
use http_probe::status::{is_space_char, status_code};
use http_probe::text::chars_of;
use http_probe::url::parsr_url;

fn probe(status: &str, time: u128, size: usize) -> HttpReturn {
    HttpReturn {
        headers: vec![status.to_string(), "Content-Length: 0".to_string()],
        body: String::new(),
        total_time: time,
        response_size: size,
    }
}

#[test]
fn url_with_path() {
    let (host, path) = parsr_url("example.com/a/b".to_string());
    assert_eq!(host, "example.com");
    assert_eq!(path, "a/b");
}

#[test]
fn url_without_path() {
    let (host, path) = parsr_url("example.com".to_string());
    assert_eq!(host, "example.com");
    assert_eq!(path, "");
}

#[test]
fn url_empty_and_trailing_slash() {
    assert_eq!(parsr_url(String::new()), (String::new(), String::new()));
    assert_eq!(parsr_url("host/".to_string()), ("host".to_string(), String::new()));
    assert_eq!(parsr_url("/x".to_string()), (String::new(), "x".to_string()));
}

#[test]
fn chars_in_order() {
    assert_eq!(chars_of("aé/"), vec!['a', 'é', '/']);
}

#[test]
fn response_with_blank_line() {
    let r = HttpReturn::from_raw("HTTP/1.0 200 OK\r\nContent-Length: 2\r\n\r\nhi", 7);
    assert_eq!(r.headers, vec!["HTTP/1.0 200 OK".to_string(), "Content-Length: 2".to_string()]);
    assert_eq!(r.body, "hi");
    assert_eq!(r.total_time, 7);
    assert_eq!(r.response_size, 40);
}

#[test]
fn response_without_blank_line() {
    let r = HttpReturn::from_raw("HTTP/1.0 200 OK\r\nServer: x", 1);
    assert_eq!(r.headers, vec!["HTTP/1.0 200 OK".to_string(), "Server: x".to_string()]);
    assert_eq!(r.body, "");
}

#[test]
fn body_lines_joined_without_separators() {
    let r = HttpReturn::from_raw("HTTP/1.0 200 OK\r\n\r\nab\r\n\r\ncd", 1);
    assert_eq!(r.headers, vec!["HTTP/1.0 200 OK".to_string()]);
    assert_eq!(r.body, "abcd");
}

#[test]
fn response_size_counts_bytes() {
    let r = HttpReturn::from_raw("é", 1);
    assert_eq!(r.response_size, 2);
    assert_eq!(r.headers, vec!["é".to_string()]);
}

#[test]
fn lines_split_on_crlf() {
    assert_eq!(split_lines(""), vec![String::new()]);
    assert_eq!(split_lines("a\r\n"), vec!["a".to_string(), String::new()]);
    assert_eq!(split_lines("a\rb\nc\r\nd"), vec!["a\rb\nc".to_string(), "d".to_string()]);
    assert_eq!(split_lines("\r\r\n"), vec!["\r".to_string(), String::new()]);
}

#[test]
fn split_results_of_lines() {
    let (h, b) = split_results(vec!["HTTP/1.0 404 Not Found", "X: y", "", "one", "", "two"]);
    assert_eq!(h, vec!["HTTP/1.0 404 Not Found".to_string(), "X: y".to_string()]);
    assert_eq!(b, "onetwo");
    let (h, b) = split_results(vec!["a", "b"]);
    assert_eq!(h, vec!["a".to_string(), "b".to_string()]);
    assert_eq!(b, "");
    let (h, b) = split_results(Vec::new());
    assert!(h.is_empty());
    assert_eq!(b, "");
}

#[test]
fn request_text() {
    assert_eq!(
        build_request("example.com", "a/b"),
        "GET /a/b HTTP/1.0\r\nHost: example.com:80\r\nConnection: close\r\n\r\n"
    );
    assert_eq!(
        build_request("h", ""),
        "GET / HTTP/1.0\r\nHost: h:80\r\nConnection: close\r\n\r\n"
    );
    assert_eq!(target_address("example.com"), "example.com:80");
}

#[test]
fn status_code_is_second_token() {
    assert_eq!(status_code(&vec!["HTTP/1.0 200 OK".to_string()]), Some("200".to_string()));
    assert_eq!(status_code(&vec!["  HTTP/1.1\t404  Not Found".to_string()]), Some("404".to_string()));
    assert_eq!(status_code(&vec!["HTTP/1.0 301".to_string()]), Some("301".to_string()));
    assert_eq!(status_code(&vec!["HTTP/1.0".to_string()]), None);
    assert_eq!(status_code(&vec!["   ".to_string()]), None);
    assert_eq!(status_code(&Vec::new()), None);
}

#[test]
fn white_space_matches_std() {
    for c in ['\t', '\n', ' ', '\u{85}', '\u{A0}', '\u{2003}', '\u{3000}', 'a', '0', '\u{200B}'] {
        assert_eq!(is_space_char(c), c.is_whitespace());
    }
}

#[test]
fn aggregate_counts_successes() {
    let outcomes = vec![
        Ok(probe("HTTP/1.0 200 OK", 50, 10)),
        Err(ProbeError::Connection),
        Ok(probe("HTTP/1.0 200 OK", 20, 30)),
        Ok(HttpReturn { headers: Vec::new(), body: String::new(), total_time: 1, response_size: 1 }),
        Ok(probe("HTTP/1.0 500 Oops", 70, 20)),
    ];
    let s = aggregate(&outcomes);
    assert_eq!(s.latencies, vec![50, 20, 70]);
    assert_eq!(s.failures, 2);
    assert_eq!(s.fastest, 20);
    assert_eq!(s.slowest, 70);
    assert_eq!(s.size_min, 10);
    assert_eq!(s.size_max, 30);
    for l in &s.latencies {
        assert!(s.fastest <= *l && *l <= s.slowest);
    }
}

#[test]
fn mixed_results_summary() {
    let outcomes = vec![
        Ok(probe("HTTP/1.0 200 OK", 10, 5)),
        Ok(probe("HTTP/1.0 200 OK", 30, 9)),
        Err(ProbeError::Read),
        Ok(probe("HTTP/1.0 200 OK", 20, 7)),
    ];
    let sum = aggregate(&outcomes).summary().unwrap();
    assert_eq!(sum.successes, 3);
    assert_eq!(sum.fastest, 10);
    assert_eq!(sum.slowest, 30);
    assert_eq!(sum.mean, 20);
    assert_eq!(sum.median, 20);
    assert_eq!(sum.size_min, 5);
    assert_eq!(sum.size_max, 9);
    assert_eq!(sum.ok_responses, 3);
}

#[test]
fn even_count_median_is_upper_middle() {
    let outcomes = vec![
        Ok(probe("HTTP/1.0 200 OK", 40, 1)),
        Ok(probe("HTTP/1.0 200 OK", 10, 1)),
        Ok(probe("HTTP/1.0 200 OK", 30, 1)),
        Ok(probe("HTTP/1.0 200 OK", 20, 1)),
    ];
    let sum = aggregate(&outcomes).summary().unwrap();
    assert_eq!(sum.median, 30);
    assert_eq!(sum.mean, 25);
}

#[test]
fn all_failures_give_no_summary() {
    let mut stats = AggregateStats::new();
    for _ in 0..5 {
        assert_eq!(stats.record(&Err(ProbeError::Connection)), Err(ProbeError::Connection));
    }
    assert_eq!(stats.failures, 5);
    assert!(stats.latencies.is_empty());
    assert!(stats.summary().is_none());
}

#[test]
fn status_code_tally() {
    let outcomes = vec![
        Ok(probe("HTTP/1.0 200 OK", 1, 1)),
        Ok(probe("HTTP/1.0 200 OK", 2, 1)),
        Ok(probe("HTTP/1.0 404 Not Found", 3, 1)),
    ];
    let sum = aggregate(&outcomes).summary().unwrap();
    let mut table = sum.status_counts.clone();
    table.sort();
    assert_eq!(table, vec![("200".to_string(), 2), ("404".to_string(), 1)]);
    assert_eq!(sum.ok_responses, 2);
}

#[test]
fn no_ok_responses() {
    let outcomes = vec![Ok(probe("HTTP/1.0 404 Not Found", 3, 1))];
    let sum = aggregate(&outcomes).summary().unwrap();
    assert_eq!(sum.ok_responses, 0);
    assert_eq!(sum.status_counts, vec![("404".to_string(), 1)]);
}

#[test]
fn malformed_status_line_is_a_failure() {
    let mut stats = AggregateStats::new();
    let empty = HttpReturn { headers: Vec::new(), body: String::new(), total_time: 5, response_size: 3 };
    assert_eq!(stats.record_probe(&empty), Err(ProbeError::MalformedResponse));
    let short = probe("garbage", 5, 3);
    assert_eq!(stats.record_probe(&short), Err(ProbeError::MalformedResponse));
    assert_eq!(stats.failures, 2);
    assert!(stats.latencies.is_empty());
    assert!(stats.status_counts.is_empty());
    assert_eq!(stats.record_probe(&probe("HTTP/1.0 200 OK", 9, 4)), Ok(()));
    assert_eq!(stats.latencies, vec![9]);
    assert_eq!(stats.total, 9);
}
