use valog::error::ParseError;
use valog::http::HttpRequest;
use valog::line::LogLine;
use valog::message::MessageFormat;
use valog::output::Output;
use valog::scan::{run, scan_file, scan_line, ScanState};
use valog::text::{chars_of, is_whitespace, trim_bounds};

const STORE_PAYLOAD: &str = "QueryName: [GetStore], URL [GET /store/v2/storefronts/abc], TraceID: [xyz123] Response Code: [200], Seconds Since Query [0.451]";

fn http_line(name: &str, trace: &str, seconds: &str) -> String {
    format!(
        "[2023.01.01-10.00.00:000][  1]LogPlatform: Platform HTTP Query End. QueryName: [{}], URL [GET https://example.net/{}], TraceID: [{}] Response Code: [200], Seconds Since Query [{}]",
        name, name, trace, seconds
    )
}

fn lines(v: &[&str]) -> Vec<String> {
    v.iter().map(|s| s.to_string()).collect()
}

#[test]
fn line_splits_time_thread_message() {
    let l = LogLine::new("[T][Thread]rest".to_string()).unwrap();
    assert_eq!(l.time, "T");
    assert_eq!(l.thread, "Thread");
    assert_eq!(l.message, "rest");
}

#[test]
fn line_keeps_brackets_in_message() {
    let l = LogLine::new("[2023.01.01][  7]Log: a ] b ]] c".to_string()).unwrap();
    assert_eq!(l.time, "2023.01.01");
    assert_eq!(l.thread, "  7");
    assert_eq!(l.message, "Log: a ] b ]] c");
}

#[test]
fn line_with_one_bracket_has_empty_thread_and_message() {
    let l = LogLine::new("[T]".to_string()).unwrap();
    assert_eq!(l.time, "T");
    assert_eq!(l.thread, "");
    assert_eq!(l.message, "");
}

#[test]
fn line_without_bracket_is_malformed() {
    assert!(matches!(LogLine::new("[no delimiter".to_string()), Err(ParseError::MalformedLine)));
}

#[test]
fn message_splits_at_first_colon() {
    let m = MessageFormat::new("Origin: payload:with:colons".to_string()).unwrap();
    assert_eq!(m.origin, "Origin");
    assert_eq!(m.data, "payload:with:colons");
}

#[test]
fn message_data_is_trimmed() {
    let m = MessageFormat::new("LogShooter:\t  Display: Branch: x  \u{a0}".to_string()).unwrap();
    assert_eq!(m.origin, "LogShooter");
    assert_eq!(m.data, "Display: Branch: x");
}

#[test]
fn message_without_colon_is_malformed() {
    assert!(matches!(
        MessageFormat::new("no delimiter here".to_string()),
        Err(ParseError::MalformedMessage)
    ));
}

#[test]
fn http_payload_yields_request() {
    let r = HttpRequest::new(STORE_PAYLOAD.to_string()).unwrap();
    assert_eq!(r.name, "GetStore");
    assert_eq!(r.method, "GET");
    assert_eq!(r.url, "/store/v2/storefronts/abc");
    assert_eq!(r.trace_id, "xyz123");
    assert_eq!(r.response_code, "200");
    assert_eq!(r.response_time, "0.451");
}

#[test]
fn http_payload_with_prefix_and_long_url() {
    let r = HttpRequest::new(
        "Platform HTTP Query End. QueryName: [Login], URL [POST https://a.b/c/d?e=f], TraceID: [T9] Response Code: [401], Seconds Since Query [12]"
            .to_string(),
    )
    .unwrap();
    assert_eq!(r.name, "Login");
    assert_eq!(r.method, "POST");
    assert_eq!(r.url, "https://a.b/c/d?e=f");
    assert_eq!(r.trace_id, "T9");
    assert_eq!(r.response_code, "401");
    assert_eq!(r.response_time, "12");
}

#[test]
fn http_payload_off_grammar_is_rejected() {
    assert!(matches!(
        HttpRequest::new("Platform HTTP Query Start. QueryName: [GetStore]".to_string()),
        Err(ParseError::UnrecognizedHttpFormat)
    ));
}

#[test]
fn request_from_groups() {
    let g = vec![
        Some("whole".to_string()),
        Some("N".to_string()),
        Some("GET".to_string()),
        Some("/u".to_string()),
        Some("t".to_string()),
        Some("204".to_string()),
        Some("1.5".to_string()),
    ];
    let r = HttpRequest::from_captures(Some(g)).unwrap();
    assert_eq!(r.name, "N");
    assert_eq!(r.method, "GET");
    assert_eq!(r.url, "/u");
    assert_eq!(r.trace_id, "t");
    assert_eq!(r.response_code, "204");
    assert_eq!(r.response_time, "1.5");
}

#[test]
fn request_from_missing_groups_is_rejected() {
    assert!(matches!(HttpRequest::from_captures(None), Err(ParseError::UnrecognizedHttpFormat)));
    let short = vec![Some("whole".to_string()), Some("N".to_string())];
    assert!(matches!(
        HttpRequest::from_captures(Some(short)),
        Err(ParseError::UnrecognizedHttpFormat)
    ));
    let mut holes: Vec<Option<String>> = (0..7).map(|i| Some(i.to_string())).collect();
    holes[4] = None;
    assert!(matches!(
        HttpRequest::from_captures(Some(holes)),
        Err(ParseError::UnrecognizedHttpFormat)
    ));
}

#[test]
fn warning_payload_is_skipped() {
    let mut out = Output::new();
    let line = "[T][1]LogPlatform: Warning: Platform HTTP request was slow";
    let s = scan_line(ScanState::InLog, &mut out, &line.to_string()).unwrap();
    assert_eq!(s, ScanState::InLog);
    assert!(out.endpoints.is_empty());
    assert_eq!(out.version, "unknown");
}

#[test]
fn later_request_replaces_earlier() {
    let file = vec![
        "LogInit: Engine startup".to_string(),
        http_line("GetStore", "first", "0.1"),
        http_line("Other", "x", "2.0"),
        http_line("GetStore", "second", "0.9"),
    ];
    let out = run(&vec![file]).unwrap();
    assert_eq!(out.endpoints.len(), 2);
    let store: Vec<&HttpRequest> = out.endpoints.iter().filter(|r| r.name == "GetStore").collect();
    assert_eq!(store.len(), 1);
    assert_eq!(store[0].trace_id, "second");
    assert_eq!(store[0].response_time, "0.9");
}

#[test]
fn first_version_wins_across_files() {
    let a = lines(&[
        "LogInit: banner",
        "[T][1]LogShooter: Display: Branch:  release-06.00  ",
        "[T][1]LogShooter: Display: Branch: release-07.00",
    ]);
    let b = lines(&["LogInit: banner", "[T][1]LogShooter: Display: Branch: release-08.00"]);
    let out = run(&vec![a, b]).unwrap();
    assert_eq!(out.version, "release-06.00");
}

#[test]
fn version_is_all_after_first_branch() {
    let a = lines(&["LogInit", "[T][1]LogShooter: Display: Branch: a Branch: b"]);
    let out = run(&vec![a]).unwrap();
    assert_eq!(out.version, "a Branch: b");
}

#[test]
fn version_needs_shooter_origin() {
    let a = lines(&["LogInit", "[T][1]LogOther: Display: Branch: x"]);
    let out = run(&vec![a]).unwrap();
    assert_eq!(out.version, "unknown");
}

#[test]
fn no_files_give_empty_output() {
    let out = run(&Vec::new()).unwrap();
    assert!(out.endpoints.is_empty());
    assert_eq!(out.version, "unknown");
    assert_eq!(out.to_json(), "{\"endpoints\":{},\"version\":\"unknown\"}");
}

#[test]
fn files_without_banner_give_empty_output() {
    let a = vec![http_line("GetStore", "t", "0.1"), "plain text".to_string()];
    let b = lines(&["[T][1]LogShooter: Display: Branch: x"]);
    let out = run(&vec![a, b]).unwrap();
    assert!(out.endpoints.is_empty());
    assert_eq!(out.version, "unknown");
}

#[test]
fn bracketed_lines_before_banner_are_ignored() {
    let file = vec![
        "[T][1]no delimiter in this message".to_string(),
        "LogInit: up".to_string(),
        http_line("GetStore", "t", "0.1"),
    ];
    let out = run(&vec![file]).unwrap();
    assert_eq!(out.endpoints.len(), 1);
}

#[test]
fn malformed_lines_abort_the_run() {
    let bad_msg = lines(&["LogInit", "[T][1]no delimiter in this message"]);
    assert!(matches!(run(&vec![bad_msg]), Err(ParseError::MalformedMessage)));
    let bad_http = lines(&["LogInit", "[T][1]LogPlatform: Platform HTTP oops"]);
    assert!(matches!(run(&vec![bad_http]), Err(ParseError::UnrecognizedHttpFormat)));
    let mut out = Output::new();
    assert!(matches!(
        scan_line(ScanState::InLog, &mut out, &"[no closing bracket".to_string()),
        Err(ParseError::MalformedLine)
    ));
}

#[test]
fn banner_state_is_per_file() {
    let a = lines(&["LogInit"]);
    let b = vec![http_line("GetStore", "t", "0.1")];
    let mut out = Output::new();
    scan_file(&mut out, &a).unwrap();
    scan_file(&mut out, &b).unwrap();
    assert!(out.endpoints.is_empty());
}

#[test]
fn json_document_exact() {
    let file = vec![
        "LogInit".to_string(),
        "[T][1]LogShooter: Display: Branch: rel \"7\"".to_string(),
        http_line("A", "t1", "0.5"),
        http_line("B", "t2", "1"),
    ];
    let out = run(&vec![file]).unwrap();
    let expected = "{\"endpoints\":{\"A\":{\"name\":\"A\",\"url\":\"https://example.net/A\",\"method\":\"GET\",\"trace_id\":\"t1\",\"response_code\":\"200\",\"response_time\":\"0.5\"},\"B\":{\"name\":\"B\",\"url\":\"https://example.net/B\",\"method\":\"GET\",\"trace_id\":\"t2\",\"response_code\":\"200\",\"response_time\":\"1\"}},\"version\":\"rel \\\"7\\\"\"}";
    assert_eq!(out.to_json(), expected);
}

#[test]
fn rerun_gives_identical_document() {
    let file = vec![
        "LogInit".to_string(),
        http_line("C", "t", "0.1"),
        http_line("A", "t", "0.2"),
        http_line("B", "t", "0.3"),
    ];
    let files = vec![file.clone(), file];
    let first = run(&files).unwrap().to_json();
    let second = run(&files).unwrap().to_json();
    assert_eq!(first, second);
}

#[test]
fn whitespace_and_trim() {
    assert!(is_whitespace('\u{3000}'));
    assert!(is_whitespace('\n'));
    assert!(!is_whitespace('x'));
    for c in ['\t', ' ', '\u{85}', '\u{a0}', '\u{2009}', '\u{2028}', 'a', '\u{200b}'] {
        assert_eq!(is_whitespace(c), c.is_whitespace());
    }
    let cs = chars_of("  ab c \t");
    assert_eq!(trim_bounds(&cs, 0, cs.len()), (2, 6));
    assert_eq!(trim_bounds(&cs, 4, 5), (5, 5));
}
