use velora::attempt::{is_retryable_status, is_success, AttemptFailure};
use velora::headers::{apply_headers, has_header, override_user_agent, parse_headers, resolve_user_agent, Header,
    DEFAULT_USER_AGENT};
use velora::models::HeaderTable;
use velora::responses::{add_range, describe_failure, explain_failure, parse_number, remote_length};

fn table(entries: &[(&str, &str)]) -> HeaderTable {
    let mut t = HeaderTable::new();
    for (name, value) in entries {
        t.insert(name.to_string(), value.to_string());
    }
    t
}

fn list(entries: &[(&str, &str)]) -> Vec<Header> {
    entries.iter().map(|(n, v)| Header { name: n.to_string(), value: v.to_string() }).collect()
}

fn pairs(hs: &Vec<Header>) -> Vec<(String, String)> {
    hs.iter().map(|h| (h.name.clone(), h.value.clone())).collect()
}

fn owned(entries: &[(&str, &str)]) -> Vec<(String, String)> {
    entries.iter().map(|(n, v)| (n.to_string(), v.to_string())).collect()
}

#[test]
fn fit_headers_are_sent_in_lower_case() {
    let parsed = parse_headers(&table(&[("User-Agent", "Mozilla/5.0"), ("Accept", "*/*")]), "plan");
    assert_eq!(pairs(&parsed.headers), owned(&[("user-agent", "Mozilla/5.0"), ("accept", "*/*")]));
    assert!(parsed.has_user_agent);
    assert!(parsed.warnings.is_empty());
}

#[test]
fn unfit_headers_are_warned_about() {
    let parsed = parse_headers(
        &table(&[("bad name", "x"), ("X-Ok", "\u{e9}\t!"), ("X-Bad", "a\nb"), ("", "y"), ("n\u{e4}me", "\u{0}")]),
        "task",
    );
    assert_eq!(pairs(&parsed.headers), owned(&[("x-ok", "\u{e9}\t!")]));
    assert!(!parsed.has_user_agent);
    let told: Vec<(String, String, String, String)> = parsed
        .warnings
        .iter()
        .map(|w| (w.scope.clone(), w.key.clone(), w.value.clone(), w.message.clone()))
        .collect();
    let name = "Invalid header name dropped: invalid HTTP header name".to_string();
    let value = "Invalid header value dropped: failed to parse header value".to_string();
    let scope = "task".to_string();
    assert_eq!(
        told,
        vec![
            (scope.clone(), "bad name".to_string(), "x".to_string(), name.clone()),
            (scope.clone(), "X-Bad".to_string(), "a\nb".to_string(), value),
            (scope.clone(), String::new(), "y".to_string(), name.clone()),
            (scope, "n\u{e4}me".to_string(), "\u{0}".to_string(), name),
        ]
    );
}

fn may_stand_in_a_name(c: char) -> bool {
    c.is_ascii_alphanumeric() || "!#$%&'*+-.^_`|~".contains(c)
}

#[test]
fn every_character_of_a_name_is_judged_alone() {
    for code in 0..=0x3ffu32 {
        let c = char::from_u32(code).unwrap();
        let name = format!("a{}", c);
        let parsed = parse_headers(&table(&[(name.as_str(), "v")]), "plan");
        assert_eq!(parsed.headers.len() == 1, may_stand_in_a_name(c), "{:?}", c);
        if parsed.headers.len() == 1 {
            assert_eq!(parsed.headers[0].name, name.to_ascii_lowercase());
        }
    }
}

#[test]
fn long_names_keep_to_the_same_rules() {
    for length in [1usize, 63, 64, 65, 100, 4_000, 65_535] {
        let name = "X".repeat(length);
        let parsed = parse_headers(&table(&[(name.as_str(), "v")]), "plan");
        assert_eq!(parsed.headers.len(), 1, "{}", length);
        assert_eq!(parsed.headers[0].name, name.to_ascii_lowercase());
        let mut spoilt = name.clone();
        spoilt.replace_range(length - 1..length, "\"");
        assert_eq!(parse_headers(&table(&[(spoilt.as_str(), "v")]), "plan").headers.len(), 0);
    }
    let name = "x".repeat(65_536);
    assert_eq!(parse_headers(&table(&[(name.as_str(), "v")]), "plan").headers.len(), 0);
}

#[test]
fn every_character_of_a_value_is_judged_alone() {
    for code in 0..=0x3ffu32 {
        let c = char::from_u32(code).unwrap();
        let value = format!("a{}b", c);
        let parsed = parse_headers(&table(&[("n", value.as_str())]), "plan");
        let fit = c == '\t' || (code >= 32 && code != 127);
        assert_eq!(parsed.headers.len() == 1, fit, "{:?}", c);
        if fit {
            assert_eq!(parsed.headers[0].value, value);
        }
    }
}

#[test]
fn standard_names_are_known_in_any_case() {
    for name in ["RANGE", "Range", "range"] {
        let parsed = parse_headers(&table(&[(name, "bytes=0-1")]), "task");
        assert!(has_header(&parsed.headers, "range"));
        assert!(!has_header(&parsed.headers, "rang"));
    }
}

#[test]
fn a_task_replaces_what_the_plan_gives() {
    let sent = apply_headers(
        &list(&[("accept", "plan"), ("x-plan", "1")]),
        &list(&[("accept", "task"), ("x-task", "2")]),
        "Velora/2",
    );
    assert_eq!(
        pairs(&sent),
        owned(&[
            ("x-plan", "1"),
            ("accept", "task"),
            ("x-task", "2"),
            ("user-agent", "Velora/2"),
            ("accept-encoding", "identity"),
        ])
    );
}

#[test]
fn named_agents_and_encodings_stay() {
    let sent = apply_headers(&list(&[("user-agent", "P")]), &list(&[("accept-encoding", "gzip")]), "D");
    assert_eq!(pairs(&sent), owned(&[("user-agent", "P"), ("accept-encoding", "gzip")]));
    let sent = apply_headers(&list(&[("accept-encoding", "br"), ("user-agent", "P")]), &list(&[("user-agent", "T")]), "D");
    assert_eq!(pairs(&sent), owned(&[("accept-encoding", "br"), ("user-agent", "T")]));
}

#[test]
fn a_plan_sets_a_user_agent_that_is_fit() {
    assert_eq!(DEFAULT_USER_AGENT, "Velora/2");
    assert_eq!(resolve_user_agent(&None), None);
    assert_eq!(resolve_user_agent(&Some("Agent/1".to_string())).as_deref(), Some("Agent/1"));
    assert_eq!(resolve_user_agent(&Some(" Agent/1 ".to_string())).as_deref(), Some(" Agent/1 "));
    assert_eq!(resolve_user_agent(&Some(" \t".to_string())), None);
    assert_eq!(resolve_user_agent(&Some("a\r\nb".to_string())), None);
}

#[test]
fn a_set_user_agent_overrides_the_plan_s_header() {
    let given = [("accept", "*/*"), ("user-agent", "Header/1")];
    let (headers, agent) = override_user_agent(list(&given), &Some("Field/2".to_string()));
    assert_eq!(pairs(&headers), owned(&[("accept", "*/*")]));
    assert_eq!(agent, "Field/2");
    let (headers, agent) = override_user_agent(list(&given), &Some(" ".to_string()));
    assert_eq!(pairs(&headers), owned(&given));
    assert_eq!(agent, "Velora/2");
    let (headers, agent) = override_user_agent(list(&given), &None);
    assert_eq!(pairs(&headers), owned(&given));
    assert_eq!(agent, "Velora/2");
}

#[test]
fn a_resumed_request_asks_for_the_rest() {
    assert_eq!(pairs(&add_range(list(&[("a", "b")]), 0)), owned(&[("a", "b")]));
    assert_eq!(
        pairs(&add_range(list(&[("a", "b")]), 1_048_576)),
        owned(&[("a", "b"), ("range", "bytes=1048576-")])
    );
    assert_eq!(pairs(&add_range(vec![], u64::MAX)), owned(&[("range", "bytes=18446744073709551615-")]));
}

#[test]
fn numerals_are_read_as_the_standard_library_reads_them() {
    let samples = [
        "", "+", "-", "0", "00", "+0", "-0", "7", "+7", "++7", "7+", " 7", "7 ", "12a", "a", "1e3", "0x10", "1_000",
        "18446744073709551615", "18446744073709551616", "+18446744073709551615", "99999999999999999999999",
        "000000000000000000000000000018446744073709551615", "000000000000000000000000000018446744073709551616",
    ];
    for s in samples {
        assert_eq!(parse_number(&s.as_bytes().to_vec()), s.parse::<u64>().ok(), "{}", s);
    }
    assert_eq!(parse_number(&vec![0xff, 0x31]), None);
}

#[test]
fn the_length_on_the_server_needs_success_and_a_numeral() {
    assert_eq!(remote_length(200, &Some(b"42".to_vec())), Some(42));
    assert_eq!(remote_length(206, &Some(b"42".to_vec())), Some(42));
    assert_eq!(remote_length(404, &Some(b"42".to_vec())), None);
    assert_eq!(remote_length(304, &Some(b"42".to_vec())), None);
    assert_eq!(remote_length(200, &Some(b"x".to_vec())), None);
    assert_eq!(remote_length(200, &None), None);
}

#[test]
fn some_statuses_are_worth_another_attempt() {
    for status in 100..=999u16 {
        assert_eq!(is_success(status), status / 100 == 2);
        assert_eq!(is_retryable_status(status), status == 408 || status == 429 || status / 100 == 5);
    }
}

#[test]
fn statuses_are_told_with_their_phrases() {
    let told = |status: u16| describe_failure(AttemptFailure::Status(status), "d", "u");
    assert_eq!(told(404).message, "HTTP 404 Not Found");
    assert_eq!(told(429).message, "HTTP 429 Too Many Requests");
    assert_eq!(told(503).message, "HTTP 503 Service Unavailable");
    assert_eq!(told(799).message, "HTTP 799 ");
    assert!(!told(404).retryable && !told(404).cancelled);
    assert!(told(429).retryable && !told(429).cancelled);
    assert!(told(503).retryable);
    let own = explain_failure(AttemptFailure::Status(404), "d", "u", &Some("Gone Fishing".to_string()));
    assert_eq!(own.message, "HTTP 404 Gone Fishing");
}

#[test]
fn every_failure_has_its_words() {
    let cases = [
        (AttemptFailure::Cancelled, "Cancellation requested", false, true),
        (AttemptFailure::CancelledInTransfer, "Cancelled during transfer", false, true),
        (AttemptFailure::Request, "Request failed: why", true, false),
        (AttemptFailure::RangeNotSatisfiable, "HTTP 416 while resuming http://h/f", false, false),
        (AttemptFailure::OpenAppend, "Open append failed: why", false, false),
        (AttemptFailure::Create, "Create temp file failed: why", false, false),
        (AttemptFailure::Stream, "Stream read failed: why", true, false),
        (AttemptFailure::Write, "Write failed: why", false, false),
        (AttemptFailure::Flush, "Flush failed: why", false, false),
        (AttemptFailure::Empty, "Downloaded file is empty: http://h/f", true, false),
        (
            AttemptFailure::Incomplete { got: 7, expected: 36_893_488_147_419_103_230 },
            "Incomplete download: got 7 bytes, expected 36893488147419103230: http://h/f",
            true,
            false,
        ),
    ];
    for (failure, message, retryable, cancelled) in cases {
        let error = describe_failure(failure, "why", "http://h/f");
        assert_eq!(error.message, message);
        assert_eq!(error.retryable, retryable);
        assert_eq!(error.cancelled, cancelled);
    }
}
