use velora::binary64::Binary64;
use velora::client::{build_client, protocol_warning, select_protocol, ClientKey, HttpVersion, Protocol};
use velora::models::{default_concurrency, default_max_redirects, default_project, default_retry_base_delay,
    default_retry_count, default_retry_max_delay, default_task_key, default_timeout_seconds, default_verify_tls,
    default_version, validate_plan, DownloadPlan, DownloadTask, HeaderTable, PlanError};

fn number(x: f64) -> Binary64 {
    Binary64 { bits: x.to_bits() }
}

fn task(url: &str, path: &str) -> DownloadTask {
    DownloadTask {
        task_key: None,
        label: None,
        display_label: None,
        url: url.to_string(),
        path: path.to_string(),
        headers: HeaderTable::new(),
    }
}

fn plan(tasks: Vec<DownloadTask>) -> DownloadPlan {
    DownloadPlan {
        project: default_project(),
        version: default_version(),
        task_key: default_task_key(),
        label: None,
        display_label: None,
        output_dir: None,
        concurrency: default_concurrency(),
        retry_count: default_retry_count(),
        timeout_seconds: default_timeout_seconds(),
        max_redirects: default_max_redirects(),
        retry_base_delay_seconds: default_retry_base_delay(),
        retry_max_delay_seconds: default_retry_max_delay(),
        retry_jitter_seconds: number(0.0),
        segment_delay_seconds: number(0.0),
        segment_delay_jitter_seconds: number(0.0),
        proxy_url: None,
        verify_tls: default_verify_tls(),
        headers: HeaderTable::new(),
        user_agent: None,
        max_speed_bytes: None,
        http_version: HttpVersion::Auto,
        tasks,
    }
}

#[test]
fn defaults_are_as_documented() {
    assert_eq!(default_project(), "Velora");
    assert_eq!(default_version(), 1);
    assert_eq!(default_task_key(), "download");
    assert_eq!(default_concurrency(), 8);
    assert_eq!(default_retry_count(), 3);
    assert_eq!(default_timeout_seconds(), 30);
    assert_eq!(default_max_redirects(), 10);
    assert!(default_verify_tls());
    assert_eq!(default_retry_base_delay(), number(1.0));
    assert_eq!(default_retry_max_delay(), number(30.0));
}

#[test]
fn gaps_are_filled_from_the_project() {
    let mut p = plan(vec![task("https://example.com/a", "a"), task("https://example.com/b", "b")]);
    p.tasks[1].label = Some("own".to_string());
    p.normalise();
    assert_eq!(p.project, "Velora");
    assert_eq!(p.label.as_deref(), Some("Velora"));
    assert_eq!(p.display_label.as_deref(), Some("Velora"));
    assert_eq!(p.tasks[0].task_key.as_deref(), Some("download"));
    assert_eq!(p.tasks[0].label.as_deref(), Some("Velora"));
    assert_eq!(p.tasks[0].display_label.as_deref(), Some("Velora"));
    assert_eq!(p.tasks[1].label.as_deref(), Some("own"));
    assert_eq!(p.tasks[1].display_label.as_deref(), Some("Velora"));
}

#[test]
fn a_blank_project_takes_the_label() {
    let mut p = plan(vec![]);
    p.project = " \t\u{a0}".to_string();
    p.label = Some("Series".to_string());
    p.task_key = String::new();
    p.normalise();
    assert_eq!(p.project, "Series");
    assert_eq!(p.task_key, "download");
    assert_eq!(p.display_label.as_deref(), Some("Series"));
}

#[test]
fn a_blank_project_with_a_blank_label_is_velora() {
    let mut p = plan(vec![]);
    p.project = String::new();
    p.label = Some("  ".to_string());
    p.normalise();
    assert_eq!(p.project, "Velora");
    assert_eq!(p.label.as_deref(), Some("  "));
    assert_eq!(p.display_label.as_deref(), Some("  "));
}

#[test]
fn a_blank_task_key_is_kept_unless_empty() {
    let mut p = plan(vec![]);
    p.task_key = " ".to_string();
    p.normalise();
    assert_eq!(p.task_key, " ");
}

#[test]
fn numbers_are_lifted_to_their_least() {
    let mut p = plan(vec![]);
    p.concurrency = 0;
    p.retry_count = 0;
    p.timeout_seconds = 0;
    p.max_redirects = 0;
    p.retry_base_delay_seconds = number(-2.5);
    p.retry_max_delay_seconds = number(-1.0);
    p.retry_jitter_seconds = number(-0.5);
    p.normalise();
    assert_eq!((p.concurrency, p.retry_count, p.timeout_seconds, p.max_redirects), (1, 1, 1, 1));
    assert_eq!(p.retry_base_delay_seconds, number(0.0));
    assert_eq!(p.retry_max_delay_seconds, number(0.0));
    assert_eq!(p.retry_jitter_seconds, number(0.0));
    assert!(p.has_usable_delays());
}

#[test]
fn the_cap_is_no_less_than_the_base() {
    let mut p = plan(vec![]);
    p.retry_base_delay_seconds = number(7.5);
    p.retry_max_delay_seconds = number(4.0);
    p.retry_jitter_seconds = number(0.25);
    p.normalise();
    assert_eq!(p.retry_base_delay_seconds, number(7.5));
    assert_eq!(p.retry_max_delay_seconds, number(7.5));
    assert_eq!(p.retry_jitter_seconds, number(0.25));
}

#[test]
fn normalising_twice_changes_nothing_more() {
    let mut p = plan(vec![task("https://example.com/a", "a")]);
    p.project = " ".to_string();
    p.label = Some("L".to_string());
    p.retry_base_delay_seconds = number(50.0);
    p.normalise();
    let mut q = p.clone();
    q.normalise();
    assert_eq!(format!("{:?}", q), format!("{:?}", p));
}

#[test]
fn delays_that_are_not_normalised_may_be_unusable() {
    let mut p = plan(vec![]);
    assert!(p.has_usable_delays());
    p.retry_base_delay_seconds = number(31.0);
    assert!(!p.has_usable_delays());
    p.retry_base_delay_seconds = number(-1.0);
    assert!(!p.has_usable_delays());
    p.retry_base_delay_seconds = number(1.0);
    p.segment_delay_seconds = number(f64::INFINITY);
    assert!(p.has_usable_delays());
}

#[test]
fn a_plan_without_tasks_is_refused() {
    let r = validate_plan(&plan(vec![]));
    assert_eq!(r, Err(PlanError::NoTasks));
    assert_eq!(PlanError::NoTasks.message(), "Plan has no tasks");
}

#[test]
fn the_first_task_without_an_address_is_named() {
    let r = validate_plan(&plan(vec![task("https://example.com/a", "a"), task(" \n", ""), task("", "")]));
    assert_eq!(r, Err(PlanError::EmptyUrl(1)));
    assert_eq!(PlanError::EmptyUrl(1).message(), "Task #1 has empty url");
}

#[test]
fn the_first_task_without_a_path_is_named() {
    let r = validate_plan(&plan(vec![task("https://example.com/a", "\t"), task("", "")]));
    assert_eq!(r, Err(PlanError::EmptyPath(0)));
    assert_eq!(PlanError::EmptyPath(0).message(), "Task #0 has empty path");
}

#[test]
fn a_complete_plan_is_accepted() {
    assert_eq!(validate_plan(&plan(vec![task(" x ", "y")])), Ok(()));
}

#[test]
fn a_header_table_keeps_one_value_for_each_name() {
    let mut t = HeaderTable::new();
    t.insert("Accept".to_string(), "a".to_string());
    t.insert("accept".to_string(), "b".to_string());
    t.insert("Accept".to_string(), "c".to_string());
    assert_eq!(t.len(), 2);
    assert_eq!((t.entry(0).name.as_str(), t.entry(0).value.as_str()), ("Accept", "c"));
    assert_eq!((t.entry(1).name.as_str(), t.entry(1).value.as_str()), ("accept", "b"));
}

#[test]
fn a_client_key_holds_what_the_client_needs() {
    let mut p = plan(vec![]);
    p.timeout_seconds = 0;
    p.max_redirects = 0;
    p.verify_tls = false;
    p.proxy_url = Some("http://127.0.0.1:8080".to_string());
    p.http_version = HttpVersion::Http2;
    let key = ClientKey::from_plan(&p);
    assert_eq!(
        key,
        ClientKey {
            timeout_seconds: 1,
            proxy_url: Some("http://127.0.0.1:8080".to_string()),
            max_redirects: 1,
            verify_tls: false,
            http_version: HttpVersion::Http2,
        }
    );
    let settings = build_client(&key, 0, false);
    assert_eq!(settings.timeout_seconds, 1);
    assert_eq!(settings.pool_max_idle, 1);
    assert_eq!(settings.max_redirects, 1);
    assert!(settings.accept_invalid_certs);
    assert_eq!(settings.proxy_url.as_deref(), Some("http://127.0.0.1:8080"));
    assert_eq!(settings.protocol, Protocol::Http2Only);
}

#[test]
fn an_ordinary_client_checks_certificates() {
    let settings = build_client(&ClientKey::from_plan(&plan(vec![])), 8, false);
    assert_eq!((settings.timeout_seconds, settings.pool_max_idle, settings.max_redirects), (30, 8, 10));
    assert!(!settings.accept_invalid_certs);
    assert_eq!(settings.proxy_url, None);
    assert_eq!(settings.protocol, Protocol::Negotiated);
}

#[test]
fn each_version_has_its_protocol() {
    for built in [false, true] {
        assert_eq!(select_protocol(HttpVersion::Auto, built), Protocol::Negotiated);
        assert_eq!(select_protocol(HttpVersion::Http1, built), Protocol::Http1Only);
        assert_eq!(select_protocol(HttpVersion::Http2, built), Protocol::Http2Only);
    }
    assert_eq!(select_protocol(HttpVersion::Http3, true), Protocol::Http3Only);
    assert_eq!(select_protocol(HttpVersion::Http3, false), Protocol::Negotiated);
}

#[test]
fn a_fallback_is_warned_about() {
    assert!(protocol_warning(HttpVersion::Auto, false).is_none());
    assert!(protocol_warning(HttpVersion::Http1, false).is_none());
    assert!(protocol_warning(HttpVersion::Http2, false).is_none());
    assert!(protocol_warning(HttpVersion::Http3, true).is_none());
    let warning = protocol_warning(HttpVersion::Http3, false).unwrap();
    assert_eq!(warning.scope, "plan");
    assert_eq!(warning.key, "http_version");
    assert_eq!(warning.value, "http3");
    assert_eq!(warning.message, "HTTP/3 is not built in; falling back to HTTP/2 via ALPN");
}
