use ccline::usage::{
    backed_off, backoff_delay, backoff_file_text, curl_config, is_stale, lock_held,
    refresh_action, scoped_limit_index, usage_curl_config, usage_refresh_due, LimitEntry,
    RefreshAction,
};

const SEC: u128 = 1_000_000_000;

#[test]
fn staleness() {
    assert!(is_stale(None, 60));
    assert!(!is_stale(Some(60 * SEC), 60));
    assert!(is_stale(Some(60 * SEC + 1), 60));
    assert!(!is_stale(Some(0), 60));
}

#[test]
fn lock_blocks_only_while_young() {
    assert!(!lock_held(None));
    assert!(lock_held(Some(59 * SEC)));
    assert!(!lock_held(Some(60 * SEC)));
}

#[test]
fn backoff_file_blocks_until_its_time() {
    assert!(backed_off(Some(" 1000\n"), 999));
    assert!(!backed_off(Some("1000"), 1000));
    assert!(!backed_off(Some("soon"), 0));
    assert!(!backed_off(None, 0));
}

#[test]
fn refresh_due_when_stale_and_not_backed_off() {
    assert!(usage_refresh_due(None, None, 5));
    assert!(!usage_refresh_due(Some(SEC), None, 5));
    assert!(!usage_refresh_due(None, Some("10"), 5));
    assert!(usage_refresh_due(Some(61 * SEC), Some("10"), 10));
}

#[test]
fn backoff_delays() {
    assert_eq!(backoff_delay(Some(429), "HTTP/2 429\r\nretry-after: 97\r\n"), 97);
    assert_eq!(backoff_delay(Some(429), "HTTP/2 429\r\nretry-after: 0\r\n"), 1);
    assert_eq!(backoff_delay(Some(429), "HTTP/2 429\r\nretry-after: 86400\r\n"), 3600);
    assert_eq!(backoff_delay(Some(429), "HTTP/2 429\r\n"), 300);
    assert_eq!(backoff_delay(Some(500), "retry-after: 5\r\n"), 300);
    assert_eq!(backoff_delay(None, ""), 300);
}

#[test]
fn refresh_actions() {
    assert!(matches!(refresh_action(Some(200), Some(&b"{}"[..]), false, "", 100), RefreshAction::ReplaceCache));
    assert!(matches!(refresh_action(Some(200), Some(&b" [1, 2] "[..]), true, "", 100), RefreshAction::KeepCache));
    assert!(matches!(
        refresh_action(Some(200), Some(&b"<html>"[..]), false, "", 100),
        RefreshAction::BackOff { until: 400 }
    ));
    assert!(matches!(
        refresh_action(Some(429), None, false, "retry-after: 20\r\n", 100),
        RefreshAction::BackOff { until: 120 }
    ));
    assert!(matches!(
        refresh_action(Some(429), Some(&b"{}"[..]), false, "retry-after: 20\r\n", 100),
        RefreshAction::BackOff { until: 120 }
    ));
}

#[test]
fn backoff_written_then_read_blocks_until_deadline() {
    if let RefreshAction::BackOff { until } = refresh_action(Some(503), Some(&b"{}"[..]), false, "", 1000) {
        let text = backoff_file_text(until);
        assert_eq!(text, "1300");
        assert!(backed_off(Some(&text), 1000));
        assert!(backed_off(Some(&text), 1299));
        assert!(!backed_off(Some(&text), 1300));
    } else {
        panic!("expected a back-off");
    }
}

#[test]
fn curl_config_text() {
    assert_eq!(
        curl_config("tok"),
        "url = \"https://api.anthropic.com/api/oauth/usage\"\nheader = \"Authorization: Bearer tok\"\nheader = \"anthropic-beta: oauth-2025-04-20\"\n"
    );
}

fn limit(kind: Option<&str>, name: Option<&str>, placeholder: bool, has_percent: bool) -> LimitEntry {
    LimitEntry {
        kind: kind.map(String::from),
        model_name: name.map(String::from),
        placeholder,
        has_percent,
    }
}

#[test]
fn scoped_limit_selection() {
    let limits = vec![
        limit(Some("weekly"), Some("Fable"), false, true),
        limit(Some("weekly_scoped"), Some("Fable"), true, true),
        limit(Some("weekly_scoped"), Some("Other"), false, true),
        limit(Some("weekly_scoped"), Some("FABLE 5"), false, false),
        limit(Some("weekly_scoped"), Some("The FABLE Model"), false, true),
        limit(Some("weekly_scoped"), Some("fable"), false, true),
    ];
    assert_eq!(scoped_limit_index(&limits, "fable"), Some(4));
    assert_eq!(scoped_limit_index(&limits, "other"), Some(2));
    assert_eq!(scoped_limit_index(&limits, "nope"), None);
    assert_eq!(scoped_limit_index(&limits, ""), Some(2));
    assert_eq!(scoped_limit_index(&[limit(Some("weekly_scoped"), None, false, true)].into(), ""), Some(0));
    assert_eq!(scoped_limit_index(&Vec::new(), "fable"), None);
}

#[test]
fn refresh_needs_status_200_and_json_body() {
    assert!(matches!(refresh_action(Some(200), None, false, "", 0), RefreshAction::BackOff { until: 300 }));
    assert!(matches!(refresh_action(Some(200), Some(&b"{} x"[..]), false, "", 0), RefreshAction::BackOff { .. }));
    assert!(matches!(refresh_action(Some(200), Some(&b""[..]), false, "", 0), RefreshAction::BackOff { .. }));
    assert!(matches!(refresh_action(Some(201), Some(&b"{}"[..]), false, "", 0), RefreshAction::BackOff { .. }));
}

#[test]
fn curl_config_from_credentials() {
    assert_eq!(
        usage_curl_config(r#"{"claudeAiOauth": {"accessToken": "abc", "x": 1}}"#),
        Some(curl_config("abc"))
    );
    assert_eq!(usage_curl_config(r#"{"claudeAiOauth": {"accessToken": 5}}"#), None);
    assert_eq!(usage_curl_config(r#"{"other": {}}"#), None);
    assert_eq!(usage_curl_config("not json"), None);
    assert_eq!(usage_curl_config(""), None);
}

#[test]
fn backoff_ignores_retry_after_of_earlier_block() {
    assert_eq!(
        backoff_delay(Some(429), "HTTP/1.1 503 Busy\r\nRetry-After: 5\r\n\r\nHTTP/2 429 \r\n\r\n"),
        300
    );
}
