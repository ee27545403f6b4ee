use ccline::headers::{http_status, retry_after_secs};

#[test]
fn status_and_retry_after_from_final_block() {
    let h = "HTTP/1.1 301 Moved\r\nlocation: /x\r\n\r\nHTTP/2 429 \r\nretry-after: 97\r\n\r\n";
    assert_eq!(http_status(h), Some(429));
    assert_eq!(retry_after_secs(h), Some(97));
}

#[test]
fn http_date_retry_after_falls_back() {
    let h = "HTTP/2 429 \r\nRetry-After: Wed, 21 Oct 2026 07:28:00 GMT\r\n\r\n";
    assert_eq!(http_status(h), Some(429));
    assert_eq!(retry_after_secs(h), None);
}

#[test]
fn status_comes_from_last_status_line() {
    let h = "HTTP/1.1 302 Found\r\nLocation: /a\r\n\r\nHTTP/1.1 200 OK\r\ncontent-type: json\r\n";
    assert_eq!(http_status(h), Some(200));
}

#[test]
fn status_absent_without_status_line() {
    assert_eq!(http_status(""), None);
    assert_eq!(http_status("content-type: json\r\n"), None);
}

#[test]
fn status_needs_a_second_word_that_is_a_number() {
    assert_eq!(http_status("HTTP/2\r\n"), None);
    assert_eq!(http_status("HTTP/2 abc\r\n"), None);
    assert_eq!(http_status("HTTP/2 99999999999\r\n"), None);
    assert_eq!(http_status("HTTP/2\t\u{3000}+204 No Content"), Some(204));
}

#[test]
fn later_status_line_without_code_hides_earlier_code() {
    assert_eq!(http_status("HTTP/1.1 429 Too Many\r\n\r\nHTTP/1.1\r\n"), None);
}

#[test]
fn status_line_must_start_the_line() {
    assert_eq!(http_status(" HTTP/1.1 500 x\n"), None);
}

#[test]
fn retry_after_name_ignores_ascii_case_and_value_is_trimmed() {
    assert_eq!(retry_after_secs("RETRY-AFTER:   120  \r\n"), Some(120));
    assert_eq!(retry_after_secs("Retry-After:+5"), Some(5));
}

#[test]
fn retry_after_last_header_wins_even_when_not_numeric() {
    let h = "retry-after: 10\r\n\r\nretry-after: soon\r\n";
    assert_eq!(retry_after_secs(h), None);
    let h2 = "retry-after: 10\r\n\r\nretry-after: 30\r\n";
    assert_eq!(retry_after_secs(h2), Some(30));
}

#[test]
fn retry_after_needs_exact_name() {
    assert_eq!(retry_after_secs("retry-after-x: 10\r\n"), None);
    assert_eq!(retry_after_secs(" retry-after: 10\r\n"), None);
    assert_eq!(retry_after_secs("retry-after 10\r\n"), None);
}

#[test]
fn retry_after_name_is_text_before_first_colon() {
    assert_eq!(retry_after_secs("retry-after: 7: 8\r\n"), None);
    assert_eq!(retry_after_secs("retry-after:7\r\nother: 1"), Some(7));
}

#[test]
fn bare_carriage_return_on_last_line_is_kept() {
    // "7\r" trims to "7": \r is whitespace.
    assert_eq!(retry_after_secs("retry-after: 7\r"), Some(7));
    assert_eq!(http_status("HTTP/1.1 204\r"), Some(204));
}

#[test]
fn final_block_decides_status_law_example() {
    let earlier = "HTTP/1.1 500 Oops\r\nretry-after: 1\r\n";
    let last = "HTTP/2 429 \r\nretry-after: 60\r\n";
    let both = format!("{earlier}{last}");
    assert_eq!(http_status(&both), http_status(last));
    assert_eq!(retry_after_secs(&both), retry_after_secs(last));
}

#[test]
fn retry_after_from_earlier_block_is_ignored() {
    let h = "HTTP/1.1 503 Busy\r\nRetry-After: 5\r\n\r\nHTTP/2 429 \r\n\r\n";
    assert_eq!(http_status(h), Some(429));
    assert_eq!(retry_after_secs(h), None);
}

#[test]
fn retry_after_read_from_final_block_only() {
    let h = "HTTP/1.1 429 A\r\nretry-after: 5\r\n\r\nHTTP/1.1 429 B\r\nRetry-After: 40\r\n\r\n";
    assert_eq!(retry_after_secs(h), Some(40));
    let h2 = "retry-after: 9\r\nHTTP/2 429\r\nx: y\r\n";
    assert_eq!(retry_after_secs(h2), None);
}
