use octointel::config::{build_request, ConfigError, HttpMethod, ScanConfig};

#[test]
fn head_request_is_byte_exact() {
    let req = build_request(
        HttpMethod::Head,
        &String::from("example.com"),
        &Vec::new(),
        &None,
    )
    .unwrap();
    assert_eq!(
        req,
        "HEAD / HTTP/1.1\r\nHost: example.com\r\nConnection: close\r\nUser-Agent: octointel/2.0\r\n\r\n"
    );
}

#[test]
fn get_request_line() {
    let req = build_request(
        HttpMethod::Get,
        &String::from("example.com"),
        &Vec::new(),
        &None,
    )
    .unwrap();
    assert!(req.starts_with("GET / HTTP/1.1\r\nHost: example.com\r\n"));
}

#[test]
fn post_request_carries_length_and_body() {
    let req = build_request(
        HttpMethod::Post,
        &String::from("example.com"),
        &Vec::new(),
        &Some(String::from("a=1&b=22")),
    )
    .unwrap();
    assert!(req.contains("Content-Length: 8\r\n"));
    assert!(req.ends_with("\r\n\r\na=1&b=22"));
}

#[test]
fn post_without_body_has_zero_length() {
    let req = build_request(
        HttpMethod::Post,
        &String::from("example.com"),
        &Vec::new(),
        &None,
    )
    .unwrap();
    assert!(req.contains("Content-Length: 0\r\n"));
    assert!(req.ends_with("\r\n\r\n"));
}

#[test]
fn custom_headers_are_included_in_order() {
    let headers = vec![
        String::from("X-First: 1"),
        String::from("X-Second: 2"),
    ];
    let req = build_request(
        HttpMethod::Head,
        &String::from("example.com"),
        &headers,
        &None,
    )
    .unwrap();
    assert!(req.contains("Host: example.com\r\nX-First: 1\r\nX-Second: 2\r\nConnection: close"));
}

#[test]
fn header_without_colon_is_rejected() {
    let headers = vec![String::from("NotAHeader")];
    let r = build_request(
        HttpMethod::Head,
        &String::from("example.com"),
        &headers,
        &None,
    );
    assert_eq!(r.unwrap_err(), ConfigError::InvalidHeader);
}

#[test]
fn config_builds_with_valid_inputs() {
    let c = ScanConfig::new(
        String::from("example.com"),
        300,
        100,
        HttpMethod::Head,
        202,
        None,
        Vec::new(),
        None,
        80,
    )
    .unwrap();
    assert_eq!(c.port, 80);
    assert_eq!(c.status_code, 202);
    assert!(c.request.starts_with("HEAD / HTTP/1.1"));
    assert!(!c.wants_body());
}

#[test]
fn config_rejects_bad_pattern() {
    let r = ScanConfig::new(
        String::from("example.com"),
        300,
        100,
        HttpMethod::Head,
        202,
        Some(String::from("(")),
        Vec::new(),
        None,
        80,
    );
    assert!(matches!(r, Err(ConfigError::InvalidPattern)));
}

#[test]
fn config_header_error_wins_over_pattern_error() {
    let r = ScanConfig::new(
        String::from("example.com"),
        300,
        100,
        HttpMethod::Head,
        202,
        Some(String::from("(")),
        vec![String::from("bad")],
        None,
        80,
    );
    assert!(matches!(r, Err(ConfigError::InvalidHeader)));
}

#[test]
fn config_wants_body_for_get_or_pattern() {
    let c = ScanConfig::new(
        String::from("example.com"),
        300,
        1,
        HttpMethod::Get,
        200,
        None,
        Vec::new(),
        None,
        80,
    )
    .unwrap();
    assert!(c.wants_body());
    let c = ScanConfig::new(
        String::from("example.com"),
        300,
        1,
        HttpMethod::Head,
        200,
        Some(String::from("x")),
        Vec::new(),
        None,
        80,
    )
    .unwrap();
    assert!(c.wants_body());
}
