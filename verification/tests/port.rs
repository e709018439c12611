use dsh_launcher::port::{
    is_port_in_use, parse_http_url, probe, ready_request, status_is_ready, validate_port, Connect,
};

#[test]
fn test_parse_http_url() {
    assert_eq!(
        parse_http_url("http://127.0.0.1:3080/?token=abc").unwrap(),
        ("127.0.0.1".to_string(), 3080, "/?token=abc".to_string())
    );
    assert_eq!(
        parse_http_url("http://localhost:3080/").unwrap(),
        ("localhost".to_string(), 3080, "/".to_string())
    );
    assert_eq!(
        parse_http_url("http://[::1]:3080/x?y=1").unwrap(),
        ("::1".to_string(), 3080, "/x?y=1".to_string())
    );
    assert!(parse_http_url("").is_none());
    assert!(parse_http_url("https://127.0.0.1:3080/").is_none());
    assert!(parse_http_url("not a url").is_none());
}

#[test]
fn connections_tell_whether_a_port_is_used() {
    assert_eq!(probe(Connect::Accepted), Some(true));
    assert_eq!(probe(Connect::Refused), Some(false));
    assert!(is_port_in_use(Connect::Accepted));
    assert!(!is_port_in_use(Connect::Refused));
    assert!(!validate_port(0));
    assert!(validate_port(3080));
    assert!(validate_port(u16::MAX));
}

#[test]
fn the_service_is_asked_over_http() {
    let request = ready_request("127.0.0.1", 3080, "/?token=abc");
    assert!(request.starts_with("GET /?token=abc HTTP/1."));
    assert!(request.contains("127.0.0.1"));
    assert!(request.ends_with("\r\n\r\n"));
    assert!(status_is_ready("HTTP/1.1 200 OK"));
    assert!(!status_is_ready("HTTP/1.1 401 Unauthorized"));
    assert!(!status_is_ready(""));
}
