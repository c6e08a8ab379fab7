use rabbit_digger_pro::address::{Address, IpAddress};
use rabbit_digger_pro::http::{
    parse_authority, route_request, scrub_headers, verify_auth, Http, HttpServer, RequestAction,
};

fn v4(a: u8, b: u8, c: u8, d: u8) -> IpAddress {
    IpAddress::V4(u32::from_be_bytes([a, b, c, d]))
}

#[test]
fn authority_parsing_defaults_the_port() {
    assert_eq!(
        parse_authority("example.com:8080", 80),
        Some(Address::Domain("example.com".to_string(), 8080))
    );
    assert_eq!(
        parse_authority("example.com", 80),
        Some(Address::Domain("example.com".to_string(), 80))
    );
    assert_eq!(
        parse_authority("127.0.0.1:26667", 80),
        Some(Address::Socket(v4(127, 0, 0, 1), 26667))
    );
    assert_eq!(
        parse_authority("[::1]:443", 80),
        Some(Address::Socket(IpAddress::V6(1), 443))
    );
    assert_eq!(
        parse_authority("[::1]", 80),
        Some(Address::Socket(IpAddress::V6(1), 80))
    );
    assert_eq!(parse_authority("", 80), None);
    assert_eq!(parse_authority("a:b:c", 80), None);
    assert_eq!(parse_authority("host:99999", 80), None);
}

#[test]
fn proxy_auth_accepts_the_right_credentials() {
    let user = Some("testuser".to_string());
    let pass = Some("testpass".to_string());

    // no credentials configured: everything passes
    assert!(verify_auth(None, &None, &None));
    assert!(verify_auth(Some("Basic whatever"), &None, &None));

    // credentials configured: only the right Basic payload passes
    assert!(!verify_auth(None, &user, &pass));
    assert!(!verify_auth(Some("Bearer x"), &user, &pass));
    assert!(verify_auth(
        Some("Basic dGVzdHVzZXI6dGVzdHBhc3M="),
        &user,
        &pass
    ));
    // testuser:wrongpass
    assert!(!verify_auth(
        Some("Basic dGVzdHVzZXI6d3JvbmdwYXNz"),
        &user,
        &pass
    ));
    // not base64 at all
    assert!(!verify_auth(Some("Basic !!!"), &user, &pass));
}

#[test]
fn connect_request_opens_a_tunnel() {
    // CONNECT 127.0.0.1:26667 with no credentials configured
    let action = route_request(
        "CONNECT",
        Some("127.0.0.1:26667"),
        false,
        None,
        "",
        None,
        &None,
        &None,
    );
    assert_eq!(
        action,
        RequestAction::Connect(Address::Socket(v4(127, 0, 0, 1), 26667))
    );
}

#[test]
fn connect_without_auth_is_challenged_and_with_auth_succeeds() {
    let user = Some("testuser".to_string());
    let pass = Some("testpass".to_string());

    let action = route_request(
        "CONNECT",
        Some("127.0.0.1:26667"),
        false,
        None,
        "",
        None,
        &user,
        &pass,
    );
    assert_eq!(action, RequestAction::RejectAuth);

    let action = route_request(
        "CONNECT",
        Some("127.0.0.1:26667"),
        false,
        None,
        "",
        Some("Basic dGVzdHVzZXI6dGVzdHBhc3M="),
        &user,
        &pass,
    );
    assert_eq!(
        action,
        RequestAction::Connect(Address::Socket(v4(127, 0, 0, 1), 26667))
    );
}

#[test]
fn relative_request_is_rewritten_to_absolute_form() {
    let action = route_request(
        "GET",
        None,
        false,
        Some("example.com"),
        "/path?q=1",
        None,
        &None,
        &None,
    );
    assert_eq!(
        action,
        RequestAction::Forward(
            Address::Domain("example.com".to_string(), 80),
            Some("http://example.com/path?q=1".to_string())
        )
    );

    // absolute-form requests keep their URI
    let action = route_request(
        "GET",
        Some("example.com:8080"),
        true,
        None,
        "/x",
        None,
        &None,
        &None,
    );
    assert_eq!(
        action,
        RequestAction::Forward(Address::Domain("example.com".to_string(), 8080), None)
    );
}

#[test]
fn bad_targets_answer_four_hundred() {
    let action = route_request("CONNECT", None, false, None, "", None, &None, &None);
    assert_eq!(action, RequestAction::BadUri);

    let action = route_request("GET", None, false, None, "/", None, &None, &None);
    assert_eq!(action, RequestAction::MissingHost);

    let action = route_request("GET", Some("bad:port:here"), false, None, "/", None, &None, &None);
    assert_eq!(action, RequestAction::BadUri);
}

#[test]
fn scrubbing_removes_the_nine_canonical_headers() {
    let headers = vec![
        ("Connection".to_string(), "close".to_string()),
        ("Keep-Alive".to_string(), "30".to_string()),
        ("Proxy-Authenticate".to_string(), "x".to_string()),
        ("Proxy-Authorization".to_string(), "y".to_string()),
        ("Proxy-Connection".to_string(), "keep-alive".to_string()),
        ("TE".to_string(), "trailers".to_string()),
        ("Trailers".to_string(), "x".to_string()),
        ("Transfer-Encoding".to_string(), "chunked".to_string()),
        ("Upgrade".to_string(), "websocket".to_string()),
        ("Host".to_string(), "example.com".to_string()),
        ("Accept".to_string(), "*/*".to_string()),
    ];
    let out = scrub_headers(headers);
    assert_eq!(
        out,
        vec![
            ("Host".to_string(), "example.com".to_string()),
            ("Accept".to_string(), "*/*".to_string()),
        ]
    );
}

#[test]
fn scrubbing_also_removes_headers_named_in_connection() {
    let headers = vec![
        ("Connection".to_string(), "X-Custom, X-Other".to_string()),
        ("X-Custom".to_string(), "1".to_string()),
        ("X-Other".to_string(), "2".to_string()),
        ("X-Kept".to_string(), "3".to_string()),
    ];
    let out = scrub_headers(headers);
    assert_eq!(out, vec![("X-Kept".to_string(), "3".to_string())]);
}

#[test]
fn header_casing_is_preserved_on_kept_headers() {
    let headers = vec![
        ("X-MiXeD-CaSe".to_string(), "V".to_string()),
        ("UPGRADE".to_string(), "h2c".to_string()),
    ];
    let out = scrub_headers(headers);
    assert_eq!(out, vec![("X-MiXeD-CaSe".to_string(), "V".to_string())]);
}

#[test]
fn http_server_constructors_carry_their_fields() {
    let s = HttpServer::new("outbound".to_string());
    assert_eq!(s.net, "outbound");
    assert!(s.username.is_none() && s.password.is_none());

    let s = HttpServer::with_auth("o".to_string(), "u".to_string(), "p".to_string());
    assert_eq!(s.username.as_deref(), Some("u"));
    assert_eq!(s.password.as_deref(), Some("p"));

    let h = Http::new(
        "local".to_string(),
        "out".to_string(),
        "127.0.0.1:16667".to_string(),
    );
    assert_eq!(h.listen_net, "local");
    assert_eq!(h.bind, "127.0.0.1:16667");
    assert_eq!(h.server.net, "out");
}
