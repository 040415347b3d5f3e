use railscale::routing::extract_host;

#[test]
fn host_from_absolute_uri() {
    let host = extract_host(b"GET http://example.com:8080/path HTTP/1.1");
    assert_eq!(host.as_deref(), Some("example.com:8080"));
}

#[test]
fn host_from_origin_form_drops_leading_slashes() {
    let host = extract_host(b"GET //upstream.local:9000 HTTP/1.1");
    assert_eq!(host.as_deref(), Some("upstream.local:9000"));
}

#[test]
fn bare_slash_gives_empty_host() {
    assert_eq!(extract_host(b"GET / HTTP/1.1").as_deref(), Some(""));
}

#[test]
fn host_cut_at_next_scheme_marker() {
    assert_eq!(extract_host(b"GET http://a://b/c HTTP/1.1").as_deref(), Some("a"));
}

#[test]
fn host_without_path() {
    assert_eq!(extract_host(b"CONNECT https://db.internal HTTP/1.1").as_deref(), Some("db.internal"));
}

#[test]
fn words_split_on_any_whitespace() {
    assert_eq!(extract_host(b"  GET\t\thttp://x.io/y   HTTP/1.1").as_deref(), Some("x.io"));
    assert_eq!(extract_host("GET\u{3000}/h\u{a0}x".as_bytes()).as_deref(), Some("h"));
}

#[test]
fn one_word_has_no_host() {
    assert_eq!(extract_host(b"GET"), None);
    assert_eq!(extract_host(b"   "), None);
    assert_eq!(extract_host(b""), None);
}

#[test]
fn invalid_utf8_has_no_host() {
    assert_eq!(extract_host(&[0x47, 0x20, 0xff, 0xfe]), None);
}
