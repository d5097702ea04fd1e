use engine::address::parse_address;
use engine::error::FetchError;

fn resolve(a: &str) -> (String, u16, String) {
    let t = parse_address(a).expect("address should resolve");
    (
        String::from_utf8(t.host).unwrap(),
        t.port,
        String::from_utf8(t.path).unwrap(),
    )
}

#[test]
fn plain_host_gets_default_port_and_root_path() {
    assert_eq!(resolve("example.com"), ("example.com".to_string(), 80, "/".to_string()));
}

#[test]
fn host_port_and_path() {
    assert_eq!(
        resolve("example.com:8080/a/b?q=1"),
        ("example.com".to_string(), 8080, "/a/b?q=1".to_string())
    );
}

#[test]
fn scheme_prefix_is_stripped() {
    assert_eq!(resolve("http://example.com:81/x"), resolve("example.com:81/x"));
    assert_eq!(resolve("https://example.com/x"), resolve("example.com/x"));
    assert_eq!(resolve("HTTP://Example.com/x"), resolve("Example.com/x"));
    assert_eq!(resolve("HttpS://example.com"), resolve("example.com"));
}

#[test]
fn scheme_is_stripped_once() {
    assert_eq!(
        parse_address("http://http://example.com").err(),
        Some(FetchError::InvalidAddress)
    );
}

#[test]
fn surrounding_whitespace_is_ignored() {
    assert_eq!(resolve("  \thttp://example.com/p \r\n"), resolve("example.com/p"));
}

#[test]
fn no_slash_means_root_path() {
    assert_eq!(resolve("example.com:9000").2, "/");
    assert_eq!(resolve("https://example.com").2, "/");
}

#[test]
fn port_bounds() {
    assert_eq!(resolve("h:0").1, 0);
    assert_eq!(resolve("h:65535").1, 65535);
    assert_eq!(resolve("h:00080").1, 80);
    assert_eq!(parse_address("h:65536").err(), Some(FetchError::InvalidAddress));
    assert_eq!(parse_address("h:99999999999").err(), Some(FetchError::InvalidAddress));
}

#[test]
fn non_numeric_port_is_rejected() {
    assert_eq!(parse_address("h:http").err(), Some(FetchError::InvalidAddress));
    assert_eq!(parse_address("h:+80").err(), Some(FetchError::InvalidAddress));
    assert_eq!(parse_address("h:").err(), Some(FetchError::InvalidAddress));
}

#[test]
fn port_follows_the_last_colon() {
    assert_eq!(resolve("[::1]:8080/"), ("[::1]".to_string(), 8080, "/".to_string()));
}

#[test]
fn empty_address_is_invalid() {
    assert_eq!(parse_address("").err(), Some(FetchError::InvalidAddress));
    assert_eq!(parse_address("   ").err(), Some(FetchError::InvalidAddress));
    assert_eq!(parse_address("http://").err(), Some(FetchError::InvalidAddress));
}

#[test]
fn missing_host_is_invalid() {
    assert_eq!(parse_address("/path").err(), Some(FetchError::InvalidAddress));
    assert_eq!(parse_address(":80/path").err(), Some(FetchError::InvalidAddress));
}

#[test]
fn line_break_inside_address_is_invalid() {
    assert_eq!(parse_address("exa\r\nmple.com").err(), Some(FetchError::InvalidAddress));
    assert_eq!(parse_address("example.com/a\nb").err(), Some(FetchError::InvalidAddress));
}
