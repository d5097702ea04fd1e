use engine::error::FetchError;
use engine::exchange::{Fetcher, Phase};
use engine::request::{HttpMethod, HttpRequest, HttpVersion};
use engine::wire::{check_headers, serialize_request};

fn request(address: &str, method: HttpMethod, body: Option<&str>) -> HttpRequest {
    HttpRequest {
        method,
        address: address.to_string(),
        version: HttpVersion::Http11,
        user_agent: "Test/1.0".to_string(),
        headers: Vec::new(),
        body: body.map(|b| b.to_string()),
    }
}

fn prepared(r: &HttpRequest) -> Vec<u8> {
    Fetcher::new().begin(r).expect("request should be accepted").request
}

fn count(hay: &[u8], needle: &[u8]) -> usize {
    hay.windows(needle.len()).filter(|w| *w == needle).count()
}

#[test]
fn method_and_version_tokens() {
    assert_eq!(HttpMethod::Get.as_str(), "GET");
    assert_eq!(HttpMethod::Post.as_str(), "POST");
    assert_eq!(HttpMethod::Head.as_str(), "HEAD");
    assert_eq!(HttpMethod::Trace.as_str(), "TRACE");
    assert_eq!(HttpMethod::Options.as_str(), "OPTIONS");
    assert_eq!(HttpMethod::Put.as_str(), "PUT");
    assert_eq!(HttpMethod::Delete.as_str(), "DELETE");
    assert_eq!(HttpVersion::Http10.as_str(), "HTTP/1.0");
    assert_eq!(HttpVersion::Http11.as_str(), "HTTP/1.1");
    assert_eq!(HttpVersion::Http20.as_str(), "HTTP/2.0");
    assert_eq!(HttpMethod::Delete.token_bytes(), b"DELETE");
    assert_eq!(HttpVersion::Http10.token_bytes(), b"HTTP/1.0");
}

#[test]
fn get_request_round_trip() {
    let bytes = prepared(&request("example.com:80/path", HttpMethod::Get, None));
    let text = String::from_utf8(bytes.clone()).unwrap();
    assert!(text.starts_with("GET /path HTTP/1.1\r\n"));
    assert!(text.contains("Host: example.com\r\n"));
    assert!(text.contains("Connection: close\r\n"));
    assert!(text.ends_with("\r\n\r\n"));
    assert_eq!(count(&bytes, b"\r\n\r\n"), 1);
    assert_eq!(
        text,
        "GET /path HTTP/1.1\r\nHost: example.com\r\nUser-Agent: Test/1.0\r\nConnection: close\r\n\r\n"
    );
}

#[test]
fn headers_in_order_and_body_with_length() {
    let mut r = request("http://api.test:8080/items", HttpMethod::Post, Some("a=1"));
    r.headers.push(("X-One".to_string(), "1".to_string()));
    r.headers.push(("X-One".to_string(), "2".to_string()));
    r.headers.push(("Accept".to_string(), "*/*".to_string()));
    let text = String::from_utf8(prepared(&r)).unwrap();
    assert_eq!(
        text,
        "POST /items HTTP/1.1\r\nHost: api.test\r\nUser-Agent: Test/1.0\r\nConnection: close\r\n\
         X-One: 1\r\nX-One: 2\r\nAccept: */*\r\nContent-Length: 3\r\n\r\na=1"
    );
}

#[test]
fn content_length_counts_bytes_not_characters() {
    let body = "h\u{e9}llo \u{1f600}";
    assert_eq!(body.chars().count(), 7);
    assert_eq!(body.len(), 11);
    let bytes = prepared(&request("h", HttpMethod::Put, Some(body)));
    let text = String::from_utf8(bytes).unwrap();
    assert!(text.contains("Content-Length: 11\r\n\r\n"));
    assert!(text.ends_with(body));
}

#[test]
fn empty_body_has_zero_length() {
    let text = String::from_utf8(prepared(&request("h", HttpMethod::Post, Some("")))).unwrap();
    assert!(text.ends_with("Content-Length: 0\r\n\r\n"));
}

#[test]
fn terminator_once_before_body() {
    let body = "x\r\n\r\ny";
    let bytes = prepared(&request("h/p", HttpMethod::Post, Some(body)));
    let head_len = bytes.len() - body.len();
    assert_eq!(&bytes[head_len..], body.as_bytes());
    assert_eq!(&bytes[head_len - 4..head_len], b"\r\n\r\n");
    assert_eq!(count(&bytes[..head_len], b"\r\n\r\n"), 1);
}

#[test]
fn http10_request_line() {
    let mut r = request("h", HttpMethod::Head, None);
    r.version = HttpVersion::Http10;
    let text = String::from_utf8(prepared(&r)).unwrap();
    assert!(text.starts_with("HEAD / HTTP/1.0\r\n"));
}

#[test]
fn empty_address_opens_nothing() {
    let r = request("", HttpMethod::Get, None);
    assert_eq!(Fetcher::new().begin(&r).err(), Some(FetchError::InvalidAddress));
}

#[test]
fn http2_is_unsupported() {
    let mut r = request("h", HttpMethod::Get, None);
    r.version = HttpVersion::Http20;
    assert_eq!(Fetcher::new().begin(&r).err(), Some(FetchError::UnsupportedVersion));
}

#[test]
fn invalid_address_reported_before_version() {
    let mut r = request(" ", HttpMethod::Get, None);
    r.version = HttpVersion::Http20;
    assert_eq!(Fetcher::new().begin(&r).err(), Some(FetchError::InvalidAddress));
}

#[test]
fn reserved_and_broken_headers_are_rejected() {
    for (name, value) in [
        ("Host", "evil"),
        ("content-LENGTH", "5"),
        ("User-Agent", "x"),
        ("CONNECTION", "keep-alive"),
        ("", "v"),
        ("A:B", "v"),
        ("X", "a\r\nInjected: 1"),
        ("X\n", "v"),
    ] {
        let mut r = request("h", HttpMethod::Get, None);
        r.headers.push((name.to_string(), value.to_string()));
        assert_eq!(Fetcher::new().begin(&r).err(), Some(FetchError::InvalidHeader), "{name}");
    }
    let mut r = request("h", HttpMethod::Get, None);
    r.user_agent = "a\nb".to_string();
    assert_eq!(Fetcher::new().begin(&r).err(), Some(FetchError::InvalidHeader));
}

#[test]
fn header_check_accepts_ordinary_headers() {
    let ok = vec![("Accept".to_string(), "text/html".to_string()), ("X-Host".to_string(), String::new())];
    assert!(check_headers(&ok));
    let bad = vec![("Host".to_string(), "x".to_string())];
    assert!(!check_headers(&bad));
}

#[test]
fn begin_sets_up_the_exchange() {
    let f = Fetcher::new();
    assert_eq!(f.max_response_bytes, 16 * 1024 * 1024);
    assert_eq!(f.connect_timeout_ms, 10000);
    assert_eq!(f.read_timeout_ms, 30000);
    let x = f.begin(&request("https://example.org:8443/a", HttpMethod::Get, None)).unwrap();
    assert_eq!(x.host, b"example.org".to_vec());
    assert_eq!(x.port, 8443);
    assert!(x.received.is_empty());
    assert_eq!(x.limit, f.max_response_bytes);
    assert_eq!(x.phase, Phase::Connecting);
}

#[test]
fn serializer_writes_given_parts() {
    let headers = vec![("K".to_string(), "V".to_string())];
    let out = serialize_request(
        HttpMethod::Options,
        HttpVersion::Http11,
        b"host",
        b"/x",
        "UA",
        &headers,
        &Some("123456789012".to_string()),
    );
    assert_eq!(
        String::from_utf8(out).unwrap(),
        "OPTIONS /x HTTP/1.1\r\nHost: host\r\nUser-Agent: UA\r\nConnection: close\r\nK: V\r\n\
         Content-Length: 12\r\n\r\n123456789012"
    );
}
