use supervisor::config::HttpAuth;
use supervisor::http::authorize;
use supervisor::http::base64::base64_decode;
use supervisor::http::read_request;
use supervisor::http::write_response;
use supervisor::http::Request;
use supervisor::http::RequestReader;

fn request(raw: &str) -> Option<Request> {
    read_request(&vec![raw.as_bytes().to_vec()])
}

#[test]
fn parses_a_post_with_body() {
    let raw = "POST /RPC2 HTTP/1.1\r\nHost: x\r\nContent-Length: 5\r\n\r\nhello";
    let req = read_request(&vec![raw.as_bytes().to_vec()]).unwrap();
    assert_eq!(req.method, "POST");
    assert_eq!(req.path, "/RPC2");
    assert_eq!(req.body, "hello");
    assert_eq!(req.header("host"), Some("x"));
}

#[test]
fn decodes_basic_auth() {
    // "user:pass" base64 == "dXNlcjpwYXNz"
    let raw = "GET / HTTP/1.1\r\nAuthorization: Basic dXNlcjpwYXNz\r\n\r\n";
    let req = read_request(&vec![raw.as_bytes().to_vec()]).unwrap();
    assert_eq!(
        req.basic_auth(),
        Some(("user".to_string(), "pass".to_string()))
    );
}

#[test]
fn a_request_can_come_in_any_pieces() {
    let raw = b"POST /x HTTP/1.1\r\nContent-Length: 3\r\n\r\nabcdef";
    for cut in 1..raw.len() {
        let mut reader = RequestReader::new();
        reader.push(&raw[..cut]);
        reader.push(&raw[cut..]);
        assert!(reader.is_complete());
        let req = reader.finish().unwrap();
        assert_eq!(req.path, "/x");
        assert_eq!(req.body, "abc");
    }
}

#[test]
fn incomplete_requests() {
    assert!(request("").is_none());
    assert!(request("GET / HTTP/1.1\r\nHost: x\r\n").is_none());
    assert!(request("GET\r\n\r\n").is_none());
    // A body that is cut short is taken as it is.
    let req = request("POST / HTTP/1.1\r\nContent-Length: 9\r\n\r\nabc").unwrap();
    assert_eq!(req.body, "abc");
    // An empty read is the end of the stream.
    let reads = vec![b"GET / HTTP/1.1\r\n".to_vec(), Vec::new(), b"\r\n".to_vec()];
    assert!(read_request(&reads).is_none());
}

#[test]
fn an_endless_head_is_refused() {
    let mut reader = RequestReader::new();
    let chunk = vec![b'a'; 4096];
    for _ in 0..256 {
        reader.push(chunk.as_slice());
        assert!(!reader.is_complete());
    }
    reader.push(b"a");
    assert!(reader.is_complete());
    assert!(reader.finish().is_none());
}

#[test]
fn the_last_content_length_counts() {
    let req =
        request("POST / HTTP/1.1\r\nContent-Length: 1\r\ncontent-length: 2\r\n\r\nabc").unwrap();
    assert_eq!(req.body, "ab");
    let req = request("POST / HTTP/1.1\r\nContent-Length: many\r\n\r\nabc").unwrap();
    assert_eq!(req.body, "");
}

#[test]
fn header_names_ignore_case() {
    let req = request("GET / HTTP/1.1\r\nX-One:  1 \r\nx-one: 2\r\nbroken\r\n\r\n").unwrap();
    assert_eq!(req.header("X-ONE"), Some("1"));
    assert_eq!(req.header("missing"), None);
    assert_eq!(req.headers.len(), 2);
}

#[test]
fn bodies_need_not_be_utf8() {
    let mut raw = b"POST / HTTP/1.1\r\nContent-Length: 2\r\n\r\n".to_vec();
    raw.push(0xff);
    raw.push(b'a');
    let req = read_request(&vec![raw]).unwrap();
    assert_eq!(req.body, "\u{fffd}a");
}

fn with_auth(value: &str) -> Request {
    let raw = format!("GET / HTTP/1.1\r\nAuthorization: {value}\r\n\r\n");
    request(raw.as_str()).unwrap()
}

#[test]
fn credentials_that_cannot_be_read() {
    assert_eq!(with_auth("Bearer x").basic_auth(), None);
    assert_eq!(with_auth("Basic ####").basic_auth(), None);
    // "user" without a colon
    assert_eq!(with_auth("Basic dXNlcg==").basic_auth(), None);
    // Bytes that are no text
    assert_eq!(with_auth("Basic //8=").basic_auth(), None);
    assert_eq!(request("GET / HTTP/1.1\r\n\r\n").unwrap().basic_auth(), None);
    // A password may hold colons.
    assert_eq!(
        with_auth("Basic dTpwOnE=").basic_auth(),
        Some(("u".to_string(), "p:q".to_string()))
    );
}

fn auth(username: Option<&str>, password: Option<&str>) -> HttpAuth {
    HttpAuth {
        username: username.map(|s| s.to_string()),
        password: password.map(|s| s.to_string()),
    }
}

#[test]
fn requests_are_admitted_by_their_credentials() {
    let good = with_auth("Basic dXNlcjpwYXNz");
    let bare = request("GET / HTTP/1.1\r\n\r\n").unwrap();
    assert!(authorize(&bare, &auth(None, None)));
    assert!(authorize(&bare, &auth(None, Some("x"))));
    assert!(!authorize(&bare, &auth(Some("user"), Some("pass"))));
    assert!(authorize(&good, &auth(Some("user"), Some("pass"))));
    assert!(authorize(&good, &auth(Some("user"), None)));
    assert!(!authorize(&good, &auth(Some("user"), Some("other"))));
    assert!(!authorize(&good, &auth(Some("other"), Some("pass"))));
    assert!(authorize(&good, &HttpAuth::default()));
}

#[test]
fn base64_is_decoded() {
    assert_eq!(base64_decode(b""), Some(Vec::new()));
    assert_eq!(base64_decode(b"TQ=="), Some(b"M".to_vec()));
    assert_eq!(base64_decode(b"TWE="), Some(b"Ma".to_vec()));
    assert_eq!(base64_decode(b"TWFu"), Some(b"Man".to_vec()));
    assert_eq!(base64_decode(b"TW\r\nFu"), Some(b"Man".to_vec()));
    assert_eq!(base64_decode(b"+/+/"), Some(vec![0xfb, 0xff, 0xbf]));
    assert_eq!(base64_decode(b"T!=="), None);
}

#[test]
fn responses_have_a_length() {
    let mut out: Vec<u8> = Vec::new();
    write_response(&mut out, 200, "OK", "text/plain", "h\u{e9}", &[("X-A", "b")]);
    let text = String::from_utf8(out).unwrap();
    assert_eq!(
        text,
        "HTTP/1.1 200 OK\r\nContent-Type: text/plain\r\nContent-Length: 3\r\nConnection: close\r\nX-A: b\r\n\r\nh\u{e9}"
    );
}
