use http_core::request::parse_request;
use http_core::response::{decimal_bytes, Response, Status};
use http_core::router::{answer, file_read_response, file_write_response, Action, Config};
use std::io::Read;

fn config(dir: &str) -> Config {
    Config { base_directory: dir.as_bytes().to_vec() }
}

fn respond(raw: &str, dir: &str) -> Response {
    match answer(raw.as_bytes(), &config(dir)) {
        Action::Respond(r) => r,
        _ => panic!("expected an immediate response"),
    }
}

fn header<'a>(r: &'a Response, name: &str) -> Option<&'a [u8]> {
    r.headers
        .iter()
        .find(|(n, _)| n.as_slice() == name.as_bytes())
        .map(|(_, v)| v.as_slice())
}

fn gunzip(data: &[u8]) -> Vec<u8> {
    let mut out = Vec::new();
    flate2::read::GzDecoder::new(data).read_to_end(&mut out).unwrap();
    out
}

#[test]
fn echo_without_encoding() {
    let r = respond("GET /echo/abc HTTP/1.1\r\nHost: localhost:4221\r\n\r\n", "/tmp");
    assert_eq!(r.status, Status::Success);
    assert_eq!(header(&r, "Content-Type"), Some(&b"text/plain"[..]));
    assert_eq!(header(&r, "Content-Length"), Some(&b"3"[..]));
    assert_eq!(header(&r, "Content-Encoding"), None);
    assert_eq!(r.body, b"abc".to_vec());
    assert_eq!(
        r.to_bytes(),
        b"HTTP/1.1 200 OK\r\nContent-Type: text/plain\r\nContent-Length: 3\r\n\r\nabc".to_vec()
    );
}

#[test]
fn echo_with_gzip_round_trips() {
    let r = respond(
        "GET /echo/strawberry HTTP/1.1\r\nAccept-Encoding: gzip\r\n\r\n",
        "/tmp",
    );
    assert_eq!(r.status, Status::Success);
    assert_eq!(header(&r, "Content-Encoding"), Some(&b"gzip"[..]));
    assert_eq!(header(&r, "Content-Type"), Some(&b"text/plain"[..]));
    let length = r.body.len().to_string();
    assert_eq!(header(&r, "Content-Length"), Some(length.as_bytes()));
    assert_ne!(r.body, b"strawberry".to_vec());
    assert_eq!(&r.body[..2], &[0x1f, 0x8b]);
    assert_eq!(gunzip(&r.body), b"strawberry".to_vec());
}

#[test]
fn echo_with_unsupported_encoding_is_plain() {
    let r = respond(
        "GET /echo/abc HTTP/1.1\r\nAccept-Encoding: identity\r\n\r\n",
        "/tmp",
    );
    assert_eq!(r.status, Status::Success);
    assert_eq!(header(&r, "Content-Encoding"), None);
    assert_eq!(header(&r, "Content-Length"), Some(&b"3"[..]));
    assert_eq!(r.body, b"abc".to_vec());
}

#[test]
fn echo_picks_gzip_from_a_list() {
    let r = respond(
        "GET /echo/pear HTTP/1.1\r\nAccept-Encoding: encoding-1, gzip, encoding-2\r\n\r\n",
        "/tmp",
    );
    assert_eq!(header(&r, "Content-Encoding"), Some(&b"gzip"[..]));
    assert_eq!(gunzip(&r.body), b"pear".to_vec());
}

#[test]
fn echo_lists_each_supported_token_offered() {
    let r = respond(
        "GET /echo/pear HTTP/1.1\r\nAccept-Encoding: gzip, gzip\r\n\r\n",
        "/tmp",
    );
    assert_eq!(header(&r, "Content-Encoding"), Some(&b"gzip, gzip"[..]));
}

#[test]
fn echo_takes_the_last_segment() {
    let r = respond("GET /api/echo/a/b HTTP/1.1\r\n\r\n", "/tmp");
    assert_eq!(r.body, b"b".to_vec());
}

#[test]
fn root_is_empty_ok_whatever_the_headers() {
    for raw in [
        "GET / HTTP/1.1\r\n\r\n",
        "GET / HTTP/1.1\r\nAccept-Encoding: gzip\r\nUser-Agent: x\r\n\r\n",
        "POST / HTTP/1.1\r\nContent-Length: 3\r\n\r\nabc",
    ] {
        let r = respond(raw, "/tmp");
        assert_eq!(r.status, Status::Success);
        assert!(r.headers.is_empty());
        assert!(r.body.is_empty());
        assert_eq!(r.to_bytes(), b"HTTP/1.1 200 OK\r\n\r\n".to_vec());
    }
}

#[test]
fn user_agent_is_reflected() {
    let r = respond(
        "GET /user-agent HTTP/1.1\r\nHost: localhost\r\nUser-Agent: foo/1.0\r\n\r\n",
        "/tmp",
    );
    assert_eq!(r.status, Status::Success);
    assert_eq!(r.body, b"foo/1.0".to_vec());
    assert_eq!(header(&r, "Content-Length"), Some(&b"7"[..]));
    assert_eq!(header(&r, "Content-Type"), Some(&b"text/plain"[..]));
}

#[test]
fn user_agent_absent_is_empty() {
    let r = respond("GET /user-agent HTTP/1.1\r\n\r\n", "/tmp");
    assert_eq!(r.status, Status::Success);
    assert!(r.body.is_empty());
    assert_eq!(header(&r, "Content-Length"), Some(&b"0"[..]));
}

#[test]
fn last_duplicate_header_wins() {
    let r = respond(
        "GET /user-agent HTTP/1.1\r\nUser-Agent: first\r\nUser-Agent: second\r\n\r\n",
        "/tmp",
    );
    assert_eq!(r.body, b"second".to_vec());
}

#[test]
fn write_then_read_same_file() {
    let cfg = config("/srv/files");
    let post = answer(
        b"POST /files/test.txt HTTP/1.1\r\nContent-Length: 5\r\n\r\nhello",
        &cfg,
    );
    let written_to = match post {
        Action::WriteFile(path, body) => {
            assert_eq!(body, b"hello".to_vec());
            path
        }
        _ => panic!("expected a write"),
    };
    assert_eq!(written_to, b"/srv/files/test.txt".to_vec());
    let created = file_write_response(true);
    assert_eq!(created.status, Status::Created);
    assert!(created.body.is_empty());

    let get = answer(b"GET /files/test.txt HTTP/1.1\r\n\r\n", &cfg);
    match get {
        Action::ReadFile(path) => assert_eq!(path, written_to),
        _ => panic!("expected a read"),
    }
    let r = file_read_response(Some(b"hello".to_vec()));
    assert_eq!(r.status, Status::Success);
    assert_eq!(r.body, b"hello".to_vec());
    assert_eq!(header(&r, "Content-Type"), Some(&b"application/octet-stream"[..]));
    assert_eq!(header(&r, "Content-Length"), Some(&b"5"[..]));
}

#[test]
fn missing_file_is_not_found() {
    match answer(b"GET /files/missing.txt HTTP/1.1\r\n\r\n", &config("/tmp")) {
        Action::ReadFile(path) => assert_eq!(path, b"/tmp/missing.txt".to_vec()),
        _ => panic!("expected a read"),
    }
    let r = file_read_response(None);
    assert_eq!(r.status, Status::NotFound);
    assert!(r.body.is_empty());
    assert_eq!(r.to_bytes(), b"HTTP/1.1 404 Not Found\r\n\r\n".to_vec());
}

#[test]
fn failed_write_is_server_error() {
    let r = file_write_response(false);
    assert_eq!(r.status, Status::ServerError);
    assert_eq!(r.status.code(), 500);
    assert_eq!(r.head(), b"HTTP/1.1 500 Internal Server Error\r\n\r\n".to_vec());
}

#[test]
fn delete_on_files_is_not_implemented() {
    let r = respond("DELETE /files/anything HTTP/1.1\r\n\r\n", "/tmp");
    assert_eq!(r.status, Status::NotImplemented);
    assert_eq!(r.status.code(), 501);
    assert!(r.body.is_empty());
}

#[test]
fn repeated_requests_get_identical_answers() {
    for raw in [
        "GET / HTTP/1.1\r\n\r\n",
        "GET /user-agent HTTP/1.1\r\nUser-Agent: foo/1.0\r\n\r\n",
    ] {
        let first = respond(raw, "/tmp").to_bytes();
        for dir in ["/tmp", "/tmp", "/elsewhere"] {
            assert_eq!(respond(raw, dir).to_bytes(), first);
        }
    }
}

#[test]
fn unknown_path_is_not_found() {
    let r = respond("GET /nowhere HTTP/1.1\r\n\r\n", "/tmp");
    assert_eq!(r.status, Status::NotFound);
    assert_eq!(r.status.code(), 404);
}

#[test]
fn empty_buffer_reads_as_root() {
    let r = respond("", "/tmp");
    assert_eq!(r.status, Status::Success);
    assert!(r.body.is_empty());
}

#[test]
fn one_word_request_line_is_bad_request() {
    let r = respond("GARBAGE\r\n\r\n", "/tmp");
    assert_eq!(r.status, Status::BadRequest);
    assert_eq!(r.status.code(), 400);
    assert!(parse_request(b"GARBAGE\r\n\r\n").is_err());
    assert!(parse_request(b"\r\n").is_err());
}

#[test]
fn parse_splits_the_request() {
    let q = parse_request(
        b"POST  /files/a.txt HTTP/1.1\r\nHost: h\r\nX-Odd: a: b\r\nNoColon\r\n\r\nbody line",
    )
    .unwrap();
    assert_eq!(q.method, b"POST".to_vec());
    assert_eq!(q.path, b"/files/a.txt".to_vec());
    assert_eq!(
        q.headers,
        vec![
            (b"Host".to_vec(), b"h".to_vec()),
            (b"X-Odd".to_vec(), b"a: b".to_vec()),
        ]
    );
    assert_eq!(q.body, b"body line".to_vec());
    assert_eq!(q.header(b"X-Odd"), Some(b"a: b".to_vec()));
    assert_eq!(q.header(b"Missing"), None);
}

#[test]
fn post_with_empty_body_writes_nothing() {
    match answer(b"POST /files/e.txt HTTP/1.1\r\n\r\n", &config("/d")) {
        Action::WriteFile(path, body) => {
            assert_eq!(path, b"/d/e.txt".to_vec());
            assert!(body.is_empty());
        }
        _ => panic!("expected a write"),
    }
}

#[test]
fn decimal_digits() {
    assert_eq!(decimal_bytes(0), b"0".to_vec());
    assert_eq!(decimal_bytes(7), b"7".to_vec());
    assert_eq!(decimal_bytes(1234), b"1234".to_vec());
    assert_eq!(decimal_bytes(usize::MAX), usize::MAX.to_string().into_bytes());
}

#[test]
fn directory_from_arguments() {
    let args = |v: &[&str]| v.iter().map(|a| a.as_bytes().to_vec()).collect::<Vec<_>>();
    assert_eq!(
        Config::from_args(&args(&["server", "--directory", "/data"])).base_directory,
        b"/data".to_vec()
    );
    assert_eq!(Config::from_args(&args(&["server"])).base_directory, b"/tmp".to_vec());
    assert_eq!(
        Config::from_args(&args(&["server", "--dir", "/data"])).base_directory,
        b"/tmp".to_vec()
    );
}

#[test]
fn declared_content_length() {
    let len = |raw: &[u8]| parse_request(raw).unwrap().declared_length();
    assert_eq!(len(b"POST /files/a HTTP/1.1\r\nContent-Length: 5\r\n\r\nhello"), 5);
    assert_eq!(len(b"POST /files/a HTTP/1.1\r\n\r\nhello"), 0);
    assert_eq!(len(b"POST /files/a HTTP/1.1\r\nContent-Length: five\r\n\r\nhello"), 0);
    assert_eq!(len(b"POST /files/a HTTP/1.1\r\nContent-Length: \r\n\r\nhello"), 0);
    assert_eq!(
        len(b"POST /files/a HTTP/1.1\r\nContent-Length: 999999999999999999999999\r\n\r\nx"),
        0
    );
    let max = format!("POST /files/a HTTP/1.1\r\nContent-Length: {}\r\n\r\nx", usize::MAX);
    assert_eq!(len(max.as_bytes()), usize::MAX);
}

#[test]
fn lines_drop_carriage_returns_before_line_feeds() {
    let q = parse_request(b"GET /user-agent HTTP/1.1\nUser-Agent: a\r\n\r\nlast\r").unwrap();
    assert_eq!(q.header(b"User-Agent"), Some(b"a".to_vec()));
    assert_eq!(q.body, b"last\r".to_vec());
}

#[test]
fn declared_content_length_takes_a_leading_plus() {
    let len = |raw: &[u8]| parse_request(raw).unwrap().declared_length();
    assert_eq!(len(b"POST /files/a HTTP/1.1\r\nContent-Length: +5\r\n\r\nhello"), 5);
    assert_eq!(len(b"POST /files/a HTTP/1.1\r\nContent-Length: +\r\n\r\nhello"), 0);
    assert_eq!(len(b"POST /files/a HTTP/1.1\r\nContent-Length: ++5\r\n\r\nhello"), 0);
    assert_eq!(len(b"POST /files/a HTTP/1.1\r\nContent-Length: -5\r\n\r\nhello"), 0);
}

#[test]
fn request_line_splits_on_unicode_whitespace() {
    for sep in [
        "\u{a0}", "\u{85}", "\u{1680}", "\u{2000}", "\u{200a}", "\u{2028}", "\u{2029}",
        "\u{202f}", "\u{205f}", "\u{3000}", "\t", " \u{a0} ",
    ] {
        let raw = format!("GET{}/{}HTTP/1.1\r\n\r\n", sep, sep);
        let q = parse_request(raw.as_bytes()).unwrap();
        assert_eq!(q.method, b"GET".to_vec());
        assert_eq!(q.path, b"/".to_vec());
        let r = respond(&raw, "/tmp");
        assert_eq!(r.status, Status::Success);
    }
    let r = respond("GET\u{a0}/", "/tmp");
    assert_eq!(r.status, Status::Success);
}

#[test]
fn non_whitespace_characters_stay_in_words() {
    let q = parse_request("GET\u{200b}/x /echo/\u{e9}t\u{e9} HTTP/1.1\r\n\r\n".as_bytes()).unwrap();
    assert_eq!(q.method, "GET\u{200b}/x".as_bytes().to_vec());
    assert_eq!(q.path, "/echo/\u{e9}t\u{e9}".as_bytes().to_vec());
    assert!(parse_request("GET\u{200b}/\r\n".as_bytes()).is_err());
}
