use riley_cms::cgi::{parse_cgi_response, CgiHeaderMap};
use riley_cms::error::Error;
use riley_cms::git::{BodyLimit, CgiHeaderReader, HeaderStep};

#[test]
fn git_test_parse_cgi_response_basic() {
    let data = b"Content-Type: application/x-git-upload-pack-advertisement\r\n\r\nHello";
    let response = parse_cgi_response(data).unwrap();

    assert_eq!(response.status, 200);
    assert_eq!(
        response.headers.get("content-type"),
        Some(&"application/x-git-upload-pack-advertisement".to_string())
    );
    assert_eq!(response.body, b"Hello");
}

#[test]
fn git_test_parse_cgi_response_with_status() {
    let data = b"Status: 404 Not Found\r\nContent-Type: text/plain\r\n\r\nNot found";
    let response = parse_cgi_response(data).unwrap();

    assert_eq!(response.status, 404);
    assert_eq!(response.body, b"Not found");
}

#[test]
fn git_test_parse_cgi_response_unix_newlines() {
    let data = b"Content-Type: text/plain\n\nBody here";
    let response = parse_cgi_response(data).unwrap();

    assert_eq!(response.status, 200);
    assert_eq!(response.body, b"Body here");
}

#[test]
fn parse_cgi_response_without_separator_has_no_body() {
    let response = parse_cgi_response(b"Content-Type: text/plain\r\n").unwrap();
    assert_eq!(response.status, 200);
    assert_eq!(response.headers.len(), 0);
    assert!(response.body.is_empty());
}

#[test]
fn parse_cgi_response_keys_lowercased_and_trimmed() {
    let data = b"X-Thing:   some value  \nStatus: abc\nContent-Type: a\nContent-Type: b\n\n";
    let response = parse_cgi_response(data).unwrap();
    assert_eq!(response.status, 200);
    assert_eq!(response.headers.get("x-thing"), Some(&"some value".to_string()));
    assert_eq!(response.headers.get("status"), Some(&"abc".to_string()));
    assert_eq!(response.headers.get("content-type"), Some(&"b".to_string()));
    assert_eq!(response.headers.len(), 3);
}

#[test]
fn parse_cgi_response_status_out_of_range_is_a_header() {
    let response = parse_cgi_response(b"Status: 70000 Big\n\n").unwrap();
    assert_eq!(response.status, 200);
    assert_eq!(response.headers.get("status"), Some(&"70000 Big".to_string()));
}

fn read_headers(data: &[u8]) -> Result<(u16, CgiHeaderMap), Error> {
    let mut reader = CgiHeaderReader::new();
    for line in data.split_inclusive(|b| *b == b'\n') {
        if reader.feed_line(line)? == HeaderStep::Complete {
            break;
        }
    }
    let h = reader.finish();
    Ok((h.status, h.headers))
}

#[test]
fn test_read_cgi_headers_basic() {
    let (status, headers) =
        read_headers(b"Content-Type: application/x-git-upload-pack-advertisement\r\n\r\n").unwrap();
    assert_eq!(status, 200);
    assert_eq!(
        headers.get("content-type"),
        Some(&"application/x-git-upload-pack-advertisement".to_string())
    );
}

#[test]
fn test_read_cgi_headers_with_status() {
    let (status, headers) =
        read_headers(b"Status: 403 Forbidden\r\nContent-Type: text/plain\r\n\r\n").unwrap();
    assert_eq!(status, 403);
    assert_eq!(headers.get("content-type"), Some(&"text/plain".to_string()));
}

#[test]
fn test_read_cgi_headers_unix_newlines() {
    let (status, headers) = read_headers(b"Content-Type: text/plain\n\nBody here").unwrap();
    assert_eq!(status, 200);
    assert_eq!(headers.get("content-type"), Some(&"text/plain".to_string()));
}

#[test]
fn read_cgi_headers_stops_at_blank_line() {
    let mut reader = CgiHeaderReader::new();
    assert_eq!(reader.feed_line(b"Content-Type: text/plain\n").unwrap(), HeaderStep::More);
    assert_eq!(reader.feed_line(b"\n").unwrap(), HeaderStep::Complete);
    let h = reader.finish();
    assert_eq!(h.headers.get("content-type"), Some(&"text/plain".to_string()));
}

#[test]
fn read_cgi_headers_too_large() {
    let mut reader = CgiHeaderReader::new();
    let line = vec![b'a'; 10000];
    assert_eq!(reader.feed_line(&line).unwrap(), HeaderStep::More);
    assert_eq!(reader.feed_line(&line), Err(Error::CgiHeadersTooLarge { max: 16384 }));
}

#[test]
fn read_cgi_headers_invalid_utf8() {
    let mut reader = CgiHeaderReader::new();
    assert_eq!(reader.feed_line(b"X: \xff\xfe\n"), Err(Error::CgiHeadersInvalid));
}

#[test]
fn body_limit_refuses_bytes_past_the_limit() {
    let mut limit = BodyLimit::new(10);
    assert!(limit.accept(4).is_ok());
    assert!(limit.accept(6).is_ok());
    assert_eq!(limit.received_bytes(), 10);
    assert_eq!(limit.accept(1), Err(Error::BodyTooLarge { received: 11, max: 10 }));
    assert_eq!(limit.received_bytes(), 10);
}

#[test]
fn body_limit_zero_accepts_empty_chunks_only() {
    let mut limit = BodyLimit::new(0);
    assert!(limit.accept(0).is_ok());
    assert!(limit.accept(1).is_err());
}
