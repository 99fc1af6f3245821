use std::io::{Cursor, ErrorKind, Read};

use httprs::http::http::{parse_url, BodyRead, BodyReader, HeaderLine, HeaderReader, Http1};
use httprs::http::response::HttpResponse;
use httprs::http::value::{Error, HttpMethod, HttpResponseCode, HttpVersion};

/// Reads the body as the server does: the bytes left over from the head, then the stream.
fn read_body(reader: &mut BodyReader, stream: &mut dyn Read, buf: &mut [u8]) -> std::io::Result<usize> {
    match reader.read_remain(buf) {
        BodyRead::Done(n) => Ok(n),
        BodyRead::ReadStream { filled, partial } => match stream.read(&mut buf[filled..]) {
            Ok(n) => Ok(filled + n),
            Err(e) if partial && e.kind() == ErrorKind::WouldBlock => Ok(filled),
            Err(e) => Err(e),
        },
    }
}

#[test]
fn test_parse_url() {
    let (path, param) = parse_url("/test?asdf=asdf&asdf=fdsa");

    assert_eq!(path, "/test");
    assert_eq!(param.get("asdf"), Some(&vec!["asdf".to_string(), "fdsa".to_string()]));
}

#[test]
fn test_no_param() {
    let (path, param) = parse_url("/test");

    assert_eq!(path, "/test");
    assert!(param.is_empty());
}

#[test]
fn test_body_reader() {
    let mut reader = BodyReader::new(vec![1, 2, 3]);
    let mut stream = Cursor::new(vec![4, 5, 6]);
    let mut buf = [0; 3];
    assert_eq!(read_body(&mut reader, &mut stream, &mut buf).unwrap(), 3);
    assert_eq!(buf, [1, 2, 3]);
    assert_eq!(read_body(&mut reader, &mut stream, &mut buf).unwrap(), 3);
    assert_eq!(buf, [4, 5, 6]);
}

#[test]
fn body_reader_joins_remain_and_stream() {
    let mut reader = BodyReader::new(vec![1, 2]);
    let mut buf = [0u8; 5];
    assert_eq!(reader.read_remain(&mut buf), BodyRead::ReadStream { filled: 2, partial: true });
    assert_eq!(&buf[..2], &[1, 2]);
    assert_eq!(reader.read_remain(&mut buf), BodyRead::ReadStream { filled: 0, partial: false });
    let mut reader = BodyReader::new(vec![7, 8, 9]);
    let mut small = [0u8; 2];
    assert_eq!(reader.read_remain(&mut small), BodyRead::Done(2));
    assert_eq!(small, [7, 8]);
    let mut empty: [u8; 0] = [];
    assert_eq!(reader.read_remain(&mut empty), BodyRead::Done(0));
}

#[test]
fn parse_url_pieces() {
    let (path, param) = parse_url("/a/b?x=1&&flag&y=2=3&x=4?ignored=5");
    assert_eq!(path, "/a/b");
    assert_eq!(param.get("x"), Some(&vec!["1".to_string(), "4".to_string()]));
    assert_eq!(param.get("flag"), Some(&vec!["true".to_string()]));
    assert_eq!(param.get("y"), Some(&vec!["2=3".to_string()]));
    assert_eq!(param.get("ignored"), None);
    let (path, param) = parse_url("?=v");
    assert_eq!(path, "");
    assert_eq!(param.get(""), Some(&vec!["v".to_string()]));
}

fn read_head(reader: &mut HeaderReader, input: &[&str]) -> Result<usize, Error> {
    for line in input {
        match reader.accept_line(line) {
            HeaderLine::More => continue,
            HeaderLine::End(n) => return Ok(n),
            HeaderLine::Failed(e) => return Err(e),
        }
    }
    match reader.accept_line("") {
        HeaderLine::End(n) => Ok(n),
        HeaderLine::Failed(e) => Err(e),
        HeaderLine::More => unreachable!(),
    }
}

#[test]
fn header_reader_reads_a_head() {
    let http = Http1::new(1024, ());
    let mut reader = http.header_reader();
    let n = read_head(
        &mut reader,
        &["GET /x?a=1 HTTP/1.0\r\n", "  Host: example\r\n", "Content-Encoding: gzip\r\n", "\r\n"],
    )
    .unwrap();
    assert_eq!(n, 21 + 17 + 24 + 2);
    let lines = reader.into_lines();
    assert_eq!(lines, vec!["GET /x?a=1 HTTP/1.0", "Host: example", "Content-Encoding: gzip"]);
    let (request, gzip) = http.init_request(&lines).unwrap();
    assert!(gzip);
    assert_eq!(request.method(), &HttpMethod::GET);
    assert_eq!(request.version(), HttpVersion::Http10);
    assert_eq!(request.path(), "/x");
    assert_eq!(request.param().get("a"), Some(&vec!["1".to_string()]));
    assert_eq!(request.header().get("Host"), Some(&vec!["example".to_string()]));
}

#[test]
fn header_reader_errors() {
    let mut reader = HeaderReader::new(10);
    match read_head(&mut reader, &["GET / HTTP/1.0\r\n"]) {
        Err(Error::BadRequest(m)) => assert_eq!(m, "header size limit exceed"),
        other => panic!("{:?}", other),
    }
    let mut reader = HeaderReader::new(100);
    match read_head(&mut reader, &["GET / HTTP/1.0\n"]) {
        Err(Error::ParseFail(m)) => assert_eq!(m, "Invalid heaader GET / HTTP/1.0\n"),
        other => panic!("{:?}", other),
    }
    let mut reader = HeaderReader::new(100);
    match read_head(&mut reader, &[]) {
        Err(Error::ReadFail(m)) => assert_eq!(m, "EOF"),
        other => panic!("{:?}", other),
    }
    let http = Http1::new(100, ());
    match http.init_request(&vec!["GET".to_string()]) {
        Err(Error::ParseFail(m)) => assert_eq!(m, "invalid request line: GET"),
        other => panic!("{:?}", other.is_ok()),
    }
}

#[test]
fn init_header_trims_and_collects() {
    let http = Http1::new(100, ());
    let lines = vec![
        "POST / HTTP/1.0".to_string(),
        "  X-A :  one ".to_string(),
        "no colon".to_string(),
        "X-A:two".to_string(),
    ];
    let header = http.init_header(&lines);
    assert_eq!(header.get("X-A"), Some(&vec!["one".to_string(), "two".to_string()]));
    assert_eq!(header.get("no colon"), None);
    let (request, gzip) = http.init_request(&lines).unwrap();
    assert!(!gzip);
    assert_eq!(request.method(), &HttpMethod::POST);
}

#[test]
fn error_response_is_bad_request() {
    let http = Http1::new(100, ());
    let mut response: HttpResponse = http.error_response_for_invalid_request();
    let text = String::from_utf8(response.flush_at(0).unwrap()).unwrap();
    assert!(text.starts_with("HTTP/1.0 400 Bad Request\r\n"));
    assert!(text.contains("Server: server_rs\r\n"));
    assert!(text.contains("Content-Type: text/plain\r\n"));
    assert!(text.ends_with("\r\n\r\nInvalid request"));
    let _ = HttpResponseCode::BadRequest;
}
