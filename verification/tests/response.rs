use std::io::Read;

use flate2::read::GzDecoder;
use httprs::http::header::{content_encoding, HttpHeaderValue, ToStr};
use httprs::http::request::HttpRequest;
use httprs::http::response::{HeaderSetter, HttpResponse};
use httprs::http::value::{HttpMethod, HttpResponseCode, HttpVersion};
use httprs::util::multimap::MultiMap;

#[test]
fn test_gzip_encoding_and_decoding() {
    // the bytes the response sends
    let mut output_buffer = Vec::new();

    {
        let mut response = HttpResponse::new(HttpVersion::default());

        // ask for gzip
        response.set_header(content_encoding(HttpHeaderValue::Str("gzip")));

        // the body
        let test_data = b"Hello, this is a test message for gzip encoding!";
        response.write(test_data);

        // flushing compresses the body
        output_buffer = response.flush().unwrap();
    }

    // split head and body
    let output_str = String::from_utf8_lossy(&output_buffer);
    let parts: Vec<&str> = output_str.split("\r\n\r\n").collect();

    // the head
    assert!(parts[0].contains("Content-Encoding: gzip"));

    // the body: gzip data
    let body_start = parts[0].len() + 4; // the length of "\r\n\r\n"
    let compressed_body = &output_buffer[body_start..];

    // gzip decoding
    let mut decoder = GzDecoder::new(compressed_body);
    let mut decoded = Vec::new();
    decoder.read_to_end(&mut decoded).unwrap();

    // the decoded body is the original
    let expected = b"Hello, this is a test message for gzip encoding!";
    assert_eq!(decoded, expected);
}

#[test]
fn test_no_gzip_encoding() {
    // a response without gzip
    let mut output_buffer = Vec::new();

    {
        let mut response = HttpResponse::new(HttpVersion::default());

        let test_data = b"Hello, this is a plain text message!";
        response.write(test_data);
        output_buffer = response.flush().unwrap();
    }

    // split head and body
    let output_str = String::from_utf8_lossy(&output_buffer);
    let parts: Vec<&str> = output_str.split("\r\n\r\n").collect();

    // no Content-Encoding header
    assert!(!parts[0].contains("Content-Encoding"));

    // the body as it was written
    let body_start = parts[0].len() + 4;
    let body = &output_buffer[body_start..];

    assert_eq!(body, b"Hello, this is a plain text message!");
}

#[test]
fn test_gzip_with_large_data() {
    // a large body that compresses well
    let mut output_buffer = Vec::new();
    let test_data = "This is a repeating message! ".repeat(100);

    {
        let mut response = HttpResponse::new(HttpVersion::default());

        response.set_header(content_encoding(HttpHeaderValue::Str("gzip")));

        response.write(test_data.as_bytes());
        output_buffer = response.flush().unwrap();
    }

    // the compressed body is smaller
    let output_str = String::from_utf8_lossy(&output_buffer);
    let parts: Vec<&str> = output_str.split("\r\n\r\n").collect();
    let body_start = parts[0].len() + 4;
    let compressed_size = output_buffer.len() - body_start;

    println!(
        "Original size: {}, Compressed size: {}",
        test_data.len(),
        compressed_size
    );
    assert!(compressed_size < test_data.len());

    // and decodes to the original
    let compressed_body = &output_buffer[body_start..];
    let mut decoder = GzDecoder::new(compressed_body);
    let mut decoded = String::new();
    decoder.read_to_string(&mut decoded).unwrap();

    assert_eq!(decoded, test_data);
}

#[test]
fn flush_at_gives_exact_bytes() {
    let mut response = HttpResponse::new(HttpVersion::Http11);
    response.set_response_code(HttpResponseCode::NotFound);
    assert_eq!(response.write(b"abc"), 3);
    let out = response.flush_at(0).unwrap();
    let expected = "HTTP/1.1 404 Not Found\r\nContent-Length: 3\r\nDate: Thu, 01 Jan 1970 00:00:00 GMT\r\n\r\nabc";
    assert_eq!(String::from_utf8(out.clone()).unwrap(), expected);
    assert_eq!(response.written(), expected.len());
}

#[test]
fn head_response_has_no_body() {
    let request = HttpRequest::new(
        HttpMethod::HEAD,
        HttpVersion::Http10,
        "/".to_string(),
        MultiMap::new(),
        MultiMap::new(),
    );
    let mut response = HttpResponse::from_request(&request);
    response.write(b"hello");
    let out = response.flush_at(86400).unwrap();
    let text = String::from_utf8(out).unwrap();
    assert_eq!(
        text,
        "HTTP/1.0 200 OK\r\nContent-Length: 5\r\nDate: Fri, 02 Jan 1970 00:00:00 GMT\r\n\r\n"
    );
    assert_eq!(response.written(), text.len());
}

#[test]
fn gzip_body_length_is_compressed_length() {
    let mut response = HttpResponse::new(HttpVersion::Http10);
    response.set_header(content_encoding(HttpHeaderValue::String("gzip".to_string())));
    response.write(b"aaaaaaaaaaaaaaaaaaaaaaaaaaaaaaaaaaaaaaaa");
    let out = response.flush_at(0).unwrap();
    let text = String::from_utf8_lossy(&out);
    let head = text.split("\r\n\r\n").next().unwrap();
    let body_len = out.len() - head.len() - 4;
    assert!(head.contains(&format!("Content-Length: {}\r\n", body_len)));
    // the gzip header
    assert_eq!(&out[head.len() + 4..head.len() + 6], &[0x1f, 0x8b]);
}

#[test]
fn response_code_texts() {
    assert_eq!(HttpResponseCode::OK.as_str(), "200 OK");
    assert_eq!(HttpResponseCode::MovedPermanetly.as_str(), "301 Moved Permanently");
    assert_eq!(HttpResponseCode::ServiceUnavailable.code(), 503);
    assert_eq!(HttpResponseCode::NoContent.reason(), "No Content");
    assert_eq!(HttpResponseCode::InternalServerError.as_str(), "500 Internal Server Error");
}

#[test]
fn finish_with_given_body() {
    let mut response = HttpResponse::new(HttpVersion::Http10);
    response.write(b"ignored");
    let out = response.finish(b"xyz".to_vec(), 60);
    assert_eq!(
        String::from_utf8(out).unwrap(),
        "HTTP/1.0 200 OK\r\nContent-Length: 3\r\nDate: Thu, 01 Jan 1970 00:01:00 GMT\r\n\r\nxyz"
    );
}

#[test]
fn written_counts_the_last_flush() {
    let mut response = HttpResponse::new(HttpVersion::Http10);
    assert_eq!(response.written(), 0);
    response.write(b"hello");
    response.set_response_code(HttpResponseCode::NotFound);
    assert_eq!(response.written(), 0);
    let first = response.flush_at(0).unwrap();
    assert_eq!(response.written(), first.len());
    response.write(b"!");
    assert_eq!(response.written(), first.len());
    let second = response.flush_at(0).unwrap();
    assert_eq!(second.len(), first.len() + 1);
    assert_eq!(response.written(), second.len());
}
