use std::time::{Duration, SystemTime, UNIX_EPOCH};

use httprs::http::header::{
    content_encoding, content_length, content_type, date_at, header, header_with_key, location,
    server, www_authenticate, HeaderValue, HeaderValueTime, HttpHeader, HttpHeaderValue,
    HttpResponseHeader, ToStr,
};

#[test]
fn test_time_to_header_string() {
    assert_eq!(
        HeaderValueTime::from_system_time(SystemTime::UNIX_EPOCH).to_str(),
        "Thu, 01 Jan 1970 00:00:00 GMT"
    );

    println!(
        "{}",
        HeaderValueTime::from_system_time(SystemTime::now()).to_str()
    )
}

#[test]
fn test_http_response_header() {
    let mut headers = HttpResponseHeader::new();

    // 1. a defined header
    let content_type = HttpHeaderValue::Str("text/plain").to_value();
    headers.set("Content-Type", content_type.clone());
    assert_eq!(headers.get("Content-Type").unwrap().to_str(), "text/plain");

    // case does not matter
    assert_eq!(headers.get("content-type").unwrap().to_str(), "text/plain");

    // 2. a custom header
    let x_custom = HttpHeaderValue::Str("custom-value").to_value();
    headers.set("X-Custom-Header", x_custom.clone());
    assert_eq!(
        headers.get("X-Custom-Header").unwrap().to_str(),
        "custom-value"
    );

    // case does not matter for custom headers either
    assert_eq!(
        headers.get("x-custom-header").unwrap().to_str(),
        "custom-value"
    );

    // 3. overwriting
    let new_content_type = HttpHeaderValue::Str("application/json").to_value();
    headers.set("CONTENT-TYPE", new_content_type.clone());
    assert_eq!(
        headers.get("Content-Type").unwrap().to_str(),
        "application/json"
    );

    // 4. a header that is not there
    assert!(headers.get("Non-Existent").is_none());
}

#[test]
fn test_http_response_header_iterator() {
    let mut headers = HttpResponseHeader::new();

    // two defined headers
    headers.set(
        "Content-Type",
        HttpHeaderValue::Str("application/json").to_value(),
    );
    headers.set("Server", HttpHeaderValue::Str("httprs/1.0").to_value());

    // two custom headers
    headers.set("X-Custom-1", HttpHeaderValue::Str("val1").to_value());
    headers.set("X-Custom-2", HttpHeaderValue::Str("val2").to_value());

    let result: Vec<_> = headers.into_iter().collect();

    // four headers in all
    assert_eq!(result.len(), 4);

    // defined ones first, then the custom ones
    assert_eq!(result[0].key_str(), "Content-Type");
    assert_eq!(result[1].key_str(), "Server");
    assert_eq!(result[2].key_str(), "X-Custom-1");
    assert_eq!(result[3].key_str(), "X-Custom-2");
}

#[test]
fn header_read_after_write_ignores_case() {
    let mut headers = HttpResponseHeader::new();
    headers.add(header("x-trace", HttpHeaderValue::String("abc".to_string())));
    assert_eq!(headers.get("X-TRACE").unwrap().to_str(), "abc");
    assert_eq!(headers.get("x-Trace").unwrap().to_str(), "abc");
    // another name is not touched
    headers.add(header("X-Other", HttpHeaderValue::Str("1")));
    assert_eq!(headers.get("x-trace").unwrap().to_str(), "abc");
    assert_eq!(headers.get("x-other").unwrap().to_str(), "1");
}

#[test]
fn header_overwrite_keeps_one_entry_and_position() {
    let mut headers = HttpResponseHeader::new();
    headers.set("X-A", HttpHeaderValue::Str("1").to_value());
    headers.set("X-B", HttpHeaderValue::Str("2").to_value());
    headers.set("x-a", HttpHeaderValue::Str("3").to_value());
    let result = headers.into_iter().collect();
    assert_eq!(result.len(), 2);
    assert_eq!(result[0].key_str(), "x-a");
    assert_eq!(result[0].value().to_str(), "3");
    assert_eq!(result[1].key_str(), "X-B");
}

#[test]
fn header_defined_order_is_fixed() {
    let mut headers = HttpResponseHeader::new();
    headers.add(www_authenticate(HttpHeaderValue::Str("Basic")));
    headers.add(header("X-First", HttpHeaderValue::Str("x")));
    headers.add(location(HttpHeaderValue::Str("/there")));
    headers.add(content_length(42));
    headers.add(server(HttpHeaderValue::Str("s")));
    headers.add(content_encoding(HttpHeaderValue::Str("gzip")));
    headers.add(date_at(0));
    let all = headers.into_iter().collect();
    let keys: Vec<&str> = all.iter().map(|h| h.key_str()).collect();
    assert_eq!(
        keys,
        vec![
            "Content-Encoding",
            "Content-Length",
            "Date",
            "Location",
            "Server",
            "WWW-Authenticate",
            "X-First"
        ]
    );
}

#[test]
fn header_with_empty_name_is_kept_but_not_written() {
    let mut headers = HttpResponseHeader::new();
    headers.set("", HttpHeaderValue::Str("hidden").to_value());
    assert_eq!(headers.get("").unwrap().to_str(), "hidden");
    assert_eq!(headers.into_iter().collect().len(), 0);
}

#[test]
fn header_constructors() {
    let h = content_length(1234567);
    assert_eq!(h.key_str(), "Content-Length");
    assert_eq!(h.value().to_str(), "1234567");
    assert_eq!(content_length(0).value().to_str(), "0");
    let h = content_type(HttpHeaderValue::String("text/html".to_string()));
    assert_eq!(h.key_str(), "Content-Type");
    assert_eq!(h.value().to_str(), "text/html");
    let h = date_at(1709164800);
    assert_eq!(h.key_str(), "Date");
    assert_eq!(h.value().to_str(), "Thu, 29 Feb 2024 00:00:00 GMT");
    let h = header_with_key("X-Key".to_string(), HttpHeaderValue::Str("v"));
    assert_eq!(h.key_str(), "X-Key");
    assert!(matches!(h, HttpHeader::StringKey(_, HeaderValue::Str("v"))));
    let t = HeaderValueTime::from_system_time(UNIX_EPOCH + Duration::from_secs(1709121600));
    assert_eq!(t.to_str(), "Wed, 28 Feb 2024 12:00:00 GMT");
}
