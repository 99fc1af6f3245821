use httprs::http::value::{HttpMethod, HttpVersion};

#[test]
fn version_parse_ignores_case() {
    assert_eq!(HttpVersion::parse("HTTP/1.1"), Some(HttpVersion::Http11));
    assert_eq!(HttpVersion::parse("http/1.0"), Some(HttpVersion::Http10));
    assert_eq!(HttpVersion::parse("HTTP/2"), None);
    for v in [HttpVersion::Http10, HttpVersion::Http11] {
        assert_eq!(HttpVersion::parse(v.as_str()), Some(v));
    }
    assert_eq!(HttpVersion::default(), HttpVersion::Http10);
}

#[test]
fn method_parse_uses_unicode_uppercase() {
    assert_eq!(HttpMethod::parse("get"), HttpMethod::GET);
    assert_eq!(HttpMethod::parse("Post"), HttpMethod::POST);
    assert_eq!(HttpMethod::parse("HEAD"), HttpMethod::HEAD);
    // U+017F LATIN SMALL LETTER LONG S upper-cases to S
    assert_eq!(HttpMethod::parse("po\u{17f}t"), HttpMethod::POST);
    assert_eq!(HttpMethod::parse("put"), HttpMethod::UNDEFINED("put".to_string()));
    assert_eq!(HttpMethod::parse("put").as_str(), "put");
    assert_eq!(HttpMethod::GET.as_str(), "GET");
    assert_eq!(HttpMethod::from_uppercased("GET", "whatever"), HttpMethod::GET);
}
