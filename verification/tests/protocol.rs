use racoon::forms::{client_error_text, FormConstraints, FormFieldError};
use racoon::num::parse_dec_usize;
use racoon::headers::{multipart_boundary, Headers};
use racoon::parser::{body_kind_of, parse_url_encoded, path_and_raw_query,
    query_params_from_raw, read_request_headers, BodyKind, RequestError};
use racoon::server::{keep_alive_after_body, keep_alive_decision};
use racoon::server::RequestConstraints;
use racoon::shortcuts::SingleText;
use racoon::stream::{AbstractStream, TestStreamWrapper};
use racoon::urlencoded::UrlEncodedParser;

#[test]
fn test_header_value() {
    let mut headers = Headers::new();
    headers.set("Content-Type", b"text/html");

    // Case-insensitive
    assert_eq!(headers.value("content-Type").is_some(), true);
    assert_eq!(
        headers.value("content-Type").unwrap(),
        "text/html".to_string()
    );

    // Case sensitive
    assert_eq!(headers.get("content-Type").is_some(), false);
}

#[test]
fn test_multipart_boundary() {
    let boundary_string = "application/form_data; boundary=----123456";

    assert_eq!(
        multipart_boundary(&boundary_string.to_string()).is_ok(),
        true
    );
    assert_eq!(
        multipart_boundary(&boundary_string.to_string()).unwrap(),
        "----123456"
    );
}

#[test]
fn test_multipart_boundary_missing() {
    let plain = "text/html";
    assert!(multipart_boundary(&plain.to_string()).is_err());
    let no_param = "multipart/form-data; charset=utf-8";
    assert!(multipart_boundary(&no_param.to_string()).is_err());
}

#[test]
fn test_set_multiple_keeps_values() {
    let mut headers = Headers::new();
    headers.set_multiple("Cookie", b"a=1");
    headers.set_multiple("Cookie", b"b=2");
    let values = headers.multiple_values("cookie");
    assert_eq!(values, vec!["a=1".to_string(), "b=2".to_string()]);

    headers.set("Cookie", b"c=3");
    let values = headers.multiple_values("cookie");
    assert_eq!(values, vec!["c=3".to_string()]);
}

fn constraints(max_body: usize) -> FormConstraints {
    FormConstraints::new(max_body, 2 * 1024, 500 * 1024 * 1024, 2 * 1024 * 1024, Vec::new())
}

#[test]
fn test_url_encode_parser() {
    let mut headers = Headers::new();
    let test_data = b"name=John&location=ktm".to_vec();
    headers.set("Content-Length", test_data.len().to_string().as_bytes());

    let stream = TestStreamWrapper::new(test_data, 1024);
    let form_constraints = constraints(2 * 1024 * 1024);

    let (result, _stream) = UrlEncodedParser::parse(stream, &headers, &form_constraints);
    assert_eq!(true, result.is_ok());

    let parse_result = result.unwrap();
    assert_eq!(Some(&"John".to_string()), parse_result.value("name"));
    assert_eq!(Some(&"ktm".to_string()), parse_result.value("location"));
}

#[test]
fn test_no_content_length_parsing() {
    let headers = Headers::new();
    let test_data = b"name=John&location=ktm".to_vec();

    let stream = TestStreamWrapper::new(test_data, 1024);
    let form_constraints = constraints(2 * 1024 * 1024);

    let (result, _stream) = UrlEncodedParser::parse(stream, &headers, &form_constraints);
    assert_eq!(true, result.is_err());

    let form_field_error = result.unwrap_err();
    assert!(matches!(form_field_error, FormFieldError::Others(_, _, _)));
}

#[test]
fn test_url_encoded_too_short_body_is_error() {
    // a declared length past the body's end is a transport error, never
    // an empty or truncated success
    let mut headers = Headers::new();
    let test_data = b"name=John&location=ktm".to_vec();
    headers.set("Content-Length", b"23");

    let stream = TestStreamWrapper::new(test_data, 1024);
    let (result, _stream) = UrlEncodedParser::parse(stream, &headers, &constraints(1024));
    assert!(matches!(result, Err(FormFieldError::Others(_, _, _))));
}

#[test]
fn test_url_encoded_body_ceiling_exact() {
    // exactly at the ceiling succeeds
    let body = b"name=John&location=ktm".to_vec();
    let len = body.len();
    let mut headers = Headers::new();
    headers.set("Content-Length", len.to_string().as_bytes());
    let stream = TestStreamWrapper::new(body.clone(), 4);
    let (result, _stream) = UrlEncodedParser::parse(stream, &headers, &constraints(len));
    assert!(result.is_ok());

    // one byte over the ceiling fails with the body-size error
    let mut body2 = body.clone();
    body2.push(b'x');
    let mut headers2 = Headers::new();
    headers2.set("Content-Length", (len + 1).to_string().as_bytes());
    let stream2 = TestStreamWrapper::new(body2, 4);
    let (result2, _stream2) = UrlEncodedParser::parse(stream2, &headers2, &constraints(len));
    assert!(matches!(result2, Err(FormFieldError::MaxBodySizeExceed)));
}

#[test]
fn test_parse_url_encoded_percent_decoding() {
    let fd = parse_url_encoded("a=%41&b%20c=2&plus=a+b");
    assert_eq!(Some(&"A".to_string()), fd.value("a"));
    assert_eq!(Some(&"2".to_string()), fd.value("b c"));
    // unencoded + is preserved literally
    assert_eq!(Some(&"a+b".to_string()), fd.value("plus"));
}

#[test]
fn test_parse_url_encoded_repeated_keys() {
    let fd = parse_url_encoded("k=1&k=2&other=x");
    let entries = fd.entries();
    assert_eq!(2, entries.len());
    assert_eq!("k", entries[0].0);
    assert_eq!(vec!["1".to_string(), "2".to_string()], entries[0].1);
}

#[test]
fn test_path_and_raw_query() {
    let (path, query) = path_and_raw_query("/home?name=John&location=ktm");
    assert_eq!("/home", path);
    assert_eq!("name=John&location=ktm", query);

    let (path2, query2) = path_and_raw_query("/plain");
    assert_eq!("/plain", path2);
    assert_eq!("", query2);
}

#[test]
fn test_query_params_from_raw() {
    let raw_path = "?name=John&location=ktm";
    let query_params = query_params_from_raw(raw_path);

    assert_eq!(Some(&"John".to_string()), query_params.value("name"));
    assert_eq!(Some(&"ktm".to_string()), query_params.value("location"));
    assert_eq!(None, query_params.value("unknown"));
}

fn head_constraints(max: usize) -> RequestConstraints {
    RequestConstraints { max_request_header_size: max, max_header_count: 100 }
}

#[test]
fn test_read_request_headers_basic() {
    let head = b"GET /home?x=1 HTTP/1.1\r\nHost: example\r\nCookie: a=1\r\nCookie: b=2\r\n\r\nBODY".to_vec();
    let mut stream = TestStreamWrapper::new(head, 1024);
    let result = read_request_headers(&mut stream, &head_constraints(4096)).unwrap();
    assert_eq!(Some("GET".to_string()), result.method);
    assert_eq!(Some("/home?x=1".to_string()), result.raw_path);
    assert_eq!(Some(1), result.http_version);
    assert_eq!(Some("example".to_string()), result.headers.value("host"));
    assert_eq!(
        vec!["a=1".to_string(), "b=2".to_string()],
        result.headers.multiple_values("cookie")
    );
    // the body bytes were pushed back for the next consumer
    assert_eq!(4, stream.restored_len());
}

#[test]
fn test_read_request_headers_chunking_independent() {
    let head = b"POST /submit HTTP/1.0\r\nContent-Length: 5\r\n\r\nhello".to_vec();
    let mut one = TestStreamWrapper::new(head.clone(), 1024);
    let mut tiny = TestStreamWrapper::new(head, 1);
    let a = read_request_headers(&mut one, &head_constraints(4096)).unwrap();
    let b = read_request_headers(&mut tiny, &head_constraints(4096)).unwrap();
    assert_eq!(a.method, b.method);
    assert_eq!(a.raw_path, b.raw_path);
    assert_eq!(a.http_version, b.http_version);
    assert_eq!(
        a.headers.value("content-length"),
        b.headers.value("content-length")
    );
}

#[test]
fn test_read_request_headers_ceiling_exact() {
    // head is exactly 18 bytes including the terminator
    let head = b"GET / HTTP/1.1\r\n\r\n".to_vec();
    assert_eq!(18, head.len());

    let mut at = TestStreamWrapper::new(head.clone(), 4);
    assert!(read_request_headers(&mut at, &head_constraints(18)).is_ok());

    let mut over = TestStreamWrapper::new(head, 4);
    let err = read_request_headers(&mut over, &head_constraints(17)).unwrap_err();
    assert!(matches!(err, RequestError::HeaderSizeExceed));
}

#[test]
fn test_read_request_headers_unusable_line() {
    let head = b"NONSENSE\r\n\r\n".to_vec();
    let mut stream = TestStreamWrapper::new(head, 1024);
    let result = read_request_headers(&mut stream, &head_constraints(4096)).unwrap();
    assert_eq!(None, result.method);
    assert_eq!(None, result.raw_path);
    assert_eq!(None, result.http_version);
}

#[test]
fn test_read_request_headers_truncated() {
    let head = b"GET / HTTP/1.1\r\nHost: x".to_vec();
    let mut stream = TestStreamWrapper::new(head, 1024);
    let err = read_request_headers(&mut stream, &head_constraints(4096)).unwrap_err();
    // the transport failure's own description is surfaced
    match err {
        RequestError::Others(description) => assert_eq!("connection closed", description),
        _ => panic!("expected a transport error"),
    }
}

#[test]
fn test_constraints_floor_to_buffer_size() {
    // a ceiling smaller than one read chunk is widened to one chunk
    let fc = constraints(10);
    assert_eq!(4096, fc.max_body_size(4096));
    assert_eq!(10, fc.max_body_size(8));
    assert_eq!(2 * 1024, fc.max_header_size(16));
    assert_eq!(4096, fc.max_header_size(4096));
}

#[test]
fn test_custom_field_limits() {
    let customs = vec![("avatar".to_string(), 7usize)];
    let fc = FormConstraints::new(1024, 1024, 1024, 64, customs);
    assert_eq!(7, fc.max_size_for_file(&"avatar".to_string(), 4));
    assert_eq!(64, fc.max_size_for_field(&"other".to_string(), 4));
    assert_eq!(1024, fc.max_size_for_file(&"other".to_string(), 4));
}

#[test]
fn test_parse_dec_rejects_junk() {
    assert_eq!(Some(0), parse_dec_usize(b"0"));
    assert_eq!(Some(1234), parse_dec_usize(b"1234"));
    assert_eq!(None, parse_dec_usize(b""));
    assert_eq!(None, parse_dec_usize(b"12a"));
    assert_eq!(None, parse_dec_usize(b"99999999999999999999999999"));
}

#[test]
fn test_body_kind_of() {
    let mut headers = Headers::new();
    assert_eq!(BodyKind::Unhandled, body_kind_of(&headers));

    headers.set("Content-Type", b"Multipart/Form-Data; boundary=B");
    assert_eq!(BodyKind::Multipart, body_kind_of(&headers));

    headers.set("Content-Type", b"application/x-www-form-urlencoded");
    assert_eq!(BodyKind::UrlEncoded, body_kind_of(&headers));

    headers.set("Content-Type", b"text/plain");
    assert_eq!(BodyKind::Unhandled, body_kind_of(&headers));
}

#[test]
fn test_keep_alive_decision() {
    // HTTP/1.1 keeps alive by default; HTTP/1.0 does not
    assert!(keep_alive_decision(Some(1), None, false, 0));
    assert!(!keep_alive_decision(Some(0), None, false, 0));

    // an explicit Connection header decides, whatever the version
    let keep = "Keep-Alive".to_string();
    let close = "close".to_string();
    assert!(keep_alive_decision(Some(0), Some(&keep), false, 0));
    assert!(!keep_alive_decision(Some(1), Some(&close), false, 0));

    // over-read body bytes on a GET disable keep-alive
    assert!(!keep_alive_decision(Some(1), None, true, 3));
    assert!(keep_alive_decision(Some(1), None, false, 3));
}

#[test]
fn test_set_replaces_across_case() {
    let mut headers = Headers::new();
    headers.set("Content-Type", b"text/html");
    headers.set("content-type", b"application/json");
    // one name up to ASCII case: the old entry is gone, the new
    // spelling and value stand
    assert_eq!(
        Some("application/json".to_string()),
        headers.value("CONTENT-TYPE")
    );
    assert_eq!(1, headers.multiple_values("content-TYPE").len());
    assert!(headers.get("content-type").is_some());
    assert!(headers.get("Content-Type").is_none());
}

#[test]
fn test_set_multiple_appends_across_case() {
    let mut headers = Headers::new();
    headers.set_multiple("Cookie", b"a=1");
    headers.set_multiple("cookie", b"b=2");
    // appended to the same entry; the first spelling stays
    assert_eq!(
        vec!["a=1".to_string(), "b=2".to_string()],
        headers.multiple_values("COOKIE")
    );
    assert!(headers.get("Cookie").is_some());
    assert!(headers.get("cookie").is_none());
}

#[test]
fn test_keep_alive_after_body() {
    let mut headers = Headers::new();
    // no declared content: an unhandled body changes nothing
    assert!(keep_alive_after_body(true, BodyKind::Unhandled, &headers));
    headers.set("Content-Length", b"0");
    assert!(keep_alive_after_body(true, BodyKind::Unhandled, &headers));
    // declared content that was never decoded ends keep-alive
    headers.set("Content-Length", b"10");
    assert!(!keep_alive_after_body(true, BodyKind::Unhandled, &headers));
    // a decoded body kind is untouched
    assert!(keep_alive_after_body(true, BodyKind::UrlEncoded, &headers));
    assert!(!keep_alive_after_body(false, BodyKind::UrlEncoded, &headers));
}

#[test]
fn test_client_error_text() {
    assert_eq!(
        "Value size limit exceeded for field v.",
        client_error_text(&FormFieldError::MaxValueSizeExceed("v".to_string()))
    );
    // a critical detail is never exposed verbatim
    assert_eq!(
        "Failed to read the request body.",
        client_error_text(&FormFieldError::Others(
            None,
            "temp file gone".to_string(),
            true
        ))
    );
    assert_eq!(
        "Content-Length header is missing.",
        client_error_text(&FormFieldError::Others(
            None,
            "Content-Length header is missing.".to_string(),
            false
        ))
    );
}

#[test]
fn test_header_count_cap() {
    let head = b"GET / HTTP/1.1\r\nA: 1\r\nB: 2\r\nC: 3\r\n\r\n".to_vec();
    let mut stream = TestStreamWrapper::new(head, 1024);
    let constraints = RequestConstraints { max_request_header_size: 4096, max_header_count: 2 };
    let result = read_request_headers(&mut stream, &constraints).unwrap();
    // only the first two header lines are kept
    assert_eq!(Some("1".to_string()), result.headers.value("A"));
    assert_eq!(Some("2".to_string()), result.headers.value("B"));
    assert_eq!(None, result.headers.value("C"));
}
