use racoon::cookie::{parse_cookie_header_value, parse_cookies_from_header, Cookies};
use racoon::headers::Headers;
use racoon::path::PathParams;
use racoon::response::{AbstractResponse, HttpResponse, JsonResponse, ResponseStatus,
    response_to_bytes};
use racoon::shortcuts::SingleText;

#[test]
fn test_parse_cookie_header_value() {
    // Requires only value from "Cookie: name=John; location=Ktm"
    let cookie_header_value = "name=John; location=Ktm".to_string();
    let mut cookies = Cookies::new();

    parse_cookie_header_value(cookie_header_value, &mut cookies);

    let name = cookies.value("name");
    let location = cookies.value("location");
    let unknown = cookies.value("unknown");

    assert_eq!(name, Some(&"John".to_string()));
    assert_eq!(location, Some(&"Ktm".to_string()));
    assert_eq!(unknown, None);
}

#[test]
fn test_parse_cookies_from_header() {
    let mut headers = Headers::new();
    headers.set_multiple("Cookie", b"name=John;");
    headers.set_multiple("Cookie", b"location=ktm;");
    let cookies = parse_cookies_from_header(&headers);
    assert_eq!(Some(&"John".to_string()), cookies.value("name"));
    assert_eq!(Some(&"ktm".to_string()), cookies.value("location"));
}

#[test]
fn test_cookie_percent_decoding() {
    let mut cookies = Cookies::new();
    parse_cookie_header_value("greeting=hello%20world".to_string(), &mut cookies);
    assert_eq!(Some(&"hello world".to_string()), cookies.value("greeting"));
}

#[test]
fn test_set_cookie_encodes_name_and_value() {
    let mut response = HttpResponse::new_with_status(200, "OK");
    response.set_cookie("user name", "a;b", 60);
    let mut boxed = Box::new(response);
    let headers = boxed.get_headers();
    let entries = headers.entries();
    assert_eq!(1, entries.len());
    assert_eq!("Set-Cookie", entries[0].0);
    let value = String::from_utf8_lossy(&entries[0].1[0]).to_string();
    // urlencoding turned the space and the semicolon into percent escapes
    assert!(value.starts_with("user%20name=a%3Bb; Expires="));
    assert!(value.ends_with("; Path=/; HttpOnly"));
}

#[test]
fn test_remove_cookie() {
    let mut response = HttpResponse::new_with_status(200, "OK");
    response.remove_cookie("session");
    let mut boxed = Box::new(response);
    let entries_text = {
        let headers = boxed.get_headers();
        String::from_utf8_lossy(&headers.entries()[0].1[0]).to_string()
    };
    assert_eq!(
        "session=;Expires=Sun, 06 Nov 1994 08:49:37 GMT; Path=/",
        entries_text
    );
}

#[test]
fn test_response_to_bytes_shape() {
    let response = HttpResponse::not_found();
    let mut boxed = response.body("404 Page not found");
    let bytes = response_to_bytes(&mut *boxed);
    let text = String::from_utf8_lossy(&bytes).to_string();
    assert!(text.starts_with("HTTP/1.1 404 Not Found\r\n"));
    assert!(text.contains("Content-Length: 18\r\n"));
    assert!(text.contains("Content-Type: text/html\r\n"));
    assert!(text.ends_with("\r\n\r\n404 Page not found"));
}

#[test]
fn test_json_response_body() {
    let response = JsonResponse::ok();
    let mut boxed = response.body("{\"a\":1}");
    let bytes = response_to_bytes(&mut *boxed);
    let text = String::from_utf8_lossy(&bytes).to_string();
    assert!(text.starts_with("HTTP/1.1 200 OK\r\n"));
    assert!(text.contains("Content-Type: application/json\r\n"));
    assert!(text.ends_with("{\"a\":1}"));
}

#[test]
fn test_path_params() {
    let mut params = PathParams::new();
    params.insert("id", "42");
    params.insert("name", "john");
    params.insert("id", "43");
    assert_eq!(Some(&"43".to_string()), params.value("id"));
    assert_eq!(Some(&"john".to_string()), params.value("name"));
    assert_eq!(None, params.value("Id"));
    assert_eq!(2, params.map().len());
}
