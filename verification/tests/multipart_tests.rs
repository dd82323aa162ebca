use racoon::forms::{FileFieldShortcut, FormConstraints, FormFieldError};
use racoon::headers::Headers;
use racoon::multipart::{FileBodyScan, FileStreamStep, MultipartParser};
use racoon::shortcuts::SingleText;
use racoon::stream::TestStreamWrapper;

fn constraints() -> FormConstraints {
    FormConstraints::new(
        500 * 1024 * 1024,
        2 * 1024,
        500 * 1024 * 1024,
        2 * 1024 * 1024,
        Vec::new(),
    )
}

fn multipart_headers(body_len: usize, boundary: &str) -> Headers {
    let mut headers = Headers::new();
    let ct = format!("multipart/form-data; boundary={}", boundary);
    headers.set("Content-Type", ct.as_bytes());
    headers.set("Content-Length", body_len.to_string().as_bytes());
    headers
}

#[test]
fn test_multipart_parser() {
    let test_data = "--boundary123\r\nContent-Disposition: form-data; name=\"name\"\r\n\r\nJohn\r\n--boundary123\r\nContent-Disposition: form-data; name=\"location\"\r\n\r\nktm\r\n--boundary123\r\nContent-Disposition: form-data; name=\"file\"; filename=\"example.txt\"\r\nContent-Type: text/plain\r\n\r\nHello World\r\n--boundary123--\r\n".as_bytes().to_vec();
    let headers = multipart_headers(test_data.len(), "boundary123");

    let stream = TestStreamWrapper::new(test_data, 1024);
    let form_constraints = constraints();

    let (result, _stream) = MultipartParser::parse(stream, &form_constraints, &headers);
    assert_eq!(true, result.is_ok());

    let (form_data, files) = result.unwrap();
    assert_eq!(Some(&"John".to_string()), form_data.value("name"));
    assert_eq!(Some(&"ktm".to_string()), form_data.value("location"));

    let file_field = files.value("file");
    assert_eq!(true, file_field.is_some());

    let file = file_field.unwrap();
    assert_eq!("example.txt".to_string(), file.name);
    assert_eq!(b"Hello World".to_vec(), file.content().clone());
}

#[test]
fn test_multipart_one_chunk_equals_one_byte_chunks() {
    let test_data = "--B\r\nContent-Disposition: form-data; name=\"name\"\r\n\r\nJohn\r\nDoe\r\n--B\r\nContent-Disposition: form-data; name=\"file\"; filename=\"a.bin\"\r\n\r\n\u{0}\u{1}\u{2}\r\n--B--\r\n".as_bytes().to_vec();
    let headers = multipart_headers(test_data.len(), "B");
    let fc = constraints();

    let (big, _s1) = MultipartParser::parse(TestStreamWrapper::new(test_data.clone(), 1024), &fc, &headers);
    let (tiny, _s2) = MultipartParser::parse(TestStreamWrapper::new(test_data, 1), &fc, &headers);

    let (fd_big, files_big) = big.unwrap();
    let (fd_tiny, files_tiny) = tiny.unwrap();
    assert_eq!(fd_big.value("name"), fd_tiny.value("name"));
    assert_eq!(Some(&"John\r\nDoe".to_string()), fd_big.value("name"));
    assert_eq!(
        files_big.value("file").unwrap().content(),
        files_tiny.value("file").unwrap().content()
    );
}

#[test]
fn test_multipart_concrete_scenario() {
    let body = "--B\r\nContent-Disposition: form-data; name=\"name\"\r\n\r\nJohn\r\n--B\r\nContent-Disposition: form-data; name=\"file\"; filename=\"a.txt\"\r\nContent-Type: text/plain\r\n\r\nHi\r\n--B--\r\n".as_bytes().to_vec();
    let headers = multipart_headers(body.len(), "B");
    let (result, _stream) = MultipartParser::parse(TestStreamWrapper::new(body, 1024), &constraints(), &headers);
    let (form_data, files) = result.unwrap();

    assert_eq!(1, form_data.entries().len());
    assert_eq!(Some(&"John".to_string()), form_data.value("name"));

    assert_eq!(1, files.entries().len());
    let file = files.value("file").unwrap();
    assert_eq!("a.txt", file.name);
    assert_eq!(b"Hi".to_vec(), file.content().clone());
}

#[test]
fn test_multipart_missing_name_is_fatal() {
    let body = "--B\r\nContent-Disposition: form-data; filename=\"a.txt\"\r\n\r\nHi\r\n--B--\r\n"
        .as_bytes()
        .to_vec();
    let headers = multipart_headers(body.len(), "B");
    let (result, _stream) = MultipartParser::parse(TestStreamWrapper::new(body, 1024), &constraints(), &headers);
    assert!(matches!(result, Err(FormFieldError::Others(_, _, _))));
}

#[test]
fn test_multipart_wrong_boundary_is_fatal() {
    let body = "--OTHER\r\nContent-Disposition: form-data; name=\"x\"\r\n\r\nv\r\n--OTHER--\r\n"
        .as_bytes()
        .to_vec();
    let headers = multipart_headers(body.len(), "B");
    let (result, _stream) = MultipartParser::parse(TestStreamWrapper::new(body, 1024), &constraints(), &headers);
    assert!(matches!(result, Err(FormFieldError::Others(_, _, _))));
}

#[test]
fn test_multipart_value_ceiling_exact() {
    // the captured value is exactly at / one past the field ceiling
    let make_body = |value: &str| {
        format!(
            "--B\r\nContent-Disposition: form-data; name=\"v\"\r\n\r\n{}\r\n--B--\r\n",
            value
        )
        .into_bytes()
    };
    let fc = FormConstraints::new(500 * 1024, 2 * 1024, 500 * 1024, 4, Vec::new());

    let at = make_body("abcd");
    let headers = multipart_headers(at.len(), "B");
    let (ok, _s) = MultipartParser::parse(TestStreamWrapper::new(at, 4), &fc, &headers);
    assert!(ok.is_ok());

    let over = make_body("abcde");
    let headers2 = multipart_headers(over.len(), "B");
    let (err, _s) = MultipartParser::parse(TestStreamWrapper::new(over, 4), &fc, &headers2);
    match err {
        Err(FormFieldError::MaxValueSizeExceed(name)) => assert_eq!("v", name),
        _ => panic!("expected MaxValueSizeExceed"),
    }
}

#[test]
fn test_multipart_file_ceiling_exact() {
    let make_body = |content: &str| {
        format!(
            "--B\r\nContent-Disposition: form-data; name=\"f\"; filename=\"f.bin\"\r\n\r\n{}\r\n--B--\r\n",
            content
        )
        .into_bytes()
    };
    let fc = FormConstraints::new(500 * 1024, 2 * 1024, 4, 500 * 1024, Vec::new());

    let at = make_body("abcd");
    let headers = multipart_headers(at.len(), "B");
    let (ok, _s) = MultipartParser::parse(TestStreamWrapper::new(at, 4), &fc, &headers);
    assert!(ok.is_ok());

    let over = make_body("abcde");
    let headers2 = multipart_headers(over.len(), "B");
    let (err, _s) = MultipartParser::parse(TestStreamWrapper::new(over, 4), &fc, &headers2);
    match err {
        Err(FormFieldError::MaxFileSizeExceed(name)) => assert_eq!("f", name),
        _ => panic!("expected MaxFileSizeExceed"),
    }
}

#[test]
fn test_multipart_header_ceiling() {
    let body = "--B\r\nContent-Disposition: form-data; name=\"averylongfieldname\"\r\nX-Pad: aaaaaaaaaaaaaaaaaaaaaaaaaaaaaaaaaaaa\r\n\r\nv\r\n--B--\r\n"
        .as_bytes()
        .to_vec();
    let fc = FormConstraints::new(500 * 1024, 16, 500 * 1024, 500 * 1024, Vec::new());
    let headers = multipart_headers(body.len(), "B");
    let (err, _s) = MultipartParser::parse(TestStreamWrapper::new(body, 8), &fc, &headers);
    assert!(matches!(err, Err(FormFieldError::MaxHeaderSizeExceed)));
}

#[test]
fn test_multipart_repeated_field_names() {
    let body = "--B\r\nContent-Disposition: form-data; name=\"k\"\r\n\r\n1\r\n--B\r\nContent-Disposition: form-data; name=\"k\"\r\n\r\n2\r\n--B--\r\n"
        .as_bytes()
        .to_vec();
    let headers = multipart_headers(body.len(), "B");
    let (result, _s) = MultipartParser::parse(TestStreamWrapper::new(body, 1024), &constraints(), &headers);
    let (form_data, _files) = result.unwrap();
    let entries = form_data.entries();
    assert_eq!(1, entries.len());
    assert_eq!(vec!["1".to_string(), "2".to_string()], entries[0].1);
}

#[test]
fn test_multipart_truncated_body() {
    let body = "--B\r\nContent-Disposition: form-data; name=\"k\"\r\n\r\nvalue-without-end"
        .as_bytes()
        .to_vec();
    let headers = multipart_headers(body.len(), "B");
    let (result, _s) = MultipartParser::parse(TestStreamWrapper::new(body, 1024), &constraints(), &headers);
    assert!(matches!(result, Err(FormFieldError::Others(_, _, _))));
}

#[test]
fn test_file_streaming_scan() {
    let body = "--B\r\nContent-Disposition: form-data; name=\"f\"; filename=\"big.bin\"\r\n\r\nHello streaming World\r\n--B\r\nContent-Disposition: form-data; name=\"k\"\r\n\r\nv\r\n--B--\r\n"
        .as_bytes()
        .to_vec();
    let headers = multipart_headers(body.len(), "B");
    let fc = constraints();
    // tiny chunks, so the body arrives in many spans
    let stream = TestStreamWrapper::new(body, 3);
    let mut parser = MultipartParser::from(stream, &headers, &fc).unwrap();

    let part = parser.next_form_header().unwrap();
    assert_eq!(Some("f".to_string()), part.name);
    assert_eq!(Some("big.bin".to_string()), part.filename);

    let field_name = part.name.unwrap();
    let mut scan = FileBodyScan::new();
    let mut collected: Vec<u8> = Vec::new();
    let finished = loop {
        match parser.parse_file_stream_step(&field_name, &mut scan).unwrap() {
            FileStreamStep::More(bytes) => collected.extend(bytes),
            FileStreamStep::Finished { flush, finished } => {
                collected.extend(flush);
                break finished;
            }
        }
    };
    assert_eq!(b"Hello streaming World".to_vec(), collected);
    // another part follows, readable as usual
    assert!(!finished);
    let mut part2 = parser.next_form_header().unwrap();
    assert_eq!(Some("k".to_string()), part2.name);
    let last = parser.next_form_value(&mut part2).unwrap();
    assert!(last);
    assert_eq!(Some("v".to_string()), part2.value);
}
