use http_msg::ErrorType;
use http_msg::Header;
use http_msg::Response;
use http_msg::Status;

#[test]
fn empty_response_scheme() {
    let result = Response::empty();

    assert!(result.to_string().contains("HTTP"));
}

#[test]
fn empty_response_version() {
    let result = Response::empty();

    assert!(result.to_string().contains("1.1"));
}

#[test]
fn empty_response_status() {
    let result = Response::empty();

    assert!(result.to_string().contains("200 OK"));
}

#[test]
fn response_content() {
    let html = "<html><head><title>Hello, world!</title></head><body><h1>Hello, world!</h1></body></html>";
    let result = Response::content(html, "text/html");

    assert!(result.to_string().contains(html));
}

#[test]
fn response_content_length_header() {
    let html = "<html><head><title>Hello, world!</title></head><body><h1>Hello, world!</h1></body></html>";
    let result = Response::content(html, "text/html");

    assert!(result.to_string().contains("Content-Length: 89"));
}

#[test]
fn set_status() {
    let result = Response::empty().status(Status::Forbidden);

    assert!(result.to_string().contains("403 FORBIDDEN"));
}

#[test]
fn set_header() {
    let result = Response::empty().header(Header::new("Access-Control-Allow-Origin", "*"));

    assert!(result
        .to_string()
        .contains("Access-Control-Allow-Origin: *"));
}

#[test]
fn set_header_does_not_override_existing_headers() {
    let html = "<html><head><title>Hello, world!</title></head><body><h1>Hello, world!</h1></body></html>";
    let result = Response::content(html, "text/html")
        .header(Header::new("Access-Control-Allow-Origin", "*"));

    assert!(result.to_string().contains("Content-Length: 89"));
}

#[test]
fn response_format() {
    let html = "<html><head><title>Hello, world!</title></head><body><h1>Hello, world!</h1></body></html>";
    let result = Response::content(html, "text/html")
        .status(Status::SeeOther)
        .to_string();
    let expected = "HTTP/1.1 303 SEE OTHER\r\nContent-Type: text/html\r\nContent-Length: 89\r\n\r\n<html><head><title>Hello, world!</title></head><body><h1>Hello, world!</h1></body></html>";

    assert_eq!(result, expected);
}

#[test]
fn serialize_is_deterministic() {
    let result = Response::html("<p>hi</p>").cookie("id=7");
    assert_eq!(result.to_string(), result.to_string());
}

#[test]
fn content_length_counts_bytes_not_chars() {
    // two characters, three bytes in UTF-8
    let result = Response::content("aé", "text/plain");
    assert_eq!(result.headers[1].key, "Content-Length");
    assert_eq!(result.headers[1].value, "3");
}

#[test]
fn content_length_of_empty_body() {
    let result = Response::content("", "text/plain");
    assert_eq!(result.headers[1].value, "0");
}

#[test]
fn content_sets_type_then_length() {
    let result = Response::content("abc", "text/plain");
    assert_eq!(result.headers.len(), 2);
    assert_eq!(result.headers[0], Header::new("Content-Type", "text/plain"));
    assert_eq!(result.headers[1], Header::new("Content-Length", "3"));
}

#[test]
fn body_sets_no_headers() {
    let result = Response::body("plain text");
    assert!(result.headers.is_empty());
    assert_eq!(result.content, "plain text");
    assert_eq!(result.to_string(), "HTTP/1.1 200 OK\r\n\r\nplain text");
}

#[test]
fn html_sets_content_type() {
    let result = Response::html("<p>hi</p>");
    assert!(result.to_string().contains("Content-Type: text/html"));
}

#[test]
fn json_sets_content_type() {
    let result = Response::json("{}");
    assert!(result.to_string().contains("Content-Type: application/json"));
}

#[test]
fn headers_append_in_order() {
    let a = Header::new("A", "1");
    let b = Header::new("B", "2");
    let result = Response::empty().header(a).header(b);
    assert_eq!(
        result.headers,
        vec![Header::new("A", "1"), Header::new("B", "2")]
    );
}

#[test]
fn duplicate_header_keys_are_kept() {
    let result = Response::empty()
        .header(Header::new("X", "1"))
        .header(Header::new("X", "2"));
    assert_eq!(result.headers.len(), 2);
    assert_eq!(result.headers[0], Header::new("X", "1"));
    assert_eq!(result.headers[1], Header::new("X", "2"));
    assert!(result.to_string().contains("X: 1\r\nX: 2\r\n"));
}

#[test]
fn cookie_appends_set_cookie_header() {
    let result = Response::empty().cookie("id=7");
    assert_eq!(result.headers, vec![Header::new("Set-Cookie", "id=7")]);
}

#[test]
fn parse_simple_response() {
    let parsed = Response::parse("HTTP/1.1 404 NOT FOUND\r\nA: 1\r\nB: 2\r\n\r\nhello").unwrap();
    assert_eq!(parsed.scheme, "HTTP");
    assert_eq!(parsed.version, "1.1");
    assert_eq!(
        parsed.headers,
        vec![Header::new("A", "1"), Header::new("B", "2")]
    );
    assert_eq!(parsed.content, "hello");
}

#[test]
fn parse_skips_malformed_header_line() {
    let parsed =
        Response::parse("HTTP/1.1 200 OK\r\nGood: yes\r\nbadline\r\nAlso: fine\r\n\r\nbody")
            .unwrap();
    assert_eq!(
        parsed.headers,
        vec![Header::new("Good", "yes"), Header::new("Also", "fine")]
    );
    assert_eq!(parsed.content, "body");
}

#[test]
fn parse_forces_ok_status() {
    let response = Response::content("<p>moved</p>", "text/html").status(Status::SeeOther);
    let parsed = Response::parse(&response.to_string()).unwrap();
    assert_eq!(parsed.status, Status::OK);
}

#[test]
fn parse_of_serialized_response_keeps_everything_but_status() {
    let response = Response::content("<p>moved</p>", "text/html").status(Status::SeeOther);
    let parsed = Response::parse(&response.to_string()).unwrap();
    assert_eq!(parsed.scheme, response.scheme);
    assert_eq!(parsed.version, response.version);
    assert_eq!(parsed.headers, response.headers);
    assert_eq!(parsed.content, response.content);
    assert_ne!(parsed.status, response.status);
}

#[test]
fn parse_without_blank_line_has_empty_body() {
    let parsed = Response::parse("HTTP/1.1 200 OK\r\nA: b").unwrap();
    assert_eq!(parsed.headers, vec![Header::new("A", "b")]);
    assert_eq!(parsed.content, "");
}

#[test]
fn parse_keeps_body_after_first_blank_line_whole() {
    let parsed = Response::parse("HTTP/1.1 200 OK\r\n\r\npart1\r\n\r\npart2").unwrap();
    assert_eq!(parsed.content, "part1\r\n\r\npart2");
}

#[test]
fn parse_splits_header_line_only_once() {
    let parsed = Response::parse("HTTP/1.1 200 OK\r\nA: b: c\r\n\r\n").unwrap();
    assert_eq!(parsed.headers, vec![Header::new("A", "b: c")]);
}

#[test]
fn parse_rejects_missing_protocol_slash() {
    let err = Response::parse("junk").unwrap_err();
    assert_eq!(err.err_type, ErrorType::ParserError);
    assert_eq!(err.msg, "Invalid protocol format");
}

#[test]
fn parse_rejects_missing_status_token() {
    let err = Response::parse("HTTP/1.1\r\n\r\n").unwrap_err();
    assert_eq!(err.err_type, ErrorType::ParserError);
    assert_eq!(err.msg, "Invalid response format");
}

#[test]
fn parse_rejects_unsupported_status_code() {
    let err = Response::parse("HTTP/1.1 999 WHAT\r\n\r\n").unwrap_err();
    assert_eq!(err.err_type, ErrorType::ParserError);
    assert_eq!(err.msg, "Invalid response format");
}
