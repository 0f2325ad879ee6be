use http_msg::ErrorType;
use http_msg::Method;

#[test]
fn method_from_string() {
    let result = Method::from_string("GET");
    let expected = Ok(Method::GET);

    assert_eq!(result, expected);
}

#[test]
fn method_from_invalid_string() {
    let result = Method::from_string("HELLO");

    assert!(result.is_err());
}

#[test]
fn method_from_string_all_supported() {
    assert_eq!(Method::from_string("HEAD"), Ok(Method::HEAD));
    assert_eq!(Method::from_string("GET"), Ok(Method::GET));
    assert_eq!(Method::from_string("POST"), Ok(Method::POST));
    assert_eq!(Method::from_string("PUT"), Ok(Method::PUT));
    assert_eq!(Method::from_string("DELETE"), Ok(Method::DELETE));
}

#[test]
fn method_to_string_round_trip() {
    let methods = [Method::HEAD, Method::GET, Method::POST, Method::PUT, Method::DELETE];
    for m in methods {
        assert_eq!(Method::from_string(&m.to_string()), Ok(m));
    }
}

#[test]
fn method_error_kind() {
    let err = Method::from_string("get").unwrap_err();
    assert_eq!(err.err_type, ErrorType::InvalidMethod);
    assert_eq!(err.msg, "Invalid or unsupported http method");
}
