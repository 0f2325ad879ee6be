use http_msg::ErrorType;
use http_msg::Status;

#[test]
fn status_code() {
    let result = Status::OK.code();
    let expected = 200;

    assert_eq!(result, expected);
}

#[test]
fn status_message() {
    let result = Status::InternalServerError.message();
    let expected = "INTERNAL SERVER ERROR";

    assert_eq!(result, expected);
}

#[test]
fn string_representation() {
    let result = Status::NotFound.to_string();
    let expected = "404 NOT FOUND".to_string();

    assert_eq!(result, expected);
}

fn all_statuses() -> Vec<Status> {
    vec![
        Status::SwitchingProtocols,
        Status::OK,
        Status::SeeOther,
        Status::NotFound,
        Status::InternalServerError,
        Status::BadRequest,
        Status::Unauthorized,
        Status::Forbidden,
        Status::NotAllowed,
    ]
}

#[test]
fn status_round_trip() {
    for s in all_statuses() {
        let wire = s.to_string();
        let code_token = wire.split(' ').next().unwrap();
        assert_eq!(Status::from_str(code_token), Ok(s));
    }
}

#[test]
fn status_wire_text_is_code_then_message() {
    for s in all_statuses() {
        assert_eq!(s.to_string(), format!("{} {}", s.code(), s.message()));
    }
}

#[test]
fn status_parse_rejects_unsupported_code() {
    let err = Status::from_str("999").unwrap_err();
    assert_eq!(err.err_type, ErrorType::ParserError);
    assert_eq!(err.msg, "Invalid status format");
}

#[test]
fn status_parse_rejects_garbage() {
    assert!(Status::from_str("abc").is_err());
    assert!(Status::from_str("").is_err());
    assert!(Status::from_str(" 200").is_err());
    assert!(Status::from_str("200 ").is_err());
}

#[test]
fn status_codes_are_distinct() {
    let statuses = all_statuses();
    for (i, a) in statuses.iter().enumerate() {
        for (j, b) in statuses.iter().enumerate() {
            if i != j {
                assert_ne!(a.code(), b.code());
            }
        }
    }
}
