use hyper::{Method, StatusCode};
use load_balancer::http::{error_response, is_retriable, response_validator};

#[test]
fn idempotent_methods_are_retriable() {
    for method in [
        Method::GET,
        Method::HEAD,
        Method::OPTIONS,
        Method::PUT,
        Method::DELETE,
    ] {
        assert!(is_retriable(method.as_str()));
    }
}

#[test]
fn other_methods_are_not_retriable() {
    for method in [Method::POST, Method::PATCH, Method::CONNECT, Method::TRACE] {
        assert!(!is_retriable(method.as_str()));
    }
    let extension = Method::from_bytes(b"GETS").unwrap();
    assert!(!is_retriable(extension.as_str()));
    assert!(!is_retriable("get"));
    assert!(!is_retriable("GE"));
    assert!(!is_retriable(""));
}

#[test]
fn only_two_hundreds_pass_a_check() {
    assert!(!response_validator(199));
    assert!(response_validator(200));
    assert!(response_validator(204));
    assert!(response_validator(299));
    assert!(!response_validator(300));
    assert!(!response_validator(404));
    assert!(!response_validator(500));
    for number in 100..1000u16 {
        let status = StatusCode::from_u16(number).unwrap();
        assert_eq!(response_validator(number), status.is_success());
    }
}

#[test]
fn numbers_that_are_no_status_fail_a_check() {
    assert!(!response_validator(0));
    assert!(!response_validator(99));
    assert!(!response_validator(1000));
    assert!(!response_validator(u16::MAX));
}

#[test]
fn error_response_carries_status_and_message() {
    let response = error_response(503, "no healthy backend available");
    assert_eq!(response.status, 503);
    assert_eq!(&response.body[..], b"no healthy backend available");

    let accented = error_response(502, "h\u{f4}te injoignable");
    assert_eq!(&accented.body[..], "h\u{f4}te injoignable".as_bytes());

    assert_eq!(error_response(100, "").status, 100);
    assert_eq!(error_response(999, "").body.len(), 0);
}
