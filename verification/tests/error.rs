use order_desk::error::{Error, Reason, Status};

#[test]
fn status_codes() {
    assert_eq!(Status::Success.code(), 200);
    assert_eq!(Status::BadRequest.code(), 400);
    assert_eq!(Status::Unauthorized.code(), 401);
    assert_eq!(Status::InternalServerError.code(), 500);
}

#[test]
fn reason_texts() {
    assert_eq!(Reason::Authorization.text(), "Authorization");
    assert_eq!(Reason::IdempotencyCache.text(), "IdempotencyCache");
    assert_eq!(Reason::SubFilter.text(), "SubFilter");
    assert_eq!(Reason::JsonExtractor.text(), "JsonExtractor");
}

#[test]
fn database_failures_are_internal_errors() {
    let e = Error::database("connection refused".to_string());
    assert_eq!(e.status_code(), Status::InternalServerError);
    assert_eq!(e.reason(), Reason::Database);
    assert_eq!(e.message(), "connection refused");
}

#[test]
fn passthrough_keeps_its_parts() {
    let e = Error::passthrough(Status::BadRequest, Reason::JsonExtractor, "bad json".to_string());
    assert_eq!(e.status_code(), Status::BadRequest);
    assert_eq!(e.reason(), Reason::JsonExtractor);
    assert_eq!(e.message(), "bad json");
    let a = Error::authorization("expired".to_string());
    assert_eq!(a.status_code(), Status::Unauthorized);
    assert_eq!(a.reason(), Reason::Authorization);
}
