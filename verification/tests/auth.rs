use order_desk::auth::{accept_claims, bearer_token, trim_bounds, AuthToken, Moment};
use order_desk::error::{Error, Reason, Status};

fn moment(seconds: i64, nanos: u32) -> Moment {
    Moment { seconds, nanos, offset_seconds: 0 }
}

fn token(exp: Moment) -> AuthToken {
    AuthToken { sub: "test".to_string(), exp, idempotency: "test0".to_string() }
}

fn assert_error(e: &Error, status: Status, reason: Reason, message: &str) {
    assert_eq!(e.status_code(), status);
    assert_eq!(e.reason(), reason);
    assert_eq!(e.message(), message);
}

#[test]
fn missing_header_is_refused() {
    let e = bearer_token(None).unwrap_err();
    assert!(matches!(e, Error::Static { .. }));
    assert_error(&e, Status::Unauthorized, Reason::Authorization, "Couldn't find Authorization header");
    assert_eq!(e.status_code().code(), 401);
}

#[test]
fn bearer_header_gives_token() {
    assert_eq!(bearer_token(Some(b"Bearer abc.def.ghi")).unwrap(), b"abc.def.ghi".to_vec());
}

#[test]
fn white_space_around_header_is_ignored() {
    assert_eq!(bearer_token(Some(b"  Bearer abc \t")).unwrap(), b"abc".to_vec());
}

#[test]
fn bare_bearer_word_is_refused() {
    let e = bearer_token(Some(b"Bearer ")).unwrap_err();
    assert_error(&e, Status::Unauthorized, Reason::Authorization, "Authorization header doesn't start with \"Bearer \"");
}

#[test]
fn other_scheme_is_refused() {
    let e = bearer_token(Some(b"Basic dXNlcg==")).unwrap_err();
    assert_error(&e, Status::Unauthorized, Reason::Authorization, "Authorization header doesn't start with \"Bearer \"");
    let e = bearer_token(Some(b"bearer abc")).unwrap_err();
    assert_error(&e, Status::Unauthorized, Reason::Authorization, "Authorization header doesn't start with \"Bearer \"");
}

#[test]
fn unreadable_header_is_refused() {
    let e = bearer_token(Some(&[66, 101, 97, 114, 101, 114, 32, 0x80])).unwrap_err();
    assert!(matches!(e, Error::Passthrough { .. }));
    assert_error(&e, Status::Unauthorized, Reason::Authorization, "failed to convert header to a str");
}

#[test]
fn tabs_are_header_text() {
    assert_eq!(bearer_token(Some(b"\tBearer a\tb")).unwrap(), b"a\tb".to_vec());
}

#[test]
fn trim_bounds_of_padded_text() {
    assert_eq!(trim_bounds(b"  ab c \n"), (2, 6));
    assert_eq!(trim_bounds(b"   "), (3, 3));
    assert_eq!(trim_bounds(b""), (0, 0));
}

#[test]
fn live_claims_are_accepted() {
    let accepted = accept_claims(Ok(token(moment(2_000, 5))), moment(2_000, 4)).unwrap();
    assert_eq!(accepted.sub(), "test");
    assert_eq!(accepted.idempotency(), "test0");
    assert_eq!(*accepted.exp(), moment(2_000, 5));
}

#[test]
fn expired_claims_are_refused() {
    let e = accept_claims(Ok(token(moment(2_000, 5))), moment(2_000, 5)).unwrap_err();
    assert_error(&e, Status::Unauthorized, Reason::Authorization, "JWT Token expired");
    let e = accept_claims(Ok(token(moment(1_000, 0))), moment(3_000, 0)).unwrap_err();
    assert_error(&e, Status::Unauthorized, Reason::Authorization, "JWT Token expired");
}

#[test]
fn unverified_claims_pass_their_message_through() {
    let e = accept_claims(Err("InvalidSignature".to_string()), moment(0, 0)).unwrap_err();
    assert!(matches!(e, Error::Passthrough { .. }));
    assert_error(&e, Status::Unauthorized, Reason::Authorization, "InvalidSignature");
}

#[test]
fn moments_compare_by_instant() {
    let a = Moment { seconds: 10, nanos: 0, offset_seconds: 3600 };
    let b = Moment { seconds: 10, nanos: 1, offset_seconds: -7200 };
    assert!(a.before(&b));
    assert!(!b.before(&a));
    assert!(!a.before(&a));
}
