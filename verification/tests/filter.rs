use order_desk::auth::{AuthToken, Moment};
use order_desk::error::{Reason, Status};
use order_desk::filter::{parse_subjects, SubjectFilterService, SubjectList};
use order_desk::pointer::SharedPointer;
use std::sync::Arc;

fn token(sub: &str) -> AuthToken {
    AuthToken {
        sub: sub.to_string(),
        exp: Moment { seconds: 0, nanos: 0, offset_seconds: 0 },
        idempotency: "i".to_string(),
    }
}

fn service(admins: &str) -> SubjectFilterService {
    SubjectFilterService::new(SharedPointer::new(&Arc::new(parse_subjects(admins))))
}

#[test]
fn admin_list_is_split_at_commas() {
    let list = parse_subjects("admin,root");
    assert!(list.contains(&"admin".to_string()));
    assert!(list.contains(&"root".to_string()));
    assert!(!list.contains(&"admin,root".to_string()));
    assert!(!list.contains(&"".to_string()));
}

#[test]
fn empty_pieces_are_subjects() {
    let list = parse_subjects("a,,b");
    assert!(list.contains(&"".to_string()));
    assert!(parse_subjects("").contains(&"".to_string()));
    assert!(parse_subjects("x,").contains(&"".to_string()));
}

#[test]
fn repeated_subjects_are_held_once() {
    let mut list = SubjectList::new();
    list.insert("a".to_string());
    list.insert("a".to_string());
    assert!(list.contains(&"a".to_string()));
    let parsed = parse_subjects("a,a,a");
    assert!(parsed.contains(&"a".to_string()));
}

#[test]
fn listed_admin_passes() {
    assert!(service("admin").call(Some(&token("admin"))).is_ok());
    assert!(service("x,admin,y").call(Some(&token("admin"))).is_ok());
}

#[test]
fn unlisted_subject_is_refused() {
    let e = service("admin").call(Some(&token("test"))).unwrap_err();
    assert_eq!(e.status_code(), Status::Unauthorized);
    assert_eq!(e.reason(), Reason::SubFilter);
    assert_eq!(e.message(), "Account is not authorized");
}

#[test]
fn request_without_claims_is_refused() {
    let e = service("admin").call(None).unwrap_err();
    assert_eq!(e.status_code(), Status::Unauthorized);
    assert_eq!(e.reason(), Reason::SubFilter);
    assert_eq!(e.message(), "Invalid JWT");
}
