use order_desk::auth::{AuthToken, Moment};
use order_desk::cache::{CacheDecision, IdempotencyCache, IdempotencyCacheService, Method};
use order_desk::error::{Reason, Status};

fn token(idempotency: &str) -> AuthToken {
    AuthToken {
        sub: "test".to_string(),
        exp: Moment { seconds: 0, nanos: 0, offset_seconds: 0 },
        idempotency: idempotency.to_string(),
    }
}

#[test]
fn non_idempotent_requests_pass() {
    let service = IdempotencyCacheService::new(IdempotencyCache::new());
    assert!(matches!(service.call(Method::Post, None), CacheDecision::Forward));
    assert!(matches!(service.call(Method::Patch, Some(&token("a"))), CacheDecision::Forward));
}

#[test]
fn get_without_claims_is_refused() {
    let service = IdempotencyCacheService::new(IdempotencyCache::new());
    match service.call(Method::Get, None) {
        CacheDecision::Refuse(e) => {
            assert_eq!(e.status_code(), Status::Unauthorized);
            assert_eq!(e.reason(), Reason::IdempotencyCache);
            assert_eq!(e.message(), "Invalid JWT");
        }
        _ => panic!("expected a refusal"),
    }
}

#[test]
fn repeated_get_is_refused() {
    let mut service = IdempotencyCacheService::new(IdempotencyCache::new());
    let key = match service.call(Method::Get, Some(&token("test0"))) {
        CacheDecision::ForwardAndRemember(k) => k,
        _ => panic!("expected the request to be handed on"),
    };
    assert_eq!(key, "test0");
    service.responded(key);
    match service.call(Method::Get, Some(&token("test0"))) {
        CacheDecision::Refuse(e) => {
            assert_eq!(e.status_code().code(), 200);
            assert_eq!(e.reason(), Reason::IdempotencyCache);
            assert_eq!(e.message(), "Request already responded");
        }
        _ => panic!("expected a refusal"),
    }
    assert!(matches!(service.call(Method::Get, Some(&token("test1"))), CacheDecision::ForwardAndRemember(_)));
    assert!(matches!(service.call(Method::Head, Some(&token("test0"))), CacheDecision::Refuse(_)));
}

#[test]
fn put_without_claims_is_refused() {
    let service = IdempotencyCacheService::new(IdempotencyCache::new());
    match service.call(Method::Put, None) {
        CacheDecision::Refuse(e) => {
            assert_eq!(e.status_code(), Status::Unauthorized);
            assert_eq!(e.reason(), Reason::IdempotencyCache);
            assert_eq!(e.message(), "Invalid JWT");
        }
        _ => panic!("expected a refusal"),
    }
}

#[test]
fn repeated_put_is_refused() {
    let mut service = IdempotencyCacheService::new(IdempotencyCache::new());
    let key = match service.call(Method::Put, Some(&token("test0"))) {
        CacheDecision::ForwardAndRemember(k) => k,
        _ => panic!("expected the request to be handed on"),
    };
    assert_eq!(key, "test0");
    service.responded(key);
    match service.call(Method::Put, Some(&token("test0"))) {
        CacheDecision::Refuse(e) => {
            assert_eq!(e.status_code().code(), 200);
            assert_eq!(e.reason(), Reason::IdempotencyCache);
            assert_eq!(e.message(), "Request already responded");
        }
        _ => panic!("expected a refusal"),
    }
    assert!(matches!(service.call(Method::Delete, Some(&token("test0"))), CacheDecision::Refuse(_)));
    assert!(matches!(
        service.call(Method::Delete, Some(&token("test1"))),
        CacheDecision::ForwardAndRemember(_)
    ));
}

#[test]
fn cleared_cache_forgets_tokens() {
    let mut cache = IdempotencyCache::new();
    cache.remember("x".to_string());
    cache.remember("y".to_string());
    assert!(cache.contains(&"x".to_string()));
    assert!(cache.contains(&"y".to_string()));
    assert!(!cache.contains(&"z".to_string()));
    cache.clear();
    assert!(!cache.contains(&"x".to_string()));
    let service = IdempotencyCacheService::new(cache);
    assert!(matches!(service.call(Method::Put, Some(&token("x"))), CacheDecision::ForwardAndRemember(_)));
}

#[test]
fn method_classes() {
    assert!(Method::Trace.is_safe());
    assert!(!Method::Put.is_safe());
    assert!(Method::Put.is_idempotent());
    assert!(Method::Get.is_idempotent());
    assert!(!Method::Post.is_idempotent());
    assert!(!Method::Extension.is_idempotent());
}
