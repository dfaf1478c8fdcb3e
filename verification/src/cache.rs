use vstd::prelude::*;

use dashmap::DashSet;

use crate::auth::AuthToken;
use crate::error::{Error, ErrorView, Reason, Status};

verus! {

/// The method of an HTTP request.
#[derive(Clone, Copy, Debug, PartialEq, Eq, Structural)]
pub enum Method {
    Get,
    Head,
    Options,
    Trace,
    Put,
    Delete,
    Post,
    Patch,
    Connect,
    Extension,
}

/// Methods that only read: GET, HEAD, OPTIONS and TRACE.
pub open spec fn is_safe_method(m: Method) -> bool {
    m == Method::Get || m == Method::Head || m == Method::Options || m == Method::Trace
}

/// Methods whose repetition has the effect of one request: the safe ones,
/// PUT and DELETE.
pub open spec fn is_idempotent_method(m: Method) -> bool {
    m == Method::Put || m == Method::Delete || is_safe_method(m)
}

impl Method {
    pub fn is_safe(&self) -> (r: bool)
        ensures
            r == is_safe_method(*self),
    {
        match self {
            Method::Get | Method::Head | Method::Options | Method::Trace => true,
            _ => false,
        }
    }

    pub fn is_idempotent(&self) -> (r: bool)
        ensures
            r == is_idempotent_method(*self),
    {
        match self {
            Method::Put | Method::Delete => true,
            _ => self.is_safe(),
        }
    }
}

#[verifier::external_type_specification]
#[verifier::external_body]
#[verifier::reject_recursive_types(K)]
#[verifier::reject_recursive_types(S)]
pub struct ExDashSet<K, S>(DashSet<K, S>);

/// The keys that a concurrent set of strings holds.
pub uninterp spec fn key_set_contents(set: DashSet<String>) -> Set<Seq<char>>;

/// `DashSet::new`: an empty set.
#[verifier::external_body]
fn key_set_new() -> (r: DashSet<String>)
    ensures
        key_set_contents(r) == Set::<Seq<char>>::empty(),
{
    DashSet::new()
}

/// `DashSet::contains`: whether the set holds the key.
#[verifier::external_body]
fn key_set_contains(set: &DashSet<String>, key: &String) -> (r: bool)
    ensures
        r == key_set_contents(*set).contains(key@),
{
    set.contains(key)
}

/// `DashSet::insert`: the key is added; the result tells whether it was new.
#[verifier::external_body]
fn key_set_insert(set: &mut DashSet<String>, key: String) -> (r: bool)
    ensures
        key_set_contents(*final(set)) == key_set_contents(*old(set)).insert(key@),
        r == !key_set_contents(*old(set)).contains(key@),
{
    set.insert(key)
}

/// `DashSet::clear`: every key is removed.
#[verifier::external_body]
fn key_set_clear(set: &mut DashSet<String>)
    ensures
        key_set_contents(*final(set)) == Set::<Seq<char>>::empty(),
{
    set.clear()
}

/// `DashSet::shrink_to_fit`: memory is given back; the keys stay.
#[verifier::external_body]
fn key_set_shrink_to_fit(set: &mut DashSet<String>)
    ensures
        key_set_contents(*final(set)) == key_set_contents(*old(set)),
{
    set.shrink_to_fit()
}

/// The idempotency tokens of the requests answered since the cache was
/// last cleared.
pub struct IdempotencyCache {
    entries: DashSet<String>,
}

impl View for IdempotencyCache {
    type V = Set<Seq<char>>;

    closed spec fn view(&self) -> Set<Seq<char>> {
        key_set_contents(self.entries)
    }
}

impl IdempotencyCache {
    pub fn new() -> (r: IdempotencyCache)
        ensures
            r@ == Set::<Seq<char>>::empty(),
    {
        IdempotencyCache { entries: key_set_new() }
    }

    pub fn contains(&self, idempotency: &String) -> (r: bool)
        ensures
            r == self@.contains(idempotency@),
    {
        key_set_contains(&self.entries, idempotency)
    }

    /// Records the token of a request that has been answered.
    pub fn remember(&mut self, idempotency: String)
        ensures
            final(self)@ == old(self)@.insert(idempotency@),
    {
        key_set_insert(&mut self.entries, idempotency);
    }

    /// Forgets every token, as the daily wipe does.
    pub fn clear(&mut self)
        ensures
            final(self)@ == Set::<Seq<char>>::empty(),
    {
        key_set_clear(&mut self.entries);
        key_set_shrink_to_fit(&mut self.entries);
    }
}

/// What the cache does with a request.
pub enum CacheDecision {
    /// Hand the request on; the cache has no part in it.
    Forward,
    /// Hand the request on, and remember its token once it has been answered.
    ForwardAndRemember(String),
    /// Answer the request with this error.
    Refuse(Error),
}

/// The abstract content of a decision.
pub enum DecisionView {
    Forward,
    ForwardAndRemember(Seq<char>),
    Refuse(ErrorView),
}

impl View for CacheDecision {
    type V = DecisionView;

    open spec fn view(&self) -> DecisionView {
        match self {
            CacheDecision::Forward => DecisionView::Forward,
            CacheDecision::ForwardAndRemember(k) => DecisionView::ForwardAndRemember(k@),
            CacheDecision::Refuse(e) => DecisionView::Refuse(e@),
        }
    }
}

pub open spec fn invalid_token_error() -> ErrorView {
    ErrorView { passthrough: false, status: Status::Unauthorized, reason: Reason::IdempotencyCache, message: "Invalid JWT"@ }
}

pub open spec fn already_responded_error() -> ErrorView {
    ErrorView {
        passthrough: false,
        status: Status::Success,
        reason: Reason::IdempotencyCache,
        message: "Request already responded"@,
    }
}

/// What the cache does with a request: requests whose repetition is not
/// harmless (POST, PATCH, ...) are handed on; every other request (GET,
/// HEAD, OPTIONS, TRACE, PUT, DELETE) needs the idempotency token of
/// verified claims, and is refused when that token was answered already.
pub open spec fn cache_outcome(cache: Set<Seq<char>>, method: Method, idempotency: Option<Seq<char>>) -> DecisionView {
    if !is_idempotent_method(method) {
        DecisionView::Forward
    } else {
        match idempotency {
            None => DecisionView::Refuse(invalid_token_error()),
            Some(k) => if cache.contains(k) {
                DecisionView::Refuse(already_responded_error())
            } else {
                DecisionView::ForwardAndRemember(k)
            },
        }
    }
}

pub open spec fn token_idempotency(token: Option<&AuthToken>) -> Option<Seq<char>> {
    match token {
        Some(t) => Some(t.idempotency@),
        None => None,
    }
}

/// The idempotency check in front of the routes.
pub struct IdempotencyCacheService {
    pub cache: IdempotencyCache,
}

impl IdempotencyCacheService {
    pub fn new(cache: IdempotencyCache) -> (r: IdempotencyCacheService)
        ensures
            r.cache@ == cache@,
    {
        IdempotencyCacheService { cache }
    }

    /// Decides what to do with a request, given its method and the claims
    /// that the authorization step attached to it, if any.
    pub fn call(&self, method: Method, token: Option<&AuthToken>) -> (r: CacheDecision)
        ensures
            r@ == cache_outcome(self.cache@, method, token_idempotency(token)),
    {
        if !method.is_idempotent() {
            return CacheDecision::Forward;
        }
        match token {
            None => CacheDecision::Refuse(
                Error::Static {
                    status: Status::Unauthorized,
                    reason: Reason::IdempotencyCache,
                    message: "Invalid JWT",
                },
            ),
            Some(t) => {
                if self.cache.contains(&t.idempotency) {
                    CacheDecision::Refuse(
                        Error::Static {
                            status: Status::Success,
                            reason: Reason::IdempotencyCache,
                            message: "Request already responded",
                        },
                    )
                } else {
                    CacheDecision::ForwardAndRemember(t.idempotency.clone())
                }
            },
        }
    }

    /// Records that the request with this token has been answered.
    pub fn responded(&mut self, idempotency: String)
        ensures
            final(self).cache@ == old(self).cache@.insert(idempotency@),
    {
        self.cache.remember(idempotency);
    }
}

/// A request whose token has been recorded is refused from then on: after
/// `responded` with a token, a GET, PUT or DELETE (any idempotent request)
/// carrying that token is answered "Request already responded", whatever
/// else the cache holds.
pub proof fn lemma_answered_request_is_refused(cache: Set<Seq<char>>, method: Method, key: Seq<char>)
    requires
        is_idempotent_method(method),
    ensures
        cache_outcome(cache.insert(key), method, Some(key)) == DecisionView::Refuse(
            already_responded_error(),
        ),
{
    assert(cache.insert(key).contains(key));
}

/// The first idempotent request with a token that the cache does not hold
/// is handed on, and it is that token that gets recorded.
pub proof fn lemma_fresh_request_is_forwarded(cache: Set<Seq<char>>, method: Method, key: Seq<char>)
    requires
        is_idempotent_method(method),
        !cache.contains(key),
    ensures
        cache_outcome(cache, method, Some(key)) == DecisionView::ForwardAndRemember(key),
{
}

/// A GET sent twice with the same token: the first is handed on and its
/// token recorded, the second is answered "Request already responded".
pub proof fn lemma_repeated_get_is_refused(cache: Set<Seq<char>>, key: Seq<char>)
    requires
        !cache.contains(key),
    ensures
        cache_outcome(cache, Method::Get, Some(key)) == DecisionView::ForwardAndRemember(key),
        cache_outcome(cache.insert(key), Method::Get, Some(key)) == DecisionView::Refuse(
            already_responded_error(),
        ),
{
    assert(cache.insert(key).contains(key));
}

/// Requests whose repetition is not harmless are never held up by the
/// cache, whatever it holds and whatever the claims.
pub proof fn lemma_non_idempotent_requests_pass(cache: Set<Seq<char>>, method: Method, key: Option<Seq<char>>)
    requires
        !is_idempotent_method(method),
    ensures
        cache_outcome(cache, method, key) == DecisionView::Forward,
{
}

/// Recording a token never forgets another: the cache only grows until it
/// is cleared.
pub proof fn lemma_recorded_tokens_stay(cache: Set<Seq<char>>, key: Seq<char>, other: Seq<char>)
    requires
        cache.contains(other),
    ensures
        cache.insert(key).contains(other),
{
}

/// After the daily wipe, every token can be used once more.
pub proof fn lemma_cleared_cache_forwards(method: Method, key: Seq<char>)
    requires
        is_idempotent_method(method),
    ensures
        cache_outcome(Set::<Seq<char>>::empty(), method, Some(key))
            == DecisionView::ForwardAndRemember(key),
{
}

} // verus!
