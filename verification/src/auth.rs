use vstd::prelude::*;

use crate::error::{Error, ErrorView, Reason, Status};
use hmac::{Hmac, Mac};
use jwt::VerifyWithKey;
use sha2::Sha256;
use serde::de::IgnoredAny;

verus! {

/// A point in time: seconds and nanoseconds since the Unix epoch, with the
/// UTC offset (in seconds) that the time was written with.
#[derive(Clone, Copy, Debug, PartialEq, Eq, Structural)]
pub struct Moment {
    pub seconds: i64,
    pub nanos: u32,
    pub offset_seconds: i32,
}

/// `a` lies strictly before `b`; the offsets they are written with play no part.
pub open spec fn is_before(a: Moment, b: Moment) -> bool {
    a.seconds < b.seconds || (a.seconds == b.seconds && a.nanos < b.nanos)
}

impl Moment {
    pub fn before(&self, other: &Moment) -> (r: bool)
        ensures
            r == is_before(*self, *other),
    {
        self.seconds < other.seconds || (self.seconds == other.seconds && self.nanos < other.nanos)
    }
}

/// The claims of a verified JWT: the subject, the expiry time and the
/// idempotency token of the request.
#[derive(Clone, Debug)]
pub struct AuthToken {
    pub sub: String,
    pub exp: Moment,
    pub idempotency: String,
}

/// The abstract content of verified claims.
pub struct AuthTokenView {
    pub sub: Seq<char>,
    pub exp: Moment,
    pub idempotency: Seq<char>,
}

impl View for AuthToken {
    type V = AuthTokenView;

    open spec fn view(&self) -> AuthTokenView {
        AuthTokenView { sub: self.sub@, exp: self.exp, idempotency: self.idempotency@ }
    }
}

impl AuthToken {
    pub fn sub(&self) -> (r: &String)
        ensures
            r == &self.sub,
    {
        &self.sub
    }

    pub fn exp(&self) -> (r: &Moment)
        ensures
            *r == self.exp,
    {
        &self.exp
    }

    pub fn idempotency(&self) -> (r: &String)
        ensures
            r == &self.idempotency,
    {
        &self.idempotency
    }
}

/// A byte that may stand in a header value read as text: visible ASCII or a tab.
pub open spec fn is_visible_ascii(b: u8) -> bool {
    (32 <= b && b < 127) || b == 9
}

/// The header value can be read as text.
pub open spec fn is_header_text(s: Seq<u8>) -> bool {
    forall|i: int| 0 <= i < s.len() ==> is_visible_ascii(#[trigger] s[i])
}

/// An ASCII byte with the Unicode White_Space property.
pub open spec fn is_space(b: u8) -> bool {
    b == 32 || (9 <= b && b <= 13)
}

pub open spec fn trim_start(s: Seq<u8>) -> Seq<u8>
    decreases s.len(),
{
    if s.len() > 0 && is_space(s[0]) {
        trim_start(s.drop_first())
    } else {
        s
    }
}

pub open spec fn trim_end(s: Seq<u8>) -> Seq<u8>
    decreases s.len(),
{
    if s.len() > 0 && is_space(s.last()) {
        trim_end(s.drop_last())
    } else {
        s
    }
}

/// The text without its leading and trailing white space.
pub open spec fn trim(s: Seq<u8>) -> Seq<u8> {
    trim_end(trim_start(s))
}

/// The bytes of `Bearer `.
pub open spec fn bearer_prefix() -> Seq<u8> {
    seq![66u8, 101u8, 97u8, 114u8, 101u8, 114u8, 32u8]
}

/// `s` with the prefix `p` taken off, where `s` starts with `p`.
pub open spec fn strip_prefix(s: Seq<u8>, p: Seq<u8>) -> Option<Seq<u8>> {
    if p.len() <= s.len() && s.subrange(0, p.len() as int) == p {
        Some(s.subrange(p.len() as int, s.len() as int))
    } else {
        None
    }
}

pub open spec fn missing_header_error() -> ErrorView {
    ErrorView {
        passthrough: false,
        status: Status::Unauthorized,
        reason: Reason::Authorization,
        message: "Couldn't find Authorization header"@,
    }
}

pub open spec fn unreadable_header_error() -> ErrorView {
    ErrorView {
        passthrough: true,
        status: Status::Unauthorized,
        reason: Reason::Authorization,
        message: "failed to convert header to a str"@,
    }
}

pub open spec fn not_bearer_error() -> ErrorView {
    ErrorView {
        passthrough: false,
        status: Status::Unauthorized,
        reason: Reason::Authorization,
        message: "Authorization header doesn't start with \"Bearer \""@,
    }
}

pub open spec fn expired_error() -> ErrorView {
    ErrorView {
        passthrough: false,
        status: Status::Unauthorized,
        reason: Reason::Authorization,
        message: "JWT Token expired"@,
    }
}

/// What reading the token out of an `Authorization` header gives.
pub open spec fn bearer_token_outcome(header: Option<Seq<u8>>) -> Result<Seq<u8>, ErrorView> {
    match header {
        None => Err(missing_header_error()),
        Some(h) => if !is_header_text(h) {
            Err(unreadable_header_error())
        } else {
            match strip_prefix(trim(h), bearer_prefix()) {
                Some(token) => Ok(token),
                None => Err(not_bearer_error()),
            }
        },
    }
}

fn is_visible_ascii_byte(b: u8) -> (r: bool)
    ensures
        r == is_visible_ascii(b),
{
    (32 <= b && b < 127) || b == 9
}

fn is_space_byte(b: u8) -> (r: bool)
    ensures
        r == is_space(b),
{
    b == 32 || (9 <= b && b <= 13)
}

/// Whether the header value can be read as text.
pub fn is_header_text_value(value: &[u8]) -> (r: bool)
    ensures
        r == is_header_text(value@),
{
    let n = value.len();
    let mut i: usize = 0;
    while i < n
        invariant
            n == value@.len(),
            i <= n,
            forall|j: int| 0 <= j < i ==> is_visible_ascii(#[trigger] value@[j]),
        decreases n - i,
    {
        if !is_visible_ascii_byte(value[i]) {
            return false;
        }
        i += 1;
    }
    true
}

proof fn lemma_trim_start_step(s: Seq<u8>, i: int)
    requires
        0 <= i < s.len(),
        is_space(s[i]),
    ensures
        trim_start(s.subrange(i, s.len() as int)) == trim_start(s.subrange(i + 1, s.len() as int)),
{
    assert(s.subrange(i, s.len() as int).drop_first() =~= s.subrange(i + 1, s.len() as int));
}

proof fn lemma_trim_end_step(s: Seq<u8>, start: int, end: int)
    requires
        0 <= start < end <= s.len(),
        is_space(s[end - 1]),
    ensures
        trim_end(s.subrange(start, end)) == trim_end(s.subrange(start, end - 1)),
{
    assert(s.subrange(start, end).drop_last() =~= s.subrange(start, end - 1));
}

/// The bounds of the text of `value` without leading and trailing white space.
pub fn trim_bounds(value: &[u8]) -> (r: (usize, usize))
    ensures
        r.0 <= r.1 <= value@.len(),
        value@.subrange(r.0 as int, r.1 as int) == trim(value@),
{
    let n = value.len();
    let mut start: usize = 0;
    assert(value@.subrange(0, n as int) =~= value@);
    while start < n && is_space_byte(value[start])
        invariant
            n == value@.len(),
            start <= n,
            trim_start(value@) == trim_start(value@.subrange(start as int, n as int)),
        decreases n - start,
    {
        proof {
            lemma_trim_start_step(value@, start as int);
        }
        start += 1;
    }
    assert(trim_start(value@) == value@.subrange(start as int, n as int));
    let mut end: usize = n;
    while end > start && is_space_byte(value[end - 1])
        invariant
            n == value@.len(),
            start <= end <= n,
            trim_start(value@) == value@.subrange(start as int, n as int),
            trim(value@) == trim_end(value@.subrange(start as int, end as int)),
        decreases end,
    {
        proof {
            lemma_trim_end_step(value@, start as int, end as int);
        }
        end -= 1;
    }
    (start, end)
}

/// Reads the JWT out of the value of an `Authorization` header, which must
/// read as `Bearer <token>` (white space around it is ignored).
pub fn bearer_token(header: Option<&[u8]>) -> (r: Result<Vec<u8>, Error>)
    ensures
        match bearer_token_outcome(
            match header {
                Some(h) => Some(h@),
                None => None,
            },
        ) {
            Ok(token) => r matches Ok(t) && t@ == token,
            Err(e) => r matches Err(err) && err@ == e,
        },
{
    let value = match header {
        None => {
            return Err(
                Error::Static {
                    status: Status::Unauthorized,
                    reason: Reason::Authorization,
                    message: "Couldn't find Authorization header",
                },
            );
        },
        Some(v) => v,
    };
    if !is_header_text_value(value) {
        return Err(
            Error::authorization(String::from_str("failed to convert header to a str")),
        );
    }
    let (start, end) = trim_bounds(value);
    let ghost trimmed = value@.subrange(start as int, end as int);
    let prefix: Vec<u8> = vec![66u8, 101u8, 97u8, 114u8, 101u8, 114u8, 32u8];
    assert(prefix@ =~= bearer_prefix());
    if end - start < 7 {
        return Err(
            Error::Static {
                status: Status::Unauthorized,
                reason: Reason::Authorization,
                message: "Authorization header doesn't start with \"Bearer \"",
            },
        );
    }
    let mut k: usize = 0;
    while k < 7
        invariant
            prefix@ == bearer_prefix(),
            header == Some(value),
            is_header_text(value@),
            trimmed == trim(value@),
            start + 7 <= end <= value@.len(),
            trimmed == value@.subrange(start as int, end as int),
            k <= 7,
            forall|j: int| 0 <= j < k ==> trimmed[j] == #[trigger] prefix@[j],
        decreases 7 - k,
    {
        if value[start + k] != prefix[k] {
            assert(trimmed[k as int] == value@[start + k]);
            assert(trimmed.subrange(0, 7)[k as int] != bearer_prefix()[k as int]);
            assert(trimmed.subrange(0, 7) != bearer_prefix());
            return Err(
                Error::Static {
                    status: Status::Unauthorized,
                    reason: Reason::Authorization,
                    message: "Authorization header doesn't start with \"Bearer \"",
                },
            );
        }
        k += 1;
    }
    assert(trimmed.subrange(0, 7) =~= bearer_prefix());
    let mut token: Vec<u8> = Vec::new();
    let mut i: usize = start + 7;
    while i < end
        invariant
            start + 7 <= i <= end <= value@.len(),
            token@ == value@.subrange(start + 7, i as int),
        decreases end - i,
    {
        token.push(value[i]);
        assert(value@.subrange(start + 7, i + 1) =~= value@.subrange(start + 7, i as int).push(
            value@[i as int],
        ));
        i += 1;
    }
    assert(trimmed.subrange(7, trimmed.len() as int) =~= value@.subrange(start + 7, end as int));
    Ok(token)
}

/// What the middleware answers once the token has been verified: the claims
/// are accepted while the current time `now` lies before their expiry time.
pub open spec fn claims_outcome(claims: Result<AuthToken, Seq<char>>, now: Moment) -> Result<
    AuthToken,
    ErrorView,
> {
    match claims {
        Err(message) => Err(
            ErrorView { passthrough: true, status: Status::Unauthorized, reason: Reason::Authorization, message },
        ),
        Ok(token) => if is_before(now, token.exp) {
            Ok(token)
        } else {
            Err(expired_error())
        },
    }
}

/// Accepts the claims of a verified token, or refuses the request: `claims`
/// is the outcome of verifying the token (the message of the failure where
/// it failed), `now` the current time.
pub fn accept_claims(claims: Result<AuthToken, String>, now: Moment) -> (r: Result<AuthToken, Error>)
    ensures
        match claims_outcome(
            match claims {
                Ok(t) => Ok(t),
                Err(m) => Err(m@),
            },
            now,
        ) {
            Ok(token) => r == Ok::<AuthToken, Error>(token),
            Err(e) => r matches Err(err) && err@ == e,
        },
{
    match claims {
        Err(message) => Err(Error::authorization(message)),
        Ok(token) => {
            if now.before(&token.exp) {
                Ok(token)
            } else {
                Err(
                    Error::Static {
                        status: Status::Unauthorized,
                        reason: Reason::Authorization,
                        message: "JWT Token expired",
                    },
                )
            }
        },
    }
}


/// Whether a JWT's header names HMAC-SHA256 and its signature checks out
/// under the key; else the message of the failure.
pub uninterp spec fn jwt_signature(token: Seq<u8>, key: Seq<u8>) -> Result<(), Seq<char>>;

/// Checks a JWT with `jwt::VerifyWithKey` under an `hmac::Hmac<Sha256>` key
/// made from `key`, reading its claims as `serde::de::IgnoredAny` (any JSON
/// value, nothing kept); the token's bytes are first read as UTF-8 with
/// `std::str::from_utf8`. The contract claims that the outcome, success or
/// failure message, is a function of the token and the key alone.
#[verifier::external_body]
fn verify_signature(token: &[u8], key: &[u8]) -> (r: Result<(), String>)
    ensures
        r is Ok <==> jwt_signature(token@, key@) is Ok,
        r is Err ==> r->Err_0@ == jwt_signature(token@, key@)->Err_0,
{
    let text = match std::str::from_utf8(token) {
        Ok(text) => text,
        Err(error) => return Err(error.to_string()),
    };
    let key = match Hmac::<Sha256>::new_from_slice(key) {
        Ok(key) => key,
        Err(error) => return Err(error.to_string()),
    };
    let checked: Result<IgnoredAny, jwt::Error> = text.verify_with_key(&key);
    match checked {
        Ok(_) => Ok(()),
        Err(error) => Err(error.to_string()),
    }
}

pub open spec fn authorization_error(message: Seq<char>) -> ErrorView {
    ErrorView {
        passthrough: true,
        status: Status::Unauthorized,
        reason: Reason::Authorization,
        message,
    }
}

/// What the authorization step answers for a bearer token, once its claims
/// have been read (`claims`: the claims, or the message of the failure to
/// read them): claims that could not be read are refused first, then a
/// token whose signature does not check out under `key`, then claims whose
/// expiry time does not lie after `now`.
pub open spec fn authorize_outcome(
    token: Seq<u8>,
    key: Seq<u8>,
    claims: Result<AuthTokenView, Seq<char>>,
    now: Moment,
) -> Result<AuthTokenView, ErrorView> {
    match claims {
        Err(message) => Err(authorization_error(message)),
        Ok(c) => match jwt_signature(token, key) {
            Err(message) => Err(authorization_error(message)),
            Ok(_) => if is_before(now, c.exp) {
                Ok(c)
            } else {
                Err(expired_error())
            },
        },
    }
}

/// The authorization step for the bearer token `token` (as `bearer_token`
/// reads it out of the header): `claims` is what reading the token's claims
/// into the claims type gave. The token is then checked under `key`, and
/// the claims accepted while `now` lies before their expiry time.
pub fn authorize(token: &[u8], key: &[u8], claims: Result<AuthToken, String>, now: Moment) -> (r: Result<
    AuthToken,
    Error,
>)
    ensures
        match authorize_outcome(
            token@,
            key@,
            match claims {
                Ok(c) => Ok(c@),
                Err(m) => Err(m@),
            },
            now,
        ) {
            Ok(t) => r is Ok && r->Ok_0@ == t,
            Err(e) => r is Err && r->Err_0@ == e,
        },
{
    let claims = match claims {
        Err(message) => return Err(Error::authorization(message)),
        Ok(claims) => claims,
    };
    match verify_signature(token, key) {
        Err(message) => Err(Error::authorization(message)),
        Ok(()) => accept_claims(Ok(claims), now),
    }
}

proof fn lemma_trim_start_keeps(s: Seq<u8>)
    requires
        s.len() > 0,
        !is_space(s[0]),
    ensures
        trim_start(s) == s,
{
}

proof fn lemma_trim_end_keeps(s: Seq<u8>)
    requires
        s.len() > 0,
        !is_space(s.last()),
    ensures
        trim_end(s) == s,
{
}

proof fn lemma_trim_start_spaces(spaces: Seq<u8>, s: Seq<u8>)
    requires
        forall|i: int| 0 <= i < spaces.len() ==> is_space(#[trigger] spaces[i]),
    ensures
        trim_start(spaces + s) == trim_start(s),
    decreases spaces.len(),
{
    if spaces.len() > 0 {
        assert((spaces + s).drop_first() =~= spaces.drop_first() + s);
        lemma_trim_start_spaces(spaces.drop_first(), s);
    } else {
        assert(spaces + s =~= s);
    }
}

/// A header that reads `Bearer <token>`, with any white space before it,
/// gives back the token, where the token is header text whose last byte is
/// no white space.
pub proof fn lemma_bearer_header_gives_token(spaces: Seq<u8>, token: Seq<u8>)
    requires
        forall|i: int| 0 <= i < spaces.len() ==> #[trigger] spaces[i] == 32u8,
        is_header_text(token),
        token.len() > 0,
        !is_space(token.last()),
    ensures
        bearer_token_outcome(Some(spaces + bearer_prefix() + token)) == Ok::<Seq<u8>, ErrorView>(token),
{
    let header = spaces + bearer_prefix() + token;
    let rest = bearer_prefix() + token;
    assert(header =~= spaces + rest);
    assert forall|i: int| 0 <= i < header.len() implies is_visible_ascii(#[trigger] header[i]) by {
        if i >= spaces.len() + 7 {
            assert(header[i] == token[i - spaces.len() - 7]);
        }
    }
    lemma_trim_start_spaces(spaces, rest);
    lemma_trim_start_keeps(rest);
    assert(rest.last() == token.last());
    lemma_trim_end_keeps(rest);
    assert(rest.subrange(0, 7) =~= bearer_prefix());
    assert(rest.subrange(7, rest.len() as int) =~= token);
}

/// Verified claims whose expiry time is not after the current time are
/// refused as expired.
pub proof fn lemma_expired_claims_are_refused(token: AuthToken, now: Moment)
    requires
        !is_before(now, token.exp),
    ensures
        claims_outcome(Ok(token), now) == Err::<AuthToken, ErrorView>(expired_error()),
{
}

/// Verified claims are accepted, unchanged, as long as their expiry time
/// lies ahead.
pub proof fn lemma_live_claims_are_accepted(token: AuthToken, now: Moment)
    requires
        is_before(now, token.exp),
    ensures
        claims_outcome(Ok(token), now) == Ok::<AuthToken, ErrorView>(token),
{
}


/// A moment lies before another exactly when it comes earlier in time,
/// counted in nanoseconds since the epoch; the offsets play no part.
pub proof fn lemma_before_is_earlier(a: Moment, b: Moment)
    requires
        a.nanos < 1_000_000_000,
        b.nanos < 1_000_000_000,
    ensures
        is_before(a, b) <==> a.seconds * 1_000_000_000 + a.nanos < b.seconds * 1_000_000_000 + b.nanos,
        a.seconds < b.seconds ==> is_before(a, b),
{
}

/// Verified claims are accepted exactly while the current time comes
/// earlier than their expiry time, counted in nanoseconds since the epoch.
pub proof fn lemma_claims_accepted_until_expiry(token: AuthToken, now: Moment)
    requires
        now.nanos < 1_000_000_000,
        token.exp.nanos < 1_000_000_000,
    ensures
        claims_outcome(Ok(token), now) is Ok <==> now.seconds * 1_000_000_000 + now.nanos
            < token.exp.seconds * 1_000_000_000 + token.exp.nanos,
{
    lemma_before_is_earlier(now, token.exp);
}

/// Every token made of printable ASCII bytes other than the space (base64url
/// text and dots among them), sent as `Bearer <token>`, is handed on as it is.
pub proof fn lemma_printable_token_is_read(token: Seq<u8>)
    requires
        token.len() > 0,
        forall|i: int| 0 <= i < token.len() ==> 33 <= #[trigger] token[i] && token[i] <= 126,
    ensures
        bearer_token_outcome(Some(seq![66u8, 101u8, 97u8, 114u8, 101u8, 114u8, 32u8] + token))
            == Ok::<Seq<u8>, ErrorView>(token),
{
    let prefix = seq![66u8, 101u8, 97u8, 114u8, 101u8, 114u8, 32u8];
    assert(prefix =~= bearer_prefix());
    assert(Seq::<u8>::empty() + prefix + token =~= prefix + token);
    assert(is_header_text(token));
    assert(token.last() == token[token.len() - 1]);
    lemma_bearer_header_gives_token(Seq::<u8>::empty(), token);
}

/// A header is refused as unreadable, with the message of the failure passed
/// through, exactly when one of its bytes is a control byte other than the
/// tab, or lies outside ASCII.
pub proof fn lemma_unreadable_header(header: Seq<u8>)
    ensures
        (bearer_token_outcome(Some(header)) matches Err(e) && e.passthrough) <==> exists|i: int|
            0 <= i < header.len() && ((#[trigger] header[i] < 32 && header[i] != 9) || header[i] >= 127),
{
    if exists|i: int|
        0 <= i < header.len() && ((#[trigger] header[i] < 32 && header[i] != 9) || header[i] >= 127) {
        let i = choose|i: int|
            0 <= i < header.len() && ((#[trigger] header[i] < 32 && header[i] != 9) || header[i] >= 127);
        assert(!is_visible_ascii(header[i]));
    }
}

} // verus!
