//! The claims a token carries, how they are issued and how a request's
//! token is checked.
use vstd::prelude::*;
use crate::access::AccessData;
use crate::headers::{header_text, strip_bearer, all_visible_ascii, ascii_text, bearer_prefix, is_visible_ascii};
use crate::text::starts_with;

verus! {

/// How long a token stays valid, in seconds.
pub const DAY_IN_SECONDS: i64 = 86400i64;

/// Length of a token's identifier.
pub const TOKEN_ID_LEN: usize = 6usize;

/// Timestamps that the clock can give are below this bound: a date whose
/// day number does not fit in an `i32` is refused.
pub open spec fn timestamp_limit() -> int {
    185_480_451_504_000
}

/// The characters of nanoid's URL-safe alphabet: `_`, `-`, digits and
/// ASCII letters.
pub open spec fn is_id_char(c: char) -> bool {
    ||| c == '_'
    ||| c == '-'
    ||| (48 <= (c as u32) && (c as u32) <= 57)
    ||| (97 <= (c as u32) && (c as u32) <= 122)
    ||| (65 <= (c as u32) && (c as u32) <= 90)
}

/// `chrono::Utc::now().timestamp()`: the current UNIX time in seconds.
/// Claimed of it: the value is at least 0 (the clock is read as a duration
/// since the epoch, and a clock before it panics) and below
/// `timestamp_limit()` (`DateTime::from_timestamp` refuses larger values and
/// `now` unwraps it). Which second it is, is not stated.
#[verifier::external_body]
fn utc_now_timestamp() -> (t: i64)
    ensures
        0 <= t < timestamp_limit(),
{
    chrono::Utc::now().timestamp()
}

/// `nanoid::format` with the default random generator and the URL-safe
/// alphabet, which is what `nanoid!(size)` expands to. Claimed of it: the
/// identifier has `size` characters, each from the alphabet. Which ones is
/// left to chance. A size of 0 never returns, and a size whose eightfold
/// overflows panics, so both are left out.
#[verifier::external_body]
fn nanoid_safe(size: usize) -> (id: String)
    requires
        0 < size <= usize::MAX / 8,
    ensures
        id@.len() == size,
        forall|i: int| 0 <= i < size ==> is_id_char(#[trigger] id@[i]),
{
    nanoid::format(nanoid::rngs::default, &nanoid::alphabet::SAFE, size)
}

/// Why a request's token was refused.
#[derive(Debug, Clone, Copy, PartialEq, Eq)]
pub enum ClaimsError {
    InvalidAuthToken,
    NonBearerToken,
    NonASCIIHeader,
    NoAuthHeader,
    TokenExpired,
}

impl ClaimsError {
    /// The text shown for this refusal.
    pub open spec fn text(&self) -> Seq<char> {
        match self {
            ClaimsError::TokenExpired => "Token expired."@,
            ClaimsError::NoAuthHeader => "No Authorization Header."@,
            ClaimsError::NonASCIIHeader => "The Authorization header must be ASCII."@,
            ClaimsError::NonBearerToken => "Only bearer tokens are supported."@,
            ClaimsError::InvalidAuthToken => "Invalid authorization token."@,
        }
    }

    /// The text shown for this refusal, as its display renders it.
    pub fn message(&self) -> (s: String)
        ensures
            s@ == self.text(),
    {
        match self {
            ClaimsError::TokenExpired => "Token expired.".to_owned(),
            ClaimsError::NoAuthHeader => "No Authorization Header.".to_owned(),
            ClaimsError::NonASCIIHeader => "The Authorization header must be ASCII.".to_owned(),
            ClaimsError::NonBearerToken => "Only bearer tokens are supported.".to_owned(),
            ClaimsError::InvalidAuthToken => "Invalid authorization token.".to_owned(),
        }
    }
}

/// The claims of a token: its identifier, when it was issued, when it
/// expires, and the access it grants.
#[derive(Debug, Clone)]
pub struct Claims {
    pub jti: String,
    pub iat: i64,
    pub exp: i64,
    pub data: AccessData,
}

/// The outcome of checking a token, given what its verification gave and
/// the current time.
pub open spec fn accepted(verified: Option<Claims>, now: i64) -> Result<Claims, ClaimsError> {
    match verified {
        None => Err(ClaimsError::InvalidAuthToken),
        Some(c) => if now > c.exp {
            Err(ClaimsError::TokenExpired)
        } else {
            Ok(c)
        },
    }
}

/// Whether claims are still valid at `now`: up to and including their
/// expiry second.
pub open spec fn valid_at(c: Claims, now: i64) -> Result<(), ClaimsError> {
    if now > c.exp {
        Err(ClaimsError::TokenExpired)
    } else {
        Ok(())
    }
}

/// The bearer token that a request's `Authorization` header carries, or why
/// there is none.
pub open spec fn bearer_outcome(header: Option<Seq<u8>>) -> Result<Seq<char>, ClaimsError> {
    match header {
        None => Err(ClaimsError::NoAuthHeader),
        Some(h) => if !all_visible_ascii(h) {
            Err(ClaimsError::NonASCIIHeader)
        } else if !starts_with(ascii_text(h), bearer_prefix()) {
            Err(ClaimsError::NonBearerToken)
        } else {
            Ok(ascii_text(h).skip(7))
        },
    }
}

impl Claims {
    /// Claims granting `data`, with identifier `jti`, issued at `iat` and
    /// expiring a day later.
    pub fn issued(data: AccessData, jti: String, iat: i64) -> (c: Claims)
        requires
            iat <= i64::MAX - DAY_IN_SECONDS,
        ensures
            c.data == data,
            c.jti == jti,
            c.iat == iat,
            c.exp == iat + DAY_IN_SECONDS,
    {
        Claims { jti, iat, exp: iat + DAY_IN_SECONDS, data }
    }

    /// New claims granting `data`: a fresh six-character identifier, issued
    /// now, expiring a day from now.
    pub fn new(data: AccessData) -> (c: Claims)
        ensures
            c.data == data,
            c.jti@.len() == 6,
            forall|i: int| 0 <= i < 6 ==> is_id_char(#[trigger] c.jti@[i]),
            0 <= c.iat < timestamp_limit(),
            c.exp == c.iat + DAY_IN_SECONDS,
    {
        let jti = nanoid_safe(TOKEN_ID_LEN);
        let iat = utc_now_timestamp();
        Self::issued(data, jti, iat)
    }

    /// Whether the claims are still valid at `now`: they are, up to and
    /// including their expiry second.
    pub fn validate_at(&self, now: i64) -> (r: Result<(), ClaimsError>)
        ensures
            r == valid_at(*self, now),
    {
        if now > self.exp {
            return Err(ClaimsError::TokenExpired);
        }
        Ok(())
    }

    /// Whether the claims are still valid now: the answer of `validate_at`
    /// at some second the clock can give. Which second is the clock's.
    pub fn validate(&self) -> (r: Result<(), ClaimsError>)
        ensures
            exists|t: i64| 0 <= t < timestamp_limit() && r == #[trigger] valid_at(*self, t),
            r is Ok || r == Err::<(), ClaimsError>(ClaimsError::TokenExpired),
            r is Ok ==> self.exp >= 0,
            r is Err ==> self.exp < timestamp_limit(),
    {
        let now = utc_now_timestamp();
        self.validate_at(now)
    }

    /// The bearer token of a request's `Authorization` header: the header
    /// must be there, be visible ASCII and start with `Bearer `.
    pub fn bearer_token(header: Option<&[u8]>) -> (r: Result<String, ClaimsError>)
        ensures
            match (r, bearer_outcome(
                match header {
                    Some(h) => Some(h@),
                    None => None,
                },
            )) {
                (Ok(t), Ok(u)) => t@ == u,
                (Err(e), Err(f)) => e == f,
                _ => false,
            },
    {
        match header {
            None => Err(ClaimsError::NoAuthHeader),
            Some(h) => match header_text(h) {
                None => Err(ClaimsError::NonASCIIHeader),
                Some(s) => match strip_bearer(s.as_str()) {
                    None => Err(ClaimsError::NonBearerToken),
                    Some(t) => Ok(t),
                },
            },
        }
    }

    /// The claims a request is granted at `now`, given what the verification
    /// of its token gave (`None` when the signature did not check out).
    pub fn accept_at(verified: Option<Claims>, now: i64) -> (r: Result<Claims, ClaimsError>)
        ensures
            r == accepted(verified, now),
    {
        match verified {
            None => Err(ClaimsError::InvalidAuthToken),
            Some(c) => match c.validate_at(now) {
                Ok(()) => Ok(c),
                Err(e) => Err(e),
            },
        }
    }

    /// The claims a request is granted now, given what the verification of
    /// its token gave: the answer of `accept_at` at some second the clock
    /// can give. Which second is the clock's; claims that expire at or after
    /// the clock's last second are always accepted.
    pub fn accept(verified: Option<Claims>) -> (r: Result<Claims, ClaimsError>)
        ensures
            exists|t: i64| 0 <= t < timestamp_limit() && r == #[trigger] accepted(verified, t),
            verified is None ==> r == Err::<Claims, ClaimsError>(ClaimsError::InvalidAuthToken),
            verified matches Some(c) ==> (r == Ok::<Claims, ClaimsError>(c) || r == Err::<Claims, ClaimsError>(ClaimsError::TokenExpired)),
            r is Ok ==> verified->0.exp >= 0,
            r == Err::<Claims, ClaimsError>(ClaimsError::TokenExpired) ==> verified->0.exp < timestamp_limit() - 1,
    {
        let now = utc_now_timestamp();
        Self::accept_at(verified, now)
    }
}

/// The bytes of a text whose characters are all ASCII.
pub open spec fn ascii_bytes(s: Seq<char>) -> Seq<u8> {
    Seq::new(s.len(), |i: int| (s[i] as u32) as u8)
}

/// A header made of `Bearer ` and a token of visible ASCII characters, as
/// the browser client sends it, gives back that token.
pub proof fn lemma_bearer_round_trip(token: Seq<char>)
    requires
        forall|i: int| 0 <= i < token.len() ==> 32 <= (#[trigger] token[i] as u32) < 127,
    ensures
        bearer_outcome(Some(ascii_bytes("Bearer "@ + token))) == Ok::<Seq<char>, ClaimsError>(token),
{
    reveal_strlit("Bearer ");
    let text = "Bearer "@ + token;
    assert(text =~= bearer_prefix() + token);
    let bytes = ascii_bytes(text);
    assert forall|i: int| 0 <= i < text.len() implies 32 <= (#[trigger] text[i] as u32) < 127 by {
        if i >= 7 {
            assert(text[i] == token[i - 7]);
        }
    }
    assert forall|i: int| 0 <= i < bytes.len() implies is_visible_ascii(#[trigger] bytes[i]) && (bytes[i] as char) == text[i] by {
        let u = text[i] as u32;
        assert(32 <= u < 127);
        assert(bytes[i] == u as u8);
        assert(bytes[i] as int == u as int);
        vstd::utf8::char_u32_cast(text[i], u);
        assert((u as char) == text[i]);
        assert((bytes[i] as char) == (u as char));
    }
    assert(ascii_text(bytes) =~= text);
    assert(ascii_text(bytes).take(7) =~= bearer_prefix());
    assert(ascii_text(bytes).skip(7) =~= token);
}

} // verus!
