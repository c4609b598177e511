use varlog::access::AccessData;
use varlog::claims::{Claims, ClaimsError, DAY_IN_SECONDS};
use varlog::headers::{get_auth_header, header_text, strip_bearer};
use varlog::http::Error;
use varlog::middleware::AuthRequired;

fn data() -> AccessData {
    AccessData { paths: vec!["^syslog$".to_string()], servers: vec![".*".to_string()] }
}

#[test]
fn new_claims_expire_a_day_later() {
    let c = Claims::new(data());
    assert_eq!(c.exp, c.iat + DAY_IN_SECONDS);
    assert_eq!(c.jti.len(), 6);
    assert!(c.jti.chars().all(|ch| ch == '_' || ch == '-' || ch.is_ascii_alphanumeric()));
    assert!(c.iat > 1_600_000_000);
    assert_eq!(c.validate(), Ok(()));
    assert_eq!(c.data.paths, vec!["^syslog$".to_string()]);
}

#[test]
fn claims_expire_after_their_second() {
    let c = Claims::issued(data(), "abcdef".to_string(), 1000);
    assert_eq!(c.exp, 1000 + 86400);
    assert_eq!(c.validate_at(87400), Ok(()));
    assert_eq!(c.validate_at(87401), Err(ClaimsError::TokenExpired));
    let old = Claims::issued(data(), "abcdef".to_string(), 0);
    assert_eq!(old.validate(), Err(ClaimsError::TokenExpired));
}

#[test]
fn bearer_tokens_are_read_from_the_header() {
    assert_eq!(Claims::bearer_token(Some(b"Bearer abc.def")), Ok("abc.def".to_string()));
    assert_eq!(Claims::bearer_token(Some(b"Bearer ")), Ok(String::new()));
    assert_eq!(Claims::bearer_token(None), Err(ClaimsError::NoAuthHeader));
    assert_eq!(Claims::bearer_token(Some(b"Basic abc")), Err(ClaimsError::NonBearerToken));
    assert_eq!(Claims::bearer_token(Some(b"bearer abc")), Err(ClaimsError::NonBearerToken));
    assert_eq!(Claims::bearer_token(Some(&[66, 101, 0xc3, 0xa9])), Err(ClaimsError::NonASCIIHeader));
    assert_eq!(Claims::bearer_token(Some(b"Bearer a\x7f")), Err(ClaimsError::NonASCIIHeader));
}

#[test]
fn verified_claims_are_accepted_until_expiry() {
    let c = Claims::issued(data(), "abcdef".to_string(), 500);
    assert_eq!(Claims::accept_at(None, 0).unwrap_err(), ClaimsError::InvalidAuthToken);
    assert_eq!(Claims::accept_at(Some(c.clone()), 86900).unwrap().jti, "abcdef");
    assert_eq!(Claims::accept_at(Some(c.clone()), 86901).unwrap_err(), ClaimsError::TokenExpired);
    assert_eq!(Claims::accept(Some(c)).unwrap_err(), ClaimsError::TokenExpired);
    let fresh = Claims::new(data());
    assert_eq!(Claims::accept(Some(fresh)).unwrap().exp > 0, true);
    assert_eq!(Claims::accept(None).unwrap_err(), ClaimsError::InvalidAuthToken);
}

#[test]
fn claims_errors_read_as_the_server_shows_them() {
    assert_eq!(ClaimsError::TokenExpired.message(), "Token expired.");
    assert_eq!(ClaimsError::NoAuthHeader.message(), "No Authorization Header.");
    assert_eq!(ClaimsError::NonASCIIHeader.message(), "The Authorization header must be ASCII.");
    assert_eq!(ClaimsError::NonBearerToken.message(), "Only bearer tokens are supported.");
    assert_eq!(ClaimsError::InvalidAuthToken.message(), "Invalid authorization token.");
}

#[test]
fn header_values_are_visible_ascii() {
    assert_eq!(header_text(b"Bearer x\ty"), Some("Bearer x\ty".to_string()));
    assert_eq!(header_text(b"a\nb"), None);
    assert_eq!(header_text(b""), Some(String::new()));
    assert_eq!(strip_bearer("Bearer t"), Some("t".to_string()));
    assert_eq!(strip_bearer("Bear"), None);
}

#[test]
fn auth_header_for_other_servers() {
    assert_eq!(get_auth_header(Some(b"Bearer x")), Ok("Bearer x".to_string()));
    assert_eq!(
        get_auth_header(None),
        Err(Error::BadRequest("Authorization header is required for this endpoint.".to_string()))
    );
    assert_eq!(
        get_auth_header(Some(&[0x80])),
        Err(Error::BadRequest("Authorization header must only contain ASCII characters.".to_string()))
    );
}

#[test]
fn the_guard_wraps_a_service() {
    let guard = AuthRequired::default();
    assert_eq!(guard, AuthRequired);
    let m = guard.new_transform(42u32);
    assert_eq!(*m.service(), 42);
}

#[test]
fn errors_carry_status_and_text() {
    assert_eq!(Error::Forbidden("no".to_string()).status_code(), 403);
    assert_eq!(Error::Forbidden("no".to_string()).message(), "no");
    assert_eq!(Error::BadRequest("bad".to_string()).status_code(), 400);
    assert_eq!(Error::ServiceUnavailable.status_code(), 503);
    assert_eq!(Error::ServiceUnavailable.message(), "Temporarily Unavailable.");
    assert_eq!(Error::InternalServiceError.status_code(), 500);
    assert_eq!(Error::InternalServiceError.message(), "Internal Server Error.");
}

#[test]
fn the_client_header_gives_back_its_token() {
    let c = varlog::client::VarlogClient::new("eyJ0.eyJh.c2ln");
    let header = c.authorization().as_bytes().to_vec();
    assert_eq!(Claims::bearer_token(Some(&header)), Ok("eyJ0.eyJh.c2ln".to_string()));
}

#[test]
fn claims_beyond_the_clock_are_always_accepted() {
    let c = Claims::issued(data(), "zzzzzz".to_string(), i64::MAX - DAY_IN_SECONDS);
    assert_eq!(Claims::accept(Some(c.clone())).unwrap().exp, i64::MAX);
    assert!(c.validate().is_ok());
}
