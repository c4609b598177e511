//! Reading the `Authorization` header of a request.
use vstd::prelude::*;
use crate::text::{push_char, starts_with, chars_of, has_prefix, chars_range, string_from_chars};
use crate::http::Error;

verus! {

/// A byte a header value may hold and still be read as text: a visible
/// ASCII character, a space or a tab.
pub open spec fn is_visible_ascii(b: u8) -> bool {
    (32 <= b && b < 127) || b == 9
}

/// The characters that ASCII bytes stand for.
pub open spec fn ascii_text(bytes: Seq<u8>) -> Seq<char> {
    Seq::new(bytes.len(), |i: int| bytes[i] as char)
}

/// Every byte of `bytes` is visible ASCII.
pub open spec fn all_visible_ascii(bytes: Seq<u8>) -> bool {
    forall|i: int| 0 <= i < bytes.len() ==> is_visible_ascii(#[trigger] bytes[i])
}

/// A header value as text, when it holds visible ASCII only (as
/// `HeaderValue::to_str` reads it).
pub fn header_text(bytes: &[u8]) -> (r: Option<String>)
    ensures
        r is Some <==> all_visible_ascii(bytes@),
        r matches Some(s) ==> s@ == ascii_text(bytes@),
{
    let mut s = String::new();
    let mut i: usize = 0;
    while i < bytes.len()
        invariant
            i <= bytes.len(),
            forall|j: int| 0 <= j < i ==> is_visible_ascii(#[trigger] bytes@[j]),
            s@ == ascii_text(bytes@.take(i as int)),
        decreases bytes.len() - i,
    {
        let b = bytes[i];
        if !((32 <= b && b < 127) || b == 9) {
            return None;
        }
        push_char(&mut s, b as char);
        i = i + 1;
        assert(s@ =~= ascii_text(bytes@.take(i as int)));
    }
    assert(bytes@.take(bytes.len() as int) =~= bytes@);
    Some(s)
}

/// The scheme in front of a bearer token: `Bearer ` with its space.
pub open spec fn bearer_prefix() -> Seq<char> {
    seq!['B', 'e', 'a', 'r', 'e', 'r', ' ']
}

/// The text of `s` after the bearer scheme, if `s` starts with it.
pub fn strip_bearer(s: &str) -> (r: Option<String>)
    ensures
        r is Some <==> starts_with(s@, bearer_prefix()),
        r matches Some(t) ==> t@ == s@.skip(7),
{
    let v = chars_of(s);
    let p = vec!['B', 'e', 'a', 'r', 'e', 'r', ' '];
    assert(p@ =~= bearer_prefix());
    if has_prefix(&v, &p) {
        let rest = chars_range(&v, 7, v.len());
        assert(rest@ =~= s@.skip(7));
        Some(string_from_chars(&rest))
    } else {
        None
    }
}

/// The text of the `Authorization` header that a request to other servers
/// passes on: a missing header, or one that is not visible ASCII, is a bad
/// request.
pub fn get_auth_header(header: Option<&[u8]>) -> (r: Result<String, Error>)
    ensures
        header is None ==> (r matches Err(Error::BadRequest(m))
            && m@ == "Authorization header is required for this endpoint."@),
        header matches Some(h) ==> (r is Ok <==> all_visible_ascii(h@)),
        header matches Some(h) && !all_visible_ascii(h@) ==> (r matches Err(Error::BadRequest(m))
            && m@ == "Authorization header must only contain ASCII characters."@),
        r matches Ok(s) ==> header matches Some(h) && s@ == ascii_text(h@),
{
    match header {
        None => Err(Error::BadRequest("Authorization header is required for this endpoint.".to_owned())),
        Some(h) => match header_text(h) {
            Some(s) => Ok(s),
            None => Err(Error::BadRequest("Authorization header must only contain ASCII characters.".to_owned())),
        },
    }
}

} // verus!
