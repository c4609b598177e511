//! The guard placed in front of the routes that need a valid token.
use vstd::prelude::*;

verus! {

/// Requires a valid bearer token on every request to the routes it wraps.
#[derive(Debug, Clone, Copy, PartialEq, Eq)]
pub struct AuthRequired;

impl AuthRequired {
    /// The guard.
    pub fn default() -> (r: AuthRequired)
        ensures
            r == AuthRequired,
    {
        AuthRequired
    }

    /// Puts the guard in front of `service`.
    pub fn new_transform<S>(&self, service: S) -> (m: AuthRequiredMiddleware<S>)
        ensures
            m.inner() == service,
    {
        AuthRequiredMiddleware { service }
    }
}

/// A service wrapped by the guard. It only holds the service; the checks on
/// each request are `Claims::bearer_token` and `Claims::accept`, made by the
/// server before it passes an accepted request on.
pub struct AuthRequiredMiddleware<S> {
    service: S,
}

impl<S> AuthRequiredMiddleware<S> {
    /// The guarded service.
    pub closed spec fn inner(&self) -> S {
        self.service
    }

    /// The guarded service, to which accepted requests are passed on.
    pub fn service(&self) -> (s: &S)
        ensures
            *s == self.inner(),
    {
        &self.service
    }
}

} // verus!
