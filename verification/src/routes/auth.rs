use vstd::prelude::*;

verus! {

/// A logged-in browser session, as the middleware hands it on.
pub struct UserSession {
    pub id: i32,
    pub user_id: i32,
}

/// A long-lived API key, as the middleware hands it on.
pub struct UserApiKey {
    pub id: i32,
    pub user_id: i32,
}

/// How the caller authenticated.
pub enum AuthMethod {
    Session(UserSession),
    ApiKey(UserApiKey),
}

/// What the authentication middleware decides before touching the store: a
/// session cookie of the wrong length is rejected outright, as is an
/// authorization header of the wrong length; otherwise the matching lookup
/// runs; with neither credential the request is refused.
#[derive(PartialEq, Eq, Structural, Clone, Copy, Debug)]
pub enum AuthGate {
    InvalidCookie,
    SessionLookup,
    InvalidHeader,
    ApiKeyLookup,
    Missing,
}

/// The middleware's decision from the lengths of the presented credentials:
/// a present session cookie must be exactly 81 bytes, a present
/// authorization header exactly 55; the cookie takes precedence.
pub fn classify_auth(session_cookie_len: Option<usize>, authorization_len: Option<usize>) -> (r:
    AuthGate)
    ensures
        r == match session_cookie_len {
            Some(l) => if l != 81 {
                AuthGate::InvalidCookie
            } else {
                AuthGate::SessionLookup
            },
            None => match authorization_len {
                Some(l) => if l != 55 {
                    AuthGate::InvalidHeader
                } else {
                    AuthGate::ApiKeyLookup
                },
                None => AuthGate::Missing,
            },
        },
{
    match session_cookie_len {
        Some(l) => {
            if l != 81 {
                AuthGate::InvalidCookie
            } else {
                AuthGate::SessionLookup
            }
        },
        None => match authorization_len {
            Some(l) => {
                if l != 55 {
                    AuthGate::InvalidHeader
                } else {
                    AuthGate::ApiKeyLookup
                }
            },
            None => AuthGate::Missing,
        },
    }
}

} // verus!
