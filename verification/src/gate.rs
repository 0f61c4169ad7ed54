use vstd::prelude::*;

use crate::errors::GateError;
use crate::token::{
    SessionAssertion, SigningKey, token_email, token_expires_at, token_issued_at, token_user_id,
    token_wf, verify_token,
};

verus! {

/// The hard authorization gate in front of every protected route: reads
/// the `access_token` cookie value handed in by the transport layer and
/// admits the request only with a verified identity attached.
///
/// Fails closed with `Unauthenticated` when the cookie is absent, when
/// the token is malformed or carries a bad tag, and when it is expired;
/// no handler can run without the returned claims. The identity comes
/// from the token alone — no record lookup happens here, so a deleted
/// user keeps access for the token's remaining lifetime.
pub fn authorize(key: &SigningKey, cookie: Option<&Vec<u8>>, now: u64) -> (r: Result<
    SessionAssertion,
    GateError,
>)
    ensures
        match r {
            Ok(a) => {
                &&& cookie is Some
                &&& token_wf(key@, cookie->Some_0@)
                &&& now <= token_expires_at(cookie->Some_0@)
                &&& a.user_id == token_user_id(cookie->Some_0@)
                &&& a.email@ == token_email(cookie->Some_0@)
                &&& a.issued_at == token_issued_at(cookie->Some_0@)
                &&& a.expires_at == token_expires_at(cookie->Some_0@)
            },
            Err(GateError::Unauthenticated) => match cookie {
                None => true,
                Some(t) => !token_wf(key@, t@) || now > token_expires_at(t@),
            },
        },
{
    match cookie {
        None => Err(GateError::Unauthenticated),
        Some(t) => match verify_token(key, t, now) {
            Ok(a) => Ok(a),
            Err(_) => Err(GateError::Unauthenticated),
        },
    }
}

} // verus!
