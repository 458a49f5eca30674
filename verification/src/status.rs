//! The response status codes the service speaks, and how flow failures map
//! onto them.

use vstd::prelude::*;

verus! {

use crate::flows::AuthError;

pub const OK: u32 = 1000;

pub const SYS_ERROR: u32 = 1010;

pub const BAD_REQUEST: u32 = 1011;

pub const UNAUTH: u32 = 1012;

pub const TIME_OUT: u32 = 1013;

pub const UNKNOWN: u32 = 1020;

/// The status code a flow failure is reported under: a password or token
/// failure is unauthorized, everything else is a bad request.
pub open spec fn spec_code_of(e: AuthError) -> u32 {
    match e {
        AuthError::Unauthorized => UNAUTH,
        AuthError::NotFound => BAD_REQUEST,
        AuthError::AlreadyRegistered => BAD_REQUEST,
        AuthError::DuplicateSend => BAD_REQUEST,
    }
}

pub fn code_of(e: AuthError) -> (c: u32)
    ensures
        c == spec_code_of(e),
{
    match e {
        AuthError::Unauthorized => UNAUTH,
        AuthError::NotFound => BAD_REQUEST,
        AuthError::AlreadyRegistered => BAD_REQUEST,
        AuthError::DuplicateSend => BAD_REQUEST,
    }
}

} // verus!
