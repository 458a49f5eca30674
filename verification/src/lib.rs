//! Authentication core: password hashing and verification, a TTL-backed
//! session-token store with a bidirectional token/identity mapping, and the
//! login / registration / confirmation / resend / password-reset flows built
//! on top of them.

pub mod accounts;
pub mod cache;
pub mod crypto;
pub mod flows;
pub mod ids;
pub mod session;
pub mod setting;
pub mod status;
