//! Process configuration, constructed once at start and passed around as a
//! plain value. Loading it from a file or the environment is the embedding
//! program's job.

use vstd::prelude::*;

verus! {

/// Where the backing stores live.
pub struct Database {
    pub mongo_url: String,
    pub redis_url: String,
    pub mongo_name: String,
}

/// Where this service listens and under which public domain confirmation
/// links are minted.
pub struct Server {
    pub server: String,
    pub domain: String,
}

/// The outbound-mail account.
pub struct Email {
    pub email_name: String,
    pub email_password: String,
    pub email_server: String,
}

/// The whole process configuration.
pub struct Setting {
    pub database: Database,
    pub server: Server,
    pub email: Email,
    pub env: String,
}

} // verus!
