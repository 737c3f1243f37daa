use vstd::prelude::*;

verus! {

/// Process configuration, loaded once at startup and never mutated: the
/// signing secret and token ttl the auth service needs, the database and
/// course-catalog endpoints, and the bind address. Absence of a value is a
/// startup error in the loader, not a runtime concern here.
#[derive(Debug, Clone)]
pub struct Settings {
    pub database_url: String,
    pub jwt_secret: String,
    pub jwt_expiration: u64,
    pub moodle_base_url: String,
    pub moodle_api_token: String,
    pub host: String,
    pub port: u16,
}

} // verus!
