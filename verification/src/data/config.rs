//! The configuration layout with separate main and database sections.
use vstd::prelude::*;

verus! {

/// The main section: the port to listen on and whether there is only one user.
pub struct ConfigMain {
    pub port: u16,
    pub single_user: bool,
}

/// Where the database is and how to log in to it.
pub struct ConfigDatabase {
    pub host: String,
    pub port: u16,
    /// The path of the TLS certificate, if any.
    pub ssl_cert: Option<String>,
    pub keyspace: String,
    pub user: Option<String>,
    pub password: Option<String>,
}

} // verus!
