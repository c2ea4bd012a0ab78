//! The GeoIP client's configuration: whether a location database was given.
use vstd::prelude::*;

verus! {

/// Errors of GeoIP lookups.
#[derive(Debug)]
pub enum GeoIpError {
    /// No location database is available.
    DatabaseNotFound,
    /// A lookup failed.
    LookupFailed(String),
}

/// A GeoIP client, configured with the path of a location database or none.
pub struct GeoIpClient {
    db_path: Option<String>,
}

impl GeoIpClient {
    /// The path of the configured database, if any.
    pub closed spec fn database(self) -> Option<Seq<char>> {
        match self.db_path {
            Some(p) => Some(p@),
            None => None,
        }
    }

    /// A client without a database.
    pub fn new() -> (r: GeoIpClient)
        ensures
            r.database() is None,
    {
        GeoIpClient { db_path: None }
    }

    /// A client with the database at `db_path`.
    pub fn with_database(db_path: String) -> (r: GeoIpClient)
        ensures
            r.database() == Some(db_path@),
    {
        GeoIpClient { db_path: Some(db_path) }
    }

    /// Whether a database was configured.
    pub fn is_loaded(&self) -> (r: bool)
        ensures
            r == (self.database() is Some),
    {
        self.db_path.is_some()
    }
}

impl Default for GeoIpClient {
    fn default() -> (r: GeoIpClient)
        ensures
            r.database() is None,
    {
        GeoIpClient::new()
    }
}

} // verus!
