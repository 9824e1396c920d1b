//! What the program is started with.

use vstd::prelude::*;
use vstd::string::StringExecFns;

verus! {

/// The host on which the query server listens.
pub const SERVER_HOST: &'static str = "127.0.0.1:";

/// The settings that the program is started with.
#[derive(Debug)]
pub struct Cli {
    /// The address of the source chain.
    pub chain_url: String,
    /// The path of the database.
    pub db_path: String,
    /// The port of the query server.
    pub port_no: String,
}

impl Cli {
    /// The address to which the query server binds: the local host and the
    /// port of the settings.
    pub fn bind_address(&self) -> (r: String)
        ensures
            r@ == SERVER_HOST@ + self.port_no@,
    {
        SERVER_HOST.to_owned().concat(self.port_no.as_str())
    }
}

} // verus!
