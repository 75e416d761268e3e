//! Connection settings for the backing store, and the connection string
//! derived from them. Loading the settings from the environment is the
//! caller's concern; this module only holds and combines the values.

use vstd::prelude::*;
use vstd::string::StringExecFns;

verus! {

/// The connection string the settings stand for.
pub open spec fn uri_of(server_ip: Seq<char>, dbname: Seq<char>, username: Seq<char>, password: Seq<char>) -> Seq<char> {
    "mongodb+srv://"@ + username + ":"@ + password + "@"@ + server_ip + "/"@ + dbname
        + "?retryWrites=true&w=majority"@
}

/// The backing store's endpoint, database name and credentials.
#[derive(Debug)]
pub struct Config {
    pub server_ip: String,
    pub dbname: String,
    pub username: String,
    pub password: String,
}

impl Config {
    /// A configuration from already-loaded settings values.
    pub fn new(server_ip: String, dbname: String, username: String, password: String) -> (c:
        Config)
        ensures
            c.server_ip@ == server_ip@,
            c.dbname@ == dbname@,
            c.username@ == username@,
            c.password@ == password@,
    {
        Config { server_ip, dbname, username, password }
    }

    /// The connection string: scheme, credentials, endpoint, database
    /// name and the fixed write-concern options, in that order.
    pub fn uri(&self) -> (r: String)
        ensures
            r@ == uri_of(self.server_ip@, self.dbname@, self.username@, self.password@),
    {
        String::from_str("mongodb+srv://").concat(self.username.as_str()).concat(":").concat(
            self.password.as_str(),
        ).concat("@").concat(self.server_ip.as_str()).concat("/").concat(
            self.dbname.as_str(),
        ).concat("?retryWrites=true&w=majority")
    }
}

} // verus!
