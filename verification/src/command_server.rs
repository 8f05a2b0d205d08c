//! The server-registration command's data: the attributes the operator gives
//! on the command line, turned into a registry row once the secret has been
//! prompted for.

use vstd::prelude::*;
use crate::sqlite_types::{opt_view, or_null};
use crate::store::Server;
use crate::strutil::{trim_spec, trim_spaces};

verus! {

/// The attributes of a server to register; the API key is prompted for
/// separately and never taken on the command line.
pub struct ServerAdd {
    pub name: String,
    pub ip: String,
    pub user: String,
    pub hostname: Option<String>,
    pub group: Option<String>,
}

impl ServerAdd {
    /// The registry row this registration stores: the prompted API key is
    /// trimmed, and absent optional attributes become the `NULL` placeholder.
    pub fn into_server(self, apikey: &str) -> (r: Server)
        ensures
            r@.name == self.name@,
            r@.ip == self.ip@,
            r@.user == self.user@,
            r@.apikey == trim_spec(apikey@),
            r@.hostname == or_null(opt_view(self.hostname)),
            r@.group == or_null(opt_view(self.group)),
    {
        let key = trim_spaces(apikey);
        Server::new(self.name, self.ip, self.user, key, self.hostname, self.group)
    }
}

} // verus!
