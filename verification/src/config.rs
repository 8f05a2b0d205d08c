//! Naming configuration for the local store's tables.

use vstd::prelude::*;

verus! {

/// The schema/naming configuration passed to every component that builds a
/// query: which table names hold servers and domain records. The fields are
/// optional as read from disk; after `from_partial` or `default` both are
/// always present.
pub struct Config {
    pub tabname_domain: Option<String>,
    pub tabname_server: Option<String>,
}

impl Config {
    /// Both table names are present.
    pub open spec fn wf(self) -> bool {
        self.tabname_domain is Some && self.tabname_server is Some
    }

    /// The domain-table name, as a sequence of characters.
    pub open spec fn domain_table(self) -> Seq<char> {
        self.tabname_domain->Some_0@
    }

    /// The server-table name, as a sequence of characters.
    pub open spec fn server_table(self) -> Seq<char> {
        self.tabname_server->Some_0@
    }

    /// Fills each absent table name with its default, so that the result is
    /// well formed whatever was read from the configuration file.
    pub fn from_partial(tabname_domain: Option<String>, tabname_server: Option<String>) -> (r: Config)
        ensures
            r.wf(),
            match tabname_domain {
                Some(s) => r.domain_table() == s@,
                None => r.domain_table() == "domains"@,
            },
            match tabname_server {
                Some(s) => r.server_table() == s@,
                None => r.server_table() == "servers"@,
            },
    {
        let td: String = match tabname_domain {
            Some(s) => s,
            None => "domains".to_string(),
        };
        let ts: String = match tabname_server {
            Some(s) => s,
            None => "servers".to_string(),
        };
        Config { tabname_domain: Some(td), tabname_server: Some(ts) }
    }

    pub fn tabname_domain(&self) -> (r: &String)
        requires
            self.wf(),
        ensures
            r@ == self.domain_table(),
    {
        match &self.tabname_domain {
            Some(s) => s,
            None => unreached(),
        }
    }

    pub fn tabname_server(&self) -> (r: &String)
        requires
            self.wf(),
        ensures
            r@ == self.server_table(),
    {
        match &self.tabname_server {
            Some(s) => s,
            None => unreached(),
        }
    }

    pub fn default() -> (r: Config)
        ensures
            r.wf(),
            r.domain_table() == "domains"@,
            r.server_table() == "servers"@,
    {
        Config {
            tabname_domain: Some("domains".to_string()),
            tabname_server: Some("servers".to_string()),
        }
    }
}

} // verus!
