//! Builders for every statement the local store runs. Each takes the naming
//! configuration explicitly, and each value-level predicate is a bound
//! parameter, never interpolated text.

use vstd::prelude::*;
use crate::config::Config;

verus! {

/// The `CREATE TABLE` statement for the server registry.
pub open spec fn schema_servers_spec(server: Seq<char>) -> Seq<char> {
    "\n\nCREATE TABLE IF NOT EXISTS "@ + server
        + "(\n  `name`     TEXT,\n  `ip`       TEXT,\n  `user`     TEXT,\n  `apikey`   TEXT,\n  `hostname` TEXT,\n  `group`    TEXT,\n  PRIMARY KEY(`name`,`ip`)\n);\n\n"@
}

/// The `CREATE TABLE` statement for the domain records, with its foreign key
/// into the server registry.
pub open spec fn schema_domains_spec(server: Seq<char>, domain: Seq<char>) -> Seq<char> {
    "CREATE TABLE IF NOT EXISTS "@ + domain
        + "(\n  `lastupdated` INTEGER,\n  `server_name` TEXT,\n  `server_ip` TEXT,\n  `docroot` TEXT,\n  `domain` TEXT,\n  `domain_type` TEXT,\n  `ipv4` TEXT,\n  `ipv4_ssl` TEXT,\n  `ipv6` TEXT,\n  `ipv6_is_dedicated` INTEGER,\n  `modsecurity_enabled` INTEGER,\n  `parent_domain` TEXT,\n  `php_version` TEXT,\n  `port` TEXT,\n  `port_ssl` TEXT,\n  `user` TEXT,\n  `user_owner` TEXT,\n  PRIMARY KEY(`server_name`, `domain`),\n  FOREIGN KEY(`server_name`, `server_ip`) REFERENCES "@
        + server + "(`name`, `ip`)\n);\n\n"@
}

/// The index that serves the name-substring lookup.
pub open spec fn schema_index_spec(domain: Seq<char>) -> Seq<char> {
    "CREATE INDEX domain_idx ON `"@ + domain + "`(`domain`);\n\n"@
}

/// The whole schema, its statements joined by the statement separator.
pub open spec fn schema_sql_spec(server: Seq<char>, domain: Seq<char>) -> Seq<char> {
    schema_servers_spec(server) + "-- Statement\n"@ + schema_domains_spec(server, domain)
        + "-- Statement\n"@ + schema_index_spec(domain)
}

/// The whole store schema as one script, statements separated by a
/// `-- Statement` marker line.
#[allow(non_snake_case)]
pub fn SQLSCHEMA(config: &Config) -> (r: String)
    requires
        config.wf(),
    ensures
        r@ == schema_sql_spec(config.server_table(), config.domain_table()),
{
    let parts = SQLSCHEMA_STATEMENTS(config);
    let p0 = &parts[0];
    let p1 = &parts[1];
    let p2 = &parts[2];
    let r = p0.clone().concat("-- Statement\n").concat(p1.as_str()).concat(
        "-- Statement\n",
    ).concat(p2.as_str());
    assert(r@ =~= schema_sql_spec(config.server_table(), config.domain_table()));
    r
}

/// The store schema statement by statement, in the order the script runs
/// them: server table, domain table, domain index.
#[allow(non_snake_case)]
pub fn SQLSCHEMA_STATEMENTS(config: &Config) -> (r: Vec<String>)
    requires
        config.wf(),
    ensures
        r@.len() == 3,
        r@[0]@ == schema_servers_spec(config.server_table()),
        r@[1]@ == schema_domains_spec(config.server_table(), config.domain_table()),
        r@[2]@ == schema_index_spec(config.domain_table()),
{
    let servers_stmt = "\n\nCREATE TABLE IF NOT EXISTS ".to_string().concat(
        config.tabname_server().as_str(),
    ).concat(
        "(\n  `name`     TEXT,\n  `ip`       TEXT,\n  `user`     TEXT,\n  `apikey`   TEXT,\n  `hostname` TEXT,\n  `group`    TEXT,\n  PRIMARY KEY(`name`,`ip`)\n);\n\n",
    );
    let domains_stmt = "CREATE TABLE IF NOT EXISTS ".to_string().concat(
        config.tabname_domain().as_str(),
    ).concat(
        "(\n  `lastupdated` INTEGER,\n  `server_name` TEXT,\n  `server_ip` TEXT,\n  `docroot` TEXT,\n  `domain` TEXT,\n  `domain_type` TEXT,\n  `ipv4` TEXT,\n  `ipv4_ssl` TEXT,\n  `ipv6` TEXT,\n  `ipv6_is_dedicated` INTEGER,\n  `modsecurity_enabled` INTEGER,\n  `parent_domain` TEXT,\n  `php_version` TEXT,\n  `port` TEXT,\n  `port_ssl` TEXT,\n  `user` TEXT,\n  `user_owner` TEXT,\n  PRIMARY KEY(`server_name`, `domain`),\n  FOREIGN KEY(`server_name`, `server_ip`) REFERENCES ",
    ).concat(config.tabname_server().as_str()).concat("(`name`, `ip`)\n);\n\n");
    let index_stmt = "CREATE INDEX domain_idx ON `".to_string().concat(
        config.tabname_domain().as_str(),
    ).concat("`(`domain`);\n\n");
    proof {
        assert(servers_stmt@ =~= schema_servers_spec(config.server_table()));
        assert(domains_stmt@ =~= schema_domains_spec(
            config.server_table(),
            config.domain_table(),
        ));
        assert(index_stmt@ =~= schema_index_spec(config.domain_table()));
    }
    let r: Vec<String> = vec![servers_stmt, domains_stmt, index_stmt];
    r
}

/// The registration command's insert-or-replace of one server row.
pub open spec fn serveradd_upsert_spec(server: Seq<char>) -> Seq<char> {
    "\nINSERT INTO "@ + server
        + "(`name`, `ip`, `user`, `apikey`, `hostname`, `group`)\nVALUES (:name, :ip, :user, :apikey, :hostname, :group)\nON CONFLICT (name, ip) DO UPDATE SET\n    `name`=excluded.`name`,\n    `ip`=excluded.`ip`,\n    `user`=excluded.`user`,\n    `apikey`=excluded.`apikey`,\n    `hostname`=excluded.`hostname`,\n    `group`=excluded.`group`;"@
}

/// The unconditional server upsert: on an `(name, ip)` conflict every
/// attribute is replaced.
#[allow(non_snake_case)]
pub fn SERVERADD_UPSERT(config: &Config) -> (r: String)
    requires
        config.wf(),
    ensures
        r@ == serveradd_upsert_spec(config.server_table()),
{
    let r = "\nINSERT INTO ".to_string().concat(config.tabname_server().as_str()).concat(
        "(`name`, `ip`, `user`, `apikey`, `hostname`, `group`)\nVALUES (:name, :ip, :user, :apikey, :hostname, :group)\nON CONFLICT (name, ip) DO UPDATE SET\n    `name`=excluded.`name`,\n    `ip`=excluded.`ip`,\n    `user`=excluded.`user`,\n    `apikey`=excluded.`apikey`,\n    `hostname`=excluded.`hostname`,\n    `group`=excluded.`group`;",
    );
    assert(r@ =~= serveradd_upsert_spec(config.server_table()));
    r
}

/// The reconciler's conditional write of one domain record.
pub open spec fn domainsync_upsert_spec(domain: Seq<char>) -> Seq<char> {
    "\nINSERT INTO `"@ + domain
        + "`(docroot, domain, domain_type, ipv4, ipv4_ssl, ipv6, ipv6_is_dedicated, modsecurity_enabled, parent_domain, php_version, port, port_ssl, user, user_owner, server_name, server_ip, lastupdated)\nVALUES(:docroot, :domain, :domain_type, :ipv4, :ipv4_ssl, :ipv6, :ipv6_is_dedicated, :modsecurity_enabled, :parent_domain, :php_version, :port, :port_ssl, :user, :user_owner, :server_name, :server_ip, :lastupdate)\n    ON CONFLICT (server_name, domain) DO UPDATE SET\n        server_name=excluded.server_name,\n        server_ip=excluded.server_ip,\n        docroot=excluded.docroot,\n        domain=excluded.domain,\n        domain_type=excluded.domain_type,\n        ipv4=excluded.ipv4,\n        ipv4_ssl=excluded.ipv4_ssl,\n        ipv6=excluded.ipv6,\n        ipv6_is_dedicated=excluded.ipv6_is_dedicated,\n        modsecurity_enabled=excluded.modsecurity_enabled,\n        parent_domain=excluded.parent_domain,\n        php_version=excluded.php_version,\n        port=excluded.port,\n        port_ssl=excluded.port_ssl,\n        user=excluded.user,\n        user_owner=excluded.user_owner,\n        lastupdated=excluded.lastupdated\n    WHERE excluded.lastupdated>lastupdated;"@
}

/// The monotonic upsert of one domain record, keyed by
/// `(server_name, domain)`: an existing row is replaced only when the
/// incoming epoch is strictly newer than the stored one.
#[allow(non_snake_case)]
pub fn DOMAINSYNC_UPSERT(config: &Config) -> (r: String)
    requires
        config.wf(),
    ensures
        r@ == domainsync_upsert_spec(config.domain_table()),
{
    let r = "\nINSERT INTO `".to_string().concat(config.tabname_domain().as_str()).concat(
        "`(docroot, domain, domain_type, ipv4, ipv4_ssl, ipv6, ipv6_is_dedicated, modsecurity_enabled, parent_domain, php_version, port, port_ssl, user, user_owner, server_name, server_ip, lastupdated)\nVALUES(:docroot, :domain, :domain_type, :ipv4, :ipv4_ssl, :ipv6, :ipv6_is_dedicated, :modsecurity_enabled, :parent_domain, :php_version, :port, :port_ssl, :user, :user_owner, :server_name, :server_ip, :lastupdate)\n    ON CONFLICT (server_name, domain) DO UPDATE SET\n        server_name=excluded.server_name,\n        server_ip=excluded.server_ip,\n        docroot=excluded.docroot,\n        domain=excluded.domain,\n        domain_type=excluded.domain_type,\n        ipv4=excluded.ipv4,\n        ipv4_ssl=excluded.ipv4_ssl,\n        ipv6=excluded.ipv6,\n        ipv6_is_dedicated=excluded.ipv6_is_dedicated,\n        modsecurity_enabled=excluded.modsecurity_enabled,\n        parent_domain=excluded.parent_domain,\n        php_version=excluded.php_version,\n        port=excluded.port,\n        port_ssl=excluded.port_ssl,\n        user=excluded.user,\n        user_owner=excluded.user_owner,\n        lastupdated=excluded.lastupdated\n    WHERE excluded.lastupdated>lastupdated;",
    );
    assert(r@ =~= domainsync_upsert_spec(config.domain_table()));
    r
}

/// The staleness purge; the epoch is a bound parameter.
pub open spec fn domainsync_purge_spec(domain: Seq<char>) -> Seq<char> {
    "DELETE FROM "@ + domain + " WHERE lastupdated < :epoch"@
}

/// The staleness purge of every record whose epoch lies below the bound
/// `:epoch` parameter.
#[allow(non_snake_case)]
pub fn DOMAINSYNC_PURGE(config: &Config) -> (r: String)
    requires
        config.wf(),
    ensures
        r@ == domainsync_purge_spec(config.domain_table()),
{
    let r = "DELETE FROM ".to_string().concat(config.tabname_domain().as_str()).concat(
        " WHERE lastupdated < :epoch",
    );
    assert(r@ =~= domainsync_purge_spec(config.domain_table()));
    r
}

/// The name filter; the pattern is a bound parameter.
pub open spec fn domainfind_filter_spec(domain: Seq<char>) -> Seq<char> {
    "SELECT * FROM "@ + domain + " WHERE domain LIKE :pattern;"@
}

/// The name-substring lookup over the domain column, with the pattern as a
/// bound `:pattern` parameter rather than interpolated operator input.
#[allow(non_snake_case)]
pub fn DOMAINFIND_FILTER(config: &Config) -> (r: String)
    requires
        config.wf(),
    ensures
        r@ == domainfind_filter_spec(config.domain_table()),
{
    let r = "SELECT * FROM ".to_string().concat(config.tabname_domain().as_str()).concat(
        " WHERE domain LIKE :pattern;",
    );
    assert(r@ =~= domainfind_filter_spec(config.domain_table()));
    r
}

/// The registry reader's select.
pub open spec fn serverlist_select_spec(server: Seq<char>) -> Seq<char> {
    "SELECT name,ip,hostname,user,apikey FROM "@ + server
}

/// The registry reader: every registered server with its credentials.
#[allow(non_snake_case)]
pub fn SERVERLIST_SELECT(config: &Config) -> (r: String)
    requires
        config.wf(),
    ensures
        r@ == serverlist_select_spec(config.server_table()),
{
    let r = "SELECT name,ip,hostname,user,apikey FROM ".to_string().concat(
        config.tabname_server().as_str(),
    );
    assert(r@ =~= serverlist_select_spec(config.server_table()));
    r
}

} // verus!
