use cpcm::cli::{Cpcm, InitSubcommand, ServerSubcommand};
use cpcm::command_domain::DomainArgs;
use cpcm::command_init::{init_plan, is_affirmative, InitAction};
use cpcm::command_server::ServerAdd;
use cpcm::config::Config;
use cpcm::sql_strings::{
    DOMAINFIND_FILTER, DOMAINSYNC_PURGE, DOMAINSYNC_UPSERT, SERVERADD_UPSERT, SERVERLIST_SELECT,
    SQLSCHEMA, SQLSCHEMA_STATEMENTS,
};

#[test]
fn schema_statements_use_the_configured_names() {
    let c = Config::from_partial(Some("doms".to_string()), Some("hosts".to_string()));
    let stmts = SQLSCHEMA_STATEMENTS(&c);
    assert_eq!(stmts.len(), 3);
    assert!(stmts[0].starts_with("\n\nCREATE TABLE IF NOT EXISTS hosts("));
    assert!(stmts[0].contains("PRIMARY KEY(`name`,`ip`)"));
    assert!(stmts[1].starts_with("CREATE TABLE IF NOT EXISTS doms("));
    assert!(stmts[1].contains("FOREIGN KEY(`server_name`, `server_ip`) REFERENCES hosts(`name`, `ip`)"));
    assert_eq!(stmts[2], "CREATE INDEX domain_idx ON `doms`(`domain`);\n\n");
}

#[test]
fn schema_is_the_statements_joined() {
    let c = Config::default();
    let stmts = SQLSCHEMA_STATEMENTS(&c);
    let joined = format!("{}-- Statement\n{}-- Statement\n{}", stmts[0], stmts[1], stmts[2]);
    assert_eq!(SQLSCHEMA(&c), joined);
    // splitting the script on the marker recovers the statements
    let script = SQLSCHEMA(&c);
    let pieces: Vec<&str> = script.split("-- Statement\n").filter(|s| !s.is_empty()).collect();
    assert_eq!(pieces.len(), 3);
    assert_eq!(pieces[0], stmts[0]);
    assert_eq!(pieces[1], stmts[1]);
    assert_eq!(pieces[2], stmts[2]);
}

#[test]
fn serveradd_upsert_replaces_every_attribute() {
    let c = Config::default();
    let sql = SERVERADD_UPSERT(&c);
    assert!(sql.starts_with("\nINSERT INTO servers(`name`, `ip`, `user`, `apikey`, `hostname`, `group`)"));
    assert!(sql.contains("ON CONFLICT (name, ip) DO UPDATE SET"));
    assert!(sql.contains("`apikey`=excluded.`apikey`"));
}

#[test]
fn domainsync_upsert_applies_only_newer_epochs() {
    let c = Config::default();
    let sql = DOMAINSYNC_UPSERT(&c);
    assert!(sql.starts_with("\nINSERT INTO `domains`(docroot, domain,"));
    assert!(sql.contains("ON CONFLICT (server_name, domain) DO UPDATE SET"));
    // the conditional write: replace only when the incoming epoch is newer
    assert!(sql.ends_with("WHERE excluded.lastupdated>lastupdated;"));
}

#[test]
fn purge_filter_and_select_are_parameterized() {
    let c = Config::default();
    assert_eq!(DOMAINSYNC_PURGE(&c), "DELETE FROM domains WHERE lastupdated < :epoch");
    assert_eq!(
        DOMAINFIND_FILTER(&c),
        "SELECT * FROM domains WHERE domain LIKE :pattern;"
    );
    assert_eq!(
        SERVERLIST_SELECT(&c),
        "SELECT name,ip,hostname,user,apikey FROM servers"
    );
}

#[test]
fn init_plan_covers_the_four_cases() {
    assert_eq!(init_plan(true, true, false, false), InitAction::WipeAndCreate);
    assert_eq!(init_plan(true, false, true, true), InitAction::Abort);
    assert_eq!(init_plan(false, false, true, true), InitAction::LoadExisting);
    assert_eq!(init_plan(false, false, true, false), InitAction::Create);
    assert_eq!(init_plan(false, false, false, true), InitAction::Create);
    assert_eq!(init_plan(false, false, false, false), InitAction::Create);
}

#[test]
fn affirmative_answers() {
    assert!(is_affirmative("Yes"));
    assert!(is_affirmative("Y"));
    assert!(is_affirmative("y"));
    assert!(is_affirmative(" y\n"));
    assert!(!is_affirmative("yes"));
    assert!(!is_affirmative("no"));
    assert!(!is_affirmative(""));
}

#[test]
fn server_add_trims_the_key_and_fills_placeholders() {
    let add = ServerAdd {
        name: "s1".to_string(),
        ip: "192.0.2.1".to_string(),
        user: "root".to_string(),
        hostname: None,
        group: Some("east".to_string()),
    };
    let s = add.into_server(" secret \n");
    assert_eq!(s.name, "s1");
    assert_eq!(s.ip, "192.0.2.1");
    assert_eq!(s.user, "root");
    assert_eq!(s.apikey, "secret");
    assert_eq!(s.hostname, "NULL");
    assert_eq!(s.group, "east");
}

#[test]
fn cli_shapes_construct() {
    let _ = Cpcm::Init(InitSubcommand { force: true });
    let _ = Cpcm::Domain(DomainArgs { sync: true, name: None });
    let _ = Cpcm::Server(ServerSubcommand::Add(ServerAdd {
        name: "s1".to_string(),
        ip: "192.0.2.1".to_string(),
        user: "root".to_string(),
        hostname: None,
        group: None,
    }));
}
