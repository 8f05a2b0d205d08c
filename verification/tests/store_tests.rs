use cpcm::sqlite_types::DomainRow;
use cpcm::store::{Server, Store, StoredDomain};

fn server(name: &str, ip: &str) -> Server {
    Server::new(
        name.to_string(),
        ip.to_string(),
        "root".to_string(),
        "key".to_string(),
        None,
        None,
    )
}

fn complete_row(domain: &str, docroot: &str) -> DomainRow {
    DomainRow {
        docroot: Some(docroot.to_string()),
        domain: Some(domain.to_string()),
        domain_type: Some("main".to_string()),
        ipv4: Some("10.0.0.1".to_string()),
        ipv4_ssl: Some("NULL".to_string()),
        ipv6: Some("NULL".to_string()),
        ipv6_is_dedicated: Some(0),
        modsecurity_enabled: Some(0),
        parent_domain: Some("NULL".to_string()),
        php_version: Some("NULL".to_string()),
        port: Some("80".to_string()),
        port_ssl: Some("443".to_string()),
        user: Some("web".to_string()),
        user_owner: Some("NULL".to_string()),
    }
}

#[test]
fn upsert_inserts_then_respects_monotonic_rule() {
    let mut store = Store::new();
    store.add_server(server("s1", "192.0.2.1"));
    let applied = store.upsert(
        complete_row("a.com", "/v1"),
        "s1".to_string(),
        "192.0.2.1".to_string(),
        100,
    );
    assert!(applied);
    // an equal epoch is a no-op: a duplicate response arriving late
    let applied = store.upsert(
        complete_row("a.com", "/v2"),
        "s1".to_string(),
        "192.0.2.1".to_string(),
        100,
    );
    assert!(!applied);
    assert_eq!(store.domains[0].row.docroot.clone().unwrap(), "/v1");
    // an older epoch never reverts a fresher value
    let applied = store.upsert(
        complete_row("a.com", "/v0"),
        "s1".to_string(),
        "192.0.2.1".to_string(),
        99,
    );
    assert!(!applied);
    assert_eq!(store.domains[0].row.docroot.clone().unwrap(), "/v1");
    assert_eq!(store.domains[0].last_confirmed_epoch, 100);
    // a strictly newer epoch replaces every non-key column
    let applied = store.upsert(
        complete_row("a.com", "/v3"),
        "s1".to_string(),
        "192.0.2.1".to_string(),
        101,
    );
    assert!(applied);
    assert_eq!(store.domains.len(), 1);
    assert_eq!(store.domains[0].row.docroot.clone().unwrap(), "/v3");
    assert_eq!(store.domains[0].last_confirmed_epoch, 101);
}

#[test]
fn purge_stale_removes_only_old_rows() {
    let mut store = Store::new();
    store.add_server(server("s1", "192.0.2.1"));
    store.upsert(complete_row("a.com", "/a"), "s1".to_string(), "192.0.2.1".to_string(), 100);
    store.upsert(complete_row("b.com", "/b"), "s1".to_string(), "192.0.2.1".to_string(), 200);
    let removed = store.purge_stale(150);
    assert_eq!(removed, 1);
    assert_eq!(store.domains.len(), 1);
    assert_eq!(store.domains[0].row.domain.clone().unwrap(), "b.com");
}

#[test]
fn find_domains_filters_by_substring() {
    let mut store = Store::new();
    store.add_server(server("s1", "192.0.2.1"));
    store.upsert(complete_row("a.com", "/a"), "s1".to_string(), "192.0.2.1".to_string(), 100);
    store.upsert(complete_row("b.org", "/b"), "s1".to_string(), "192.0.2.1".to_string(), 100);
    let hits = store.find_domains("a.c");
    assert_eq!(hits.len(), 1);
    assert_eq!(hits[0].domain.clone().unwrap(), "a.com");
    let hits = store.find_domains("  b.o  ");
    assert_eq!(hits.len(), 1);
    assert_eq!(hits[0].domain.clone().unwrap(), "b.org");
    let all = store.find_domains("");
    assert_eq!(all.len(), 2);
    assert!(store.find_domains("zzz").is_empty());
}

#[test]
fn add_server_replaces_matching_identity() {
    let mut store = Store::new();
    store.add_server(server("s1", "192.0.2.1"));
    store.add_server(server("s2", "192.0.2.2"));
    let replacement = Server::new(
        "s1".to_string(),
        "192.0.2.1".to_string(),
        "admin".to_string(),
        "fresh".to_string(),
        Some("host1".to_string()),
        Some("east".to_string()),
    );
    store.add_server(replacement);
    assert_eq!(store.servers.len(), 2);
    let s = store.servers.iter().find(|s| s.name == "s1").unwrap();
    assert_eq!(s.user, "admin");
    assert_eq!(s.apikey, "fresh");
    assert_eq!(s.hostname, "host1");
    assert_eq!(s.group, "east");
}

#[test]
fn load_domain_guards_the_invariants() {
    let mut store = Store::new();
    store.add_server(server("s1", "192.0.2.1"));
    let good = StoredDomain {
        server_name: "s1".to_string(),
        server_ip: "192.0.2.1".to_string(),
        row: complete_row("a.com", "/a"),
        last_confirmed_epoch: 100,
    };
    assert!(store.load_domain(good));
    // a duplicate key is refused
    let dup = StoredDomain {
        server_name: "s1".to_string(),
        server_ip: "192.0.2.1".to_string(),
        row: complete_row("a.com", "/other"),
        last_confirmed_epoch: 200,
    };
    assert!(!store.load_domain(dup));
    // a record of an unregistered server is refused
    let orphan = StoredDomain {
        server_name: "ghost".to_string(),
        server_ip: "203.0.113.9".to_string(),
        row: complete_row("g.com", "/g"),
        last_confirmed_epoch: 100,
    };
    assert!(!store.load_domain(orphan));
    // an incomplete row is refused
    let mut bare = complete_row("c.com", "/c");
    bare.user_owner = None;
    let incomplete = StoredDomain {
        server_name: "s1".to_string(),
        server_ip: "192.0.2.1".to_string(),
        row: bare,
        last_confirmed_epoch: 100,
    };
    assert!(!store.load_domain(incomplete));
    assert_eq!(store.domains.len(), 1);
}

#[test]
fn server_new_fills_null_placeholders() {
    let s = Server::new(
        "s1".to_string(),
        "192.0.2.1".to_string(),
        "root".to_string(),
        "key".to_string(),
        None,
        None,
    );
    assert_eq!(s.hostname, "NULL");
    assert_eq!(s.group, "NULL");
}
