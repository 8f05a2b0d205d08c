use cpcm::command_domain::{FetchError, FetchOutcome, PassSummary};
use cpcm::sqlite_types::DomainRow;
use cpcm::store::{Server, Store, StoredDomain};

fn server(name: &str, ip: &str) -> Server {
    Server::new(
        name.to_string(),
        ip.to_string(),
        "root".to_string(),
        "key".to_string(),
        None,
        None,
    )
}

fn row(domain: &str, docroot: &str) -> DomainRow {
    DomainRow {
        docroot: Some(docroot.to_string()),
        domain: Some(domain.to_string()),
        domain_type: Some("main".to_string()),
        ipv4: Some("10.0.0.1".to_string()),
        ipv4_ssl: None,
        ipv6: None,
        ipv6_is_dedicated: None,
        modsecurity_enabled: None,
        parent_domain: None,
        php_version: None,
        port: None,
        port_ssl: None,
        user: Some("web".to_string()),
        user_owner: None,
    }
}

fn domain_of(d: &StoredDomain) -> String {
    d.row.domain.clone().unwrap()
}

#[test]
fn first_pass_two_records() {
    let mut store = Store::new();
    store.add_server(server("s1", "192.0.2.1"));
    let outcomes = vec![FetchOutcome::Records(vec![row("a.com", "/var/a"), row("b.com", "/var/b")])];
    let summary: PassSummary = store.run_pass(outcomes, 1000);
    assert_eq!(store.domains.len(), 2);
    assert!(store.domains.iter().all(|d| d.last_confirmed_epoch == 1000));
    let mut names: Vec<String> = store.domains.iter().map(domain_of).collect();
    names.sort();
    assert_eq!(names, vec!["a.com".to_string(), "b.com".to_string()]);
    assert_eq!(summary.validation_failures, 0);
    assert_eq!(summary.purged, 0);
    assert!(summary.failed_servers.is_empty());
}

#[test]
fn second_pass_updates_and_purges() {
    let mut store = Store::new();
    store.add_server(server("s1", "192.0.2.1"));
    let pass1 = vec![FetchOutcome::Records(vec![row("a.com", "/var/a"), row("b.com", "/var/b")])];
    store.run_pass(pass1, 1000);
    let pass2 = vec![FetchOutcome::Records(vec![row("a.com", "/srv/a-new")])];
    let summary = store.run_pass(pass2, 2000);
    assert_eq!(store.domains.len(), 1);
    assert_eq!(domain_of(&store.domains[0]), "a.com");
    assert_eq!(store.domains[0].row.docroot.clone().unwrap(), "/srv/a-new");
    assert_eq!(store.domains[0].last_confirmed_epoch, 2000);
    assert_eq!(summary.purged, 1);
    // the name filter now sees exactly the surviving row
    let hits = store.find_domains("a.c");
    assert_eq!(hits.len(), 1);
    assert_eq!(hits[0].domain.clone().unwrap(), "a.com");
}

#[test]
fn invalid_record_is_skipped_alone() {
    let mut store = Store::new();
    store.add_server(server("s1", "192.0.2.1"));
    let mut bad = row("ignored", "/var/bad");
    bad.domain = None;
    let outcomes = vec![FetchOutcome::Records(vec![row("a.com", "/var/a"), bad, row(
        "b.com", "/var/b",
    )])];
    let summary = store.run_pass(outcomes, 1000);
    assert_eq!(summary.validation_failures, 1);
    assert_eq!(store.domains.len(), 2);
    let mut names: Vec<String> = store.domains.iter().map(domain_of).collect();
    names.sort();
    assert_eq!(names, vec!["a.com".to_string(), "b.com".to_string()]);
}

#[test]
fn failed_server_is_isolated_and_its_rows_purged() {
    let mut store = Store::new();
    store.add_server(server("good", "192.0.2.1"));
    store.add_server(server("flaky", "192.0.2.2"));
    let pass1 = vec![
        FetchOutcome::Records(vec![row("good.com", "/var/g")]),
        FetchOutcome::Records(vec![row("flaky.com", "/var/f")]),
    ];
    store.run_pass(pass1, 1000);
    assert_eq!(store.domains.len(), 2);
    let pass2 = vec![
        FetchOutcome::Records(vec![row("good.com", "/var/g")]),
        FetchOutcome::Failed(FetchError::Network("connection refused".to_string())),
    ];
    let summary = store.run_pass(pass2, 2000);
    assert_eq!(summary.failed_servers, vec!["flaky".to_string()]);
    // the healthy server's record was reconfirmed; the failing server's
    // previously known record fell to the collateral purge
    assert_eq!(store.domains.len(), 1);
    assert_eq!(domain_of(&store.domains[0]), "good.com");
    assert_eq!(store.domains[0].last_confirmed_epoch, 2000);
    assert_eq!(summary.purged, 1);
}

#[test]
fn pass_is_idempotent_up_to_epoch() {
    let mut store = Store::new();
    store.add_server(server("s1", "192.0.2.1"));
    let pass1 = vec![FetchOutcome::Records(vec![row("a.com", "/var/a"), row("b.com", "/var/b")])];
    store.run_pass(pass1, 1000);
    let snapshot: Vec<(String, String, u64)> = store
        .domains
        .iter()
        .map(|d| (domain_of(d), d.row.docroot.clone().unwrap(), d.last_confirmed_epoch))
        .collect();
    let pass2 = vec![FetchOutcome::Records(vec![row("a.com", "/var/a"), row("b.com", "/var/b")])];
    store.run_pass(pass2, 2000);
    let after: Vec<(String, String, u64)> = store
        .domains
        .iter()
        .map(|d| (domain_of(d), d.row.docroot.clone().unwrap(), d.last_confirmed_epoch))
        .collect();
    assert_eq!(snapshot.len(), after.len());
    for (before, now) in snapshot.iter().zip(after.iter()) {
        assert_eq!(before.0, now.0);
        assert_eq!(before.1, now.1);
        assert_eq!(before.2, 1000);
        assert_eq!(now.2, 2000);
    }
}

#[test]
fn duplicate_key_in_one_pass_keeps_first() {
    let mut store = Store::new();
    store.add_server(server("s1", "192.0.2.1"));
    let outcomes = vec![FetchOutcome::Records(vec![
        row("a.com", "/first"),
        row("a.com", "/second"),
    ])];
    store.run_pass(outcomes, 1000);
    assert_eq!(store.domains.len(), 1);
    assert_eq!(store.domains[0].row.docroot.clone().unwrap(), "/first");
}

#[test]
fn empty_registry_pass_only_purges() {
    let mut store = Store::new();
    let summary = store.run_pass(Vec::new(), 1000);
    assert_eq!(store.domains.len(), 0);
    assert_eq!(summary.validation_failures, 0);
    assert_eq!(summary.purged, 0);
    assert!(summary.failed_servers.is_empty());
}

#[test]
fn malformed_envelope_counts_as_zero_records() {
    let mut store = Store::new();
    store.add_server(server("s1", "192.0.2.1"));
    let pass1 = vec![FetchOutcome::Records(vec![row("a.com", "/var/a")])];
    store.run_pass(pass1, 1000);
    // a response without the expected shape is a fetch-level failure for
    // that server; no sibling server exists, so everything stale is purged
    let pass2 = vec![FetchOutcome::Failed(FetchError::MalformedResponse)];
    let summary = store.run_pass(pass2, 2000);
    assert_eq!(store.domains.len(), 0);
    assert_eq!(summary.purged, 1);
    assert_eq!(summary.failed_servers, vec!["s1".to_string()]);
}
