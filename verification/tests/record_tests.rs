use cpcm::sqlite_types::{DomainRow, SqlWhere, SqlWhereFilter, ValidationError};

fn sparse_row() -> DomainRow {
    DomainRow {
        docroot: Some("/var/www".to_string()),
        domain: Some("a.com".to_string()),
        domain_type: Some("main".to_string()),
        ipv4: Some("10.0.0.1".to_string()),
        ipv4_ssl: None,
        ipv6: None,
        ipv6_is_dedicated: None,
        modsecurity_enabled: None,
        parent_domain: None,
        php_version: None,
        port: None,
        port_ssl: None,
        user: Some("web".to_string()),
        user_owner: None,
    }
}

#[test]
fn safe_unwrap_fills_defaults() {
    let row = sparse_row().safe_unwrap().unwrap();
    assert_eq!(row.docroot.unwrap(), "/var/www");
    assert_eq!(row.domain.unwrap(), "a.com");
    assert_eq!(row.domain_type.unwrap(), "main");
    assert_eq!(row.ipv4.unwrap(), "10.0.0.1");
    assert_eq!(row.ipv4_ssl.unwrap(), "NULL");
    assert_eq!(row.ipv6.unwrap(), "NULL");
    assert_eq!(row.ipv6_is_dedicated.unwrap(), 0);
    assert_eq!(row.modsecurity_enabled.unwrap(), 0);
    assert_eq!(row.parent_domain.unwrap(), "NULL");
    assert_eq!(row.php_version.unwrap(), "NULL");
    assert_eq!(row.port.unwrap(), "NULL");
    assert_eq!(row.port_ssl.unwrap(), "NULL");
    assert_eq!(row.user.unwrap(), "web");
    assert_eq!(row.user_owner.unwrap(), "NULL");
}

#[test]
fn safe_unwrap_names_first_missing_field() {
    let mut r = sparse_row();
    r.docroot = None;
    assert_eq!(r.safe_unwrap().unwrap_err(), ValidationError::MissingDocroot);

    let mut r = sparse_row();
    r.domain = None;
    assert_eq!(r.safe_unwrap().unwrap_err(), ValidationError::MissingDomain);

    let mut r = sparse_row();
    r.domain_type = None;
    assert_eq!(r.safe_unwrap().unwrap_err(), ValidationError::MissingDomainType);

    let mut r = sparse_row();
    r.ipv4 = None;
    assert_eq!(r.safe_unwrap().unwrap_err(), ValidationError::MissingIpv4);

    let mut r = sparse_row();
    r.user = None;
    assert_eq!(r.safe_unwrap().unwrap_err(), ValidationError::MissingUser);

    // the first missing field in check order wins
    let mut r = sparse_row();
    r.domain = None;
    r.user = None;
    assert_eq!(r.safe_unwrap().unwrap_err(), ValidationError::MissingDomain);
}

#[test]
fn validation_error_messages() {
    assert_eq!(ValidationError::MissingDocroot.message(), "Docroot not provided!");
    assert_eq!(ValidationError::MissingDomain.message(), "Domain not provided!");
    assert_eq!(
        ValidationError::MissingDomainType.message(),
        "Unable to determine domain type!"
    );
    assert_eq!(ValidationError::MissingIpv4.message(), "IPv4 address not provided!");
    assert_eq!(ValidationError::MissingUser.message(), "User not provided!");
}

#[test]
fn header_str_lists_the_columns() {
    let h = DomainRow::header_str();
    assert_eq!(
        h,
        vec![
            "docroot",
            "domain",
            "domain_type",
            "ipv4",
            "ipv4_ssl",
            "ipv6",
            "modsecurity_enabled",
            "parent_domain",
            "php_version",
            "port",
            "port_ssl",
            "user",
            "user_owner",
        ]
        .into_iter()
        .map(|s| s.to_string())
        .collect::<Vec<String>>()
    );
}

#[test]
fn as_vec_renders_thirteen_cells() {
    let mut r = sparse_row();
    r.ipv6_is_dedicated = Some(1);
    r.modsecurity_enabled = Some(-3);
    r.port = Some("80".to_string());
    let cells = r.as_vec();
    assert_eq!(cells.len(), 13);
    assert_eq!(cells[0], "/var/www");
    assert_eq!(cells[1], "a.com");
    assert_eq!(cells[2], "main");
    assert_eq!(cells[3], "10.0.0.1");
    assert_eq!(cells[4], "NULL");
    // the sixth and seventh cells render the numeric flags
    assert_eq!(cells[5], "1");
    assert_eq!(cells[6], "-3");
    assert_eq!(cells[7], "NULL");
    assert_eq!(cells[8], "NULL");
    assert_eq!(cells[9], "80");
    assert_eq!(cells[10], "NULL");
    assert_eq!(cells[11], "web");
    assert_eq!(cells[12], "NULL");
}

#[test]
fn as_vec_renders_absent_flags_as_null() {
    let cells = sparse_row().as_vec();
    assert_eq!(cells[5], "NULL");
    assert_eq!(cells[6], "NULL");
}

#[test]
fn sql_where_filter_constructs() {
    let _ = SqlWhereFilter::new("domain".to_string(), SqlWhere::Like("a.c".to_string()));
    let _ = SqlWhereFilter::new("port".to_string(), SqlWhere::GreaterThan(1024));
    let _ = SqlWhereFilter::new("port".to_string(), SqlWhere::LessEqual(80));
}

#[test]
fn domain_row_clone_is_exact() {
    let r = sparse_row();
    let c = r.clone();
    assert_eq!(c.docroot, r.docroot);
    assert_eq!(c.domain, r.domain);
    assert_eq!(c.ipv6_is_dedicated, r.ipv6_is_dedicated);
    assert_eq!(c.user_owner, r.user_owner);
}
