//! The domain-record type shared by the remote inventory response and the
//! local store, together with its validator/normalizer.

use vstd::prelude::*;
use crate::strutil::{dec_seq_signed, i32_dec_string};

verus! {

/// A value-level predicate for a filtered query.
pub enum SqlWhere {
    Like(String),
    GreaterThan(i32),
    LessThan(i32),
    EqualTo(i32),
    GreaterEqual(i32),
    LessEqual(i32),
}

/// A column name paired with the predicate to apply to it.
pub struct SqlWhereFilter {
    colname: String,
    filter: SqlWhere,
}

impl SqlWhereFilter {
    /// The filtered column's name.
    pub closed spec fn spec_colname(self) -> Seq<char> {
        self.colname@
    }

    /// The predicate applied to the column.
    pub closed spec fn spec_filter(self) -> SqlWhere {
        self.filter
    }

    pub fn new(colname: String, filter: SqlWhere) -> (r: Self)
        ensures
            r.spec_colname() == colname@,
            r.spec_filter() == filter,
    {
        SqlWhereFilter { colname, filter }
    }
}

/// The mathematical value of a `DomainRow`: each textual field as a sequence
/// of characters.
pub ghost struct DomainRowV {
    pub docroot: Option<Seq<char>>,
    pub domain: Option<Seq<char>>,
    pub domain_type: Option<Seq<char>>,
    pub ipv4: Option<Seq<char>>,
    pub ipv4_ssl: Option<Seq<char>>,
    pub ipv6: Option<Seq<char>>,
    pub ipv6_is_dedicated: Option<i32>,
    pub modsecurity_enabled: Option<i32>,
    pub parent_domain: Option<Seq<char>>,
    pub php_version: Option<Seq<char>>,
    pub port: Option<Seq<char>>,
    pub port_ssl: Option<Seq<char>>,
    pub user: Option<Seq<char>>,
    pub user_owner: Option<Seq<char>>,
}

/// The view of an optional string field.
pub open spec fn opt_view(o: Option<String>) -> Option<Seq<char>> {
    match o {
        Some(s) => Some(s@),
        None => None,
    }
}

/// One row of the domain table. This is also the shape of one element of the
/// remote inventory response's record array; fields the remote side omitted
/// are `None` until `safe_unwrap` fills them in.
#[derive(Debug)]
pub struct DomainRow {
    pub docroot: Option<String>,
    pub domain: Option<String>,
    pub domain_type: Option<String>,
    pub ipv4: Option<String>,
    pub ipv4_ssl: Option<String>,
    pub ipv6: Option<String>,
    pub ipv6_is_dedicated: Option<i32>,
    pub modsecurity_enabled: Option<i32>,
    pub parent_domain: Option<String>,
    pub php_version: Option<String>,
    pub port: Option<String>,
    pub port_ssl: Option<String>,
    pub user: Option<String>,
    pub user_owner: Option<String>,
}

impl View for DomainRow {
    type V = DomainRowV;

    open spec fn view(&self) -> DomainRowV {
        DomainRowV {
            docroot: opt_view(self.docroot),
            domain: opt_view(self.domain),
            domain_type: opt_view(self.domain_type),
            ipv4: opt_view(self.ipv4),
            ipv4_ssl: opt_view(self.ipv4_ssl),
            ipv6: opt_view(self.ipv6),
            ipv6_is_dedicated: self.ipv6_is_dedicated,
            modsecurity_enabled: self.modsecurity_enabled,
            parent_domain: opt_view(self.parent_domain),
            php_version: opt_view(self.php_version),
            port: opt_view(self.port),
            port_ssl: opt_view(self.port_ssl),
            user: opt_view(self.user),
            user_owner: opt_view(self.user_owner),
        }
    }
}

/// The record carries every required field: `docroot`, `domain`,
/// `domain_type`, `ipv4` and `user`.
pub open spec fn row_valid(r: DomainRowV) -> bool {
    &&& r.docroot is Some
    &&& r.domain is Some
    &&& r.domain_type is Some
    &&& r.ipv4 is Some
    &&& r.user is Some
}

/// Every field of the record is present, required and optional alike.
pub open spec fn row_complete(r: DomainRowV) -> bool {
    &&& row_valid(r)
    &&& r.ipv4_ssl is Some
    &&& r.ipv6 is Some
    &&& r.ipv6_is_dedicated is Some
    &&& r.modsecurity_enabled is Some
    &&& r.parent_domain is Some
    &&& r.php_version is Some
    &&& r.port is Some
    &&& r.port_ssl is Some
    &&& r.user_owner is Some
}

/// An absent optional text field becomes the literal `NULL` placeholder.
pub open spec fn or_null(o: Option<Seq<char>>) -> Seq<char> {
    match o {
        Some(s) => s,
        None => "NULL"@,
    }
}

/// An absent optional numeric field becomes zero.
pub open spec fn or_zero(o: Option<i32>) -> i32 {
    match o {
        Some(i) => i,
        None => 0,
    }
}

/// A valid record with every optional field filled by its default.
pub open spec fn normalize(r: DomainRowV) -> DomainRowV {
    DomainRowV {
        docroot: r.docroot,
        domain: r.domain,
        domain_type: r.domain_type,
        ipv4: r.ipv4,
        ipv4_ssl: Some(or_null(r.ipv4_ssl)),
        ipv6: Some(or_null(r.ipv6)),
        ipv6_is_dedicated: Some(or_zero(r.ipv6_is_dedicated)),
        modsecurity_enabled: Some(or_zero(r.modsecurity_enabled)),
        parent_domain: Some(or_null(r.parent_domain)),
        php_version: Some(or_null(r.php_version)),
        port: Some(or_null(r.port)),
        port_ssl: Some(or_null(r.port_ssl)),
        user: r.user,
        user_owner: Some(or_null(r.user_owner)),
    }
}

/// A record rejected by validation, named for the first required field it
/// lacks; checked in the order `docroot`, `domain`, `domain_type`, `ipv4`,
/// `user`.
#[derive(Clone, Copy, PartialEq, Eq, Structural, Debug)]
pub enum ValidationError {
    MissingDocroot,
    MissingDomain,
    MissingDomainType,
    MissingIpv4,
    MissingUser,
}

/// The first required field absent from `r`; meaningful only when
/// `!row_valid(r)`.
pub open spec fn first_missing(r: DomainRowV) -> ValidationError {
    if r.docroot is None {
        ValidationError::MissingDocroot
    } else if r.domain is None {
        ValidationError::MissingDomain
    } else if r.domain_type is None {
        ValidationError::MissingDomainType
    } else if r.ipv4 is None {
        ValidationError::MissingIpv4
    } else {
        ValidationError::MissingUser
    }
}

impl ValidationError {
    /// The operator-facing description of the missing field.
    pub fn message(&self) -> (r: String)
        ensures
            r@ == match *self {
                ValidationError::MissingDocroot => "Docroot not provided!"@,
                ValidationError::MissingDomain => "Domain not provided!"@,
                ValidationError::MissingDomainType => "Unable to determine domain type!"@,
                ValidationError::MissingIpv4 => "IPv4 address not provided!"@,
                ValidationError::MissingUser => "User not provided!"@,
            },
    {
        match *self {
            ValidationError::MissingDocroot => "Docroot not provided!".to_string(),
            ValidationError::MissingDomain => "Domain not provided!".to_string(),
            ValidationError::MissingDomainType => "Unable to determine domain type!".to_string(),
            ValidationError::MissingIpv4 => "IPv4 address not provided!".to_string(),
            ValidationError::MissingUser => "User not provided!".to_string(),
        }
    }
}

fn opt_or_null(o: Option<String>) -> (r: String)
    ensures
        r@ == or_null(opt_view(o)),
{
    match o {
        Some(s) => s,
        None => "NULL".to_string(),
    }
}

fn opt_or_zero(o: Option<i32>) -> (r: i32)
    ensures
        r == or_zero(o),
{
    match o {
        Some(i) => i,
        None => 0,
    }
}

impl Clone for DomainRow {
    /// An exact copy: the clone has the same view.
    fn clone(&self) -> (r: Self)
        ensures
            r@ == self@,
    {
        let r = DomainRow {
            docroot: clone_opt_string(&self.docroot),
            domain: clone_opt_string(&self.domain),
            domain_type: clone_opt_string(&self.domain_type),
            ipv4: clone_opt_string(&self.ipv4),
            ipv4_ssl: clone_opt_string(&self.ipv4_ssl),
            ipv6: clone_opt_string(&self.ipv6),
            ipv6_is_dedicated: self.ipv6_is_dedicated,
            modsecurity_enabled: self.modsecurity_enabled,
            parent_domain: clone_opt_string(&self.parent_domain),
            php_version: clone_opt_string(&self.php_version),
            port: clone_opt_string(&self.port),
            port_ssl: clone_opt_string(&self.port_ssl),
            user: clone_opt_string(&self.user),
            user_owner: clone_opt_string(&self.user_owner),
        };
        r
    }
}

fn clone_opt_string(o: &Option<String>) -> (r: Option<String>)
    ensures
        opt_view(r) == opt_view(*o),
{
    match o {
        Some(s) => Some(s.clone()),
        None => None,
    }
}

/// The thirteen cells of one rendered table row, in column order. As in the
/// store's display routine, the sixth and seventh cells render the numeric
/// `ipv6_is_dedicated` and `modsecurity_enabled` flags, and the `ipv6`
/// address itself is not rendered.
pub open spec fn as_vec_model(r: DomainRowV) -> Seq<Seq<char>> {
    seq![
        or_null(r.docroot),
        or_null(r.domain),
        or_null(r.domain_type),
        or_null(r.ipv4),
        or_null(r.ipv4_ssl),
        match r.ipv6_is_dedicated {
            Some(i) => dec_seq_signed(i as int),
            None => "NULL"@,
        },
        match r.modsecurity_enabled {
            Some(i) => dec_seq_signed(i as int),
            None => "NULL"@,
        },
        or_null(r.parent_domain),
        or_null(r.php_version),
        or_null(r.port),
        or_null(r.port_ssl),
        or_null(r.user),
        or_null(r.user_owner),
    ]
}

impl DomainRow {
    /// The column headers of the rendered table, in the order `as_vec` emits
    /// cells.
    pub fn header_str() -> (r: Vec<String>)
        ensures
            r@.map_values(|s: String| s@) =~= seq![
                "docroot"@,
                "domain"@,
                "domain_type"@,
                "ipv4"@,
                "ipv4_ssl"@,
                "ipv6"@,
                "modsecurity_enabled"@,
                "parent_domain"@,
                "php_version"@,
                "port"@,
                "port_ssl"@,
                "user"@,
                "user_owner"@,
            ],
    {
        let r: Vec<String> = vec![
            "docroot".to_string(),
            "domain".to_string(),
            "domain_type".to_string(),
            "ipv4".to_string(),
            "ipv4_ssl".to_string(),
            "ipv6".to_string(),
            "modsecurity_enabled".to_string(),
            "parent_domain".to_string(),
            "php_version".to_string(),
            "port".to_string(),
            "port_ssl".to_string(),
            "user".to_string(),
            "user_owner".to_string(),
        ];
        r
    }

    /// The cells of one rendered table row, absent fields shown as `NULL`.
    pub fn as_vec(self) -> (r: Vec<String>)
        ensures
            r@.map_values(|s: String| s@) =~= as_vec_model(self@),
    {
        let ipv6_is_dedicated: String = match self.ipv6_is_dedicated {
            Some(i) => i32_dec_string(i),
            None => "NULL".to_string(),
        };
        let modsecurity_enabled: String = match self.modsecurity_enabled {
            Some(i) => i32_dec_string(i),
            None => "NULL".to_string(),
        };
        let r: Vec<String> = vec![
            opt_or_null(self.docroot),
            opt_or_null(self.domain),
            opt_or_null(self.domain_type),
            opt_or_null(self.ipv4),
            opt_or_null(self.ipv4_ssl),
            ipv6_is_dedicated,
            modsecurity_enabled,
            opt_or_null(self.parent_domain),
            opt_or_null(self.php_version),
            opt_or_null(self.port),
            opt_or_null(self.port_ssl),
            opt_or_null(self.user),
            opt_or_null(self.user_owner),
        ];
        r
    }

    /// Validation and normalization of one remote candidate record: rejects
    /// the record when any required field is missing, naming the first such
    /// field; otherwise returns the record with every optional field filled
    /// by its default.
    pub fn safe_unwrap(self) -> (r: Result<Self, ValidationError>)
        ensures
            r is Ok <==> row_valid(self@),
            r is Ok ==> r->Ok_0@ == normalize(self@) && row_complete(r->Ok_0@),
            r is Err ==> r->Err_0 == first_missing(self@),
    {
        let docroot = match self.docroot {
            Some(s) => s,
            None => {
                return Err(ValidationError::MissingDocroot);
            },
        };
        let domain = match self.domain {
            Some(s) => s,
            None => {
                return Err(ValidationError::MissingDomain);
            },
        };
        let domain_type = match self.domain_type {
            Some(s) => s,
            None => {
                return Err(ValidationError::MissingDomainType);
            },
        };
        let ipv4 = match self.ipv4 {
            Some(s) => s,
            None => {
                return Err(ValidationError::MissingIpv4);
            },
        };
        let ipv4_ssl = opt_or_null(self.ipv4_ssl);
        let ipv6 = opt_or_null(self.ipv6);
        let ipv6_is_dedicated = opt_or_zero(self.ipv6_is_dedicated);
        let modsecurity_enabled = opt_or_zero(self.modsecurity_enabled);
        let parent_domain = opt_or_null(self.parent_domain);
        let php_version = opt_or_null(self.php_version);
        let port = opt_or_null(self.port);
        let port_ssl = opt_or_null(self.port_ssl);
        let user = match self.user {
            Some(s) => s,
            None => {
                return Err(ValidationError::MissingUser);
            },
        };
        let user_owner = opt_or_null(self.user_owner);

        Ok(DomainRow {
            docroot: Some(docroot),
            domain: Some(domain),
            domain_type: Some(domain_type),
            ipv4: Some(ipv4),
            ipv4_ssl: Some(ipv4_ssl),
            ipv6: Some(ipv6),
            ipv6_is_dedicated: Some(ipv6_is_dedicated),
            modsecurity_enabled: Some(modsecurity_enabled),
            parent_domain: Some(parent_domain),
            php_version: Some(php_version),
            port: Some(port),
            port_ssl: Some(port_ssl),
            user: Some(user),
            user_owner: Some(user_owner),
        })
    }
}

} // verus!
