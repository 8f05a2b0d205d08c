//! The local inventory store: registered servers and the domain records the
//! reconciliation engine owns. Records are keyed by `(server_name, domain)`
//! and carry the epoch of the pass that last wrote or reconfirmed them.

use vstd::prelude::*;
use crate::sqlite_types::{DomainRow, DomainRowV, row_complete};
use crate::strutil::{seq_contains, str_contains, trim_spec, trim_spaces};

verus! {

/// One registered remote host with its credentials.
#[derive(Debug)]
pub struct Server {
    pub name: String,
    pub ip: String,
    pub user: String,
    pub apikey: String,
    pub hostname: String,
    pub group: String,
}

/// The mathematical value of a `Server`.
pub ghost struct ServerV {
    pub name: Seq<char>,
    pub ip: Seq<char>,
    pub user: Seq<char>,
    pub apikey: Seq<char>,
    pub hostname: Seq<char>,
    pub group: Seq<char>,
}

impl View for Server {
    type V = ServerV;

    open spec fn view(&self) -> ServerV {
        ServerV {
            name: self.name@,
            ip: self.ip@,
            user: self.user@,
            apikey: self.apikey@,
            hostname: self.hostname@,
            group: self.group@,
        }
    }
}

impl Clone for Server {
    /// An exact copy: the clone has the same view.
    fn clone(&self) -> (r: Self)
        ensures
            r@ == self@,
    {
        Server {
            name: self.name.clone(),
            ip: self.ip.clone(),
            user: self.user.clone(),
            apikey: self.apikey.clone(),
            hostname: self.hostname.clone(),
            group: self.group.clone(),
        }
    }
}

impl Server {
    /// A server row as the registration command stores it: absent optional
    /// attributes become the `NULL` placeholder.
    pub fn new(
        name: String,
        ip: String,
        user: String,
        apikey: String,
        hostname: Option<String>,
        group: Option<String>,
    ) -> (r: Server)
        ensures
            r@.name == name@,
            r@.ip == ip@,
            r@.user == user@,
            r@.apikey == apikey@,
            r@.hostname == crate::sqlite_types::or_null(crate::sqlite_types::opt_view(hostname)),
            r@.group == crate::sqlite_types::or_null(crate::sqlite_types::opt_view(group)),
    {
        let hostname = match hostname {
            Some(h) => h,
            None => "NULL".to_string(),
        };
        let group = match group {
            Some(g) => g,
            None => "NULL".to_string(),
        };
        Server { name, ip, user, apikey, hostname, group }
    }
}

/// One stored domain record: the validated row, the owning server's identity,
/// and the epoch of the pass that last confirmed it.
#[derive(Debug)]
pub struct StoredDomain {
    pub server_name: String,
    pub server_ip: String,
    pub row: DomainRow,
    pub last_confirmed_epoch: u64,
}

/// The mathematical value of a `StoredDomain`.
pub ghost struct StoredDomainV {
    pub server_name: Seq<char>,
    pub server_ip: Seq<char>,
    pub row: DomainRowV,
    pub last_confirmed_epoch: u64,
}

impl View for StoredDomain {
    type V = StoredDomainV;

    open spec fn view(&self) -> StoredDomainV {
        StoredDomainV {
            server_name: self.server_name@,
            server_ip: self.server_ip@,
            row: self.row@,
            last_confirmed_epoch: self.last_confirmed_epoch,
        }
    }
}

impl Clone for StoredDomain {
    /// An exact copy: the clone has the same view.
    fn clone(&self) -> (r: Self)
        ensures
            r@ == self@,
    {
        StoredDomain {
            server_name: self.server_name.clone(),
            server_ip: self.server_ip.clone(),
            row: self.row.clone(),
            last_confirmed_epoch: self.last_confirmed_epoch,
        }
    }
}

/// The primary key of a stored record: `(server_name, domain)`.
pub open spec fn dom_key(d: StoredDomainV) -> (Seq<char>, Seq<char>) {
    (d.server_name, d.row.domain->Some_0)
}

/// Some record in `doms` has key `k`.
pub open spec fn has_key(doms: Seq<StoredDomainV>, k: (Seq<char>, Seq<char>)) -> bool {
    exists|i: int| 0 <= i < doms.len() && dom_key(doms[i]) == k
}

/// The position of the record with key `k`; meaningful only under `has_key`.
pub open spec fn idx_of(doms: Seq<StoredDomainV>, k: (Seq<char>, Seq<char>)) -> int {
    choose|i: int| 0 <= i < doms.len() && dom_key(doms[i]) == k
}

/// The record stored under key `k`, if any.
pub open spec fn lookup(doms: Seq<StoredDomainV>, k: (Seq<char>, Seq<char>)) -> Option<
    StoredDomainV,
> {
    if has_key(doms, k) {
        Some(doms[idx_of(doms, k)])
    } else {
        None
    }
}

/// No two records share a key.
pub open spec fn keys_unique(doms: Seq<StoredDomainV>) -> bool {
    forall|i: int, j: int|
        0 <= i < j < doms.len() ==> dom_key(doms[i]) != dom_key(doms[j])
}

/// Some server in `ss` has the identity `(name, ip)`.
pub open spec fn has_server(ss: Seq<ServerV>, name: Seq<char>, ip: Seq<char>) -> bool {
    exists|i: int| 0 <= i < ss.len() && ss[i].name == name && ss[i].ip == ip
}

/// No two servers share the `(name, ip)` identity.
pub open spec fn servers_unique(ss: Seq<ServerV>) -> bool {
    forall|i: int, j: int|
        0 <= i < j < ss.len() ==> !(ss[i].name == ss[j].name && ss[i].ip == ss[j].ip)
}

/// Every record is well formed: complete, keyed uniquely, and referring to a
/// registered server; server identities are unique.
pub open spec fn store_wf(s: StoreV) -> bool {
    &&& servers_unique(s.servers)
    &&& keys_unique(s.domains)
    &&& forall|i: int| 0 <= i < s.domains.len() ==> row_complete(#[trigger] s.domains[i].row)
    &&& forall|i: int|
        0 <= i < s.domains.len() ==> has_server(
            s.servers,
            (#[trigger] s.domains[i]).server_name,
            s.domains[i].server_ip,
        )
}

/// Every stored epoch lies strictly below `e`; true of any store whose last
/// pass ran before the pass stamped `e` began.
pub open spec fn epochs_below(doms: Seq<StoredDomainV>, e: u64) -> bool {
    forall|i: int| 0 <= i < doms.len() ==> (#[trigger] doms[i]).last_confirmed_epoch < e
}

/// The mathematical value of a `Store`.
pub ghost struct StoreV {
    pub servers: Seq<ServerV>,
    pub domains: Seq<StoredDomainV>,
}

/// The local store: the server registry and the domain records.
#[derive(Debug)]
pub struct Store {
    pub servers: Vec<Server>,
    pub domains: Vec<StoredDomain>,
}

impl View for Store {
    type V = StoreV;

    open spec fn view(&self) -> StoreV {
        StoreV {
            servers: self.servers@.map_values(|s: Server| s@),
            domains: self.domains@.map_values(|d: StoredDomain| d@),
        }
    }
}

/// Positions with equal keys coincide in a key-unique sequence.
pub proof fn lemma_unique_same_key(doms: Seq<StoredDomainV>, i: int, j: int)
    requires
        keys_unique(doms),
        0 <= i < doms.len(),
        0 <= j < doms.len(),
        dom_key(doms[i]) == dom_key(doms[j]),
    ensures
        i == j,
{
}

/// Looking up the key of the record at position `i` finds that record.
pub proof fn lemma_lookup_index(doms: Seq<StoredDomainV>, i: int)
    requires
        keys_unique(doms),
        0 <= i < doms.len(),
    ensures
        has_key(doms, dom_key(doms[i])),
        idx_of(doms, dom_key(doms[i])) == i,
        lookup(doms, dom_key(doms[i])) == Some(doms[i]),
{
    let k = dom_key(doms[i]);
    assert(has_key(doms, k));
    let j = idx_of(doms, k);
    assert(0 <= j < doms.len() && dom_key(doms[j]) == k);
    lemma_unique_same_key(doms, i, j);
}

/// Appending a record with a fresh key: the new key maps to it; all other
/// keys are untouched.
pub proof fn lemma_lookup_push(doms: Seq<StoredDomainV>, nd: StoredDomainV)
    requires
        keys_unique(doms),
        !has_key(doms, dom_key(nd)),
    ensures
        keys_unique(doms.push(nd)),
        forall|k: (Seq<char>, Seq<char>)|
            #[trigger] lookup(doms.push(nd), k) == if k == dom_key(nd) {
                Some(nd)
            } else {
                lookup(doms, k)
            },
{
    let p = doms.push(nd);
    assert forall|i: int, j: int| 0 <= i < j < p.len() implies dom_key(p[i]) != dom_key(p[j]) by {
        if j == p.len() - 1 {
            if dom_key(p[i]) == dom_key(nd) {
                assert(p[i] == doms[i]);
                assert(has_key(doms, dom_key(nd)));
            }
        }
    }
    assert forall|k: (Seq<char>, Seq<char>)|
        #[trigger] lookup(p, k) == (if k == dom_key(nd) {
            Some(nd)
        } else {
            lookup(doms, k)
        }) by {
        if k == dom_key(nd) {
            assert(dom_key(p[p.len() - 1]) == k);
            assert(has_key(p, k));
            let i = idx_of(p, k);
            assert(0 <= i < p.len() && dom_key(p[i]) == k);
            lemma_unique_same_key(p, i, p.len() - 1);
        } else {
            if has_key(p, k) {
                let i = idx_of(p, k);
                assert(0 <= i < p.len() && dom_key(p[i]) == k);
                assert(i < p.len() - 1);
                assert(dom_key(doms[i]) == k);
                assert(has_key(doms, k));
                let j = idx_of(doms, k);
                assert(0 <= j < doms.len() && dom_key(doms[j]) == k);
                assert(dom_key(p[j]) == k);
                lemma_unique_same_key(p, i, j);
            } else {
                if has_key(doms, k) {
                    let j = idx_of(doms, k);
                    assert(0 <= j < doms.len() && dom_key(doms[j]) == k);
                    assert(dom_key(p[j]) == k);
                    assert(has_key(p, k));
                }
            }
        }
    }
}

/// Replacing the record at a key's position: the key maps to the new record;
/// all other keys are untouched.
pub proof fn lemma_lookup_update(doms: Seq<StoredDomainV>, i: int, nd: StoredDomainV)
    requires
        keys_unique(doms),
        0 <= i < doms.len(),
        dom_key(doms[i]) == dom_key(nd),
    ensures
        keys_unique(doms.update(i, nd)),
        forall|k: (Seq<char>, Seq<char>)|
            #[trigger] lookup(doms.update(i, nd), k) == if k == dom_key(nd) {
                Some(nd)
            } else {
                lookup(doms, k)
            },
{
    let u = doms.update(i, nd);
    assert forall|a: int, b: int| 0 <= a < b < u.len() implies dom_key(u[a]) != dom_key(u[b]) by {
        if a == i {
            assert(dom_key(u[a]) == dom_key(doms[i]));
        } else if b == i {
            assert(dom_key(u[b]) == dom_key(doms[i]));
        }
    }
    assert forall|k: (Seq<char>, Seq<char>)|
        #[trigger] lookup(u, k) == (if k == dom_key(nd) {
            Some(nd)
        } else {
            lookup(doms, k)
        }) by {
        if k == dom_key(nd) {
            assert(dom_key(u[i]) == k);
            assert(has_key(u, k));
            let a = idx_of(u, k);
            assert(0 <= a < u.len() && dom_key(u[a]) == k);
            lemma_unique_same_key(u, a, i);
        } else {
            if has_key(u, k) {
                let a = idx_of(u, k);
                assert(0 <= a < u.len() && dom_key(u[a]) == k);
                assert(a != i);
                assert(dom_key(doms[a]) == k);
                assert(has_key(doms, k));
                let b = idx_of(doms, k);
                assert(0 <= b < doms.len() && dom_key(doms[b]) == k);
                assert(b != i);
                assert(dom_key(u[b]) == k);
                lemma_unique_same_key(u, a, b);
            } else {
                if has_key(doms, k) {
                    let b = idx_of(doms, k);
                    assert(0 <= b < doms.len() && dom_key(doms[b]) == k);
                    assert(b != i);
                    assert(dom_key(u[b]) == k);
                    assert(has_key(u, k));
                }
            }
        }
    }
}

/// The record set after one conditional write of `nd`: the write is applied
/// only when the key is new or the stored record's epoch is strictly older
/// than `nd`'s; an applied write on an existing key replaces the record in
/// place.
pub open spec fn upsert_model(doms: Seq<StoredDomainV>, nd: StoredDomainV) -> Seq<StoredDomainV> {
    if has_key(doms, dom_key(nd)) {
        let i = idx_of(doms, dom_key(nd));
        if doms[i].last_confirmed_epoch >= nd.last_confirmed_epoch {
            doms
        } else {
            doms.update(i, nd)
        }
    } else {
        doms.push(nd)
    }
}

/// Whether the conditional write of `nd` is applied.
pub open spec fn upsert_applies(doms: Seq<StoredDomainV>, nd: StoredDomainV) -> bool {
    match lookup(doms, dom_key(nd)) {
        Some(d) => d.last_confirmed_epoch < nd.last_confirmed_epoch,
        None => true,
    }
}

/// How one conditional write changes each key's record.
pub proof fn lemma_upsert_lookup(doms: Seq<StoredDomainV>, nd: StoredDomainV)
    requires
        keys_unique(doms),
    ensures
        keys_unique(upsert_model(doms, nd)),
        lookup(upsert_model(doms, nd), dom_key(nd)) == if upsert_applies(doms, nd) {
            Some(nd)
        } else {
            lookup(doms, dom_key(nd))
        },
        forall|k: (Seq<char>, Seq<char>)|
            k != dom_key(nd) ==> #[trigger] lookup(upsert_model(doms, nd), k) == lookup(doms, k),
        forall|i: int|
            0 <= i < upsert_model(doms, nd).len() ==> (#[trigger] upsert_model(doms, nd)[i] == nd
                || doms.contains(upsert_model(doms, nd)[i])),
{
    let k0 = dom_key(nd);
    if has_key(doms, k0) {
        let i = idx_of(doms, k0);
        assert(0 <= i < doms.len() && dom_key(doms[i]) == k0);
        if doms[i].last_confirmed_epoch >= nd.last_confirmed_epoch {
            assert(upsert_model(doms, nd) == doms);
            assert(forall|j: int|
                0 <= j < doms.len() ==> doms.contains(#[trigger] doms[j]));
        } else {
            lemma_lookup_update(doms, i, nd);
            assert forall|j: int| 0 <= j < doms.update(i, nd).len() implies (#[trigger] doms.update(
                i,
                nd,
            )[j] == nd || doms.contains(doms.update(i, nd)[j])) by {
                if j != i {
                    assert(doms.update(i, nd)[j] == doms[j]);
                }
            }
        }
    } else {
        lemma_lookup_push(doms, nd);
        assert forall|j: int| 0 <= j < doms.push(nd).len() implies (#[trigger] doms.push(nd)[j]
            == nd || doms.contains(doms.push(nd)[j])) by {
            if j < doms.len() {
                assert(doms.push(nd)[j] == doms[j]);
            }
        }
    }
}

/// The record set after the staleness purge at epoch `e`: exactly the records
/// whose epoch is at least `e`, in their stored order.
pub open spec fn purge_model(doms: Seq<StoredDomainV>, e: u64) -> Seq<StoredDomainV>
    decreases doms.len(),
{
    if doms.len() == 0 {
        Seq::empty()
    } else {
        let rest = purge_model(doms.drop_last(), e);
        if doms.last().last_confirmed_epoch >= e {
            rest.push(doms.last())
        } else {
            rest
        }
    }
}

/// The purge keeps a key's record exactly when its epoch reaches `e`.
pub proof fn lemma_purge_lookup(doms: Seq<StoredDomainV>, e: u64)
    requires
        keys_unique(doms),
    ensures
        keys_unique(purge_model(doms, e)),
        purge_model(doms, e).len() <= doms.len(),
        forall|i: int|
            0 <= i < purge_model(doms, e).len() ==> doms.contains(#[trigger] purge_model(doms, e)[i]),
        forall|k: (Seq<char>, Seq<char>)|
            #[trigger] lookup(purge_model(doms, e), k) == match lookup(doms, k) {
                Some(d) => if d.last_confirmed_epoch >= e {
                    Some(d)
                } else {
                    None
                },
                None => None,
            },
    decreases doms.len(),
{
    if doms.len() == 0 {
        assert forall|k: (Seq<char>, Seq<char>)| !(#[trigger] has_key(doms, k)) by {}
        assert forall|k: (Seq<char>, Seq<char>)| !(#[trigger] has_key(purge_model(doms, e), k)) by {}
    } else {
        let dl = doms.drop_last();
        let last = doms.last();
        assert(keys_unique(dl)) by {
            assert(forall|i: int| 0 <= i < dl.len() ==> dl[i] == doms[i]);
        }
        lemma_purge_lookup(dl, e);
        let p = purge_model(dl, e);
        assert(!has_key(dl, dom_key(last))) by {
            if has_key(dl, dom_key(last)) {
                let i = idx_of(dl, dom_key(last));
                assert(0 <= i < dl.len() && dom_key(dl[i]) == dom_key(last));
                assert(dom_key(doms[i]) == dom_key(doms[doms.len() - 1]));
                lemma_unique_same_key(doms, i, doms.len() - 1);
            }
        }
        assert(doms =~= dl.push(last));
        lemma_lookup_push(dl, last);
        assert(!has_key(p, dom_key(last))) by {
            if has_key(p, dom_key(last)) {
                assert(lookup(p, dom_key(last)) is Some);
                assert(lookup(dl, dom_key(last)) is Some);
                assert(has_key(dl, dom_key(last)));
            }
        }
        // membership in the purged prefix carries over to `doms`
        assert forall|i: int| 0 <= i < p.len() implies doms.contains(#[trigger] p[i]) by {
            assert(dl.contains(p[i]));
            let j = choose|j: int| 0 <= j < dl.len() && dl[j] == p[i];
            assert(doms[j] == p[i]);
        }
        if last.last_confirmed_epoch >= e {
            lemma_lookup_push(p, last);
            assert(purge_model(doms, e) == p.push(last));
            assert forall|i: int| 0 <= i < p.push(last).len() implies doms.contains(
                #[trigger] p.push(last)[i],
            ) by {
                if i < p.len() {
                    assert(p.push(last)[i] == p[i]);
                } else {
                    assert(p.push(last)[i] == last);
                    assert(doms[doms.len() - 1] == last);
                }
            }
            assert forall|k: (Seq<char>, Seq<char>)|
                #[trigger] lookup(purge_model(doms, e), k) == (match lookup(doms, k) {
                    Some(d) => if d.last_confirmed_epoch >= e {
                        Some(d)
                    } else {
                        None
                    },
                    None => None,
                }) by {
                if k == dom_key(last) {
                    assert(lookup(doms, k) == Some(last));
                    assert(lookup(p.push(last), k) == Some(last));
                } else {
                    assert(lookup(p.push(last), k) == lookup(p, k));
                    assert(lookup(doms, k) == lookup(dl, k));
                }
            }
        } else {
            assert(purge_model(doms, e) == p);
            assert forall|k: (Seq<char>, Seq<char>)|
                #[trigger] lookup(purge_model(doms, e), k) == (match lookup(doms, k) {
                    Some(d) => if d.last_confirmed_epoch >= e {
                        Some(d)
                    } else {
                        None
                    },
                    None => None,
                }) by {
                if k == dom_key(last) {
                    assert(lookup(doms, k) == Some(last));
                    assert(lookup(p, k) == (match lookup(dl, k) {
                        Some(d) => if d.last_confirmed_epoch >= e {
                            Some(d)
                        } else {
                            None
                        },
                        None => None,
                    }));
                    assert(!has_key(dl, k));
                    assert(lookup(dl, k) is None);
                    assert(lookup(p, k) is None);
                } else {
                    assert(lookup(doms, k) == lookup(dl, k));
                }
            }
        }
    }
}

/// The rows of `doms` whose domain contains `pat`, in stored order.
pub open spec fn filter_model(doms: Seq<StoredDomainV>, pat: Seq<char>) -> Seq<DomainRowV>
    decreases doms.len(),
{
    if doms.len() == 0 {
        Seq::empty()
    } else {
        let rest = filter_model(doms.drop_last(), pat);
        if seq_contains(doms.last().row.domain->Some_0, pat) {
            rest.push(doms.last().row)
        } else {
            rest
        }
    }
}

/// The registry after an unconditional insert-or-replace of `s`, keyed by
/// `(name, ip)`.
pub open spec fn server_upsert_model(ss: Seq<ServerV>, s: ServerV) -> Seq<ServerV> {
    if exists|i: int| 0 <= i < ss.len() && ss[i].name == s.name && ss[i].ip == s.ip {
        ss.update(choose|i: int| 0 <= i < ss.len() && ss[i].name == s.name && ss[i].ip == s.ip, s)
    } else {
        ss.push(s)
    }
}

impl Store {
    /// The store is well formed.
    pub open spec fn wf(self) -> bool {
        store_wf(self@)
    }

    /// An empty store.
    pub fn new() -> (r: Store)
        ensures
            r.wf(),
            r@.servers =~= Seq::<ServerV>::empty(),
            r@.domains =~= Seq::<StoredDomainV>::empty(),
    {
        Store { servers: Vec::new(), domains: Vec::new() }
    }

    /// Registers `s`, replacing the attributes of an existing server with the
    /// same `(name, ip)` identity. Registration never removes an identity, so
    /// referential integrity survives.
    pub fn add_server(&mut self, s: Server)
        requires
            old(self).wf(),
        ensures
            final(self).wf(),
            final(self)@.domains == old(self)@.domains,
            final(self)@.servers == server_upsert_model(old(self)@.servers, s@),
    {
        let ghost oldservers = old(self)@.servers;
        let n = self.servers.len();
        let mut i: usize = 0;
        while i < n
            invariant
                old(self).wf(),
                self@ == old(self)@,
                oldservers == old(self)@.servers,
                n == self.servers.len(),
                0 <= i <= n,
                forall|j: int|
                    0 <= j < i ==> !((#[trigger] oldservers[j]).name == s@.name
                        && oldservers[j].ip == s@.ip),
            decreases n - i,
        {
            if self.servers[i].name == s.name && self.servers[i].ip == s.ip {
                proof {
                    assert(oldservers[i as int].name == s@.name && oldservers[i as int].ip
                        == s@.ip);
                    let w = choose|w: int|
                        0 <= w < oldservers.len() && oldservers[w].name == s@.name
                            && oldservers[w].ip == s@.ip;
                    assert(0 <= w < oldservers.len() && oldservers[w].name == s@.name
                        && oldservers[w].ip == s@.ip);
                    assert(w == i) by {
                        if w != i {
                            assert(!(oldservers[w].name == oldservers[i as int].name
                                && oldservers[w].ip == oldservers[i as int].ip));
                        }
                    }
                }
                self.servers.set(i, s);
                proof {
                    let ns = self@.servers;
                    assert(ns =~= oldservers.update(i as int, s@));
                    assert(ns =~= server_upsert_model(oldservers, s@));
                    assert forall|a: int, b: int| 0 <= a < b < ns.len() implies !(ns[a].name
                        == ns[b].name && ns[a].ip == ns[b].ip) by {
                        if a == i {
                            assert(ns[a].name == oldservers[a].name && ns[a].ip
                                == oldservers[a].ip);
                        } else if b == i {
                            assert(ns[b].name == oldservers[b].name && ns[b].ip
                                == oldservers[b].ip);
                        }
                    }
                    assert forall|t: int| 0 <= t < self@.domains.len() implies has_server(
                        ns,
                        (#[trigger] self@.domains[t]).server_name,
                        self@.domains[t].server_ip,
                    ) by {
                        assert(has_server(
                            oldservers,
                            self@.domains[t].server_name,
                            self@.domains[t].server_ip,
                        ));
                        let w = choose|w: int|
                            0 <= w < oldservers.len() && oldservers[w].name
                                == self@.domains[t].server_name && oldservers[w].ip
                                == self@.domains[t].server_ip;
                        if w == i {
                            assert(ns[w].name == self@.domains[t].server_name && ns[w].ip
                                == self@.domains[t].server_ip);
                        } else {
                            assert(ns[w] == oldservers[w]);
                        }
                    }
                }
                return ;
            }
            i = i + 1;
        }
        proof {
            assert(!(exists|j: int|
                0 <= j < oldservers.len() && oldservers[j].name == s@.name && oldservers[j].ip
                    == s@.ip));
        }
        self.servers.push(s);
        proof {
            let ns = self@.servers;
            assert(ns =~= oldservers.push(s@));
            assert(ns =~= server_upsert_model(oldservers, s@));
            assert forall|a: int, b: int| 0 <= a < b < ns.len() implies !(ns[a].name == ns[b].name
                && ns[a].ip == ns[b].ip) by {
                if b == ns.len() - 1 {
                    assert(ns[a] == oldservers[a]);
                    if ns[a].name == s@.name && ns[a].ip == s@.ip {
                        assert(exists|j: int|
                            0 <= j < oldservers.len() && oldservers[j].name == s@.name
                                && oldservers[j].ip == s@.ip);
                    }
                }
            }
            assert forall|t: int| 0 <= t < self@.domains.len() implies has_server(
                ns,
                (#[trigger] self@.domains[t]).server_name,
                self@.domains[t].server_ip,
            ) by {
                assert(has_server(
                    oldservers,
                    self@.domains[t].server_name,
                    self@.domains[t].server_ip,
                ));
                let w = choose|w: int|
                    0 <= w < oldservers.len() && oldservers[w].name
                        == self@.domains[t].server_name && oldservers[w].ip
                        == self@.domains[t].server_ip;
                assert(ns[w] == oldservers[w]);
            }
        }
    }

    /// Is `(name, ip)` a registered server identity?
    pub fn has_server_exec(&self, name: &String, ip: &String) -> (r: bool)
        ensures
            r == has_server(self@.servers, name@, ip@),
    {
        let n = self.servers.len();
        let mut i: usize = 0;
        while i < n
            invariant
                n == self.servers.len(),
                0 <= i <= n,
                forall|j: int|
                    0 <= j < i ==> !((#[trigger] self@.servers[j]).name == name@
                        && self@.servers[j].ip == ip@),
            decreases n - i,
        {
            if self.servers[i].name == *name && self.servers[i].ip == *ip {
                proof {
                    assert(self@.servers[i as int].name == name@ && self@.servers[i as int].ip
                        == ip@);
                }
                return true;
            }
            i = i + 1;
        }
        false
    }

    /// Loads one record read back from disk: accepted only when it is
    /// complete, its key is new, and its server is registered, so that a
    /// store rebuilt row by row is well formed.
    pub fn load_domain(&mut self, d: StoredDomain) -> (accepted: bool)
        requires
            old(self).wf(),
        ensures
            final(self).wf(),
            final(self)@.servers == old(self)@.servers,
            accepted == (row_complete(d@.row) && !has_key(old(self)@.domains, dom_key(d@))
                && has_server(old(self)@.servers, d@.server_name, d@.server_ip)),
            accepted ==> final(self)@.domains == old(self)@.domains.push(d@),
            !accepted ==> final(self)@.domains == old(self)@.domains,
    {
        let complete = d.row.docroot.is_some() && d.row.domain.is_some()
            && d.row.domain_type.is_some() && d.row.ipv4.is_some() && d.row.ipv4_ssl.is_some()
            && d.row.ipv6.is_some() && d.row.ipv6_is_dedicated.is_some()
            && d.row.modsecurity_enabled.is_some() && d.row.parent_domain.is_some()
            && d.row.php_version.is_some() && d.row.port.is_some() && d.row.port_ssl.is_some()
            && d.row.user.is_some() && d.row.user_owner.is_some();
        if !complete {
            return false;
        }
        if !self.has_server_exec(&d.server_name, &d.server_ip) {
            return false;
        }
        let domain = match &d.row.domain {
            Some(s) => s,
            None => unreached(),
        };
        if self.find_index(&d.server_name, domain).is_some() {
            return false;
        }
        proof {
            lemma_lookup_push(self@.domains, d@);
        }
        self.domains.push(d);
        proof {
            assert(self@.domains =~= old(self)@.domains.push(d@));
            assert forall|t: int| 0 <= t < self@.domains.len() implies row_complete(
                #[trigger] self@.domains[t].row,
            ) && has_server(
                self@.servers,
                self@.domains[t].server_name,
                self@.domains[t].server_ip,
            ) by {
                if t < old(self)@.domains.len() {
                    assert(self@.domains[t] == old(self)@.domains[t]);
                }
            }
        }
        true
    }

    /// The position of the record keyed `(name, domain)`, if one is stored.
    fn find_index(&self, name: &String, domain: &String) -> (r: Option<usize>)
        requires
            store_wf(self@),
        ensures
            match r {
                Some(i) => i < self@.domains.len() && dom_key(self@.domains[i as int]) == (
                    name@,
                    domain@,
                ) && has_key(self@.domains, (name@, domain@)) && idx_of(
                    self@.domains,
                    (name@, domain@),
                ) == i as int,
                None => !has_key(self@.domains, (name@, domain@)),
            },
    {
        let ghost k = (name@, domain@);
        let n = self.domains.len();
        let mut i: usize = 0;
        while i < n
            invariant
                store_wf(self@),
                n == self.domains.len(),
                0 <= i <= n,
                k == (name@, domain@),
                forall|j: int| 0 <= j < i ==> dom_key(#[trigger] self@.domains[j]) != k,
            decreases n - i,
        {
            let d = &self.domains[i];
            let ddomain = match &d.row.domain {
                Some(s) => s,
                None => {
                    proof {
                        assert(row_complete(self@.domains[i as int].row));
                    }
                    unreached()
                },
            };
            if d.server_name == *name && *ddomain == *domain {
                proof {
                    assert(dom_key(self@.domains[i as int]) == k);
                    lemma_lookup_index(self@.domains, i as int);
                }
                return Some(i);
            }
            proof {
                assert(dom_key(self@.domains[i as int]) != k);
            }
            i = i + 1;
        }
        None
    }

    /// The reconciler's conditional write: inserts the record under its
    /// `(server_name, domain)` key, or replaces the stored record only when
    /// `epoch` is strictly newer than the stored one. Returns whether the
    /// write was applied; a refused write is the expected no-op for an
    /// out-of-order or duplicate response.
    pub fn upsert(
        &mut self,
        row: DomainRow,
        server_name: String,
        server_ip: String,
        epoch: u64,
    ) -> (applied: bool)
        requires
            old(self).wf(),
            row_complete(row@),
            has_server(old(self)@.servers, server_name@, server_ip@),
        ensures
            final(self).wf(),
            final(self)@.servers == old(self)@.servers,
            final(self)@.domains == upsert_model(
                old(self)@.domains,
                StoredDomainV {
                    server_name: server_name@,
                    server_ip: server_ip@,
                    row: row@,
                    last_confirmed_epoch: epoch,
                },
            ),
            applied == upsert_applies(
                old(self)@.domains,
                StoredDomainV {
                    server_name: server_name@,
                    server_ip: server_ip@,
                    row: row@,
                    last_confirmed_epoch: epoch,
                },
            ),
    {
        let ghost ndv = StoredDomainV {
            server_name: server_name@,
            server_ip: server_ip@,
            row: row@,
            last_confirmed_epoch: epoch,
        };
        let ghost olddoms = self@.domains;
        proof {
            lemma_upsert_lookup(olddoms, ndv);
        }
        let domain = match &row.domain {
            Some(s) => s.clone(),
            None => unreached(),
        };
        let found = self.find_index(&server_name, &domain);
        let nd = StoredDomain { server_name, server_ip, row, last_confirmed_epoch: epoch };
        proof {
            assert(nd@ == ndv);
            assert(dom_key(ndv) == (ndv.server_name, ndv.row.domain->Some_0));
        }
        match found {
            Some(i) => {
                proof {
                    assert(lookup(olddoms, dom_key(ndv)) == Some(olddoms[i as int]));
                }
                if self.domains[i].last_confirmed_epoch >= epoch {
                    proof {
                        assert(upsert_model(olddoms, ndv) == olddoms);
                        assert(!upsert_applies(olddoms, ndv));
                    }
                    false
                } else {
                    self.domains.set(i, nd);
                    proof {
                        assert(self@.domains =~= olddoms.update(i as int, ndv));
                        assert(upsert_model(olddoms, ndv) == olddoms.update(i as int, ndv));
                        lemma_lookup_update(olddoms, i as int, ndv);
                        assert forall|t: int| 0 <= t < self@.domains.len() implies row_complete(
                            #[trigger] self@.domains[t].row,
                        ) && has_server(
                            self@.servers,
                            self@.domains[t].server_name,
                            self@.domains[t].server_ip,
                        ) by {
                            if t != i as int {
                                assert(self@.domains[t] == olddoms[t]);
                            }
                        }
                    }
                    true
                }
            },
            None => {
                proof {
                    assert(lookup(olddoms, dom_key(ndv)) is None);
                    assert(upsert_applies(olddoms, ndv));
                    assert(upsert_model(olddoms, ndv) == olddoms.push(ndv));
                    lemma_lookup_push(olddoms, ndv);
                }
                self.domains.push(nd);
                proof {
                    assert(self@.domains =~= olddoms.push(ndv));
                    assert forall|t: int| 0 <= t < self@.domains.len() implies row_complete(
                        #[trigger] self@.domains[t].row,
                    ) && has_server(
                        self@.servers,
                        self@.domains[t].server_name,
                        self@.domains[t].server_ip,
                    ) by {
                        if t < olddoms.len() {
                            assert(self@.domains[t] == olddoms[t]);
                        }
                    }
                }
                true
            },
        }
    }

    /// The stale-row collector: deletes every record whose epoch lies below
    /// `epoch` and returns how many were removed. Run exactly once, after all
    /// servers of a pass have been processed.
    pub fn purge_stale(&mut self, epoch: u64) -> (removed: usize)
        requires
            old(self).wf(),
        ensures
            final(self).wf(),
            final(self)@.servers == old(self)@.servers,
            final(self)@.domains == purge_model(old(self)@.domains, epoch),
            removed == old(self)@.domains.len() - final(self)@.domains.len(),
    {
        let ghost olddoms = self@.domains;
        proof {
            lemma_purge_lookup(olddoms, epoch);
        }
        let n = self.domains.len();
        let mut kept: Vec<StoredDomain> = Vec::new();
        let mut i: usize = 0;
        while i < n
            invariant
                n == self.domains.len(),
                olddoms == self@.domains,
                0 <= i <= n,
                kept@.map_values(|d: StoredDomain| d@) == purge_model(
                    olddoms.subrange(0, i as int),
                    epoch,
                ),
            decreases n - i,
        {
            proof {
                assert(olddoms.subrange(0, i + 1).drop_last() =~= olddoms.subrange(0, i as int));
                assert(olddoms.subrange(0, i + 1).last() == olddoms[i as int]);
            }
            if self.domains[i].last_confirmed_epoch >= epoch {
                let d = self.domains[i].clone();
                kept.push(d);
                proof {
                    assert(kept@.map_values(|d: StoredDomain| d@) =~= purge_model(
                        olddoms.subrange(0, i + 1),
                        epoch,
                    ));
                }
            } else {
                proof {
                    assert(kept@.map_values(|d: StoredDomain| d@) =~= purge_model(
                        olddoms.subrange(0, i + 1),
                        epoch,
                    ));
                }
            }
            i = i + 1;
        }
        proof {
            assert(olddoms.subrange(0, n as int) =~= olddoms);
        }
        let removed = self.domains.len() - kept.len();
        self.domains = kept;
        proof {
            assert(self@.domains == purge_model(olddoms, epoch));
            assert forall|t: int| 0 <= t < self@.domains.len() implies row_complete(
                #[trigger] self@.domains[t].row,
            ) && has_server(
                self@.servers,
                self@.domains[t].server_name,
                self@.domains[t].server_ip,
            ) by {
                assert(olddoms.contains(self@.domains[t]));
                let j = choose|j: int| 0 <= j < olddoms.len() && olddoms[j] == self@.domains[t];
            }
        }
        removed
    }

    /// The name filter: the stored rows whose domain contains the trimmed
    /// `name` as a substring, in stored order.
    pub fn find_domains(&self, name: &str) -> (r: Vec<DomainRow>)
        requires
            self.wf(),
        ensures
            r@.map_values(|d: DomainRow| d@) == filter_model(self@.domains, trim_spec(name@)),
    {
        let pattern = trim_spaces(name);
        let n = self.domains.len();
        let mut r: Vec<DomainRow> = Vec::new();
        let mut i: usize = 0;
        while i < n
            invariant
                self.wf(),
                n == self.domains.len(),
                0 <= i <= n,
                pattern@ == trim_spec(name@),
                r@.map_values(|d: DomainRow| d@) == filter_model(
                    self@.domains.subrange(0, i as int),
                    pattern@,
                ),
            decreases n - i,
        {
            proof {
                assert(self@.domains.subrange(0, i + 1).drop_last() =~= self@.domains.subrange(
                    0,
                    i as int,
                ));
                assert(self@.domains.subrange(0, i + 1).last() == self@.domains[i as int]);
                assert(row_complete(self@.domains[i as int].row));
            }
            let d = &self.domains[i];
            let ddomain = match &d.row.domain {
                Some(s) => s,
                None => unreached(),
            };
            if str_contains(ddomain.as_str(), pattern.as_str()) {
                let row = d.row.clone();
                r.push(row);
                proof {
                    assert(r@.map_values(|d: DomainRow| d@) =~= filter_model(
                        self@.domains.subrange(0, i + 1),
                        pattern@,
                    ));
                }
            } else {
                proof {
                    assert(r@.map_values(|d: DomainRow| d@) =~= filter_model(
                        self@.domains.subrange(0, i + 1),
                        pattern@,
                    ));
                }
            }
            i = i + 1;
        }
        proof {
            assert(self@.domains.subrange(0, n as int) =~= self@.domains);
        }
        r
    }
}

/// Referential integrity, stated on its own: in a well-formed store no
/// record's `(server_name, server_ip)` lacks a matching registered server.
pub proof fn lemma_referential_integrity(s: StoreV)
    requires
        store_wf(s),
    ensures
        forall|i: int|
            0 <= i < s.domains.len() ==> has_server(
                s.servers,
                (#[trigger] s.domains[i]).server_name,
                s.domains[i].server_ip,
            ),
{
}

/// Monotonic acceptance, stated on its own: a conditional write whose epoch
/// does not exceed the stored record's epoch changes nothing at all.
pub proof fn lemma_monotonic_acceptance(doms: Seq<StoredDomainV>, nd: StoredDomainV)
    requires
        keys_unique(doms),
        has_key(doms, dom_key(nd)),
        lookup(doms, dom_key(nd))->Some_0.last_confirmed_epoch >= nd.last_confirmed_epoch,
    ensures
        upsert_model(doms, nd) == doms,
{
}

} // verus!
