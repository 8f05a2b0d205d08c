//! The synchronization pass: per-server inventory outcomes are validated,
//! reconciled into the store under the monotonic-epoch rule, and followed by
//! one staleness purge. Fetching itself is I/O and happens outside the
//! library; the pass consumes one `FetchOutcome` per registered server.

use vstd::prelude::*;
use crate::sqlite_types::{DomainRow, DomainRowV, row_valid, normalize};
use crate::store::{
    dom_key, has_key, has_server, keys_unique, lookup, epochs_below, purge_model, upsert_model,
    Store, ServerV, StoredDomainV,
};

verus! {

/// The domain subcommand's arguments: run one synchronization pass, or query
/// the cache by name substring.
#[derive(Debug)]
pub struct DomainArgs {
    pub sync: bool,
    pub name: Option<String>,
}

/// Why one server's fetch yielded no records: the request failed on the wire,
/// the server answered with a non-success status, or the response envelope
/// was not of the expected shape.
#[derive(Debug)]
pub enum FetchError {
    Network(String),
    Status(u16),
    MalformedResponse,
}

/// What one server's fetch produced: its raw candidate records, or a
/// fetch-level error isolated to that server.
#[derive(Debug)]
pub enum FetchOutcome {
    Records(Vec<DomainRow>),
    Failed(FetchError),
}

/// What one pass reports: how many candidate records failed validation, which
/// servers' fetches failed, and how many stale rows the purge removed.
#[derive(Debug)]
pub struct PassSummary {
    pub validation_failures: usize,
    pub failed_servers: Vec<String>,
    pub purged: usize,
}

/// The views of a sequence of rows.
pub open spec fn rows_view(rows: Seq<DomainRow>) -> Seq<DomainRowV> {
    rows.map_values(|r: DomainRow| r@)
}

/// The stored record written for a validated row: the normalized row, the
/// owning server's identity, and the pass epoch.
pub open spec fn attach(r: DomainRowV, name: Seq<char>, ip: Seq<char>, e: u64) -> StoredDomainV {
    StoredDomainV {
        server_name: name,
        server_ip: ip,
        row: normalize(r),
        last_confirmed_epoch: e,
    }
}

/// The record set after one server's response: each valid row is written
/// through the conditional upsert, in response order; invalid rows are
/// skipped.
pub open spec fn apply_rows_model(
    doms: Seq<StoredDomainV>,
    rows: Seq<DomainRowV>,
    name: Seq<char>,
    ip: Seq<char>,
    e: u64,
) -> Seq<StoredDomainV>
    decreases rows.len(),
{
    if rows.len() == 0 {
        doms
    } else {
        let prev = apply_rows_model(doms, rows.drop_last(), name, ip, e);
        if row_valid(rows.last()) {
            upsert_model(prev, attach(rows.last(), name, ip, e))
        } else {
            prev
        }
    }
}

/// How many rows of a response fail validation.
pub open spec fn invalid_count(rows: Seq<DomainRowV>) -> int
    decreases rows.len(),
{
    if rows.len() == 0 {
        0
    } else {
        invalid_count(rows.drop_last()) + if row_valid(rows.last()) {
            0int
        } else {
            1int
        }
    }
}

/// The first valid row of `rows` that would be stored under key `k` for a
/// server named `name`, if any; the first write of a pass wins, later
/// duplicates are absorbed by the monotonic rule.
pub open spec fn first_valid_with_key(
    rows: Seq<DomainRowV>,
    name: Seq<char>,
    k: (Seq<char>, Seq<char>),
) -> Option<DomainRowV>
    decreases rows.len(),
{
    if rows.len() == 0 {
        None
    } else {
        match first_valid_with_key(rows.drop_last(), name, k) {
            Some(r) => Some(r),
            None => {
                let x = rows.last();
                if row_valid(x) && name == k.0 && x.domain == Some(k.1) {
                    Some(x)
                } else {
                    None
                }
            },
        }
    }
}

/// The record set after every server's outcome has been reconciled, in
/// registry order, before the purge. A failed fetch writes nothing.
pub open spec fn pass_writes_model(
    doms: Seq<StoredDomainV>,
    servers: Seq<ServerV>,
    outs: Seq<FetchOutcome>,
    e: u64,
) -> Seq<StoredDomainV>
    decreases servers.len(),
{
    if servers.len() == 0 || outs.len() == 0 {
        doms
    } else {
        let prev = pass_writes_model(doms, servers.drop_last(), outs.drop_last(), e);
        match outs.last() {
            FetchOutcome::Records(rows) => apply_rows_model(
                prev,
                rows_view(rows@),
                servers.last().name,
                servers.last().ip,
                e,
            ),
            FetchOutcome::Failed(_) => prev,
        }
    }
}

/// The record set after one whole pass at epoch `e`: every server's outcome
/// reconciled, then every record not reconfirmed at `e` purged.
pub open spec fn pass_model(
    doms: Seq<StoredDomainV>,
    servers: Seq<ServerV>,
    outs: Seq<FetchOutcome>,
    e: u64,
) -> Seq<StoredDomainV> {
    purge_model(pass_writes_model(doms, servers, outs, e), e)
}

/// The total count of validation failures across a pass's outcomes.
pub open spec fn pass_invalid_count(outs: Seq<FetchOutcome>) -> int
    decreases outs.len(),
{
    if outs.len() == 0 {
        0
    } else {
        pass_invalid_count(outs.drop_last()) + match outs.last() {
            FetchOutcome::Records(rows) => invalid_count(rows_view(rows@)),
            FetchOutcome::Failed(_) => 0,
        }
    }
}

/// The names of the servers whose fetches failed, in registry order.
pub open spec fn failed_names_model(servers: Seq<ServerV>, outs: Seq<FetchOutcome>) -> Seq<
    Seq<char>,
>
    decreases servers.len(),
{
    if servers.len() == 0 || outs.len() == 0 {
        Seq::empty()
    } else {
        let rest = failed_names_model(servers.drop_last(), outs.drop_last());
        match outs.last() {
            FetchOutcome::Failed(_) => rest.push(servers.last().name),
            FetchOutcome::Records(_) => rest,
        }
    }
}

impl Store {
    /// Reconciles one server's candidate records: validates and normalizes
    /// each row, writes the valid ones under the monotonic-epoch rule in
    /// response order, and counts the rows rejected by validation. A rejected
    /// row never affects its siblings.
    pub fn apply_server_records(
        &mut self,
        server_name: &String,
        server_ip: &String,
        rows: Vec<DomainRow>,
        epoch: u64,
    ) -> (failures: usize)
        requires
            old(self).wf(),
            has_server(old(self)@.servers, server_name@, server_ip@),
        ensures
            final(self).wf(),
            final(self)@.servers == old(self)@.servers,
            final(self)@.domains == apply_rows_model(
                old(self)@.domains,
                rows_view(rows@),
                server_name@,
                server_ip@,
                epoch,
            ),
            failures == invalid_count(rows_view(rows@)),
    {
        let ghost olddoms = self@.domains;
        let ghost rowsv = rows_view(rows@);
        let n = rows.len();
        let mut failures: usize = 0;
        let mut i: usize = 0;
        while i < n
            invariant
                self.wf(),
                n == rows.len(),
                0 <= i <= n,
                failures <= i,
                rowsv == rows_view(rows@),
                self@.servers == old(self)@.servers,
                has_server(self@.servers, server_name@, server_ip@),
                self@.domains == apply_rows_model(
                    olddoms,
                    rowsv.subrange(0, i as int),
                    server_name@,
                    server_ip@,
                    epoch,
                ),
                failures == invalid_count(rowsv.subrange(0, i as int)),
            decreases n - i,
        {
            proof {
                assert(rowsv.subrange(0, i + 1).drop_last() =~= rowsv.subrange(0, i as int));
                assert(rowsv.subrange(0, i + 1).last() == rowsv[i as int]);
                assert(rowsv[i as int] == rows@[i as int]@);
            }
            let row = rows[i].clone();
            match row.safe_unwrap() {
                Ok(valid_row) => {
                    proof {
                        assert(row_valid(rowsv[i as int]));
                        assert(valid_row@ == normalize(rowsv[i as int]));
                    }
                    let name = server_name.clone();
                    let ip = server_ip.clone();
                    self.upsert(valid_row, name, ip, epoch);
                    proof {
                        assert(self@.domains =~= apply_rows_model(
                            olddoms,
                            rowsv.subrange(0, i + 1),
                            server_name@,
                            server_ip@,
                            epoch,
                        ));
                    }
                },
                Err(_) => {
                    failures = failures + 1;
                    proof {
                        assert(!row_valid(rowsv[i as int]));
                        assert(self@.domains =~= apply_rows_model(
                            olddoms,
                            rowsv.subrange(0, i + 1),
                            server_name@,
                            server_ip@,
                            epoch,
                        ));
                    }
                },
            }
            i = i + 1;
        }
        proof {
            assert(rowsv.subrange(0, n as int) =~= rowsv);
        }
        failures
    }

    /// One complete synchronization pass at epoch `epoch`: each registered
    /// server's outcome is reconciled in registry order (a failed fetch
    /// writes nothing but does not stop the pass), then the staleness purge
    /// removes every record not reconfirmed at `epoch`. The summary reports
    /// the validation-failure count, the failed servers' names, and the purge
    /// count.
    ///
    /// The purge is deliberately global, not scoped per server: a server
    /// whose fetch failed reconfirms nothing, so its previously known records
    /// are removed as collateral. Callers who cannot accept that loss must
    /// not run a pass whose outcomes contain failures.
    pub fn run_pass(&mut self, outcomes: Vec<FetchOutcome>, epoch: u64) -> (summary: PassSummary)
        requires
            old(self).wf(),
            outcomes@.len() == old(self)@.servers.len(),
            pass_invalid_count(outcomes@) <= usize::MAX,
        ensures
            final(self).wf(),
            final(self)@.servers == old(self)@.servers,
            final(self)@.domains == pass_model(
                old(self)@.domains,
                old(self)@.servers,
                outcomes@,
                epoch,
            ),
            summary.validation_failures == pass_invalid_count(outcomes@),
            summary.failed_servers@.map_values(|s: String| s@) == failed_names_model(
                old(self)@.servers,
                outcomes@,
            ),
            summary.purged == pass_writes_model(
                old(self)@.domains,
                old(self)@.servers,
                outcomes@,
                epoch,
            ).len() - final(self)@.domains.len(),
    {
        let ghost olddoms = self@.domains;
        let ghost allservers = self@.servers;
        let ghost allouts = outcomes@;
        let mut outcomes = outcomes;
        let n = self.servers.len();
        let mut failures: usize = 0;
        let mut failed_servers: Vec<String> = Vec::new();
        let mut i: usize = 0;
        while i < n
            invariant
                self.wf(),
                n == self.servers.len(),
                0 <= i <= n,
                allouts.len() == n,
                self@.servers == allservers,
                outcomes@ =~= allouts.subrange(i as int, n as int),
                pass_invalid_count(allouts) <= usize::MAX,
                self@.domains == pass_writes_model(
                    olddoms,
                    allservers.subrange(0, i as int),
                    allouts.subrange(0, i as int),
                    epoch,
                ),
                failures == pass_invalid_count(allouts.subrange(0, i as int)),
                failed_servers@.map_values(|s: String| s@) == failed_names_model(
                    allservers.subrange(0, i as int),
                    allouts.subrange(0, i as int),
                ),
            decreases n - i,
        {
            proof {
                assert(allservers.subrange(0, i + 1).drop_last() =~= allservers.subrange(
                    0,
                    i as int,
                ));
                assert(allouts.subrange(0, i + 1).drop_last() =~= allouts.subrange(0, i as int));
                assert(allservers.subrange(0, i + 1).last() == allservers[i as int]);
                assert(allouts.subrange(0, i + 1).last() == allouts[i as int]);
                lemma_pass_invalid_prefix(allouts, i as int);
            }
            let outcome = outcomes.remove(0);
            proof {
                assert(outcome == allouts[i as int]);
                assert(outcomes@ =~= allouts.subrange(i + 1, n as int));
                assert(allservers[i as int].name == self.servers@[i as int]@.name);
                assert(has_server(self@.servers, allservers[i as int].name, allservers[i as int].ip));
            }
            let server_name = self.servers[i].name.clone();
            let server_ip = self.servers[i].ip.clone();
            match outcome {
                FetchOutcome::Records(rows) => {
                    let k = self.apply_server_records(&server_name, &server_ip, rows, epoch);
                    failures = failures + k;
                    proof {
                        assert(self@.domains =~= pass_writes_model(
                            olddoms,
                            allservers.subrange(0, i + 1),
                            allouts.subrange(0, i + 1),
                            epoch,
                        ));
                        assert(failed_servers@.map_values(|s: String| s@) =~= failed_names_model(
                            allservers.subrange(0, i + 1),
                            allouts.subrange(0, i + 1),
                        ));
                    }
                },
                FetchOutcome::Failed(_) => {
                    failed_servers.push(server_name);
                    proof {
                        assert(self@.domains =~= pass_writes_model(
                            olddoms,
                            allservers.subrange(0, i + 1),
                            allouts.subrange(0, i + 1),
                            epoch,
                        ));
                        assert(failed_servers@.map_values(|s: String| s@) =~= failed_names_model(
                            allservers.subrange(0, i + 1),
                            allouts.subrange(0, i + 1),
                        ));
                    }
                },
            }
            i = i + 1;
        }
        proof {
            assert(allservers.subrange(0, n as int) =~= allservers);
            assert(allouts.subrange(0, n as int) =~= allouts);
        }
        let purged = self.purge_stale(epoch);
        PassSummary { validation_failures: failures, failed_servers, purged }
    }
}

/// A prefix's validation-failure count never exceeds the whole sequence's.
proof fn lemma_pass_invalid_prefix(outs: Seq<FetchOutcome>, i: int)
    requires
        0 <= i <= outs.len(),
    ensures
        0 <= pass_invalid_count(outs.subrange(0, i)) <= pass_invalid_count(outs),
        i < outs.len() ==> pass_invalid_count(outs.subrange(0, i)) + (match outs[i] {
            FetchOutcome::Records(rows) => invalid_count(rows_view(rows@)),
            FetchOutcome::Failed(_) => 0,
        }) <= pass_invalid_count(outs),
    decreases outs.len() - i,
{
    lemma_invalid_count_nonneg_all(outs);
    if i < outs.len() {
        lemma_pass_invalid_prefix(outs, i + 1);
        assert(outs.subrange(0, i + 1).drop_last() =~= outs.subrange(0, i));
        assert(outs.subrange(0, i + 1).last() == outs[i]);
        lemma_invalid_count_nonneg_all(outs.subrange(0, i));
        match outs[i] {
            FetchOutcome::Records(rows) => {
                lemma_invalid_count_nonneg(rows_view(rows@));
            },
            FetchOutcome::Failed(_) => {},
        }
    } else {
        assert(outs.subrange(0, i) =~= outs);
    }
}

/// Validation-failure counts are nonnegative.
proof fn lemma_invalid_count_nonneg(rows: Seq<DomainRowV>)
    ensures
        0 <= invalid_count(rows) <= rows.len(),
    decreases rows.len(),
{
    if rows.len() > 0 {
        lemma_invalid_count_nonneg(rows.drop_last());
    }
}

/// Pass-wide validation-failure counts are nonnegative.
proof fn lemma_invalid_count_nonneg_all(outs: Seq<FetchOutcome>)
    ensures
        0 <= pass_invalid_count(outs),
    decreases outs.len(),
{
    if outs.len() > 0 {
        lemma_invalid_count_nonneg_all(outs.drop_last());
        match outs.last() {
            FetchOutcome::Records(rows) => {
                lemma_invalid_count_nonneg(rows_view(rows@));
            },
            FetchOutcome::Failed(_) => {},
        }
    }
}

/// How one server's response changes each key's record: the first valid row
/// with that key is written, unless the key already holds a record whose
/// epoch is at least the pass epoch; every other key is untouched.
pub proof fn lemma_apply_rows_lookup(
    doms: Seq<StoredDomainV>,
    rows: Seq<DomainRowV>,
    name: Seq<char>,
    ip: Seq<char>,
    e: u64,
)
    requires
        keys_unique(doms),
    ensures
        keys_unique(apply_rows_model(doms, rows, name, ip, e)),
        forall|k: (Seq<char>, Seq<char>)|
            #[trigger] lookup(apply_rows_model(doms, rows, name, ip, e), k) == (
            match first_valid_with_key(rows, name, k) {
                Some(r) => match lookup(doms, k) {
                    Some(d) => if d.last_confirmed_epoch >= e {
                        Some(d)
                    } else {
                        Some(attach(r, name, ip, e))
                    },
                    None => Some(attach(r, name, ip, e)),
                },
                None => lookup(doms, k),
            }),
    decreases rows.len(),
{
    if rows.len() == 0 {
    } else {
        let dl = rows.drop_last();
        let prev = apply_rows_model(doms, dl, name, ip, e);
        lemma_apply_rows_lookup(doms, dl, name, ip, e);
        let x = rows.last();
        if row_valid(x) {
            let nd = attach(x, name, ip, e);
            crate::store::lemma_upsert_lookup(prev, nd);
            assert(dom_key(nd) == (name, x.domain->Some_0));
            assert forall|k: (Seq<char>, Seq<char>)|
                #[trigger] lookup(apply_rows_model(doms, rows, name, ip, e), k) == (
                match first_valid_with_key(rows, name, k) {
                    Some(r) => match lookup(doms, k) {
                        Some(d) => if d.last_confirmed_epoch >= e {
                            Some(d)
                        } else {
                            Some(attach(r, name, ip, e))
                        },
                        None => Some(attach(r, name, ip, e)),
                    },
                    None => lookup(doms, k),
                }) by {
                if k == dom_key(nd) {
                    assert(name == k.0 && x.domain == Some(k.1));
                    match first_valid_with_key(dl, name, k) {
                        Some(r) => {
                            assert(first_valid_with_key(rows, name, k) == Some(r));
                        },
                        None => {
                            assert(first_valid_with_key(rows, name, k) == Some(x));
                        },
                    }
                } else {
                    if !(first_valid_with_key(rows, name, k) == first_valid_with_key(
                        dl,
                        name,
                        k,
                    )) {
                        assert(row_valid(x) && name == k.0 && x.domain == Some(k.1));
                        assert(dom_key(nd) == k);
                    }
                }
            }
        } else {
            assert(apply_rows_model(doms, rows, name, ip, e) == prev);
            assert forall|k: (Seq<char>, Seq<char>)|
                #[trigger] first_valid_with_key(rows, name, k) == first_valid_with_key(
                dl,
                name,
                k,
            ) by {}
        }
    }
}

/// The first record a pass would store under key `k`: the first valid row
/// carrying that key among the successful responses, taken in registry order
/// and attached to its server at the pass epoch.
pub open spec fn pass_first_write(
    servers: Seq<ServerV>,
    outs: Seq<FetchOutcome>,
    k: (Seq<char>, Seq<char>),
    e: u64,
) -> Option<StoredDomainV>
    decreases servers.len(),
{
    if servers.len() == 0 || outs.len() == 0 {
        None
    } else {
        match pass_first_write(servers.drop_last(), outs.drop_last(), k, e) {
            Some(d) => Some(d),
            None => match outs.last() {
                FetchOutcome::Records(rows) => match first_valid_with_key(
                    rows_view(rows@),
                    servers.last().name,
                    k,
                ) {
                    Some(r) => Some(attach(r, servers.last().name, servers.last().ip, e)),
                    None => None,
                },
                FetchOutcome::Failed(_) => None,
            },
        }
    }
}

/// A pass's first write for a key always carries the pass epoch.
proof fn lemma_pass_first_write_epoch(
    servers: Seq<ServerV>,
    outs: Seq<FetchOutcome>,
    k: (Seq<char>, Seq<char>),
    e: u64,
)
    ensures
        pass_first_write(servers, outs, k, e) is Some ==> pass_first_write(
            servers,
            outs,
            k,
            e,
        )->Some_0.last_confirmed_epoch == e,
    decreases servers.len(),
{
    if servers.len() == 0 || outs.len() == 0 {
    } else {
        lemma_pass_first_write_epoch(servers.drop_last(), outs.drop_last(), k, e);
    }
}

/// How the whole sequence of writes of a pass changes each key's record: the
/// pass's first write for the key is stored, unless the key already holds a
/// record whose epoch is at least the pass epoch; every other key is
/// untouched.
pub proof fn lemma_pass_writes_lookup(
    doms: Seq<StoredDomainV>,
    servers: Seq<ServerV>,
    outs: Seq<FetchOutcome>,
    e: u64,
)
    requires
        keys_unique(doms),
    ensures
        keys_unique(pass_writes_model(doms, servers, outs, e)),
        forall|k: (Seq<char>, Seq<char>)|
            #[trigger] lookup(pass_writes_model(doms, servers, outs, e), k) == (
            match pass_first_write(servers, outs, k, e) {
                Some(w) => match lookup(doms, k) {
                    Some(d) => if d.last_confirmed_epoch >= e {
                        Some(d)
                    } else {
                        Some(w)
                    },
                    None => Some(w),
                },
                None => lookup(doms, k),
            }),
    decreases servers.len(),
{
    if servers.len() == 0 || outs.len() == 0 {
    } else {
        let sdl = servers.drop_last();
        let odl = outs.drop_last();
        let prev = pass_writes_model(doms, sdl, odl, e);
        lemma_pass_writes_lookup(doms, sdl, odl, e);
        match outs.last() {
            FetchOutcome::Records(rows) => {
                let rv = rows_view(rows@);
                let name = servers.last().name;
                let ip = servers.last().ip;
                lemma_apply_rows_lookup(prev, rv, name, ip, e);
                assert forall|k: (Seq<char>, Seq<char>)|
                    #[trigger] lookup(pass_writes_model(doms, servers, outs, e), k) == (
                    match pass_first_write(servers, outs, k, e) {
                        Some(w) => match lookup(doms, k) {
                            Some(d) => if d.last_confirmed_epoch >= e {
                                Some(d)
                            } else {
                                Some(w)
                            },
                            None => Some(w),
                        },
                        None => lookup(doms, k),
                    }) by {
                    lemma_pass_first_write_epoch(sdl, odl, k, e);
                    match pass_first_write(sdl, odl, k, e) {
                        Some(w) => {
                            assert(pass_first_write(servers, outs, k, e) == Some(w));
                        },
                        None => {
                            assert(lookup(prev, k) == lookup(doms, k));
                        },
                    }
                }
            },
            FetchOutcome::Failed(_) => {
                assert(pass_writes_model(doms, servers, outs, e) == prev);
                assert forall|k: (Seq<char>, Seq<char>)|
                    #[trigger] pass_first_write(servers, outs, k, e) == pass_first_write(
                    sdl,
                    odl,
                    k,
                    e,
                ) by {}
            },
        }
    }
}

/// The whole pass, purge included: when every stored epoch lies below the
/// pass epoch, the store afterwards holds, for each key, exactly the pass's
/// first write for that key — reconfirmed keys their fresh record, all other
/// keys nothing.
pub proof fn lemma_pass_lookup(
    doms: Seq<StoredDomainV>,
    servers: Seq<ServerV>,
    outs: Seq<FetchOutcome>,
    e: u64,
)
    requires
        keys_unique(doms),
        epochs_below(doms, e),
    ensures
        keys_unique(pass_model(doms, servers, outs, e)),
        forall|k: (Seq<char>, Seq<char>)|
            #[trigger] lookup(pass_model(doms, servers, outs, e), k) == pass_first_write(
                servers,
                outs,
                k,
                e,
            ),
{
    let pw = pass_writes_model(doms, servers, outs, e);
    lemma_pass_writes_lookup(doms, servers, outs, e);
    crate::store::lemma_purge_lookup(pw, e);
    assert forall|k: (Seq<char>, Seq<char>)|
        #[trigger] lookup(pass_model(doms, servers, outs, e), k) == pass_first_write(
            servers,
            outs,
            k,
            e,
        ) by {
        lemma_pass_first_write_epoch(servers, outs, k, e);
        match lookup(doms, k) {
            Some(d) => {
                assert(has_key(doms, k));
                let i = crate::store::idx_of(doms, k);
                assert(0 <= i < doms.len() && dom_key(doms[i]) == k);
                assert(d == doms[i]);
                assert(d.last_confirmed_epoch < e);
            },
            None => {},
        }
    }
}

/// Staleness purge: a key not reconfirmed by any valid record of the pass is
/// absent from the store once the pass has run to completion.
pub proof fn lemma_staleness_purge(
    doms: Seq<StoredDomainV>,
    servers: Seq<ServerV>,
    outs: Seq<FetchOutcome>,
    e: u64,
    k: (Seq<char>, Seq<char>),
)
    requires
        keys_unique(doms),
        epochs_below(doms, e),
        pass_first_write(servers, outs, k, e) is None,
    ensures
        lookup(pass_model(doms, servers, outs, e), k) is None,
{
    lemma_pass_lookup(doms, servers, outs, e);
}

/// Every record that survives a completed pass carries the pass epoch.
pub proof fn lemma_pass_epochs(
    doms: Seq<StoredDomainV>,
    servers: Seq<ServerV>,
    outs: Seq<FetchOutcome>,
    e: u64,
)
    requires
        keys_unique(doms),
        epochs_below(doms, e),
    ensures
        forall|i: int|
            0 <= i < pass_model(doms, servers, outs, e).len() ==> (#[trigger] pass_model(
                doms,
                servers,
                outs,
                e,
            )[i]).last_confirmed_epoch == e,
{
    let pm = pass_model(doms, servers, outs, e);
    lemma_pass_lookup(doms, servers, outs, e);
    assert forall|i: int| 0 <= i < pm.len() implies (#[trigger] pm[i]).last_confirmed_epoch
        == e by {
        crate::store::lemma_lookup_index(pm, i);
        lemma_pass_first_write_epoch(servers, outs, dom_key(pm[i]), e);
        assert(lookup(pm, dom_key(pm[i])) == pass_first_write(servers, outs, dom_key(pm[i]), e));
    }
}

/// A pass's first writes do not depend on the epoch, except for the epoch
/// field they stamp.
proof fn lemma_pass_first_write_shift(
    servers: Seq<ServerV>,
    outs: Seq<FetchOutcome>,
    k: (Seq<char>, Seq<char>),
    e1: u64,
    e2: u64,
)
    ensures
        match (pass_first_write(servers, outs, k, e1), pass_first_write(servers, outs, k, e2)) {
            (Some(a), Some(b)) => a.server_name == b.server_name && a.server_ip == b.server_ip
                && a.row == b.row && a.last_confirmed_epoch == e1 && b.last_confirmed_epoch == e2,
            (None, None) => true,
            _ => false,
        },
    decreases servers.len(),
{
    if servers.len() == 0 || outs.len() == 0 {
    } else {
        lemma_pass_first_write_shift(servers.drop_last(), outs.drop_last(), k, e1, e2);
    }
}

/// Idempotence: running a pass twice over unchanged outcomes leaves the
/// record set and every non-epoch field identical; only the stored epoch
/// advances to the second pass's.
pub proof fn lemma_pass_idempotent(
    doms: Seq<StoredDomainV>,
    servers: Seq<ServerV>,
    outs: Seq<FetchOutcome>,
    e1: u64,
    e2: u64,
)
    requires
        keys_unique(doms),
        epochs_below(doms, e1),
        e1 < e2,
    ensures
        forall|k: (Seq<char>, Seq<char>)|
            match (
                #[trigger] lookup(pass_model(doms, servers, outs, e1), k),
                lookup(pass_model(pass_model(doms, servers, outs, e1), servers, outs, e2), k),
            ) {
                (Some(a), Some(b)) => a.server_name == b.server_name && a.server_ip
                    == b.server_ip && a.row == b.row && a.last_confirmed_epoch == e1
                    && b.last_confirmed_epoch == e2,
                (None, None) => true,
                _ => false,
            },
{
    let d1 = pass_model(doms, servers, outs, e1);
    lemma_pass_lookup(doms, servers, outs, e1);
    lemma_pass_epochs(doms, servers, outs, e1);
    assert(epochs_below(d1, e2));
    lemma_pass_lookup(d1, servers, outs, e2);
    assert forall|k: (Seq<char>, Seq<char>)|
        match (
            #[trigger] lookup(pass_model(doms, servers, outs, e1), k),
            lookup(pass_model(pass_model(doms, servers, outs, e1), servers, outs, e2), k),
        ) {
            (Some(a), Some(b)) => a.server_name == b.server_name && a.server_ip == b.server_ip
                && a.row == b.row && a.last_confirmed_epoch == e1 && b.last_confirmed_epoch
                == e2,
            (None, None) => true,
            _ => false,
        } by {
        lemma_pass_first_write_shift(servers, outs, k, e1, e2);
    }
}

/// The valid rows of a response, in order.
pub open spec fn valid_only(rows: Seq<DomainRowV>) -> Seq<DomainRowV>
    decreases rows.len(),
{
    if rows.len() == 0 {
        Seq::empty()
    } else {
        let rest = valid_only(rows.drop_last());
        if row_valid(rows.last()) {
            rest.push(rows.last())
        } else {
            rest
        }
    }
}

/// Validation isolation: a response acts on the store exactly as its valid
/// rows alone would, and the rows rejected count the remainder — invalid
/// rows affect no sibling record.
pub proof fn lemma_validation_isolation(
    doms: Seq<StoredDomainV>,
    rows: Seq<DomainRowV>,
    name: Seq<char>,
    ip: Seq<char>,
    e: u64,
)
    ensures
        apply_rows_model(doms, rows, name, ip, e) == apply_rows_model(
            doms,
            valid_only(rows),
            name,
            ip,
            e,
        ),
        invalid_count(rows) == rows.len() - valid_only(rows).len(),
        valid_only(rows).len() <= rows.len(),
    decreases rows.len(),
{
    if rows.len() == 0 {
    } else {
        let dl = rows.drop_last();
        lemma_validation_isolation(doms, dl, name, ip, e);
        if row_valid(rows.last()) {
            assert(valid_only(rows) == valid_only(dl).push(rows.last()));
            assert(valid_only(rows).drop_last() =~= valid_only(dl));
            assert(valid_only(rows).last() == rows.last());
        }
    }
}

/// A response holds a first valid row for key `k` exactly when it holds any
/// valid row for `k`.
proof fn lemma_first_valid_exists(rows: Seq<DomainRowV>, name: Seq<char>, k: (Seq<char>, Seq<char>))
    ensures
        (first_valid_with_key(rows, name, k) is Some) == (exists|j: int|
            0 <= j < rows.len() && row_valid(#[trigger] rows[j]) && name == k.0 && rows[j].domain
                == Some(k.1)),
    decreases rows.len(),
{
    if rows.len() == 0 {
    } else {
        let dl = rows.drop_last();
        lemma_first_valid_exists(dl, name, k);
        if first_valid_with_key(rows, name, k) is Some {
            if first_valid_with_key(dl, name, k) is Some {
                let j = choose|j: int|
                    0 <= j < dl.len() && row_valid(#[trigger] dl[j]) && name == k.0 && dl[j].domain
                        == Some(k.1);
                assert(rows[j] == dl[j]);
                assert(row_valid(rows[j]) && name == k.0 && rows[j].domain == Some(k.1));
            } else {
                assert(row_valid(rows[rows.len() - 1]) && name == k.0 && rows[rows.len()
                    - 1].domain == Some(k.1));
            }
        } else {
            if exists|j: int|
                0 <= j < rows.len() && row_valid(#[trigger] rows[j]) && name == k.0
                    && rows[j].domain == Some(k.1) {
                let j = choose|j: int|
                    0 <= j < rows.len() && row_valid(#[trigger] rows[j]) && name == k.0
                        && rows[j].domain == Some(k.1);
                if j < rows.len() - 1 {
                    assert(dl[j] == rows[j]);
                    assert(row_valid(dl[j]) && name == k.0 && dl[j].domain == Some(k.1));
                }
            }
        }
    }
}

/// Which keys a response reconfirms does not depend on the order of its rows:
/// two responses holding the same rows in any order accept the same keys.
pub proof fn lemma_acceptance_order_independent(
    doms: Seq<StoredDomainV>,
    rows1: Seq<DomainRowV>,
    rows2: Seq<DomainRowV>,
    name: Seq<char>,
    ip: Seq<char>,
    e: u64,
    k: (Seq<char>, Seq<char>),
)
    requires
        keys_unique(doms),
        rows1.to_multiset() == rows2.to_multiset(),
    ensures
        (lookup(apply_rows_model(doms, rows1, name, ip, e), k) is Some) == (lookup(
            apply_rows_model(doms, rows2, name, ip, e),
            k,
        ) is Some),
{
    broadcast use vstd::seq_lib::group_to_multiset_ensures;

    lemma_apply_rows_lookup(doms, rows1, name, ip, e);
    lemma_apply_rows_lookup(doms, rows2, name, ip, e);
    lemma_first_valid_exists(rows1, name, k);
    lemma_first_valid_exists(rows2, name, k);
    if exists|j: int|
        0 <= j < rows1.len() && row_valid(#[trigger] rows1[j]) && name == k.0 && rows1[j].domain
            == Some(k.1) {
        let j = choose|j: int|
            0 <= j < rows1.len() && row_valid(#[trigger] rows1[j]) && name == k.0
                && rows1[j].domain == Some(k.1);
        assert(rows1.contains(rows1[j]));
        assert(rows2.to_multiset().count(rows1[j]) > 0);
        assert(rows2.contains(rows1[j]));
        let t = choose|t: int| 0 <= t < rows2.len() && rows2[t] == rows1[j];
        assert(row_valid(rows2[t]) && name == k.0 && rows2[t].domain == Some(k.1));
    }
    if exists|j: int|
        0 <= j < rows2.len() && row_valid(#[trigger] rows2[j]) && name == k.0 && rows2[j].domain
            == Some(k.1) {
        let j = choose|j: int|
            0 <= j < rows2.len() && row_valid(#[trigger] rows2[j]) && name == k.0
                && rows2[j].domain == Some(k.1);
        assert(rows2.contains(rows2[j]));
        assert(rows1.to_multiset().count(rows2[j]) > 0);
        assert(rows1.contains(rows2[j]));
        let t = choose|t: int| 0 <= t < rows1.len() && rows1[t] == rows2[j];
        assert(row_valid(rows1[t]) && name == k.0 && rows1[t].domain == Some(k.1));
    }
}

/// Every valid record of a response is persisted: after the response is
/// reconciled, its key holds a record.
pub proof fn lemma_valid_rows_persisted(
    doms: Seq<StoredDomainV>,
    rows: Seq<DomainRowV>,
    name: Seq<char>,
    ip: Seq<char>,
    e: u64,
    j: int,
)
    requires
        keys_unique(doms),
        0 <= j < rows.len(),
        row_valid(rows[j]),
    ensures
        lookup(
            apply_rows_model(doms, rows, name, ip, e),
            (name, rows[j].domain->Some_0),
        ) is Some,
{
    let k = (name, rows[j].domain->Some_0);
    lemma_apply_rows_lookup(doms, rows, name, ip, e);
    lemma_first_valid_exists(rows, name, k);
    assert(rows[j].domain == Some(k.1));
}

/// Removing one row removes exactly its own contribution to the failure
/// count.
proof fn lemma_invalid_count_remove(rows: Seq<DomainRowV>, j: int)
    requires
        0 <= j < rows.len(),
    ensures
        invalid_count(rows) == invalid_count(rows.remove(j)) + (if row_valid(rows[j]) {
            0int
        } else {
            1int
        }),
    decreases rows.len(),
{
    if j == rows.len() - 1 {
        assert(rows.remove(j) =~= rows.drop_last());
    } else {
        assert(rows.remove(j).drop_last() =~= rows.drop_last().remove(j));
        assert(rows.remove(j).last() == rows.last());
        lemma_invalid_count_remove(rows.drop_last(), j);
    }
}

/// The validation-failure count does not depend on the order of a response's
/// rows.
pub proof fn lemma_failure_count_order_independent(rows1: Seq<DomainRowV>, rows2: Seq<DomainRowV>)
    requires
        rows1.to_multiset() == rows2.to_multiset(),
    ensures
        invalid_count(rows1) == invalid_count(rows2),
    decreases rows1.len(),
{
    broadcast use vstd::seq_lib::group_to_multiset_ensures;

    rows1.to_multiset_ensures();
    rows2.to_multiset_ensures();
    if rows1.len() == 0 {
        assert(rows2.len() == 0);
    } else {
        let x = rows1.last();
        assert(rows1.remove(rows1.len() - 1) =~= rows1.drop_last());
        assert(rows1.contains(x));
        assert(rows2.to_multiset().count(x) > 0);
        assert(rows2.contains(x));
        let t = choose|t: int| 0 <= t < rows2.len() && rows2[t] == x;
        assert(rows1.drop_last().to_multiset() =~= rows1.to_multiset().remove(x));
        assert(rows2.remove(t).to_multiset() =~= rows2.to_multiset().remove(x));
        lemma_failure_count_order_independent(rows1.drop_last(), rows2.remove(t));
        lemma_invalid_count_remove(rows2, t);
    }
}

} // verus!
