//! Models of the two durable stores: the scoped-token store and the
//! usage ledger. Each is an owned table with upsert semantics, the exact
//! behaviour the surrounding process relies on when it mirrors these
//! tables into a document store. Ledger counters only ever grow; token
//! records are immutable once issued.

use vstd::prelude::*;
use crate::ident::{dec_of, to_decimal, lemma_dec_of_injective};

verus! {

/// The durable store failed: unreachable, or a record did not decode.
#[derive(Clone, Copy, PartialEq, Eq, Structural, Debug)]
pub enum StorageError {
    Unreachable,
    Malformed,
}

/// A scoped token: issued once, immutable afterwards. It allows exactly
/// the endpoints listed at issuance; there is no expiry and no
/// revocation in the current scope (a documented limitation, not an
/// oversight).
pub struct ImageToken {
    pub created_at: i64,
    pub endpoints: Vec<String>,
}

/// Whether a token's scope covers `endpoint` (exact string match).
pub open spec fn token_allows(t: ImageToken, endpoint: Seq<char>) -> bool {
    exists|i: int| 0 <= i < t.endpoints@.len() && t.endpoints@[i]@ == endpoint
}

/// First-match lookup of a token by its identifier.
pub open spec fn lookup_token(s: Seq<(String, ImageToken)>, k: Seq<char>) -> Option<ImageToken>
    decreases s.len(),
{
    if s.len() == 0 {
        None
    } else if s[0].0@ == k {
        Some(s[0].1)
    } else {
        lookup_token(s.drop_first(), k)
    }
}

/// When the entry at `i` is the first whose key is `k`, the lookup
/// returns that entry's token.
proof fn lemma_lookup_token_at(s: Seq<(String, ImageToken)>, k: Seq<char>, i: int)
    requires
        0 <= i < s.len(),
        s[i].0@ == k,
        forall|j: int| 0 <= j < i ==> s[j].0@ != k,
    ensures
        lookup_token(s, k) == Some(s[i].1),
    decreases s.len(),
{
    if i > 0 {
        lemma_lookup_token_at(s.drop_first(), k, i - 1);
    }
}

/// When no entry's key is `k`, the lookup finds nothing.
proof fn lemma_lookup_token_none(s: Seq<(String, ImageToken)>, k: Seq<char>)
    requires
        forall|j: int| 0 <= j < s.len() ==> s[j].0@ != k,
    ensures
        lookup_token(s, k) is None,
    decreases s.len(),
{
    if s.len() > 0 {
        assert forall|j: int| 0 <= j < s.drop_first().len() implies s.drop_first()[j].0@ != k by {
            assert(s.drop_first()[j] == s[j + 1]);
        }
        lemma_lookup_token_none(s.drop_first(), k);
    }
}

/// Appending an entry leaves every other key's lookup unchanged and
/// makes the new key found.
proof fn lemma_lookup_token_push(s: Seq<(String, ImageToken)>, p: (String, ImageToken), k: Seq<char>)
    ensures
        lookup_token(s.push(p), k) == (if lookup_token(s, k) is Some {
            lookup_token(s, k)
        } else if p.0@ == k {
            Some(p.1)
        } else {
            None::<ImageToken>
        }),
    decreases s.len(),
{
    let pp = s.push(p);
    if s.len() == 0 {
        assert(pp.drop_first() =~= Seq::<(String, ImageToken)>::empty());
        assert(lookup_token(s, k) is None);
        assert(lookup_token(pp.drop_first(), k) is None);
        assert(pp[0] == p);
    } else {
        assert(pp.drop_first() =~= s.drop_first().push(p));
        lemma_lookup_token_push(s.drop_first(), p, k);
        assert(pp[0] == s[0]);
    }
}

/// Copies a list of endpoint names.
fn clone_strings(v: &Vec<String>) -> (r: Vec<String>)
    ensures
        r@ == v@,
{
    let mut out: Vec<String> = Vec::new();
    let n: usize = v.len();
    for i in 0..n
        invariant
            n == v@.len(),
            out@.len() == i,
            forall|j: int| 0 <= j < i ==> out@[j] == v@[j],
    {
        out.push(v[i].clone());
    }
    proof {
        assert(out@ =~= v@);
    }
    out
}

/// The scoped-token store: issues single-use-scoped tokens and answers
/// whether a token authorizes an endpoint. The store assigns each token
/// its primary key, and that exact key is what callers get back.
pub struct ImageTokens {
    pub pairs: Vec<(String, ImageToken)>,
}

impl ImageTokens {
    /// Every stored key is the decimal rendering of its position, so all
    /// keys are distinct.
    pub open spec fn wf(self) -> bool {
        forall|i: int| 0 <= i < self.pairs@.len() ==> self.pairs@[i].0@ == dec_of(i as nat)
    }

    /// The token stored under `id`, if any.
    pub open spec fn spec_lookup(self, id: Seq<char>) -> Option<ImageToken> {
        lookup_token(self.pairs@, id)
    }

    /// A fresh, empty store.
    pub fn new() -> (r: Self)
        ensures
            r.wf(),
            r.pairs@.len() == 0,
            forall|id: Seq<char>| r.spec_lookup(id) is None,
    {
        let r = ImageTokens { pairs: Vec::new() };
        proof {
            assert forall|id: Seq<char>| r.spec_lookup(id) is None by {
                lemma_lookup_token_none(r.pairs@, id);
            }
        }
        r
    }

    /// Issues a token allowing exactly `endpoints`, stores it, and
    /// returns the store-assigned identifier, which was bound to no
    /// earlier token.
    pub fn generate_endpoint_token(&mut self, endpoints: &Vec<String>, created_at: i64) -> (id:
        String)
        requires
            old(self).wf(),
        ensures
            final(self).wf(),
            id@ == dec_of(old(self).pairs@.len() as nat),
            old(self).spec_lookup(id@) is None,
            final(self).pairs@.len() == old(self).pairs@.len() + 1,
            final(self).spec_lookup(id@) matches Some(t) && t.created_at == created_at
                && t.endpoints@ == endpoints@,
            forall|id2: Seq<char>|
                id2 != id@ ==> final(self).spec_lookup(id2) == old(self).spec_lookup(id2),
    {
        let n: usize = self.pairs.len();
        let id: String = to_decimal(n as u64);
        let token = ImageToken { created_at, endpoints: clone_strings(endpoints) };
        proof {
            assert forall|j: int| 0 <= j < self.pairs@.len() implies self.pairs@[j].0@ != id@ by {
                if self.pairs@[j].0@ == id@ {
                    lemma_dec_of_injective(j as nat, n as nat);
                }
            }
            lemma_lookup_token_none(self.pairs@, id@);
            assert forall|id2: Seq<char>|
                lookup_token(self.pairs@.push((id, token)), id2) == (if lookup_token(
                    self.pairs@,
                    id2,
                ) is Some {
                    lookup_token(self.pairs@, id2)
                } else if id@ == id2 {
                    Some(token)
                } else {
                    None::<ImageToken>
                }) by {
                lemma_lookup_token_push(self.pairs@, (id, token), id2);
            }
        }
        let id_out = id.clone();
        self.pairs.push((id, token));
        id_out
    }

    /// Whether the token under `id` exists and allows `endpoint`. False
    /// for an unknown or malformed identifier and for an endpoint outside
    /// the token's scope: the check fails closed, it never errors.
    pub fn allows_endpoint(&self, id: &str, endpoint: &str) -> (r: bool)
        ensures
            r == (match self.spec_lookup(id@) {
                Some(t) => token_allows(t, endpoint@),
                None => false,
            }),
    {
        let key: String = id.to_owned();
        let n: usize = self.pairs.len();
        let mut found: Option<usize> = None;
        for i in 0..n
            invariant
                n == self.pairs@.len(),
                match found {
                    Some(fi) => fi < self.pairs@.len() && self.pairs@[fi as int].0@ == key@
                        && self.spec_lookup(key@) == Some(self.pairs@[fi as int].1),
                    None => forall|j: int| 0 <= j < i ==> self.pairs@[j].0@ != key@,
                },
        {
            if found.is_none() && self.pairs[i].0 == key {
                proof {
                    lemma_lookup_token_at(self.pairs@, key@, i as int);
                }
                found = Some(i);
            }
        }
        match found {
            Some(i) => {
                let wanted: String = endpoint.to_owned();
                let t = &self.pairs[i].1;
                let m: usize = t.endpoints.len();
                for j in 0..m
                    invariant
                        i < self.pairs@.len(),
                        m == t.endpoints@.len(),
                        t == self.pairs@[i as int].1,
                        self.spec_lookup(key@) == Some(self.pairs@[i as int].1),
                        key@ == id@,
                        wanted@ == endpoint@,
                        forall|l: int| 0 <= l < j ==> t.endpoints@[l]@ != endpoint@,
                {
                    if t.endpoints[j] == wanted {
                        proof {
                            let tok = self.pairs@[i as int].1;
                            assert(tok.endpoints@[j as int]@ == endpoint@);
                            assert(token_allows(tok, endpoint@));
                            assert(self.spec_lookup(id@) == Some(tok));
                        }
                        return true;
                    }
                }
                false
            },
            None => {
                proof {
                    lemma_lookup_token_none(self.pairs@, key@);
                }
                false
            },
        }
    }
}

/// Authorization fails closed: a token identifier that was never
/// issued authorizes nothing, whatever endpoint is asked about.
pub proof fn lemma_fail_closed(store: ImageTokens, id: Seq<char>, endpoint: Seq<char>)
    requires
        store.spec_lookup(id) is None,
    ensures
        !(match store.spec_lookup(id) {
            Some(t) => token_allows(t, endpoint),
            None => false,
        }),
{
}

/// One durable usage record: the endpoint name as primary key, the
/// timestamp of every request seen, and a running success total. The
/// request count is the length of the timestamp sequence; both it and
/// the success total only ever grow.
#[derive(Debug)]
pub struct StatsStruct {
    pub _id: String,
    pub requests: Vec<i64>,
    pub successful_responses: u32,
}

/// Copies a list of timestamps.
fn clone_i64s(v: &Vec<i64>) -> (r: Vec<i64>)
    ensures
        r@ == v@,
{
    let mut out: Vec<i64> = Vec::new();
    let n: usize = v.len();
    for i in 0..n
        invariant
            n == v@.len(),
            out@.len() == i,
            forall|j: int| 0 <= j < i ==> out@[j] == v@[j],
    {
        out.push(v[i]);
    }
    proof {
        assert(out@ =~= v@);
    }
    out
}

impl Clone for StatsStruct {
    /// A field-for-field copy.
    fn clone(&self) -> (r: Self)
        ensures
            r._id@ == self._id@,
            r.requests@ == self.requests@,
            r.successful_responses == self.successful_responses,
    {
        StatsStruct {
            _id: self._id.clone(),
            requests: clone_i64s(&self.requests),
            successful_responses: self.successful_responses,
        }
    }
}

/// Saturating increment for the ledger's success total.
pub open spec fn sat_inc32(x: u32) -> u32 {
    if x < u32::MAX {
        (x + 1) as u32
    } else {
        x
    }
}

/// First-match lookup of a ledger record by endpoint name.
pub open spec fn lookup_stats(s: Seq<StatsStruct>, k: Seq<char>) -> Option<StatsStruct>
    decreases s.len(),
{
    if s.len() == 0 {
        None
    } else if s[0]._id@ == k {
        Some(s[0])
    } else {
        lookup_stats(s.drop_first(), k)
    }
}

/// No two records share an endpoint name.
pub open spec fn unique_stats_keys(s: Seq<StatsStruct>) -> bool {
    forall|i: int, j: int| 0 <= i < j < s.len() ==> s[i]._id@ != s[j]._id@
}

/// When the record at `i` is the first whose key is `k`, the lookup
/// returns that record.
proof fn lemma_lookup_stats_at(s: Seq<StatsStruct>, k: Seq<char>, i: int)
    requires
        0 <= i < s.len(),
        s[i]._id@ == k,
        forall|j: int| 0 <= j < i ==> s[j]._id@ != k,
    ensures
        lookup_stats(s, k) == Some(s[i]),
    decreases s.len(),
{
    if i > 0 {
        lemma_lookup_stats_at(s.drop_first(), k, i - 1);
    }
}

/// When no record's key is `k`, the lookup finds nothing.
pub(crate) proof fn lemma_lookup_stats_none(s: Seq<StatsStruct>, k: Seq<char>)
    requires
        forall|j: int| 0 <= j < s.len() ==> s[j]._id@ != k,
    ensures
        lookup_stats(s, k) is None,
    decreases s.len(),
{
    if s.len() > 0 {
        assert forall|j: int| 0 <= j < s.drop_first().len() implies s.drop_first()[j]._id@ != k by {
            assert(s.drop_first()[j] == s[j + 1]);
        }
        lemma_lookup_stats_none(s.drop_first(), k);
    }
}

/// Appending a record leaves every other key's lookup unchanged and
/// makes the new key found.
pub(crate) proof fn lemma_lookup_stats_push(s: Seq<StatsStruct>, p: StatsStruct, k: Seq<char>)
    ensures
        lookup_stats(s.push(p), k) == (if lookup_stats(s, k) is Some {
            lookup_stats(s, k)
        } else if p._id@ == k {
            Some(p)
        } else {
            None::<StatsStruct>
        }),
    decreases s.len(),
{
    let pp = s.push(p);
    if s.len() == 0 {
        assert(pp.drop_first() =~= Seq::<StatsStruct>::empty());
        assert(lookup_stats(s, k) is None);
        assert(lookup_stats(pp.drop_first(), k) is None);
        assert(pp[0] == p);
    } else {
        assert(pp.drop_first() =~= s.drop_first().push(p));
        lemma_lookup_stats_push(s.drop_first(), p, k);
        assert(pp[0] == s[0]);
    }
}

/// Replacing the record at `i` while keeping its key changes only that
/// key's lookup, provided keys are unique.
proof fn lemma_lookup_stats_update(s: Seq<StatsStruct>, i: int, v: StatsStruct, k: Seq<char>)
    requires
        0 <= i < s.len(),
        unique_stats_keys(s),
        v._id@ == s[i]._id@,
    ensures
        lookup_stats(s.update(i, v), k) == (if s[i]._id@ == k {
            Some(v)
        } else {
            lookup_stats(s, k)
        }),
    decreases s.len(),
{
    if s.len() == 0 {
    } else if i == 0 {
        assert(s.update(0, v).drop_first() =~= s.drop_first());
    } else {
        assert(s.update(i, v).drop_first() =~= s.drop_first().update(i - 1, v));
        lemma_lookup_stats_update(s.drop_first(), i - 1, v, k);
    }
}

/// The durable usage ledger: one record per endpoint, created lazily on
/// first use (upsert semantics), append-only on timestamps, and never
/// decreasing in any count.
pub struct ApiStats {
    pub entries: Vec<StatsStruct>,
}

impl ApiStats {
    /// No two records share an endpoint name.
    pub open spec fn wf(self) -> bool {
        unique_stats_keys(self.entries@)
    }

    /// The record stored for `k`, if any.
    pub open spec fn spec_lookup(self, k: Seq<char>) -> Option<StatsStruct> {
        lookup_stats(self.entries@, k)
    }

    /// The request timestamps recorded for `k`, empty if `k` is absent.
    pub open spec fn ledger_requests(self, k: Seq<char>) -> Seq<i64> {
        match self.spec_lookup(k) {
            Some(e) => e.requests@,
            None => Seq::<i64>::empty(),
        }
    }

    /// The success total recorded for `k`, zero if `k` is absent.
    pub open spec fn ledger_successes(self, k: Seq<char>) -> u32 {
        match self.spec_lookup(k) {
            Some(e) => e.successful_responses,
            None => 0u32,
        }
    }

    /// A fresh, empty ledger.
    pub fn new() -> (r: Self)
        ensures
            r.wf(),
            r.entries@.len() == 0,
            forall|k: Seq<char>| r.spec_lookup(k) is None,
    {
        let r = ApiStats { entries: Vec::new() };
        proof {
            assert forall|k: Seq<char>| r.spec_lookup(k) is None by {
                lemma_lookup_stats_none(r.entries@, k);
            }
        }
        r
    }

    /// Finds the index of the record for `k`, if one exists.
    fn find(&self, k: &String) -> (r: Option<usize>)
        ensures
            match r {
                Some(i) => i < self.entries@.len() && self.entries@[i as int]._id@ == k@
                    && self.spec_lookup(k@) == Some(self.entries@[i as int]),
                None => self.spec_lookup(k@) is None,
            },
    {
        let n: usize = self.entries.len();
        for i in 0..n
            invariant
                n == self.entries@.len(),
                forall|j: int| 0 <= j < i ==> self.entries@[j]._id@ != k@,
        {
            if self.entries[i]._id == *k {
                proof {
                    lemma_lookup_stats_at(self.entries@, k@, i as int);
                }
                return Some(i);
            }
        }
        proof {
            lemma_lookup_stats_none(self.entries@, k@);
        }
        None
    }

    /// Appends the current timestamp to the endpoint's request sequence,
    /// creating the record if absent. The success total is deliberately
    /// left exactly as it was (the upsert carries a no-op increment for
    /// it), so record creation never invents a success.
    pub fn add_request(&mut self, id: &str, now: i64)
        requires
            old(self).wf(),
        ensures
            final(self).wf(),
            final(self).spec_lookup(id@) is Some,
            final(self).ledger_requests(id@) == old(self).ledger_requests(id@).push(now),
            final(self).ledger_successes(id@) == old(self).ledger_successes(id@),
            forall|k: Seq<char>| k != id@ ==> final(self).spec_lookup(k) == old(self).spec_lookup(k),
    {
        let key: String = id.to_owned();
        match self.find(&key) {
            Some(i) => {
                let e = &self.entries[i];
                let mut reqs = clone_i64s(&e.requests);
                reqs.push(now);
                let updated = StatsStruct {
                    _id: e._id.clone(),
                    requests: reqs,
                    successful_responses: e.successful_responses,
                };
                proof {
                    assert forall|k: Seq<char>|
                        lookup_stats(self.entries@.update(i as int, updated), k) == (if self.entries@[i as int]._id@ == k {
                            Some(updated)
                        } else {
                            lookup_stats(self.entries@, k)
                        }) by {
                        lemma_lookup_stats_update(self.entries@, i as int, updated, k);
                    }
                }
                self.entries.set(i, updated);
            },
            None => {
                let mut reqs: Vec<i64> = Vec::new();
                reqs.push(now);
                let fresh = StatsStruct { _id: key, requests: reqs, successful_responses: 0 };
                proof {
                    assert forall|j: int|
                        0 <= j < self.entries@.len() implies self.entries@[j]._id@ != fresh._id@ by {
                        if self.entries@[j]._id@ == fresh._id@ {
                            lemma_lookup_stats_some_of_match(self.entries@, fresh._id@, j);
                        }
                    }
                    assert forall|k: Seq<char>|
                        lookup_stats(self.entries@.push(fresh), k) == (if lookup_stats(
                            self.entries@,
                            k,
                        ) is Some {
                            lookup_stats(self.entries@, k)
                        } else if fresh._id@ == k {
                            Some(fresh)
                        } else {
                            None::<StatsStruct>
                        }) by {
                        lemma_lookup_stats_push(self.entries@, fresh, k);
                    }
                }
                self.entries.push(fresh);
            },
        }
    }

    /// Adds one to the endpoint's success total, creating the record if
    /// absent (a success with no recorded request is legal: the two
    /// counts are independent).
    pub fn add_successful_response(&mut self, id: &str)
        requires
            old(self).wf(),
        ensures
            final(self).wf(),
            final(self).spec_lookup(id@) is Some,
            final(self).ledger_requests(id@) == old(self).ledger_requests(id@),
            final(self).ledger_successes(id@) == sat_inc32(old(self).ledger_successes(id@)),
            forall|k: Seq<char>| k != id@ ==> final(self).spec_lookup(k) == old(self).spec_lookup(k),
    {
        let key: String = id.to_owned();
        match self.find(&key) {
            Some(i) => {
                let e = &self.entries[i];
                let updated = StatsStruct {
                    _id: e._id.clone(),
                    requests: clone_i64s(&e.requests),
                    successful_responses: e.successful_responses.saturating_add(1),
                };
                proof {
                    assert forall|k: Seq<char>|
                        lookup_stats(self.entries@.update(i as int, updated), k) == (if self.entries@[i as int]._id@ == k {
                            Some(updated)
                        } else {
                            lookup_stats(self.entries@, k)
                        }) by {
                        lemma_lookup_stats_update(self.entries@, i as int, updated, k);
                    }
                }
                self.entries.set(i, updated);
            },
            None => {
                let fresh = StatsStruct {
                    _id: key,
                    requests: Vec::new(),
                    successful_responses: 1,
                };
                proof {
                    assert forall|j: int|
                        0 <= j < self.entries@.len() implies self.entries@[j]._id@ != fresh._id@ by {
                        if self.entries@[j]._id@ == fresh._id@ {
                            lemma_lookup_stats_some_of_match(self.entries@, fresh._id@, j);
                        }
                    }
                    assert forall|k: Seq<char>|
                        lookup_stats(self.entries@.push(fresh), k) == (if lookup_stats(
                            self.entries@,
                            k,
                        ) is Some {
                            lookup_stats(self.entries@, k)
                        } else if fresh._id@ == k {
                            Some(fresh)
                        } else {
                            None::<StatsStruct>
                        }) by {
                        lemma_lookup_stats_push(self.entries@, fresh, k);
                    }
                }
                self.entries.push(fresh);
            },
        }
    }

    /// A full scan for reporting: a copy of every record. On this owned
    /// table a scan cannot fail; the error side is the durable store's
    /// alone, and a caller that reads from one maps its failure to
    /// `StorageError` before it reaches this type.
    pub fn get_all_stats(&self) -> (r: Result<Vec<StatsStruct>, StorageError>)
        ensures
            r matches Ok(v) && v@.len() == self.entries@.len(),
            r matches Ok(v) ==> forall|i: int|
                0 <= i < v@.len() ==> v@[i]._id@ == self.entries@[i]._id@ && v@[i].requests@
                    == self.entries@[i].requests@ && v@[i].successful_responses
                    == self.entries@[i].successful_responses,
    {
        let mut out: Vec<StatsStruct> = Vec::new();
        let n: usize = self.entries.len();
        for i in 0..n
            invariant
                n == self.entries@.len(),
                out@.len() == i,
                forall|j: int|
                    0 <= j < i ==> out@[j]._id@ == self.entries@[j]._id@ && out@[j].requests@
                        == self.entries@[j].requests@ && out@[j].successful_responses
                        == self.entries@[j].successful_responses,
        {
            out.push(self.entries[i].clone());
        }
        Ok(out)
    }
}

/// When some record's key is `k`, the lookup finds one.
proof fn lemma_lookup_stats_some_of_match(s: Seq<StatsStruct>, k: Seq<char>, i: int)
    requires
        0 <= i < s.len(),
        s[i]._id@ == k,
    ensures
        lookup_stats(s, k) is Some,
    decreases s.len(),
{
    if s[0]._id@ != k {
        assert(s.drop_first()[i - 1] == s[i]);
        lemma_lookup_stats_some_of_match(s.drop_first(), k, i - 1);
    }
}

/// The records of a scan that decoded, in scan order; malformed ones
/// are skipped rather than failing the whole scan.
pub open spec fn decoded_of(s: Seq<Option<StatsStruct>>) -> Seq<StatsStruct>
    decreases s.len(),
{
    if s.len() == 0 {
        Seq::<StatsStruct>::empty()
    } else {
        match s[0] {
            Some(e) => seq![e] + decoded_of(s.drop_first()),
            None => decoded_of(s.drop_first()),
        }
    }
}

/// Keeps the records of a scan that decoded and drops the malformed
/// ones, preserving order: the partial-failure tolerance of a full
/// ledger scan.
pub fn collect_decoded(docs: Vec<Option<StatsStruct>>) -> (r: Vec<StatsStruct>)
    ensures
        r@ == decoded_of(docs@),
{
    let mut rest = docs;
    let mut out: Vec<StatsStruct> = Vec::new();
    while rest.len() > 0
        invariant
            decoded_of(docs@) == out@ + decoded_of(rest@),
        decreases rest@.len(),
    {
        let ghost pre = rest@;
        let d = rest.remove(0);
        proof {
            assert(rest@ =~= pre.drop_first());
        }
        match d {
            Some(e) => {
                proof {
                    assert(decoded_of(pre) =~= seq![e] + decoded_of(pre.drop_first()));
                    assert(out@ + decoded_of(pre) =~= out@.push(e) + decoded_of(pre.drop_first()));
                }
                out.push(e);
            },
            None => {},
        }
    }
    proof {
        assert(decoded_of(rest@) =~= Seq::<StatsStruct>::empty());
        assert(out@ + decoded_of(rest@) =~= out@);
    }
    out
}

} // verus!
