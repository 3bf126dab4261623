//! In-memory, process-lifetime tallying of requests and successful
//! responses per endpoint. The table is volatile: it starts empty at
//! process start and is never persisted. Counters are never decremented
//! and entries are never removed.

use vstd::prelude::*;

verus! {

/// Tallies for one endpoint: how many requests arrived and how many
/// completed successfully. The two counters are independent by design:
/// a success can be recorded without a prior request tick, in which case
/// `successful_responses` exceeds `requests`.
#[derive(Clone, Copy, PartialEq, Eq, Structural, Debug)]
pub struct Endpoint {
    pub requests: u64,
    pub successful_responses: u64,
}

impl Default for Endpoint {
    fn default() -> (r: Self)
        ensures
            r == (Endpoint { requests: 0, successful_responses: 0 }),
    {
        Endpoint { requests: 0, successful_responses: 0 }
    }
}

/// The tally a table reports for an endpoint it has never seen.
pub open spec fn zero_tally() -> Endpoint {
    Endpoint { requests: 0, successful_responses: 0 }
}

/// Saturating increment: counters never decrease and never wrap.
pub open spec fn sat_inc(x: u64) -> u64 {
    if x < u64::MAX {
        (x + 1) as u64
    } else {
        x
    }
}

/// The tally after one more request arrived.
pub open spec fn bump_request(t: Endpoint) -> Endpoint {
    Endpoint { requests: sat_inc(t.requests), successful_responses: t.successful_responses }
}

/// The tally after one more successful response.
pub open spec fn bump_success(t: Endpoint) -> Endpoint {
    Endpoint { requests: t.requests, successful_responses: sat_inc(t.successful_responses) }
}

/// The tally after one fully successful call: a request tick followed by
/// a success tick.
pub open spec fn called_once(t: Endpoint) -> Endpoint {
    bump_success(bump_request(t))
}

/// The tally after `n` fully successful calls.
pub open spec fn called_n(t: Endpoint, n: nat) -> Endpoint
    decreases n,
{
    if n == 0 {
        t
    } else {
        called_once(called_n(t, (n - 1) as nat))
    }
}

/// Starting from an endpoint never seen, `n` fully successful calls
/// leave exactly `n` requests and `n` successes on its tally: the live
/// snapshot agrees with the number of calls made.
pub proof fn lemma_cross_endpoint_accuracy(n: nat)
    requires
        n <= u64::MAX,
    ensures
        called_n(zero_tally(), n) == (Endpoint {
            requests: n as u64,
            successful_responses: n as u64,
        }),
    decreases n,
{
    if n > 0 {
        lemma_cross_endpoint_accuracy((n - 1) as nat);
    }
}

/// Recording a success for an endpoint with no prior request is legal
/// and leaves exactly zero requests and one success: the two counters
/// are independent, and the quirk is preserved, not repaired.
pub proof fn lemma_success_without_request(c: EndpointCounter, k: Seq<char>)
    requires
        c.spec_get(k) is None,
    ensures
        bump_success(c.tally(k)) == (Endpoint { requests: 0, successful_responses: 1 }),
{
}

/// First-match lookup in an association list of endpoint tallies.
pub open spec fn lookup_tally(s: Seq<(String, Endpoint)>, k: Seq<char>) -> Option<Endpoint>
    decreases s.len(),
{
    if s.len() == 0 {
        None
    } else if s[0].0@ == k {
        Some(s[0].1)
    } else {
        lookup_tally(s.drop_first(), k)
    }
}

/// No two entries share an endpoint name.
pub open spec fn unique_tally_keys(s: Seq<(String, Endpoint)>) -> bool {
    forall|i: int, j: int| 0 <= i < j < s.len() ==> s[i].0@ != s[j].0@
}

/// The tally recorded for `k`, or zeros if `k` was never seen.
pub open spec fn tally_or_zero(o: Option<Endpoint>) -> Endpoint {
    match o {
        Some(t) => t,
        None => zero_tally(),
    }
}

/// Appending an entry leaves every earlier key's lookup unchanged and
/// makes the new key found exactly when it was absent before.
pub proof fn lemma_lookup_tally_push(s: Seq<(String, Endpoint)>, p: (String, Endpoint), k: Seq<char>)
    ensures
        lookup_tally(s.push(p), k) == (if lookup_tally(s, k) is Some {
            lookup_tally(s, k)
        } else if p.0@ == k {
            Some(p.1)
        } else {
            None::<Endpoint>
        }),
    decreases s.len(),
{
    let pp = s.push(p);
    if s.len() == 0 {
        assert(pp.drop_first() =~= Seq::<(String, Endpoint)>::empty());
        assert(lookup_tally(s, k) is None);
        assert(lookup_tally(pp.drop_first(), k) is None);
        assert(pp[0] == p);
    } else {
        assert(pp.drop_first() =~= s.drop_first().push(p));
        lemma_lookup_tally_push(s.drop_first(), p, k);
        assert(pp[0] == s[0]);
    }
}

/// Replacing the entry at `i` (keeping its key) changes only that key's
/// lookup, provided keys are unique.
pub proof fn lemma_lookup_tally_update(s: Seq<(String, Endpoint)>, i: int, v: Endpoint, k: Seq<char>)
    requires
        0 <= i < s.len(),
        unique_tally_keys(s),
    ensures
        lookup_tally(s.update(i, (s[i].0, v)), k) == (if s[i].0@ == k {
            Some(v)
        } else {
            lookup_tally(s, k)
        }),
    decreases s.len(),
{
    if s.len() == 0 {
    } else if i == 0 {
        assert(s.update(0, (s[0].0, v)).drop_first() =~= s.drop_first());
    } else {
        assert(s.update(i, (s[i].0, v)).drop_first() =~= s.drop_first().update(
            i - 1,
            (s.drop_first()[i - 1].0, v),
        ));
        lemma_lookup_tally_update(s.drop_first(), i - 1, v, k);
    }
}

/// When the entry at `i` is the first whose key is `k`, the lookup
/// returns exactly that entry's tally.
pub proof fn lemma_lookup_tally_at(s: Seq<(String, Endpoint)>, k: Seq<char>, i: int)
    requires
        0 <= i < s.len(),
        s[i].0@ == k,
        forall|j: int| 0 <= j < i ==> s[j].0@ != k,
    ensures
        lookup_tally(s, k) == Some(s[i].1),
    decreases s.len(),
{
    if i > 0 {
        lemma_lookup_tally_at(s.drop_first(), k, i - 1);
    }
}

/// When no entry's key is `k`, the lookup finds nothing.
pub proof fn lemma_lookup_tally_none(s: Seq<(String, Endpoint)>, k: Seq<char>)
    requires
        forall|j: int| 0 <= j < s.len() ==> s[j].0@ != k,
    ensures
        lookup_tally(s, k) is None,
    decreases s.len(),
{
    if s.len() > 0 {
        assert forall|j: int| 0 <= j < s.drop_first().len() implies s.drop_first()[j].0@ != k by {
            assert(s.drop_first()[j] == s[j + 1]);
        }
        lemma_lookup_tally_none(s.drop_first(), k);
    }
}

/// When some entry's key is `k`, the lookup finds one.
pub proof fn lemma_lookup_tally_some_of_match(s: Seq<(String, Endpoint)>, k: Seq<char>, i: int)
    requires
        0 <= i < s.len(),
        s[i].0@ == k,
    ensures
        lookup_tally(s, k) is Some,
    decreases s.len(),
{
    if s[0].0@ != k {
        assert(s.drop_first()[i - 1] == s[i]);
        lemma_lookup_tally_some_of_match(s.drop_first(), k, i - 1);
    }
}

/// Finds the index of the entry for `k`, if one exists.
pub(crate) fn find_tally(entries: &Vec<(String, Endpoint)>, k: &String) -> (r: Option<usize>)
    ensures
        match r {
            Some(i) => i < entries@.len() && entries@[i as int].0@ == k@ && lookup_tally(
                entries@,
                k@,
            ) == Some(entries@[i as int].1),
            None => lookup_tally(entries@, k@) is None,
        },
{
    let n: usize = entries.len();
    for i in 0..n
        invariant
            n == entries@.len(),
            forall|j: int| 0 <= j < i ==> entries@[j].0@ != k@,
    {
        if entries[i].0 == *k {
            proof {
                lemma_lookup_tally_at(entries@, k@, i as int);
            }
            return Some(i);
        }
    }
    proof {
        lemma_lookup_tally_none(entries@, k@);
    }
    None
}

/// A snapshot of per-endpoint tallies: an owned copy of the table,
/// detached from the live counter.
pub struct Usage {
    pub entries: Vec<(String, Endpoint)>,
}

impl Usage {
    /// No two entries share a key.
    pub open spec fn wf(self) -> bool {
        unique_tally_keys(self.entries@)
    }

    /// The tally recorded for `k`, if any.
    pub open spec fn spec_get(self, k: Seq<char>) -> Option<Endpoint> {
        lookup_tally(self.entries@, k)
    }

    /// Point lookup by endpoint name.
    pub fn get(&self, k: &str) -> (r: Option<Endpoint>)
        ensures
            r == self.spec_get(k@),
    {
        let owned: String = k.to_owned();
        match find_tally(&self.entries, &owned) {
            Some(i) => Some(self.entries[i].1),
            None => None,
        }
    }
}

/// The in-memory, process-lifetime request/success counter: one tally per
/// distinct endpoint name seen since process start.
pub struct EndpointCounter {
    pub entries: Vec<(String, Endpoint)>,
}

impl EndpointCounter {
    /// No two entries share a key.
    pub open spec fn wf(self) -> bool {
        unique_tally_keys(self.entries@)
    }

    /// The tally recorded for `k`, if any.
    pub open spec fn spec_get(self, k: Seq<char>) -> Option<Endpoint> {
        lookup_tally(self.entries@, k)
    }

    /// The tally for `k`, counting zeros for an endpoint never seen.
    pub open spec fn tally(self, k: Seq<char>) -> Endpoint {
        tally_or_zero(self.spec_get(k))
    }

    /// A fresh, empty counter.
    pub fn new() -> (r: Self)
        ensures
            r.wf(),
            forall|k: Seq<char>| r.spec_get(k) is None,
    {
        let r = EndpointCounter { entries: Vec::new() };
        proof {
            assert forall|k: Seq<char>| r.spec_get(k) is None by {
                lemma_lookup_tally_none(r.entries@, k);
            }
        }
        r
    }

    /// Counts one more request for `endpoint`, creating the record with
    /// default zeros if absent. Never removes or decreases anything.
    pub fn record_request(&mut self, endpoint: &str)
        requires
            old(self).wf(),
        ensures
            final(self).wf(),
            final(self).spec_get(endpoint@) == Some(bump_request(old(self).tally(endpoint@))),
            forall|k: Seq<char>|
                k != endpoint@ ==> final(self).spec_get(k) == old(self).spec_get(k),
            forall|k: Seq<char>|
                #![trigger final(self).tally(k)]
                old(self).tally(k).requests <= final(self).tally(k).requests && old(self).tally(
                    k,
                ).successful_responses <= final(self).tally(k).successful_responses,
    {
        let key: String = endpoint.to_owned();
        match find_tally(&self.entries, &key) {
            Some(i) => {
                let name = self.entries[i].0.clone();
                let t = self.entries[i].1;
                let bumped = Endpoint {
                    requests: t.requests.saturating_add(1),
                    successful_responses: t.successful_responses,
                };
                proof {
                    assert forall|k: Seq<char>|
                        lookup_tally(
                            self.entries@.update(i as int, (self.entries@[i as int].0, bumped)),
                            k,
                        ) == (if self.entries@[i as int].0@ == k {
                            Some(bumped)
                        } else {
                            lookup_tally(self.entries@, k)
                        }) by {
                        lemma_lookup_tally_update(self.entries@, i as int, bumped, k);
                    }
                }
                self.entries.set(i, (name, bumped));
            },
            None => {
                let fresh = Endpoint { requests: 1, successful_responses: 0 };
                proof {
                    assert forall|j: int|
                        0 <= j < self.entries@.len() implies self.entries@[j].0@ != key@ by {
                        if self.entries@[j].0@ == key@ {
                            lemma_lookup_tally_some_of_match(self.entries@, key@, j);
                        }
                    }
                    assert forall|k: Seq<char>|
                        lookup_tally(self.entries@.push((key, fresh)), k) == (if lookup_tally(
                            self.entries@,
                            k,
                        ) is Some {
                            lookup_tally(self.entries@, k)
                        } else if key@ == k {
                            Some(fresh)
                        } else {
                            None::<Endpoint>
                        }) by {
                        lemma_lookup_tally_push(self.entries@, (key, fresh), k);
                    }
                }
                self.entries.push((key, fresh));
            },
        }
    }

    /// Counts one more successful response for `endpoint`. Creating the
    /// record on first use is deliberate: a success recorded with no
    /// prior request yields `requests == 0, successful_responses == 1`
    /// (the two counters are independent, never paired up afterwards).
    pub fn record_success(&mut self, endpoint: &str)
        requires
            old(self).wf(),
        ensures
            final(self).wf(),
            final(self).spec_get(endpoint@) == Some(bump_success(old(self).tally(endpoint@))),
            forall|k: Seq<char>|
                k != endpoint@ ==> final(self).spec_get(k) == old(self).spec_get(k),
            forall|k: Seq<char>|
                #![trigger final(self).tally(k)]
                old(self).tally(k).requests <= final(self).tally(k).requests && old(self).tally(
                    k,
                ).successful_responses <= final(self).tally(k).successful_responses,
    {
        let key: String = endpoint.to_owned();
        match find_tally(&self.entries, &key) {
            Some(i) => {
                let name = self.entries[i].0.clone();
                let t = self.entries[i].1;
                let bumped = Endpoint {
                    requests: t.requests,
                    successful_responses: t.successful_responses.saturating_add(1),
                };
                proof {
                    assert forall|k: Seq<char>|
                        lookup_tally(
                            self.entries@.update(i as int, (self.entries@[i as int].0, bumped)),
                            k,
                        ) == (if self.entries@[i as int].0@ == k {
                            Some(bumped)
                        } else {
                            lookup_tally(self.entries@, k)
                        }) by {
                        lemma_lookup_tally_update(self.entries@, i as int, bumped, k);
                    }
                }
                self.entries.set(i, (name, bumped));
            },
            None => {
                let fresh = Endpoint { requests: 0, successful_responses: 1 };
                proof {
                    assert forall|j: int|
                        0 <= j < self.entries@.len() implies self.entries@[j].0@ != key@ by {
                        if self.entries@[j].0@ == key@ {
                            lemma_lookup_tally_some_of_match(self.entries@, key@, j);
                        }
                    }
                    assert forall|k: Seq<char>|
                        lookup_tally(self.entries@.push((key, fresh)), k) == (if lookup_tally(
                            self.entries@,
                            k,
                        ) is Some {
                            lookup_tally(self.entries@, k)
                        } else if key@ == k {
                            Some(fresh)
                        } else {
                            None::<Endpoint>
                        }) by {
                        lemma_lookup_tally_push(self.entries@, (key, fresh), k);
                    }
                }
                self.entries.push((key, fresh));
            },
        }
    }

    /// An owned copy of the whole table, point-in-time consistent per
    /// record.
    pub fn snapshot(&self) -> (r: Usage)
        requires
            self.wf(),
        ensures
            r.wf(),
            forall|k: Seq<char>| r.spec_get(k) == self.spec_get(k),
    {
        let mut out: Vec<(String, Endpoint)> = Vec::new();
        let n: usize = self.entries.len();
        for i in 0..n
            invariant
                n == self.entries@.len(),
                out@.len() == i,
                forall|j: int| 0 <= j < i ==> out@[j] == self.entries@[j],
        {
            let name = self.entries[i].0.clone();
            let t = self.entries[i].1;
            out.push((name, t));
        }
        proof {
            assert(out@ =~= self.entries@);
        }
        Usage { entries: out }
    }
}

} // verus!
