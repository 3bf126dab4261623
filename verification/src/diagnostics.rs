//! The diagnostics aggregator: one report that merges the live
//! per-endpoint counter, the durable usage ledger, and a liveness probe
//! of the downstream command backend. The endpoint counts itself, and
//! does so in a fixed order: its own request tick lands before the
//! report is built, its own success tick after, so each report shows
//! the successes of strictly earlier calls.

use vstd::prelude::*;
use crate::counter::{
    Endpoint, EndpointCounter, Usage, bump_request, called_once, lookup_tally,
    lemma_lookup_tally_push,
};
use crate::models::{
    ApiStats, StatsStruct, lookup_stats, lemma_lookup_stats_none, lemma_lookup_stats_push,
};
use crate::Gateway;

verus! {

/// The outcome of one liveness probe of the command backend: whether a
/// well-formed reply arrived within the bounded wait, and how long the
/// round trip took. A failed probe is an ordinary value, never an error.
#[derive(Clone, Copy, PartialEq, Eq, Structural, Debug)]
pub struct IpcInfo {
    pub success: bool,
    pub latency_ms: u64,
}

/// The merged diagnostics report: the probe outcome and one usage row
/// per endpoint. Built fresh per request, never persisted.
pub struct DiagnosticsResonse {
    pub ipc: IpcInfo,
    pub usage: Usage,
}

/// A ledger record read as a usage row: the request count is the number
/// of recorded timestamps.
pub open spec fn ledger_tally(e: StatsStruct) -> Endpoint {
    Endpoint {
        requests: e.requests@.len() as u64,
        successful_responses: e.successful_responses as u64,
    }
}

/// One merged usage row: the live in-process tally where the endpoint
/// was hit since restart, else the durable ledger row filling the gap.
pub open spec fn merged_tally(mem: Option<Endpoint>, led: Option<StatsStruct>) -> Option<Endpoint> {
    match mem {
        Some(t) => Some(t),
        None => match led {
            Some(e) => Some(ledger_tally(e)),
            None => None,
        },
    }
}

/// Merges a counter snapshot over the ledger's records: live rows win,
/// ledger rows fill in endpoints not hit since process start.
pub fn merge_usage(mem: Usage, ledger: &ApiStats) -> (r: Usage)
    requires
        mem.wf(),
        ledger.wf(),
    ensures
        r.wf(),
        forall|k: Seq<char>|
            #![trigger r.spec_get(k)]
            r.spec_get(k) == merged_tally(mem.spec_get(k), ledger.spec_lookup(k)),
{
    let ghost base = mem.entries@;
    let mut out = mem;
    let n: usize = ledger.entries.len();
    for i in 0..n
        invariant
            n == ledger.entries@.len(),
            ledger.wf(),
            out.wf(),
            forall|k: Seq<char>|
                #![trigger lookup_tally(out.entries@, k)]
                lookup_tally(out.entries@, k) == merged_tally(
                    lookup_tally(base, k),
                    lookup_stats(ledger.entries@.subrange(0, i as int), k),
                ),
    {
        let e = &ledger.entries[i];
        proof {
            assert(ledger.entries@.subrange(0, i + 1) =~= ledger.entries@.subrange(
                0,
                i as int,
            ).push(ledger.entries@[i as int]));
            assert forall|k: Seq<char>|
                lookup_stats(ledger.entries@.subrange(0, i + 1), k) == (if lookup_stats(
                    ledger.entries@.subrange(0, i as int),
                    k,
                ) is Some {
                    lookup_stats(ledger.entries@.subrange(0, i as int), k)
                } else if ledger.entries@[i as int]._id@ == k {
                    Some(ledger.entries@[i as int])
                } else {
                    None::<StatsStruct>
                }) by {
                lemma_lookup_stats_push(
                    ledger.entries@.subrange(0, i as int),
                    ledger.entries@[i as int],
                    k,
                );
            }
            assert forall|j: int|
                0 <= j < i implies ledger.entries@.subrange(0, i as int)[j]._id@
                != ledger.entries@[i as int]._id@ by {
                assert(ledger.entries@.subrange(0, i as int)[j] == ledger.entries@[j]);
            }
            lemma_lookup_stats_none(
                ledger.entries@.subrange(0, i as int),
                ledger.entries@[i as int]._id@,
            );
        }
        match crate::counter::find_tally(&out.entries, &e._id) {
            Some(_) => {},
            None => {
                let row = Endpoint {
                    requests: e.requests.len() as u64,
                    successful_responses: e.successful_responses as u64,
                };
                let p = (e._id.clone(), row);
                proof {
                    assert forall|k: Seq<char>|
                        lookup_tally(out.entries@.push(p), k) == (if lookup_tally(
                            out.entries@,
                            k,
                        ) is Some {
                            lookup_tally(out.entries@, k)
                        } else if p.0@ == k {
                            Some(p.1)
                        } else {
                            None::<Endpoint>
                        }) by {
                        lemma_lookup_tally_push(out.entries@, p, k);
                    }
                    assert forall|j: int|
                        0 <= j < out.entries@.len() implies out.entries@[j].0@ != p.0@ by {
                        if out.entries@[j].0@ == p.0@ {
                            crate::counter::lemma_lookup_tally_some_of_match(
                                out.entries@,
                                p.0@,
                                j,
                            );
                        }
                    }
                    assert(row == ledger_tally(ledger.entries@[i as int]));
                }
                out.entries.push(p);
            },
        }
    }
    proof {
        assert(ledger.entries@.subrange(0, n as int) =~= ledger.entries@);
    }
    out
}

/// Handles one call of the diagnostics endpoint. The caller supplies the
/// probe outcome (the backend exchange happens outside this state) and
/// the current time for the ledger mirror.
///
/// A wrong key is denied outright: no report, and no counter or ledger
/// movement on the denial path. With the right key, the endpoint first
/// counts its own request, then builds the report from the live
/// snapshot merged over the ledger, and only afterwards counts its own
/// success and mirrors both ticks into the ledger — so the report shows
/// this very request but only strictly earlier successes.
pub fn get_diagnostics(gw: &mut Gateway, api_key: &str, probe: IpcInfo, now: i64) -> (r: Option<
    DiagnosticsResonse,
>)
    requires
        old(gw).wf(),
    ensures
        final(gw).wf(),
        final(gw).config == old(gw).config,
        final(gw).tokens == old(gw).tokens,
        (r is Some) <==> api_key@ == old(gw).config.key(),
        api_key@ != old(gw).config.key() ==> final(gw).counter == old(gw).counter
            && final(gw).stats == old(gw).stats,
        r matches Some(rep) ==> rep.ipc == probe && rep.usage.wf() && (forall|k: Seq<char>|
            #![trigger rep.usage.spec_get(k)]
            rep.usage.spec_get(k) == merged_tally(
                if k == "/diagnostics"@ {
                    Some(bump_request(old(gw).counter.tally(k)))
                } else {
                    old(gw).counter.spec_get(k)
                },
                old(gw).stats.spec_lookup(k),
            )),
        r is Some ==> final(gw).counter.spec_get("/diagnostics"@) == Some(
            called_once(old(gw).counter.tally("/diagnostics"@)),
        ) && (forall|k: Seq<char>|
            k != "/diagnostics"@ ==> final(gw).counter.spec_get(k) == old(gw).counter.spec_get(k)),
        r is Some ==> final(gw).stats.ledger_requests("/diagnostics"@)
            == old(gw).stats.ledger_requests("/diagnostics"@).push(now)
            && final(gw).stats.ledger_successes("/diagnostics"@)
            == crate::models::sat_inc32(old(gw).stats.ledger_successes("/diagnostics"@))
            && (forall|k: Seq<char>|
            k != "/diagnostics"@ ==> final(gw).stats.spec_lookup(k)
                == old(gw).stats.spec_lookup(k)),
{
    if !gw.config.check_key(api_key) {
        return None;
    }
    gw.counter.record_request("/diagnostics");
    let snap = gw.counter.snapshot();
    let usage = merge_usage(snap, &gw.stats);
    let report = DiagnosticsResonse { ipc: probe, usage };
    gw.counter.record_success("/diagnostics");
    gw.stats.add_request("/diagnostics", now);
    gw.stats.add_successful_response("/diagnostics");
    Some(report)
}

/// Self-accuracy of the diagnostics endpoint: each report includes its
/// own request but only strictly earlier successes, so across two
/// consecutive calls the self-reported success total rises by exactly
/// one. `c0` is the counter before the first call and `c1` the counter
/// it leaves behind, related as `get_diagnostics` ensures.
pub proof fn lemma_self_accuracy(c0: EndpointCounter, c1: EndpointCounter)
    requires
        c1.spec_get("/diagnostics"@) == Some(called_once(c0.tally("/diagnostics"@))),
        c0.tally("/diagnostics"@).successful_responses < u64::MAX,
    ensures
        bump_request(c1.tally("/diagnostics"@)).successful_responses == bump_request(
            c0.tally("/diagnostics"@),
        ).successful_responses + 1,
{
}

} // verus!
