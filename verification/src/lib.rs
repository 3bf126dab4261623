//! Request accounting and scoped-access authorization for a small API
//! gateway: a process-lifetime counter of requests and successes per
//! endpoint, a durable usage ledger keyed by endpoint name, a scoped-token
//! store gating a sensitive endpoint, and a diagnostics aggregator that
//! merges the two usage views with a backend liveness probe.

use vstd::prelude::*;

pub mod counter;
pub mod diagnostics;
pub mod ident;
pub mod models;

use crate::counter::{EndpointCounter, called_once};
use crate::models::{ApiStats, ImageTokens, token_allows};

verus! {

/// The process configuration: the secret that callers of the
/// diagnostics endpoint must present. Missing configuration is fatal at
/// boot, so a constructed value always carries a key.
pub struct Config {
    api_key: String,
}

impl Config {
    /// The configured secret.
    pub closed spec fn key(self) -> Seq<char> {
        self.api_key@
    }

    /// Wraps the secret read at boot.
    pub fn new(api_key: String) -> (r: Self)
        ensures
            r.key() == api_key@,
    {
        Config { api_key }
    }

    /// Whether a presented key matches the configured secret.
    pub fn check_key(&self, presented: &str) -> (r: bool)
        ensures
            r == (presented@ == self.key()),
    {
        let owned: String = presented.to_owned();
        self.api_key == owned
    }
}

/// The application state assembled at launch and handed to every
/// handler: the configured secret, the volatile per-endpoint counter,
/// the durable usage ledger, and the scoped-token store.
pub struct Gateway {
    pub config: Config,
    pub counter: EndpointCounter,
    pub stats: ApiStats,
    pub tokens: ImageTokens,
}

impl Gateway {
    /// Every owned table is well formed.
    pub open spec fn wf(self) -> bool {
        self.counter.wf() && self.stats.wf() && self.tokens.wf()
    }
}

/// Builds the application state exactly as process launch does: the
/// configured secret and fresh, empty tables. The counter always starts
/// from zero; the two stores start empty here and are filled from the
/// durable backing by the process around this library.
pub fn rocket(api_key: String) -> (gw: Gateway)
    ensures
        gw.wf(),
        gw.config.key() == api_key@,
        forall|k: Seq<char>| gw.counter.spec_get(k) is None,
        forall|k: Seq<char>| gw.stats.spec_lookup(k) is None,
        gw.tokens.pairs@.len() == 0,
        forall|id: Seq<char>| gw.tokens.spec_lookup(id) is None,
{
    Gateway {
        config: Config::new(api_key),
        counter: EndpointCounter::new(),
        stats: ApiStats::new(),
        tokens: ImageTokens::new(),
    }
}

/// Handles one successful call of the statistics endpoint: the request
/// is counted before dispatch and the success after, and both ticks are
/// mirrored into the durable ledger.
pub fn get_stats(gw: &mut Gateway, now: i64)
    requires
        old(gw).wf(),
    ensures
        final(gw).wf(),
        final(gw).config == old(gw).config,
        final(gw).tokens == old(gw).tokens,
        final(gw).counter.spec_get("/stats"@) == Some(
            called_once(old(gw).counter.tally("/stats"@)),
        ),
        forall|k: Seq<char>|
            k != "/stats"@ ==> final(gw).counter.spec_get(k) == old(gw).counter.spec_get(k),
        final(gw).stats.ledger_requests("/stats"@) == old(gw).stats.ledger_requests(
            "/stats"@,
        ).push(now),
        final(gw).stats.ledger_successes("/stats"@) == crate::models::sat_inc32(
            old(gw).stats.ledger_successes("/stats"@),
        ),
        forall|k: Seq<char>|
            k != "/stats"@ ==> final(gw).stats.spec_lookup(k) == old(gw).stats.spec_lookup(k),
{
    gw.counter.record_request("/stats");
    gw.stats.add_request("/stats", now);
    gw.counter.record_success("/stats");
    gw.stats.add_successful_response("/stats");
}

/// Handles one call of the token-gated image endpoint: the work happens
/// only when the presented token authorizes the `image` endpoint, and
/// only then is the call counted (in the live counter and the ledger).
/// An unauthorized call is denied without any side effect.
pub fn image(gw: &mut Gateway, token_id: &str, now: i64) -> (ok: bool)
    requires
        old(gw).wf(),
    ensures
        final(gw).wf(),
        final(gw).config == old(gw).config,
        final(gw).tokens == old(gw).tokens,
        ok == (match old(gw).tokens.spec_lookup(token_id@) {
            Some(t) => token_allows(t, "image"@),
            None => false,
        }),
        !ok ==> final(gw).counter == old(gw).counter && final(gw).stats == old(gw).stats,
        ok ==> final(gw).counter.spec_get("/image"@) == Some(
            called_once(old(gw).counter.tally("/image"@)),
        ) && (forall|k: Seq<char>|
            k != "/image"@ ==> final(gw).counter.spec_get(k) == old(gw).counter.spec_get(k)),
        ok ==> final(gw).stats.ledger_requests("/image"@) == old(gw).stats.ledger_requests(
            "/image"@,
        ).push(now) && final(gw).stats.ledger_successes("/image"@) == crate::models::sat_inc32(
            old(gw).stats.ledger_successes("/image"@),
        ) && (forall|k: Seq<char>|
            k != "/image"@ ==> final(gw).stats.spec_lookup(k) == old(gw).stats.spec_lookup(k)),
{
    if gw.tokens.allows_endpoint(token_id, "image") {
        gw.counter.record_request("/image");
        gw.stats.add_request("/image", now);
        gw.counter.record_success("/image");
        gw.stats.add_successful_response("/image");
        true
    } else {
        false
    }
}

} // verus!
