use api_core::rocket;
use api_core::get_stats;
use api_core::image;
use api_core::counter::EndpointCounter;
use api_core::diagnostics::{get_diagnostics, IpcInfo};
use api_core::ident::to_decimal;
use api_core::models::{collect_decoded, ApiStats, ImageTokens, StatsStruct};

fn probe_down() -> IpcInfo {
    IpcInfo { success: false, latency_ms: 250 }
}

#[test]
fn requests_never_decrease() {
    let mut c = EndpointCounter::new();
    let mut last: u64 = 0;
    for _ in 0..5 {
        c.record_request("/vote");
        c.record_success("/vote");
        let snap = c.snapshot();
        let now = snap.get("/vote").unwrap().requests;
        assert!(last <= now);
        last = now;
    }
    assert_eq!(last, 5);
}

#[test]
fn success_without_request() {
    let mut c = EndpointCounter::new();
    c.record_success("/commands");
    let snap = c.snapshot();
    let tally = snap.get("/commands").unwrap();
    assert_eq!(tally.requests, 0);
    assert_eq!(tally.successful_responses, 1);
}

#[test]
fn token_scope_is_exact() {
    let mut tokens = ImageTokens::new();
    let id = tokens.generate_endpoint_token(&vec!["image".to_string()], 77);
    assert!(tokens.allows_endpoint(&id, "image"));
    assert!(!tokens.allows_endpoint(&id, "stats"));
    assert!(!tokens.allows_endpoint(&id, "vote"));
    assert!(!tokens.allows_endpoint("never-issued", "image"));
}

#[test]
fn token_ids_are_distinct() {
    let mut tokens = ImageTokens::new();
    let a = tokens.generate_endpoint_token(&vec!["image".to_string()], 1);
    let b = tokens.generate_endpoint_token(&vec!["vote".to_string()], 2);
    assert_ne!(a, b);
    assert!(tokens.allows_endpoint(&a, "image"));
    assert!(!tokens.allows_endpoint(&a, "vote"));
    assert!(tokens.allows_endpoint(&b, "vote"));
    assert!(!tokens.allows_endpoint(&b, "image"));
}

#[test]
fn scoped_endpoint_scenario() {
    let mut gw = rocket("k".to_string());
    let id = gw.tokens.generate_endpoint_token(&vec!["image".to_string()], 10);
    assert!(image(&mut gw, &id, 11));
    assert!(!gw.tokens.allows_endpoint(&id, "vote"));
    let snap = gw.counter.snapshot();
    assert_eq!(snap.get("/image").unwrap().requests, 1);
    assert_eq!(snap.get("/image").unwrap().successful_responses, 1);
}

#[test]
fn unauthorized_scoped_call_leaves_no_trace() {
    let mut gw = rocket("k".to_string());
    assert!(!image(&mut gw, "0", 11));
    let snap = gw.counter.snapshot();
    assert!(snap.get("/image").is_none());
}

#[test]
fn cross_endpoint_accuracy() {
    let mut gw = rocket("secret".to_string());
    for t in 0..3 {
        get_stats(&mut gw, t);
    }
    let rep = get_diagnostics(&mut gw, "secret", IpcInfo { success: true, latency_ms: 1 }, 99)
        .unwrap();
    let row = rep.usage.get("/stats").unwrap();
    assert_eq!(row.requests, 3);
    assert_eq!(row.successful_responses, 3);
}

#[test]
fn backend_down_still_reports() {
    let mut gw = rocket("secret".to_string());
    let rep = get_diagnostics(&mut gw, "secret", probe_down(), 5).unwrap();
    assert_eq!(rep.ipc.success, false);
    assert_eq!(rep.ipc.latency_ms, 250);
}

#[test]
fn denied_diagnostics_counts_nothing() {
    let mut gw = rocket("secret".to_string());
    assert!(get_diagnostics(&mut gw, "intruder", probe_down(), 5).is_none());
    let rep = get_diagnostics(&mut gw, "secret", probe_down(), 6).unwrap();
    // Only the authorized call's own request is visible: the earlier
    // denial moved no counter.
    let row = rep.usage.get("/diagnostics").unwrap();
    assert_eq!(row.requests, 1);
    assert_eq!(row.successful_responses, 0);
}

#[test]
fn ledger_upsert_on_first_request() {
    let mut ledger = ApiStats::new();
    ledger.add_request("/stats", 400);
    let all = ledger.get_all_stats().unwrap();
    assert_eq!(all.len(), 1);
    assert_eq!(all[0]._id, "/stats");
    assert_eq!(all[0].requests, vec![400]);
    assert_eq!(all[0].successful_responses, 0);
}

#[test]
fn ledger_success_without_request() {
    let mut ledger = ApiStats::new();
    ledger.add_successful_response("/vote");
    let all = ledger.get_all_stats().unwrap();
    assert_eq!(all.len(), 1);
    assert_eq!(all[0]._id, "/vote");
    assert!(all[0].requests.is_empty());
    assert_eq!(all[0].successful_responses, 1);
}

#[test]
fn ledger_appends_in_order() {
    let mut ledger = ApiStats::new();
    ledger.add_request("/stats", 1);
    ledger.add_request("/stats", 2);
    ledger.add_successful_response("/stats");
    ledger.add_request("/vote", 3);
    let all = ledger.get_all_stats().unwrap();
    assert_eq!(all.len(), 2);
    assert_eq!(all[0]._id, "/stats");
    assert_eq!(all[0].requests, vec![1, 2]);
    assert_eq!(all[0].successful_responses, 1);
    assert_eq!(all[1]._id, "/vote");
    assert_eq!(all[1].requests, vec![3]);
}

#[test]
fn ledger_fills_gaps_in_diagnostics() {
    let mut gw = rocket("secret".to_string());
    // Durable history from before this process started.
    gw.stats.add_request("/vote", 12);
    gw.stats.add_request("/vote", 13);
    gw.stats.add_successful_response("/vote");
    let rep = get_diagnostics(&mut gw, "secret", probe_down(), 14).unwrap();
    let row = rep.usage.get("/vote").unwrap();
    assert_eq!(row.requests, 2);
    assert_eq!(row.successful_responses, 1);
}

#[test]
fn malformed_scan_rows_are_skipped() {
    let good_a = StatsStruct { _id: "/stats".to_string(), requests: vec![1], successful_responses: 1 };
    let good_b = StatsStruct { _id: "/vote".to_string(), requests: vec![], successful_responses: 0 };
    let docs = vec![Some(good_a), None, Some(good_b), None];
    let kept = collect_decoded(docs);
    assert_eq!(kept.len(), 2);
    assert_eq!(kept[0]._id, "/stats");
    assert_eq!(kept[1]._id, "/vote");
}

#[test]
fn decimal_identifiers() {
    assert_eq!(to_decimal(0), "0");
    assert_eq!(to_decimal(7), "7");
    assert_eq!(to_decimal(42), "42");
    assert_eq!(to_decimal(1234567890), "1234567890");
}
