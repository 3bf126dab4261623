use api_core::rocket;
use api_core::get_stats;
use api_core::counter::Endpoint;
use api_core::diagnostics::IpcInfo;

fn get_key() -> String {
    "test_api_key".to_string()
}

fn probe_up() -> IpcInfo {
    IpcInfo { success: true, latency_ms: 3 }
}

#[test]
fn wrong_key() {
    let mut gw = rocket(get_key());
    let response = api_core::diagnostics::get_diagnostics(&mut gw, "wrong_key", probe_up(), 1000);
    assert!(response.is_none());
}

#[test]
fn get_diagnostics() {
    let mut gw = rocket(get_key());
    let response = api_core::diagnostics::get_diagnostics(&mut gw, &get_key(), probe_up(), 1000);
    let parsed_response = response.unwrap();
    assert_eq!(parsed_response.ipc.success, true);
}

#[test]
fn self_success_is_accurate() {
    // The success stat is applied after the code in the endpoint is called so
    // /diagnostics has to increment itself by one to be accurate
    let mut gw = rocket(get_key());
    let response = api_core::diagnostics::get_diagnostics(&mut gw, &get_key(), probe_up(), 1000);
    let parsed_response = response.unwrap();

    let before = parsed_response.usage.get("/diagnostics").unwrap().clone();

    let response = api_core::diagnostics::get_diagnostics(&mut gw, &get_key(), probe_up(), 1001);
    let parsed_response = response.unwrap();

    let after = parsed_response.usage.get("/diagnostics").unwrap().clone();

    assert_eq!(before.successful_responses + 1, after.successful_responses);
}

#[test]
fn diagnostics_plus_one_success() {
    let mut gw = rocket(get_key());
    // Get initial stats
    let response = api_core::diagnostics::get_diagnostics(&mut gw, &get_key(), probe_up(), 1000);
    let parsed_response = response.unwrap();

    let initial_values = parsed_response.usage;

    // Make a request to /stats
    get_stats(&mut gw, 1001);

    // Get stats again
    let response = api_core::diagnostics::get_diagnostics(&mut gw, &get_key(), probe_up(), 1002);
    let parsed_response = response.unwrap();
    let new_values = parsed_response.usage;

    // Check that the values have increased by one
    assert!(
        initial_values.get("/stats").unwrap_or(Endpoint::default()).requests + 1
            == new_values.get("/stats").unwrap().requests
    );
    assert!(
        initial_values.get("/stats").unwrap_or(Endpoint::default()).successful_responses + 1
            == new_values.get("/stats").unwrap().successful_responses
    );
}
