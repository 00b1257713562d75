use service_api::api::{
    get_locks, get_logger_config, healthz, kubernetes_healthz, livez, metrics, process_response,
    put_locks, readyz, telemetry, update_logger_config, MetricsParam, ServiceError,
    TelemetryParam, METRICS_DETAILS_LEVEL,
};
use service_api::lock::{LocksController, LocksOption};
use service_api::logger::{
    ComponentLevel, ComponentUpdate, LogLevel, LoggerConfig, LoggerConfigDiff, LoggerHandle,
};
use service_api::telemetry::TelemetrySnapshot;

fn level_one_snapshot() -> TelemetrySnapshot {
    let mut snap = TelemetrySnapshot::new(METRICS_DETAILS_LEVEL);
    snap.add_metric("requests_total".to_string(), 42);
    snap.add_metric("collections_total".to_string(), 3);
    snap.add_identifier("hostname".to_string(), "node-1".to_string());
    snap
}

#[test]
fn probes_return_same_success_indicator() {
    // healthz, livez and readyz all answer with the same constant signal.
    let h = healthz();
    let l = livez();
    let r = readyz();
    assert_eq!(h, "healthz check passed");
    assert_eq!(h, l);
    assert_eq!(l, r);
    assert_eq!(r, kubernetes_healthz());
}

#[test]
fn telemetry_defaults_leave_snapshot_alone() {
    let params = TelemetryParam { anonymize: None, details_level: None };
    assert!(!params.effective_anonymize());
    assert_eq!(params.effective_details_level(), 0);
    let out = telemetry(&params, Ok(level_one_snapshot())).unwrap();
    assert!(!out.anonymized);
    assert_eq!(out.identifiers.len(), 1);
}

#[test]
fn telemetry_anonymizes_on_request() {
    let params = TelemetryParam { anonymize: Some(true), details_level: Some(2) };
    assert_eq!(params.effective_details_level(), 2);
    let out = telemetry(&params, Ok(level_one_snapshot())).unwrap();
    assert!(out.anonymized);
    assert!(out.identifiers.is_empty());
    assert_eq!(out.entries.len(), 2);
}

#[test]
fn telemetry_passes_collector_failure_through() {
    let params = TelemetryParam { anonymize: None, details_level: None };
    let err = telemetry(
        &params,
        Err(ServiceError { description: "collector shutting down".to_string() }),
    );
    assert!(err.is_err());
    assert_eq!(err.err().unwrap().description, "collector shutting down");
}

#[test]
fn metrics_twice_yields_identical_text() {
    // Metrics with anonymize=true twice in a row, no intervening change:
    // byte-identical text both times.
    let params = MetricsParam { anonymize: Some(true) };
    let first = metrics(&params, Ok(level_one_snapshot())).unwrap();
    let second = metrics(&params, Ok(level_one_snapshot())).unwrap();
    assert_eq!(first, second);
    assert_eq!(first, "collections_total 3\nrequests_total 42\n");
}

#[test]
fn metrics_passes_collector_failure_through() {
    let params = MetricsParam { anonymize: None };
    let err = metrics(&params, Err(ServiceError { description: "unavailable".to_string() }));
    assert!(err.is_err());
}

#[test]
fn lock_handlers_swap_and_report() {
    let mut toc = LocksController::new();
    let request = LocksOption { write: true, error_message: Some("maintenance".to_string()) };
    let previous = put_locks(&mut toc, &request);
    assert!(!previous.write);
    assert_eq!(previous.error_message, None);
    let current = get_locks(&toc);
    assert!(current.write);
    assert_eq!(current.error_message, Some("maintenance".to_string()));
}

#[test]
fn logger_handlers_read_and_update() {
    let mut handle = LoggerHandle::new(LoggerConfig {
        default_level: LogLevel::Info,
        components: vec![ComponentLevel { name: "storage".to_string(), level: LogLevel::Warn }],
    });
    let config = get_logger_config(&handle);
    assert_eq!(config.default_level, LogLevel::Info);
    let result = update_logger_config(
        &mut handle,
        LoggerConfigDiff {
            default_level: None,
            components: vec![ComponentUpdate {
                name: "storage".to_string(),
                level: "debug".to_string(),
            }],
        },
    );
    assert_eq!(result, Ok(true));
    assert_eq!(get_logger_config(&handle).components[0].level, LogLevel::Debug);
}

#[test]
fn process_response_wraps_success_with_time() {
    let response = process_response(Ok::<u64, ServiceError>(5), 1200);
    assert_eq!(response.result, Some(5));
    assert_eq!(response.error, None);
    assert_eq!(response.time_micros, 1200);
}

#[test]
fn process_response_wraps_failure_with_time() {
    let response = process_response(
        Err::<u64, ServiceError>(ServiceError { description: "boom".to_string() }),
        900,
    );
    assert_eq!(response.result, None);
    assert_eq!(response.error, Some("boom".to_string()));
    assert_eq!(response.time_micros, 900);
}
