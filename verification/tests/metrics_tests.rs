use service_api::metrics::MetricsData;
use service_api::telemetry::TelemetrySnapshot;
use service_api::text::u64_to_decimal;

fn sample_snapshot() -> TelemetrySnapshot {
    let mut snap = TelemetrySnapshot::new(1);
    snap.add_metric("collections_total".to_string(), 3);
    snap.add_metric("app_uptime_seconds".to_string(), 12345);
    snap.add_metric("requests_total".to_string(), 42);
    snap
}

#[test]
fn decimal_rendering_exact() {
    assert_eq!(u64_to_decimal(0), "0");
    assert_eq!(u64_to_decimal(7), "7");
    assert_eq!(u64_to_decimal(10), "10");
    assert_eq!(u64_to_decimal(12345), "12345");
    assert_eq!(u64_to_decimal(u64::MAX), "18446744073709551615");
}

#[test]
fn format_metrics_exact_text() {
    let view = MetricsData::from(sample_snapshot());
    let text = view.format_metrics();
    assert_eq!(
        text,
        "app_uptime_seconds 12345\ncollections_total 3\nrequests_total 42\n"
    );
}

#[test]
fn format_metrics_sorted_regardless_of_insertion_order() {
    let mut a = TelemetrySnapshot::new(1);
    a.add_metric("b_metric".to_string(), 2);
    a.add_metric("a_metric".to_string(), 1);
    let mut b = TelemetrySnapshot::new(1);
    b.add_metric("a_metric".to_string(), 1);
    b.add_metric("b_metric".to_string(), 2);
    let ta = MetricsData::from(a).format_metrics();
    let tb = MetricsData::from(b).format_metrics();
    assert_eq!(ta, tb);
    assert_eq!(ta, "a_metric 1\nb_metric 2\n");
}

#[test]
fn format_metrics_deterministic() {
    let view = MetricsData::from(sample_snapshot());
    let first = view.format_metrics();
    let second = view.format_metrics();
    assert_eq!(first, second);
}

#[test]
fn metrics_ignore_identifiers() {
    let mut snap = sample_snapshot();
    snap.add_identifier("hostname".to_string(), "node-1".to_string());
    let plain = MetricsData::from(snap.clone()).format_metrics();
    let anonymized = MetricsData::from(snap.anonymize()).format_metrics();
    assert_eq!(plain, anonymized);
}
