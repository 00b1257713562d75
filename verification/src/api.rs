//! The thin dispatch surface: request parameter records with their defaults,
//! the handlers binding each operation to its component, the two static
//! liveness responses, and the uniform timed response envelope.

use vstd::prelude::*;
use vstd::string::*;
use crate::lock::{LocksController, LocksOption};
use crate::logger::{
    diff_error, diff_valid, merged_components, merged_default, LoggerConfig, LoggerConfigDiff,
    LoggerHandle, ValidationError,
};
use crate::metrics::{metrics_text, MetricsData};
use crate::telemetry::{anonymize_spec, TelemetrySnapshot};

verus! {

/// Query parameters of the telemetry operation; unset fields take their
/// defaults: no anonymization, detail level zero.
pub struct TelemetryParam {
    pub anonymize: Option<bool>,
    pub details_level: Option<usize>,
}

/// Query parameters of the metrics operation; anonymization defaults to off.
pub struct MetricsParam {
    pub anonymize: Option<bool>,
}

/// The detail level that the metrics operation always snapshots at.
pub const METRICS_DETAILS_LEVEL: usize = 1;

/// A server-side failure of the telemetry collector, carrying the underlying
/// cause message.
#[derive(Clone, Debug, PartialEq)]
pub struct ServiceError {
    pub description: String,
}

/// The uniform response envelope: the payload or the failure message, always
/// paired with the elapsed handling time.
pub struct ApiResponse<T> {
    pub result: Option<T>,
    pub error: Option<String>,
    pub time_micros: u64,
}

/// Wraps an operation's outcome and its elapsed handling time into the
/// response envelope: exactly one of payload and error message is present,
/// and failures are timed like successes.
pub fn process_response<T>(result: Result<T, ServiceError>, time_micros: u64) -> (r: ApiResponse<
    T,
>)
    ensures
        r.time_micros == time_micros,
        (result matches Ok(v) ==> r.result == Some(v) && r.error is None),
        (result matches Err(e) ==> r.result is None && r.error == Some(e.description)),
{
    match result {
        Ok(v) => ApiResponse { result: Some(v), error: None, time_micros },
        Err(e) => ApiResponse { result: None, error: Some(e.description), time_micros },
    }
}

/// Whether the telemetry request asks for anonymization; unset means no.
pub open spec fn telemetry_anonymize(p: TelemetryParam) -> bool {
    match p.anonymize {
        Some(b) => b,
        None => false,
    }
}

/// The detail level the telemetry request asks for; unset means zero.
pub open spec fn telemetry_details(p: TelemetryParam) -> usize {
    match p.details_level {
        Some(d) => d,
        None => 0,
    }
}

/// Whether the metrics request asks for anonymization; unset means no.
pub open spec fn metrics_anonymize(p: MetricsParam) -> bool {
    match p.anonymize {
        Some(b) => b,
        None => false,
    }
}

impl TelemetryParam {
    pub fn effective_anonymize(&self) -> (r: bool)
        ensures
            r == telemetry_anonymize(*self),
    {
        match self.anonymize {
            Some(b) => b,
            None => false,
        }
    }

    /// The detail level to ask the collector for.
    pub fn effective_details_level(&self) -> (r: usize)
        ensures
            r == telemetry_details(*self),
    {
        match self.details_level {
            Some(d) => d,
            None => 0,
        }
    }
}

impl MetricsParam {
    pub fn effective_anonymize(&self) -> (r: bool)
        ensures
            r == metrics_anonymize(*self),
    {
        match self.anonymize {
            Some(b) => b,
            None => false,
        }
    }
}

/// The telemetry operation, after the collector produced its snapshot (or
/// failed): anonymizes exactly when asked to, and passes a collector failure
/// through untouched.
pub fn telemetry(params: &TelemetryParam, data: Result<TelemetrySnapshot, ServiceError>) -> (r:
    Result<TelemetrySnapshot, ServiceError>)
    ensures
        r is Ok <==> data is Ok,
        (data matches Ok(d) ==> r matches Ok(out) && out@ == (if telemetry_anonymize(*params) {
            anonymize_spec(d@)
        } else {
            d@
        })),
        (data matches Err(e) ==> r == Result::<TelemetrySnapshot, ServiceError>::Err(e)),
{
    match data {
        Ok(d) => if params.effective_anonymize() {
            Ok(d.anonymize())
        } else {
            Ok(d)
        },
        Err(e) => Err(e),
    }
}

/// The metrics operation, after the collector produced its level-one
/// snapshot (or failed): projects the numeric leaves to the flat text,
/// anonymizing first exactly when asked to — which never changes the leaves,
/// so the text is pinned by the snapshot alone.
pub fn metrics(params: &MetricsParam, data: Result<TelemetrySnapshot, ServiceError>) -> (r: Result<
    String,
    ServiceError,
>)
    ensures
        r is Ok <==> data is Ok,
        (data matches Ok(d) ==> r matches Ok(text) && text@ == metrics_text(d@.entries)),
        (data matches Err(e) ==> r == Result::<String, ServiceError>::Err(e)),
{
    match data {
        Ok(d) => {
            let d = if params.effective_anonymize() {
                d.anonymize()
            } else {
                d
            };
            let view = MetricsData::from(d);
            Ok(view.format_metrics())
        },
        Err(e) => Err(e),
    }
}

/// The lock mutation operation: reports the state that was in effect
/// immediately before, then swaps in the requested one.
pub fn put_locks(toc: &mut LocksController, locks_option: &LocksOption) -> (r: LocksOption)
    ensures
        r == old(toc).state,
        final(toc).state.write == locks_option.write,
        final(toc).state.error_message == locks_option.error_message,
{
    let message = match &locks_option.error_message {
        Some(m) => Some(m.clone()),
        None => None,
    };
    toc.set_lock_state(locks_option.write, message)
}

/// The lock read operation: the current state, as one whole pair.
pub fn get_locks(toc: &LocksController) -> (r: LocksOption)
    ensures
        r == toc.state,
{
    toc.get_lock_state()
}

/// The constant liveness response shared by every probe.
pub fn kubernetes_healthz() -> (r: String)
    ensures
        r@ == "healthz check passed"@,
{
    String::from_str("healthz check passed")
}

pub fn healthz() -> (r: String)
    ensures
        r@ == "healthz check passed"@,
{
    kubernetes_healthz()
}

pub fn livez() -> (r: String)
    ensures
        r@ == "healthz check passed"@,
{
    kubernetes_healthz()
}

pub fn readyz() -> (r: String)
    ensures
        r@ == "healthz check passed"@,
{
    kubernetes_healthz()
}

/// The logger read operation: the current configuration, whole.
pub fn get_logger_config(handle: &LoggerHandle) -> (r: LoggerConfig)
    ensures
        r.default_level == handle.config.default_level,
        r.components@ == handle.config.components@,
{
    handle.get_config()
}

/// The logger mutation operation: applies a valid diff atomically and
/// reports success; a rejected diff changes nothing and surfaces the first
/// invalid field.
pub fn update_logger_config(handle: &mut LoggerHandle, config: LoggerConfigDiff) -> (r: Result<
    bool,
    ValidationError,
>)
    ensures
        r is Ok <==> diff_valid(old(handle).config, config),
        r == Result::<bool, ValidationError>::Ok(true) || r is Err,
        (r matches Err(e) ==> Some(e) == diff_error(old(handle).config, config) && *final(handle)
            == *old(handle)),
        r is Ok ==> final(handle).config.default_level == merged_default(
            old(handle).config.default_level,
            config.default_level,
        ) && final(handle).config.components@ == merged_components(
            old(handle).config.components@,
            config.components@,
        ),
{
    handle.update_config(config)
}

} // verus!
