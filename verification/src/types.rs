//! Data model: requests accepted by a measurement worker, the probe result
//! shared by worker and orchestrator, the persisted snapshot, and the error
//! taxonomy.

use vstd::prelude::*;

verus! {

/// Request body for the worker's phase-timed probe operation.
#[derive(Debug, Clone, PartialEq, Eq)]
pub struct MeasureRequest {
    pub target: String,
}

/// Request body for the worker's whole-round-trip duration operation.
#[derive(Debug, Clone, PartialEq, Eq)]
pub struct MeasureDurationRequest {
    pub target: String,
    pub method: String,
    pub headers: Option<Vec<(String, String)>>,
    pub body: Option<String>,
}

/// One probe result. Every duration is a whole number of nanoseconds and is
/// relative to the end of the preceding phase, not cumulative from probe
/// start. A phase-timed probe fills every field except `overall_duration`;
/// a duration probe fills only `overall_duration` and leaves `ip` empty.
#[derive(Debug, Clone, PartialEq, Eq)]
pub struct MeasureResponse {
    pub ip: String,
    pub dns_lookup_duration: Option<u64>,
    pub tcp_connect_duration: u64,
    pub http_get_send_duration: u64,
    pub ttfb_duration: u64,
    pub tls_handshake_duration: Option<u64>,
    pub overall_duration: Option<u64>,
}

/// Mathematical image of a `MeasureResponse`: the ip as a character sequence,
/// the durations as they stand.
#[verifier::ext_equal]
pub struct SampleView {
    pub ip: Seq<char>,
    pub dns_lookup_duration: Option<u64>,
    pub tcp_connect_duration: u64,
    pub http_get_send_duration: u64,
    pub ttfb_duration: u64,
    pub tls_handshake_duration: Option<u64>,
    pub overall_duration: Option<u64>,
}

impl View for MeasureResponse {
    type V = SampleView;

    open spec fn view(&self) -> SampleView {
        SampleView {
            ip: self.ip@,
            dns_lookup_duration: self.dns_lookup_duration,
            tcp_connect_duration: self.tcp_connect_duration,
            http_get_send_duration: self.http_get_send_duration,
            ttfb_duration: self.ttfb_duration,
            tls_handshake_duration: self.tls_handshake_duration,
            overall_duration: self.overall_duration,
        }
    }
}

impl MeasureResponse {
    /// Assembles a phase-timed probe result from the relative phase
    /// durations; such a result never carries an overall duration.
    pub fn from_phases(
        ip: String,
        dns_lookup_duration: Option<u64>,
        tcp_connect_duration: u64,
        http_get_send_duration: u64,
        ttfb_duration: u64,
        tls_handshake_duration: Option<u64>,
    ) -> (r: MeasureResponse)
        ensures
            r@ == (SampleView {
                ip: ip@,
                dns_lookup_duration,
                tcp_connect_duration,
                http_get_send_duration,
                ttfb_duration,
                tls_handshake_duration,
                overall_duration: None::<u64>,
            }),
    {
        MeasureResponse {
            ip,
            dns_lookup_duration,
            tcp_connect_duration,
            http_get_send_duration,
            ttfb_duration,
            tls_handshake_duration,
            overall_duration: None,
        }
    }

    /// A deep copy whose image equals this one's.
    pub fn duplicate(&self) -> (r: MeasureResponse)
        ensures
            r@ == self@,
    {
        MeasureResponse {
            ip: self.ip.clone(),
            dns_lookup_duration: self.dns_lookup_duration,
            tcp_connect_duration: self.tcp_connect_duration,
            http_get_send_duration: self.http_get_send_duration,
            ttfb_duration: self.ttfb_duration,
            tls_handshake_duration: self.tls_handshake_duration,
            overall_duration: self.overall_duration,
        }
    }
}

/// The image of one worker's sample series.
pub open spec fn series_view(v: Seq<MeasureResponse>) -> Seq<SampleView> {
    v.map(|i: int, s: MeasureResponse| s@)
}

/// The image of a worker-to-series mapping, in insertion order.
pub open spec fn entries_view(v: Seq<(String, Vec<MeasureResponse>)>) -> Seq<
    (Seq<char>, Seq<SampleView>),
> {
    v.map(|i: int, p: (String, Vec<MeasureResponse>)| (p.0@, series_view(p.1@)))
}

/// The persisted snapshot of one completed run: a series per worker for the
/// target request, and optionally a parallel series per worker for the
/// comparison request.
#[derive(Debug, PartialEq, Eq)]
pub struct Output {
    pub target_results: Vec<(String, Vec<MeasureResponse>)>,
    pub comparison_results: Option<Vec<(String, Vec<MeasureResponse>)>>,
}

/// Mathematical image of an `Output`.
#[verifier::ext_equal]
pub struct SnapshotView {
    pub target_results: Seq<(Seq<char>, Seq<SampleView>)>,
    pub comparison_results: Option<Seq<(Seq<char>, Seq<SampleView>)>>,
}

impl View for Output {
    type V = SnapshotView;

    open spec fn view(&self) -> SnapshotView {
        SnapshotView {
            target_results: entries_view(self.target_results@),
            comparison_results: match self.comparison_results {
                Some(ref v) => Some(entries_view(v@)),
                None => None,
            },
        }
    }
}

/// What a measurement operation can report instead of a sample.
#[derive(Debug, PartialEq, Eq)]
pub enum MeasureError {
    /// DNS, connect, TLS or send failure, with a diagnostic message.
    Network(String),
    /// The isolated execution of a blocking probe terminated abnormally.
    TaskFailure(String),
    /// The exchange succeeded but the response status was outside 2xx.
    HttpStatus(u16),
    /// The request was structurally malformed (a body that is not JSON).
    BadRequest(String),
}

/// Why a run could not be configured.
#[derive(Debug, PartialEq, Eq)]
pub enum ConfigError {
    /// No worker list was given and none could be discovered.
    MissingServices,
    /// No target url was given and none could be derived.
    MissingTargetUrl,
}

/// Why a configured run was rejected before any network call.
#[derive(Debug, PartialEq, Eq)]
pub enum RunError {
    /// A request body is permitted only when the method is exactly POST.
    BodyWithoutPost,
}

} // verus!
