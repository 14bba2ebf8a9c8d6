//! Orchestrator state: validation of the configured request, the calls a
//! run makes, the per-worker sample series built one completed call at a
//! time, the persisted snapshot, and the tabular rendering of a run.
//!
//! The boundary performs the network exchanges and the waiting; every
//! decision about them stands here.

use vstd::prelude::*;

use crate::codec::{dec_of, eq_lit, u64_to_dec};
use crate::jobs::{copy_pairs, CliArgs, Jobs};
use crate::types::{
    entries_view, series_view, ConfigError, MeasureDurationRequest, MeasureRequest,
    MeasureResponse, Output, RunError, SampleView,
};

verus! {

/// One series per worker, keyed by worker address, in insertion order.
pub type Results = Vec<(String, Vec<MeasureResponse>)>;

/// The image of one worker-to-series mapping.
pub type ResultsView = Seq<(Seq<char>, Seq<SampleView>)>;

/// The series recorded for a worker, if any: the first entry under its key.
pub open spec fn lookup(m: ResultsView, k: Seq<char>) -> Option<Seq<SampleView>>
    decreases m.len(),
{
    if m.len() == 0 {
        None
    } else if m[0].0 == k {
        Some(m[0].1)
    } else {
        lookup(m.drop_first(), k)
    }
}

/// The mapping after one completed call for worker `k` returned sample `s`:
/// the sample is appended to `k`'s series the instant it arrives, and every
/// other worker's series is untouched.
pub open spec fn record_spec(m: ResultsView, k: Seq<char>, s: SampleView) -> ResultsView
    decreases m.len(),
{
    if m.len() == 0 {
        seq![(k, seq![s])]
    } else if m[0].0 == k {
        seq![(m[0].0, m[0].1.push(s))] + m.drop_first()
    } else {
        seq![m[0]] + record_spec(m.drop_first(), k, s)
    }
}

/// The mapping after a whole sequence of completed calls for worker `k`,
/// recorded in call order.
pub open spec fn record_all(m: ResultsView, k: Seq<char>, samples: Seq<SampleView>) -> ResultsView
    decreases samples.len(),
{
    if samples.len() == 0 {
        m
    } else {
        record_all(record_spec(m, k, samples[0]), k, samples.drop_first())
    }
}

/// Recording a sample appends it to its worker's series and leaves every
/// other series alone.
pub proof fn lemma_lookup_record(m: ResultsView, k: Seq<char>, s: SampleView)
    ensures
        lookup(record_spec(m, k, s), k) == Some(
            (match lookup(m, k) {
                Some(ser) => ser,
                None => Seq::<SampleView>::empty(),
            }).push(s),
        ),
        forall|k2: Seq<char>| k2 != k ==> #[trigger] lookup(record_spec(m, k, s), k2) == lookup(
            m,
            k2,
        ),
    decreases m.len(),
{
    let r = record_spec(m, k, s);
    if m.len() == 0 {
        assert(r =~= seq![(k, seq![s])]);
        assert(r[0].0 == k);
        assert(r.drop_first() =~= Seq::<(Seq<char>, Seq<SampleView>)>::empty());
        assert(seq![s] =~= Seq::<SampleView>::empty().push(s));
        assert(lookup(r, k) == Some(seq![s]));
        assert forall|k2: Seq<char>| k2 != k implies #[trigger] lookup(r, k2) == lookup(
            m,
            k2,
        ) by {
            assert(lookup(r.drop_first(), k2) is None);
            assert(lookup(r, k2) is None);
        }
    } else if m[0].0 == k {
        assert(r == seq![(m[0].0, m[0].1.push(s))] + m.drop_first());
        assert(r[0] == (m[0].0, m[0].1.push(s)));
        assert(r.drop_first() =~= m.drop_first());
        assert(lookup(r, k) == Some(m[0].1.push(s)));
        assert forall|k2: Seq<char>| k2 != k implies #[trigger] lookup(r, k2) == lookup(
            m,
            k2,
        ) by {
            assert(lookup(r, k2) == lookup(r.drop_first(), k2));
            assert(lookup(m, k2) == lookup(m.drop_first(), k2));
        }
    } else {
        lemma_lookup_record(m.drop_first(), k, s);
        assert(r == seq![m[0]] + record_spec(m.drop_first(), k, s));
        assert(r[0] == m[0]);
        assert(r.drop_first() =~= record_spec(m.drop_first(), k, s));
        assert(lookup(r, k) == lookup(record_spec(m.drop_first(), k, s), k));
        assert(lookup(m, k) == lookup(m.drop_first(), k));
        assert forall|k2: Seq<char>| k2 != k implies #[trigger] lookup(r, k2) == lookup(
            m,
            k2,
        ) by {
            if m[0].0 == k2 {
                assert(lookup(r, k2) == Some(r[0].1));
                assert(lookup(m, k2) == Some(m[0].1));
            } else {
                assert(lookup(r, k2) == lookup(r.drop_first(), k2));
                assert(lookup(m, k2) == lookup(m.drop_first(), k2));
                assert(lookup(record_spec(m.drop_first(), k, s), k2) == lookup(
                    m.drop_first(),
                    k2,
                ));
            }
        }
    }
}

/// A run of calls for one worker lands in that worker's series in call
/// order, after whatever was already there.
pub proof fn lemma_record_all_extends(m: ResultsView, k: Seq<char>, samples: Seq<SampleView>)
    requires
        samples.len() > 0 || lookup(m, k) is Some,
    ensures
        lookup(record_all(m, k, samples), k) == Some(
            (match lookup(m, k) {
                Some(ser) => ser,
                None => Seq::<SampleView>::empty(),
            }) + samples,
        ),
        forall|k2: Seq<char>| k2 != k ==> #[trigger] lookup(record_all(m, k, samples), k2)
            == lookup(m, k2),
    decreases samples.len(),
{
    let cur = match lookup(m, k) {
        Some(ser) => ser,
        None => Seq::<SampleView>::empty(),
    };
    if samples.len() == 0 {
        assert(cur + samples =~= cur);
    } else {
        lemma_lookup_record(m, k, samples[0]);
        lemma_record_all_extends(record_spec(m, k, samples[0]), k, samples.drop_first());
        assert(cur.push(samples[0]) + samples.drop_first() =~= cur + samples);
    }
}

/// With `times` calls completed for a worker that had no series yet, its
/// series holds exactly those `times` samples, in call order — also under a
/// concurrent dispatch, where call order is the order the outcomes are
/// recorded in.
pub proof fn lemma_series_in_call_order(m: ResultsView, k: Seq<char>, samples: Seq<SampleView>)
    requires
        lookup(m, k) is None,
        samples.len() > 0,
    ensures
        lookup(record_all(m, k, samples), k) == Some(samples),
{
    lemma_record_all_extends(m, k, samples);
    assert(Seq::<SampleView>::empty() + samples =~= samples);
}


/// The mapping with a sample appended to the first entry under its key,
/// expressed as an update at the entry's index.
proof fn lemma_record_spec_at(m: ResultsView, k: Seq<char>, s: SampleView, idx: int)
    requires
        0 <= idx < m.len(),
        m[idx].0 == k,
        forall|j: int| 0 <= j < idx ==> (#[trigger] m[j]).0 != k,
    ensures
        record_spec(m, k, s) == m.update(idx, (m[idx].0, m[idx].1.push(s))),
    decreases idx,
{
    if idx == 0 {
        assert(record_spec(m, k, s) == seq![(m[0].0, m[0].1.push(s))] + m.drop_first());
        assert(seq![(m[0].0, m[0].1.push(s))] + m.drop_first() =~= m.update(
            0,
            (m[0].0, m[0].1.push(s)),
        ));
    } else {
        assert(m[0].0 != k);
        assert(forall|j: int| 0 <= j < idx - 1 ==> (#[trigger] m.drop_first()[j]).0 != k);
        assert(m.drop_first()[idx - 1] == m[idx]);
        lemma_record_spec_at(m.drop_first(), k, s, idx - 1);
        assert(record_spec(m, k, s) == seq![m[0]] + record_spec(m.drop_first(), k, s));
        assert(seq![m[0]] + m.drop_first().update(idx - 1, (m[idx].0, m[idx].1.push(s))) =~= m.update(
            idx,
            (m[idx].0, m[idx].1.push(s)),
        ));
    }
}

/// The mapping with a first sample for a key no entry holds: a new entry at
/// the end.
proof fn lemma_record_spec_absent(m: ResultsView, k: Seq<char>, s: SampleView)
    requires
        forall|j: int| 0 <= j < m.len() ==> (#[trigger] m[j]).0 != k,
    ensures
        record_spec(m, k, s) == m.push((k, seq![s])),
    decreases m.len(),
{
    if m.len() == 0 {
        assert(record_spec(m, k, s) =~= m.push((k, seq![s])));
    } else {
        assert(m[0].0 != k);
        assert(forall|j: int| 0 <= j < m.drop_first().len() ==> (#[trigger] m.drop_first()[j]).0
            != k);
        lemma_record_spec_absent(m.drop_first(), k, s);
        assert(record_spec(m, k, s) == seq![m[0]] + m.drop_first().push((k, seq![s])));
        assert(seq![m[0]] + m.drop_first().push((k, seq![s])) =~= m.push((k, seq![s])));
    }
}

/// Recording a whole series one call at a time is recording each call after
/// the ones before it.
proof fn lemma_record_all_snoc(m: ResultsView, k: Seq<char>, samples: Seq<SampleView>, x: SampleView)
    ensures
        record_all(m, k, samples.push(x)) == record_spec(record_all(m, k, samples), k, x),
    decreases samples.len(),
{
    if samples.len() == 0 {
        assert(samples.push(x)[0] == x);
        assert(samples.push(x).drop_first() =~= Seq::<SampleView>::empty());
        assert(record_all(record_spec(m, k, x), k, Seq::<SampleView>::empty()) == record_spec(
            m,
            k,
            x,
        ));
    } else {
        assert(samples.push(x)[0] == samples[0]);
        assert(samples.push(x).drop_first() =~= samples.drop_first().push(x));
        lemma_record_all_snoc(record_spec(m, k, samples[0]), k, samples.drop_first(), x);
    }
}

/// Appends one completed call's sample to its worker's series, creating the
/// series on the worker's first completed call.
fn record_sample_into(entries: &mut Results, ip: &String, sample: MeasureResponse)
    ensures
        entries_view(final(entries)@) == record_spec(entries_view(old(entries)@), ip@, sample@),
{
    let ghost m = entries_view(old(entries)@);
    let n = entries.len();
    let mut i: usize = 0;
    while i < n
        invariant
            n == entries@.len(),
            0 <= i <= n,
            entries@ == old(entries)@,
            m == entries_view(entries@),
            forall|j: int| 0 <= j < i ==> (#[trigger] m[j]).0 != ip@,
        decreases n - i,
    {
        proof {
            assert(m[i as int].0 == entries@[i as int].0@);
        }
        if eq_lit(entries[i].0.as_str(), ip.as_str()) {
            let (key, mut ser) = entries.remove(i);
            ser.push(sample);
            entries.insert(i, (key, ser));
            proof {
                assert(entries_view(entries@) =~~= m.update(
                    i as int,
                    (m[i as int].0, m[i as int].1.push(sample@)),
                ));
                lemma_record_spec_at(m, ip@, sample@, i as int);
            }
            return ;
        }
        i = i + 1;
    }
    let key = ip.clone();
    let mut ser: Vec<MeasureResponse> = Vec::new();
    ser.push(sample);
    entries.push((key, ser));
    proof {
        assert(series_view(ser@) =~= seq![sample@]);
        assert(entries_view(entries@) =~~= m.push((ip@, seq![sample@])));
        lemma_record_spec_absent(m, ip@, sample@);
    }
}

/// A worker call the orchestrator sends: the phase-timed probe for a GET
/// target, the duration probe for any other method, each to its endpoint on
/// the worker.
#[derive(Debug, Clone, PartialEq, Eq)]
pub enum WorkerCall {
    Ttfb { endpoint: String, request: MeasureRequest },
    Duration { endpoint: String, request: MeasureDurationRequest },
}

/// The call the orchestrator owes a worker for one target: exactly one of
/// the two worker operations, chosen by the method.
pub open spec fn call_shape(
    c: WorkerCall,
    ip: Seq<char>,
    url: Seq<char>,
    method: Seq<char>,
    headers: Option<Seq<(Seq<char>, Seq<char>)>>,
    body: Option<Seq<char>>,
) -> bool {
    if method != "GET"@ {
        c matches WorkerCall::Duration { endpoint, request } && endpoint@ == ip + "/duration"@
            && request.target@ == url && request.method@ == method && request.headers.deep_view()
            == headers && request.body.deep_view() == body
    } else {
        c matches WorkerCall::Ttfb { endpoint, request } && endpoint@ == ip + "/ttfb"@
            && request.target@ == url
    }
}

/// Builds the call for one worker and one target url.
pub fn make_request(
    service_ip: &String,
    target_url: &String,
    target_method: &String,
    target_headers: &Option<Vec<(String, String)>>,
    target_body: &Option<String>,
) -> (r: WorkerCall)
    ensures
        call_shape(
            r,
            service_ip@,
            target_url@,
            target_method@,
            target_headers.deep_view(),
            target_body.deep_view(),
        ),
{
    if !eq_lit(target_method.as_str(), "GET") {
        let mut endpoint = service_ip.clone();
        endpoint.append("/duration");
        let headers: Option<Vec<(String, String)>> = match target_headers {
            Some(h) => Some(copy_pairs(h)),
            None => None,
        };
        let body: Option<String> = match target_body {
            Some(b) => Some(b.clone()),
            None => None,
        };
        WorkerCall::Duration {
            endpoint,
            request: MeasureDurationRequest {
                target: target_url.clone(),
                method: target_method.clone(),
                headers,
                body,
            },
        }
    } else {
        let mut endpoint = service_ip.clone();
        endpoint.append("/ttfb");
        WorkerCall::Ttfb { endpoint, request: MeasureRequest { target: target_url.clone() } }
    }
}

/// A deep copy of a series.
fn copy_series(v: &Vec<MeasureResponse>) -> (r: Vec<MeasureResponse>)
    ensures
        series_view(r@) == series_view(v@),
{
    let mut out: Vec<MeasureResponse> = Vec::new();
    let mut i: usize = 0;
    while i < v.len()
        invariant
            0 <= i <= v@.len(),
            out@.len() == i,
            forall|j: int| 0 <= j < i ==> #[trigger] out@[j]@ == v@[j]@,
        decreases v@.len() - i,
    {
        out.push(v[i].duplicate());
        i = i + 1;
    }
    proof {
        assert(series_view(out@) =~= series_view(v@));
    }
    out
}

/// A deep copy of a worker-to-series mapping.
fn copy_results(v: &Results) -> (r: Results)
    ensures
        entries_view(r@) == entries_view(v@),
{
    let mut out: Results = Vec::new();
    let mut i: usize = 0;
    while i < v.len()
        invariant
            0 <= i <= v@.len(),
            out@.len() == i,
            forall|j: int| 0 <= j < i ==> #[trigger] out@[j].0@ == v@[j].0@ && series_view(
                out@[j].1@,
            ) == series_view(v@[j].1@),
        decreases v@.len() - i,
    {
        let key = v[i].0.clone();
        let ser = copy_series(&v[i].1);
        out.push((key, ser));
        i = i + 1;
    }
    proof {
        assert(entries_view(out@) =~= entries_view(v@));
    }
    out
}

/// One run's state: the resolved jobs, and the per-worker series collected
/// so far for the target and, when configured, the comparison.
#[derive(Debug)]
pub struct Runtime {
    pub jobs: Jobs,
    pub results: Results,
    pub comparison_results: Option<Results>,
    pub output_dir: Option<String>,
    pub average: bool,
    pub times: usize,
    pub delay: usize,
}

impl Runtime {
    /// Sets up a run from the arguments and the discovered artifacts: empty
    /// result maps, a comparison map exactly when a comparison url is
    /// configured, and the remaining knobs as given.
    pub fn new(
        args: CliArgs,
        discovered_services: Option<Vec<String>>,
        discovered_url: Option<String>,
    ) -> (r: Result<Runtime, ConfigError>)
        ensures
            r is Ok <==> args.services_resolvable(discovered_services)
                && args.target_url_resolvable(discovered_url),
            r == Err::<Runtime, ConfigError>(ConfigError::MissingServices)
                <==> !args.services_resolvable(discovered_services),
            r matches Ok(rt) ==> {
                &&& args.resolves_to(discovered_services, discovered_url, rt.jobs)
                &&& rt.results@.len() == 0
                &&& (rt.comparison_results is Some <==> args.comparison_url is Some)
                &&& (rt.comparison_results matches Some(v) ==> v@.len() == 0)
                &&& rt.average == args.average
                &&& rt.times == args.times
                &&& rt.delay == args.delay
                &&& rt.output_dir.deep_view() == args.output_dir.deep_view()
            },
    {
        let comparison_results: Option<Results> = match args.comparison_url {
            Some(_) => Some(Vec::new()),
            None => None,
        };
        let jobs = match args.jobs(discovered_services, discovered_url) {
            Ok(j) => j,
            Err(e) => {
                return Err(e);
            },
        };
        Ok(
            Runtime {
                jobs,
                results: Vec::new(),
                comparison_results,
                output_dir: args.output_dir,
                average: args.average,
                times: args.times,
                delay: args.delay,
            },
        )
    }

    /// Rejects a run whose request carries a body with a method other than
    /// exactly POST, before any call is planned or sent.
    pub fn validate(&self) -> (r: Result<(), RunError>)
        ensures
            r is Ok <==> !(self.jobs.target_body is Some && self.jobs.target_method@ != "POST"@),
            r is Err ==> r == Err::<(), RunError>(RunError::BodyWithoutPost),
    {
        if self.jobs.target_body.is_some() && !eq_lit(self.jobs.target_method.as_str(), "POST") {
            Err(RunError::BodyWithoutPost)
        } else {
            Ok(())
        }
    }

    /// Plans the calls for one worker: the target call and, when a
    /// comparison url is configured, the comparison call. A request that
    /// fails validation yields no call at all — nothing reaches the
    /// network.
    pub fn plan_worker(&self, service_ip: &String) -> (r: Result<
        (WorkerCall, Option<WorkerCall>),
        RunError,
    >)
        ensures
            r is Err <==> (self.jobs.target_body is Some && self.jobs.target_method@ != "POST"@),
            r matches Err(e) ==> e == RunError::BodyWithoutPost,
            r matches Ok(plan) ==> {
                &&& call_shape(
                    plan.0,
                    service_ip@,
                    self.jobs.target_url@,
                    self.jobs.target_method@,
                    self.jobs.target_headers.deep_view(),
                    self.jobs.target_body.deep_view(),
                )
                &&& (plan.1 is Some <==> self.jobs.comparison_url is Some)
                &&& (plan.1 matches Some(c) ==> call_shape(
                    c,
                    service_ip@,
                    self.jobs.comparison_url.unwrap()@,
                    self.jobs.target_method@,
                    self.jobs.target_headers.deep_view(),
                    self.jobs.target_body.deep_view(),
                ))
            },
    {
        match self.validate() {
            Ok(_) => {},
            Err(e) => {
                return Err(e);
            },
        }
        let target = make_request(
            service_ip,
            &self.jobs.target_url,
            &self.jobs.target_method,
            &self.jobs.target_headers,
            &self.jobs.target_body,
        );
        let comparison: Option<WorkerCall> = match self.jobs.comparison_url {
            Some(ref url) => Some(
                make_request(
                    service_ip,
                    url,
                    &self.jobs.target_method,
                    &self.jobs.target_headers,
                    &self.jobs.target_body,
                ),
            ),
            None => None,
        };
        Ok((target, comparison))
    }

    /// Records one completed target call for a worker, the instant its
    /// sample arrives.
    pub fn record_target_sample(&mut self, service_ip: &String, sample: MeasureResponse)
        ensures
            entries_view(final(self).results@) == record_spec(
                entries_view(old(self).results@),
                service_ip@,
                sample@,
            ),
            final(self).jobs == old(self).jobs,
            final(self).comparison_results == old(self).comparison_results,
            final(self).output_dir == old(self).output_dir,
            final(self).average == old(self).average,
            final(self).times == old(self).times,
            final(self).delay == old(self).delay,
    {
        record_sample_into(&mut self.results, service_ip, sample);
    }

    /// Records one completed comparison call for a worker.
    pub fn record_comparison_sample(&mut self, service_ip: &String, sample: MeasureResponse)
        requires
            old(self).comparison_results is Some,
        ensures
            final(self).comparison_results matches Some(cr) && entries_view(cr@) == record_spec(
                entries_view(old(self).comparison_results.unwrap()@),
                service_ip@,
                sample@,
            ),
            final(self).jobs == old(self).jobs,
            final(self).results == old(self).results,
            final(self).output_dir == old(self).output_dir,
            final(self).average == old(self).average,
            final(self).times == old(self).times,
            final(self).delay == old(self).delay,
    {
        let mut taken: Option<Results> = None;
        core::mem::swap(&mut self.comparison_results, &mut taken);
        match taken {
            Some(mut cr) => {
                record_sample_into(&mut cr, service_ip, sample);
                self.comparison_results = Some(cr);
            },
            None => {
                self.comparison_results = None;
            },
        }
    }

    /// Records a whole target series for one worker, sample by sample in
    /// call order — the one entry point flood mode uses once its joined
    /// outcomes are in dispatch order.
    pub fn record_target_series(&mut self, service_ip: &String, samples: Vec<MeasureResponse>)
        ensures
            entries_view(final(self).results@) == record_all(
                entries_view(old(self).results@),
                service_ip@,
                series_view(samples@),
            ),
            final(self).jobs == old(self).jobs,
            final(self).comparison_results == old(self).comparison_results,
            final(self).output_dir == old(self).output_dir,
            final(self).average == old(self).average,
            final(self).times == old(self).times,
            final(self).delay == old(self).delay,
    {
        let ghost m0 = entries_view(self.results@);
        let ghost sv = series_view(samples@);
        let mut samples = samples;
        let n = samples.len();
        let mut i: usize = 0;
        while i < n
            invariant
                n == samples@.len(),
                0 <= i <= n,
                sv == series_view(samples@),
                entries_view(self.results@) == record_all(m0, service_ip@, sv.subrange(0, i as int)),
                self.jobs == old(self).jobs,
                self.comparison_results == old(self).comparison_results,
                self.output_dir == old(self).output_dir,
                self.average == old(self).average,
                self.times == old(self).times,
                self.delay == old(self).delay,
            decreases n - i,
        {
            proof {
                assert(sv.subrange(0, i as int).push(sv[i as int]) =~= sv.subrange(0, i + 1));
                lemma_record_all_snoc(m0, service_ip@, sv.subrange(0, i as int), sv[i as int]);
            }
            let s = samples[i].duplicate();
            proof {
                assert(s@ == sv[i as int]);
            }
            self.record_target_sample(service_ip, s);
            i = i + 1;
        }
        proof {
            assert(sv.subrange(0, n as int) =~= sv);
        }
    }

    /// Assembles the persisted snapshot of this run: the collected target
    /// results, and the comparison results exactly when they were
    /// collected.
    pub fn output(&self) -> (r: Output)
        ensures
            r@.target_results == entries_view(self.results@),
            r@.comparison_results is Some <==> self.comparison_results is Some,
            self.comparison_results matches Some(cr) ==> r@.comparison_results == Some(
                entries_view(cr@),
            ),
    {
        let comparison_results: Option<Results> = match self.comparison_results {
            Some(ref cr) => Some(copy_results(cr)),
            None => None,
        };
        Output { target_results: copy_results(&self.results), comparison_results }
    }
}


/// The figure a table cell shows for one sample: the overall duration for a
/// duration probe, the time to first byte for a phase-timed probe.
pub open spec fn primary_nanos(v: SampleView) -> u64 {
    match v.overall_duration {
        Some(o) => o,
        None => v.ttfb_duration,
    }
}

/// A cell's text: the sample's primary latency in whole milliseconds.
pub open spec fn cell_text(v: SampleView) -> Seq<char> {
    dec_of((primary_nanos(v) / 1000000) as int) + "ms"@
}

/// A result row: the target's url, then one cell per sample index.
pub open spec fn row_text(label: Seq<char>, ser: Seq<SampleView>) -> Seq<Seq<char>> {
    seq![label] + ser.map(|i: int, v: SampleView| cell_text(v))
}

/// The header row: an empty corner, then the sample indices from one up.
pub open spec fn header_text(times: int) -> Seq<Seq<char>> {
    seq![Seq::<char>::empty()] + Seq::new(times as nat, |i: int| dec_of(i + 1))
}

/// The rows of one worker's table: the header, the target's row, and the
/// comparison's row when a comparison was measured.
pub open spec fn table_text(
    target_url: Seq<char>,
    target_series: Seq<SampleView>,
    comparison: Option<(Seq<char>, Seq<SampleView>)>,
    times: int,
) -> Seq<Seq<Seq<char>>> {
    seq![header_text(times), row_text(target_url, target_series)] + match comparison {
        Some(c) => seq![row_text(c.0, c.1)],
        None => Seq::<Seq<Seq<char>>>::empty(),
    }
}

/// A cell for one sample.
fn render_cell(v: &MeasureResponse) -> (r: String)
    ensures
        r@ == cell_text(v@),
{
    let p: u64 = match v.overall_duration {
        Some(o) => o,
        None => v.ttfb_duration,
    };
    let mut c = u64_to_dec(p / 1000000);
    c.append("ms");
    c
}

/// A result row for one target.
fn render_row(label: &String, ser: &Vec<MeasureResponse>) -> (r: Vec<String>)
    ensures
        r.deep_view() == row_text(label@, series_view(ser@)),
{
    let mut row: Vec<String> = Vec::new();
    row.push(label.clone());
    let mut i: usize = 0;
    while i < ser.len()
        invariant
            0 <= i <= ser@.len(),
            row@.len() == i + 1,
            row@[0]@ == label@,
            forall|j: int| 0 <= j < i ==> #[trigger] row@[j + 1]@ == cell_text(ser@[j]@),
        decreases ser@.len() - i,
    {
        row.push(render_cell(&ser[i]));
        i = i + 1;
    }
    proof {
        assert forall|j: int| 0 <= j < row@.len() implies #[trigger] row.deep_view()[j] == row_text(
            label@,
            series_view(ser@),
        )[j] by {
            assert(row.deep_view()[j] == row@[j]@);
            if j > 0 {
                assert(row@[(j - 1) + 1]@ == cell_text(ser@[j - 1]@));
            }
        }
        assert(row.deep_view() =~= row_text(label@, series_view(ser@)));
    }
    row
}

/// The header row for a run of `times` samples.
fn render_header(times: usize) -> (r: Vec<String>)
    ensures
        r.deep_view() == header_text(times as int),
{
    let mut row: Vec<String> = Vec::new();
    row.push(String::new());
    let mut i: usize = 0;
    while i < times
        invariant
            0 <= i <= times,
            row@.len() == i + 1,
            row@[0]@.len() == 0,
            forall|j: int| 0 <= j < i ==> #[trigger] row@[j + 1]@ == dec_of(j + 1),
        decreases times - i,
    {
        row.push(u64_to_dec((i + 1) as u64));
        i = i + 1;
    }
    proof {
        assert forall|j: int|
            0 <= j < row@.len() implies #[trigger] row.deep_view()[j] == header_text(
            times as int,
        )[j] by {
            assert(row.deep_view()[j] == row@[j]@);
            if j == 0 {
                assert(row@[0]@ =~= Seq::<char>::empty());
            } else {
                assert(row@[(j - 1) + 1]@ == dec_of(j));
            }
        }
        assert(row.deep_view() =~= header_text(times as int));
    }
    row
}

/// The tabular rendering of one worker's results: one row per target, one
/// column per sample index, each cell the sample's primary latency in
/// milliseconds.
pub fn render_table(
    target_url: &String,
    target_series: &Vec<MeasureResponse>,
    comparison_url: &Option<String>,
    comparison_series: &Option<Vec<MeasureResponse>>,
    times: usize,
) -> (r: Vec<Vec<String>>)
    requires
        comparison_url is Some <==> comparison_series is Some,
    ensures
        r.deep_view() == table_text(
            target_url@,
            series_view(target_series@),
            match (comparison_url, comparison_series) {
                (Some(u), Some(c)) => Some((u@, series_view(c@))),
                _ => None,
            },
            times as int,
        ),
{
    let mut rows: Vec<Vec<String>> = Vec::new();
    rows.push(render_header(times));
    rows.push(render_row(target_url, target_series));
    match (comparison_url, comparison_series) {
        (Some(u), Some(c)) => {
            rows.push(render_row(u, c));
        },
        _ => {},
    }
    proof {
        assert forall|j: int|
            0 <= j < rows@.len() implies #[trigger] rows.deep_view()[j] == rows@[j].deep_view() by {
        }
        assert(rows.deep_view() =~= table_text(
            target_url@,
            series_view(target_series@),
            match (comparison_url, comparison_series) {
                (Some(u), Some(c)) => Some((u@, series_view(c@))),
                _ => None,
            },
            times as int,
        ));
    }
    rows
}

} // verus!
