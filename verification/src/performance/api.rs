//! Manual traces: a name, how long the trace ran and named integer metrics.
use vstd::prelude::*;

use std::time::{Duration, Instant};

use crate::app::FirebaseApp;
use crate::performance::error::{invalid_argument, PerformanceErrorCode, PerformanceResult};
use crate::text::{is_blank, is_blank_str, owned, str_equal};

verus! {

/// Declares `std::time::Instant`, a reading of the monotonic clock, as an
/// opaque type.
#[verifier::external_type_specification]
#[verifier::external_body]
pub struct ExInstant(Instant);

/// Calls `std::time::Instant::now`. Nothing is claimed of the reading.
#[verifier::external_body]
fn now_instant() -> (r: Instant) {
    Instant::now()
}

/// Calls `std::time::Instant::elapsed`. Nothing is claimed of the duration.
#[verifier::external_body]
fn elapsed_since(start: &Instant) -> (r: Duration) {
    start.elapsed()
}

/// The metrics of a trace as name and value pairs.
pub open spec fn metric_views(ms: Seq<(String, i64)>) -> Seq<(Seq<char>, i64)> {
    ms.map_values(|m: (String, i64)| (m.0@, m.1))
}

/// The value recorded under `name`: the last pair with that name.
pub open spec fn metric_of(ms: Seq<(Seq<char>, i64)>, name: Seq<char>) -> Option<i64>
    decreases ms.len(),
{
    if ms.len() == 0 {
        None
    } else if ms.last().0 == name {
        Some(ms.last().1)
    } else {
        metric_of(ms.drop_last(), name)
    }
}

/// The value recorded under `name` in a list of metrics.
fn find_metric(ms: &Vec<(String, i64)>, name: &str) -> (r: Option<i64>)
    ensures
        r == metric_of(metric_views(ms@), name@),
{
    let mut i: usize = ms.len();
    assert(metric_views(ms@).take(i as int) =~= metric_views(ms@));
    while i > 0
        invariant
            i <= ms@.len(),
            metric_of(metric_views(ms@), name@) == metric_of(metric_views(ms@).take(i as int), name@),
        decreases i,
    {
        proof {
            let t = metric_views(ms@).take(i as int);
            assert(t.drop_last() =~= metric_views(ms@).take(i - 1));
            assert(t.last() == (ms@[i - 1].0@, ms@[i - 1].1));
        }
        if str_equal(ms[i - 1].0.as_str(), name) {
            return Some(ms[i - 1].1);
        }
        i = i - 1;
    }
    assert(metric_views(ms@).take(0) =~= Seq::<(Seq<char>, i64)>::empty());
    None
}

/// A copy of a list of metrics.
fn copy_metrics(ms: &Vec<(String, i64)>) -> (r: Vec<(String, i64)>)
    ensures
        metric_views(r@) == metric_views(ms@),
{
    let mut r: Vec<(String, i64)> = Vec::new();
    let mut i: usize = 0;
    while i < ms.len()
        invariant
            i <= ms@.len(),
            metric_views(r@) == metric_views(ms@).take(i as int),
        decreases ms@.len() - i,
    {
        let ghost before = r@;
        r.push((ms[i].0.clone(), ms[i].1));
        assert(metric_views(r@) =~= metric_views(before).push((ms@[i as int].0@, ms@[i as int].1)));
        assert(metric_views(ms@).take(i + 1) =~= metric_views(ms@).take(i as int).push((ms@[i as int].0@, ms@[i as int].1)));
        i = i + 1;
    }
    assert(metric_views(ms@).take(ms@.len() as int) =~= metric_views(ms@));
    r
}

/// A finished trace: its name, how long it ran and its metrics.
#[derive(Debug)]
pub struct PerformanceTrace {
    pub name: String,
    pub duration: Duration,
    pub metrics: Vec<(String, i64)>,
}

impl PerformanceTrace {
    /// The value of the metric `name`, if it was recorded.
    pub fn metric(&self, name: &str) -> (r: Option<i64>)
        ensures
            r == metric_of(metric_views(self.metrics@), name@),
    {
        find_metric(&self.metrics, name)
    }
}

impl Clone for PerformanceTrace {
    fn clone(&self) -> (r: Self)
        ensures
            r.name@ == self.name@,
            r.duration == self.duration,
            metric_views(r.metrics@) == metric_views(self.metrics@),
    {
        PerformanceTrace { name: self.name.clone(), duration: self.duration, metrics: copy_metrics(&self.metrics) }
    }
}

/// A running trace.
pub struct TraceHandle {
    name: String,
    start: Instant,
    metrics: Vec<(String, i64)>,
}

impl TraceHandle {
    /// The trace's name.
    pub closed spec fn spec_name(&self) -> Seq<char> {
        self.name@
    }

    /// The metrics recorded so far.
    pub closed spec fn spec_metrics(&self) -> Seq<(Seq<char>, i64)> {
        metric_views(self.metrics@)
    }

    /// Records `value` under `name`, replacing an earlier value; a blank name
    /// is refused.
    pub fn put_metric(&mut self, name: &str, value: i64) -> (r: PerformanceResult<()>)
        ensures
            final(self).spec_name() == old(self).spec_name(),
            match r {
                Ok(_) => !is_blank(name@) && forall|n: Seq<char>|
                    #[trigger] metric_of(final(self).spec_metrics(), n) == if n == name@ {
                        Some(value)
                    } else {
                        metric_of(old(self).spec_metrics(), n)
                    },
                Err(e) => is_blank(name@) && e.code == PerformanceErrorCode::InvalidArgument
                    && final(self).spec_metrics() == old(self).spec_metrics(),
            },
    {
        if is_blank_str(name) {
            return Err(invalid_argument("Metric name must not be empty"));
        }
        let ghost before = self.metrics@;
        self.metrics.push((owned(name), value));
        proof {
            assert(metric_views(self.metrics@).drop_last() =~= metric_views(before));
        }
        Ok(())
    }

    /// Ends the trace: its duration is the time since it started, and
    /// `performance` keeps it as the trace recorded under its name.
    pub fn stop(self, performance: &mut Performance) -> (r: PerformanceResult<PerformanceTrace>)
        ensures
            r matches Ok(t) && t.name@ == self.spec_name() && metric_views(t.metrics@) == self.spec_metrics(),
            final(performance).spec_app() == old(performance).spec_app(),
            forall|n: Seq<char>|
                #[trigger] final(performance).spec_recorded(n) == if n == self.spec_name() {
                    Some(self.spec_metrics())
                } else {
                    old(performance).spec_recorded(n)
                },
    {
        let duration = elapsed_since(&self.start);
        let trace = PerformanceTrace { name: self.name, duration, metrics: self.metrics };
        performance.record(trace.clone());
        Ok(trace)
    }
}

/// The metrics of the trace recorded last under `name`.
pub open spec fn recorded_metrics(traces: Seq<PerformanceTrace>, name: Seq<char>) -> Option<Seq<(Seq<char>, i64)>>
    decreases traces.len(),
{
    if traces.len() == 0 {
        None
    } else if traces.last().name@ == name {
        Some(metric_views(traces.last().metrics@))
    } else {
        recorded_metrics(traces.drop_last(), name)
    }
}

/// Performance monitoring for one app: the traces it has recorded.
pub struct Performance {
    app: FirebaseApp,
    traces: Vec<PerformanceTrace>,
}

impl Performance {
    /// The name of the app this monitor belongs to.
    pub closed spec fn spec_app(&self) -> Seq<char> {
        self.app.name@
    }

    /// The metrics of the trace recorded last under `name`.
    pub closed spec fn spec_recorded(&self, name: Seq<char>) -> Option<Seq<(Seq<char>, i64)>> {
        recorded_metrics(self.traces@, name)
    }

    /// A monitor for `app` with no trace recorded.
    pub fn new(app: FirebaseApp) -> (p: Self)
        ensures
            p.spec_app() == app.name@,
            forall|n: Seq<char>| #[trigger] p.spec_recorded(n) is None,
    {
        Performance { app, traces: Vec::new() }
    }

    /// The app this monitor belongs to.
    pub fn app(&self) -> (r: &FirebaseApp)
        ensures
            r.name@ == self.spec_app(),
    {
        &self.app
    }

    /// Starts a trace; a blank name is refused.
    pub fn new_trace(&self, name: &str) -> (r: PerformanceResult<TraceHandle>)
        ensures
            match r {
                Ok(t) => !is_blank(name@) && t.spec_name() == name@ && t.spec_metrics().len() == 0,
                Err(e) => is_blank(name@) && e.code == PerformanceErrorCode::InvalidArgument,
            },
    {
        if is_blank_str(name) {
            return Err(invalid_argument("Trace name must not be empty"));
        }
        let t = TraceHandle { name: owned(name), start: now_instant(), metrics: Vec::new() };
        assert(metric_views(t.metrics@).len() == 0);
        Ok(t)
    }

    /// Keeps `trace` as the trace recorded under its name.
    fn record(&mut self, trace: PerformanceTrace)
        ensures
            final(self).spec_app() == old(self).spec_app(),
            forall|n: Seq<char>|
                #[trigger] final(self).spec_recorded(n) == if n == trace.name@ {
                    Some(metric_views(trace.metrics@))
                } else {
                    old(self).spec_recorded(n)
                },
    {
        let ghost before = self.traces@;
        self.traces.push(trace);
        assert(self.traces@.drop_last() =~= before);
    }

    /// The trace recorded last under `name`, if any.
    pub fn recorded_trace(&self, name: &str) -> (r: Option<&PerformanceTrace>)
        ensures
            match r {
                Some(t) => t.name@ == name@ && self.spec_recorded(name@) == Some(metric_views(t.metrics@)),
                None => self.spec_recorded(name@) is None,
            },
    {
        let mut i: usize = self.traces.len();
        assert(self.traces@.take(i as int) =~= self.traces@);
        while i > 0
            invariant
                i <= self.traces@.len(),
                self.spec_recorded(name@) == recorded_metrics(self.traces@.take(i as int), name@),
            decreases i,
        {
            proof {
                let t = self.traces@.take(i as int);
                assert(t.drop_last() =~= self.traces@.take(i - 1));
                assert(t.last() == self.traces@[i - 1]);
            }
            if str_equal(self.traces[i - 1].name.as_str(), name) {
                return Some(&self.traces[i - 1]);
            }
            i = i - 1;
        }
        assert(self.traces@.take(0) =~= Seq::<PerformanceTrace>::empty());
        None
    }
}

} // verus!
