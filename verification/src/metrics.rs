use vstd::prelude::*;
use vstd::string::*;
use std::time::{Duration, Instant};
use crate::clock::{monotonic_clock, time_since};

verus! {

/// The kind of instrument that a sample is meant for.
#[derive(Clone, Copy, Debug, PartialEq, Eq, Structural)]
pub enum SampleKind {
    Counter,
    Gauge,
    Histogram,
}

/// What a sample carries: a whole number, or a length of time.
#[derive(Clone, Copy, Debug)]
pub enum SampleValue {
    Whole(u64),
    Elapsed(Duration),
}

/// A key and a value that qualify a sample.
#[derive(Debug)]
pub struct Label {
    pub key: String,
    pub value: String,
}

/// One observation for the metrics registry: an increment of a counter, a
/// level of a gauge, or a value for a histogram. The library says what is
/// to be recorded; recording it is the caller's part.
#[derive(Debug)]
pub struct Sample {
    pub kind: SampleKind,
    pub name: String,
    pub labels: Vec<Label>,
    pub value: SampleValue,
}

/// What a `Sample` holds, as mathematical values.
pub struct SampleView {
    pub kind: SampleKind,
    pub name: Seq<char>,
    pub labels: Seq<(Seq<char>, Seq<char>)>,
    pub value: SampleValue,
}

impl View for Label {
    type V = (Seq<char>, Seq<char>);

    open spec fn view(&self) -> (Seq<char>, Seq<char>) {
        (self.key@, self.value@)
    }
}

impl View for Sample {
    type V = SampleView;

    open spec fn view(&self) -> SampleView {
        SampleView {
            kind: self.kind,
            name: self.name@,
            labels: self.labels@.map_values(|l: Label| l@),
            value: self.value,
        }
    }
}

/// The views of a sequence of samples, in order.
pub open spec fn sample_views(samples: Seq<Sample>) -> Seq<SampleView> {
    samples.map_values(|s: Sample| s@)
}

/// A sample without labels.
pub open spec fn plain_sample(kind: SampleKind, name: Seq<char>, value: SampleValue) -> SampleView {
    SampleView { kind, name, labels: Seq::empty(), value }
}

/// The word for a truth value.
pub open spec fn truth_text(flag: bool) -> Seq<char> {
    if flag {
        "true"@
    } else {
        "false"@
    }
}

fn plain(kind: SampleKind, name: &str, value: SampleValue) -> (sample: Sample)
    ensures
        sample@ == plain_sample(kind, name@, value),
{
    let sample = Sample { kind, name: String::from_str(name), labels: Vec::new(), value };
    assert(sample@.labels =~= Seq::empty());
    sample
}

fn labelled(kind: SampleKind, name: &str, labels: Vec<Label>, value: SampleValue) -> (sample: Sample)
    ensures
        sample@ == (SampleView {
            kind,
            name: name@,
            labels: labels@.map_values(|l: Label| l@),
            value,
        }),
{
    Sample { kind, name: String::from_str(name), labels, value }
}

fn label(key: &str, value: &str) -> (l: Label)
    ensures
        l@ == (key@, value@),
{
    Label { key: String::from_str(key), value: String::from_str(value) }
}

/// Names the samples that the events of the index give rise to.
pub struct GeoIndexMetrics;

impl GeoIndexMetrics {
    /// A report of a driver was taken: one more on the counter of updates.
    pub fn record_driver_update() -> (samples: Vec<Sample>)
        ensures
            sample_views(samples@) == seq![
                plain_sample(
                    SampleKind::Counter,
                    "geo_index_driver_updates_total"@,
                    SampleValue::Whole(1),
                ),
            ],
    {
        let mut samples: Vec<Sample> = Vec::new();
        samples.push(
            plain(SampleKind::Counter, "geo_index_driver_updates_total", SampleValue::Whole(1)),
        );
        assert(sample_views(samples@) =~= seq![samples@[0]@]);
        samples
    }

    /// A driver was removed: one more on the counter of removals.
    pub fn record_driver_removal() -> (samples: Vec<Sample>)
        ensures
            sample_views(samples@) == seq![
                plain_sample(
                    SampleKind::Counter,
                    "geo_index_driver_removals_total"@,
                    SampleValue::Whole(1),
                ),
            ],
    {
        let mut samples: Vec<Sample> = Vec::new();
        samples.push(
            plain(SampleKind::Counter, "geo_index_driver_removals_total", SampleValue::Whole(1)),
        );
        assert(sample_views(samples@) =~= seq![samples@[0]@]);
        samples
    }

    /// A search was answered: its duration and the number of its results
    /// for the two histograms, and one more on the counter of searches.
    pub fn record_search(duration: Duration, drivers_found: usize) -> (samples: Vec<Sample>)
        ensures
            sample_views(samples@) == seq![
                plain_sample(
                    SampleKind::Histogram,
                    "geo_index_search_duration_seconds"@,
                    SampleValue::Elapsed(duration),
                ),
                plain_sample(
                    SampleKind::Histogram,
                    "geo_index_search_results_count"@,
                    SampleValue::Whole(drivers_found as u64),
                ),
                plain_sample(
                    SampleKind::Counter,
                    "geo_index_searches_total"@,
                    SampleValue::Whole(1),
                ),
            ],
    {
        let mut samples: Vec<Sample> = Vec::new();
        samples.push(
            plain(
                SampleKind::Histogram,
                "geo_index_search_duration_seconds",
                SampleValue::Elapsed(duration),
            ),
        );
        samples.push(
            plain(
                SampleKind::Histogram,
                "geo_index_search_results_count",
                SampleValue::Whole(drivers_found as u64),
            ),
        );
        samples.push(plain(SampleKind::Counter, "geo_index_searches_total", SampleValue::Whole(1)));
        assert(sample_views(samples@) =~= seq![samples@[0]@, samples@[1]@, samples@[2]@]);
        samples
    }

    /// The counts of the index, as levels of the three gauges.
    pub fn update_driver_counts(total: usize, active: usize, available: usize) -> (samples: Vec<
        Sample,
    >)
        ensures
            sample_views(samples@) == seq![
                plain_sample(
                    SampleKind::Gauge,
                    "geo_index_total_drivers"@,
                    SampleValue::Whole(total as u64),
                ),
                plain_sample(
                    SampleKind::Gauge,
                    "geo_index_active_drivers"@,
                    SampleValue::Whole(active as u64),
                ),
                plain_sample(
                    SampleKind::Gauge,
                    "geo_index_available_drivers"@,
                    SampleValue::Whole(available as u64),
                ),
            ],
    {
        let mut samples: Vec<Sample> = Vec::new();
        samples.push(
            plain(SampleKind::Gauge, "geo_index_total_drivers", SampleValue::Whole(total as u64)),
        );
        samples.push(
            plain(SampleKind::Gauge, "geo_index_active_drivers", SampleValue::Whole(active as u64)),
        );
        samples.push(
            plain(
                SampleKind::Gauge,
                "geo_index_available_drivers",
                SampleValue::Whole(available as u64),
            ),
        );
        assert(sample_views(samples@) =~= seq![samples@[0]@, samples@[1]@, samples@[2]@]);
        samples
    }

    /// A request was served: one more on the counter of requests, labelled
    /// with the method and with whether it succeeded, and its duration for
    /// the histogram, labelled with the method.
    pub fn record_grpc_request(method: &str, duration: Duration, success: bool) -> (samples: Vec<
        Sample,
    >)
        ensures
            sample_views(samples@) == seq![
                (SampleView {
                    kind: SampleKind::Counter,
                    name: "geo_index_grpc_requests_total"@,
                    labels: seq![("method"@, method@), ("success"@, truth_text(success))],
                    value: SampleValue::Whole(1),
                }),
                (SampleView {
                    kind: SampleKind::Histogram,
                    name: "geo_index_grpc_request_duration_seconds"@,
                    labels: seq![("method"@, method@)],
                    value: SampleValue::Elapsed(duration),
                }),
            ],
    {
        let word = if success {
            "true"
        } else {
            "false"
        };
        let mut both: Vec<Label> = Vec::new();
        both.push(label("method", method));
        both.push(label("success", word));
        assert(both@.map_values(|l: Label| l@) =~= seq![
            ("method"@, method@),
            ("success"@, truth_text(success)),
        ]);
        let mut first: Vec<Label> = Vec::new();
        first.push(label("method", method));
        assert(first@.map_values(|l: Label| l@) =~= seq![("method"@, method@)]);
        let mut samples: Vec<Sample> = Vec::new();
        samples.push(
            labelled(
                SampleKind::Counter,
                "geo_index_grpc_requests_total",
                both,
                SampleValue::Whole(1),
            ),
        );
        samples.push(
            labelled(
                SampleKind::Histogram,
                "geo_index_grpc_request_duration_seconds",
                first,
                SampleValue::Elapsed(duration),
            ),
        );
        assert(sample_views(samples@) =~= seq![samples@[0]@, samples@[1]@]);
        samples
    }
}

/// Measures how long an operation takes, from the making of the timer to
/// its end.
pub struct MetricsTimer {
    start: Instant,
    operation: String,
}

/// The sample that a timer of `operation` ends with.
pub open spec fn timer_sample(operation: Seq<char>, elapsed: Duration) -> SampleView {
    SampleView {
        kind: SampleKind::Histogram,
        name: "geo_index_operation_duration_seconds"@,
        labels: seq![("operation"@, operation)],
        value: SampleValue::Elapsed(elapsed),
    }
}

impl MetricsTimer {
    /// The operation that is timed.
    pub closed spec fn spec_operation(&self) -> Seq<char> {
        self.operation@
    }

    /// Starts timing `operation`.
    pub fn new(operation: &str) -> (timer: MetricsTimer)
        ensures
            timer.spec_operation() == operation@,
    {
        MetricsTimer { start: monotonic_clock(), operation: String::from_str(operation) }
    }

    pub fn operation(&self) -> (name: &str)
        ensures
            name@ == self.spec_operation(),
    {
        self.operation.as_str()
    }

    /// The sample for an operation that took `elapsed`.
    pub fn finish_after(self, elapsed: Duration) -> (sample: Sample)
        ensures
            sample@ == timer_sample(self.spec_operation(), elapsed),
    {
        let mut labels: Vec<Label> = Vec::new();
        labels.push(label("operation", self.operation.as_str()));
        assert(labels@.map_values(|l: Label| l@) =~= seq![("operation"@, self.spec_operation())]);
        labelled(
            SampleKind::Histogram,
            "geo_index_operation_duration_seconds",
            labels,
            SampleValue::Elapsed(elapsed),
        )
    }

    /// Ends the timing: the sample for the time that has passed since the
    /// timer was made, whatever that time is.
    pub fn finish(self) -> (sample: Sample)
        ensures
            exists|elapsed: Duration| sample@ == #[trigger] timer_sample(
                self.spec_operation(),
                elapsed,
            ),
    {
        let elapsed = time_since(&self.start);
        self.finish_after(elapsed)
    }
}

} // verus!
