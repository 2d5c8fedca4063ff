//! The process-wide metric registry and what is read from it.

use crate::exposition::Bucket;
use crate::labels;
use metriken::Value;
use vstd::prelude::*;

verus! {

/// The registered metrics, as the `metriken` crate gives access to them.
#[verifier::external_type_specification]
#[verifier::external_body]
pub struct ExMetrics(metriken::Metrics);

/// The histogram of the `histogram` crate.
#[verifier::external_type_specification]
#[verifier::external_body]
pub struct ExHistogram(histogram::Histogram);

/// The name and the description of each registered metric, in the order in
/// which the registry is walked. While a `metriken::Metrics` is held, no metric
/// is registered or removed.
pub uninterp spec fn registered(metrics: metriken::Metrics) -> Seq<
    (Seq<char>, Option<Seq<char>>),
>;

/// Whether entries are what a walk over the registered metrics may hand out.
/// The metadata is what each metric answers when it is asked, so one walk may
/// hand out other entries than another.
pub uninterp spec fn may_list(metrics: metriken::Metrics, entries: Seq<Entry>) -> bool;

/// Whether values are what a walk over the registered metrics may read of them.
/// The values are live, so one walk may read other values than another.
pub uninterp spec fn may_read(
    metrics: metriken::Metrics,
    values: Seq<Option<MetricValue>>,
) -> bool;

/// The buckets of a histogram, in ascending order of their ranges.
pub uninterp spec fn buckets_of(histogram: histogram::Histogram) -> Seq<Bucket>;

/// The grouping power and the maximum value power that a histogram was made
/// with.
pub uninterp spec fn powers_of(histogram: histogram::Histogram) -> (u8, u8);

/// The value of a metric at the time of reading.
#[derive(Debug)]
pub enum MetricValue {
    /// The value of a counter.
    Counter(u64),
    /// The value of a gauge.
    Gauge(i64),
    /// A histogram, which holds nothing before its first observation, and the
    /// grouping power and maximum value power of its metric.
    Histogram { loaded: Option<histogram::Histogram>, powers: (u8, u8) },
    /// A value of a kind of its own, which may turn out to be one of the two
    /// types of histogram.
    Other { atomic: Option<histogram::Histogram>, rwlock: Option<histogram::Histogram> },
    /// A group of counters.
    CounterGroup,
    /// A group of gauges.
    GaugeGroup,
    /// A group of histograms.
    HistogramGroup,
    /// A value of a kind that is not known.
    Unsupported,
}

/// What is known of a registered metric besides its value.
#[derive(Debug)]
pub struct Entry {
    /// The name of the metric.
    pub name: String,
    /// What the metric measures.
    pub description: Option<String>,
    /// The labels of the metric.
    pub metadata: Vec<(String, String)>,
}

/// A registered metric, as it was read.
#[derive(Debug)]
pub struct Reading {
    /// What is known of the metric besides its value.
    pub entry: Entry,
    /// The value, if the metric has one.
    pub value: Option<MetricValue>,
}

/// The name and the description of a metric.
pub open spec fn identity(entry: Entry) -> (Seq<char>, Option<Seq<char>>) {
    (
        entry.name@,
        match entry.description {
            Some(text) => Some(text@),
            None => None,
        },
    )
}

/// `metriken::metrics`: access to the registered metrics. Which metrics are
/// registered is up to the rest of the process, so nothing is claimed of them.
pub assume_specification[ metriken::metrics ]() -> metriken::Metrics;

/// `metriken::Metrics::iter`, with each entry handed out as plain values: its
/// name, description and metadata. The names and descriptions are those that
/// were registered, and the entries are what such a walk may hand out. What the
/// metadata is, is left open: the metric answers for it when it is asked.
#[verifier::external_body]
fn entries(metrics: &metriken::Metrics) -> (entries: Vec<Entry>)
    ensures
        entries@.len() == registered(*metrics).len(),
        forall|i: int|
            0 <= i < entries@.len() ==> identity(#[trigger] entries@[i]) == registered(*metrics)[i],
        may_list(*metrics, entries@),
{
    let pair = |(key, value): (&str, &str)| (key.to_string(), value.to_string());
    let entry = |entry: &metriken::MetricEntry| Entry {
        name: entry.name().to_string(),
        description: entry.description().map(|text| text.to_string()),
        metadata: entry.metadata().iter().map(pair).collect(),
    };
    metrics.iter().map(entry).collect()
}

/// `metriken::Metric::value` of each entry that `metriken::Metrics::iter` walks
/// over, with the kinds of value told apart and the histograms loaded. There is
/// one value per entry, and the values are what such a walk may read. What they
/// are is left open: they are live.
#[verifier::external_body]
fn values(metrics: &metriken::Metrics) -> (values: Vec<Option<MetricValue>>)
    ensures
        values@.len() == registered(*metrics).len(),
        may_read(*metrics, values@),
{
    let convert = |value: Value<'_>| match value {
        Value::Counter(v) => MetricValue::Counter(v),
        Value::Gauge(v) => MetricValue::Gauge(v),
        Value::Histogram(h) => MetricValue::Histogram { loaded: h.load(),
            powers: (h.config().grouping_power(), h.config().max_value_power()) },
        Value::CounterGroup(_) => MetricValue::CounterGroup,
        Value::GaugeGroup(_) => MetricValue::GaugeGroup,
        Value::HistogramGroup(_) => MetricValue::HistogramGroup,
        Value::Other(any) => MetricValue::Other {
            atomic: any.downcast_ref().and_then(metriken::AtomicHistogram::load),
            rwlock: any.downcast_ref().and_then(metriken::RwLockHistogram::load) },
        _ => MetricValue::Unsupported,
    };
    metrics.iter().map(|entry| entry.value().map(convert)).collect()
}

/// `histogram::Histogram::iter`, with each bucket handed out as plain values.
#[verifier::external_body]
pub(crate) fn buckets(histogram: &histogram::Histogram) -> (buckets: Vec<Bucket>)
    ensures
        buckets@ == buckets_of(*histogram),
{
    let plain = |b: histogram::Bucket| Bucket { start: b.start(), end: b.end(), count: b.count() };
    histogram.iter().map(plain).collect()
}

/// `histogram::Histogram::config`, with the configuration handed out as its
/// grouping power and its maximum value power.
#[verifier::external_body]
pub(crate) fn powers(histogram: &histogram::Histogram) -> (powers: (u8, u8))
    ensures
        powers == powers_of(*histogram),
{
    (histogram.config().grouping_power(), histogram.config().max_value_power())
}

/// The names and the descriptions of some readings.
pub open spec fn identities(readings: Seq<Reading>) -> Seq<(Seq<char>, Option<Seq<char>>)> {
    readings.map_values(|reading: Reading| identity(reading.entry))
}

/// Whether readings are what may be read of registered metrics: of each of them
/// its entry and its value, in order.
pub open spec fn read_from(metrics: metriken::Metrics, readings: Seq<Reading>) -> bool {
    &&& identities(readings) == registered(metrics)
    &&& may_list(metrics, readings.map_values(|reading: Reading| reading.entry))
    &&& may_read(metrics, readings.map_values(|reading: Reading| reading.value))
}

/// Whether two histograms that may be missing have the same content.
pub open spec fn same_histogram(
    a: Option<histogram::Histogram>,
    b: Option<histogram::Histogram>,
) -> bool {
    match (a, b) {
        (Some(a), Some(b)) => powers_of(a) == powers_of(b) && buckets_of(a) == buckets_of(b),
        (None, None) => true,
        _ => false,
    }
}

/// Whether two values have the same content.
pub open spec fn same_value(a: Option<MetricValue>, b: Option<MetricValue>) -> bool {
    match (a, b) {
        (
            Some(MetricValue::Histogram { loaded: a, powers: p }),
            Some(MetricValue::Histogram { loaded: b, powers: q }),
        ) => same_histogram(a, b) && p == q,
        (
            Some(MetricValue::Other { atomic: a, rwlock: c }),
            Some(MetricValue::Other { atomic: b, rwlock: d }),
        ) => same_histogram(a, b) && same_histogram(c, d),
        _ => a == b,
    }
}

/// Whether two readings have the same content: the name, the description, the
/// labels in whatever order, and the value.
pub open spec fn same_reading(a: Reading, b: Reading) -> bool {
    &&& identity(a.entry) == identity(b.entry)
    &&& labels::pairs_map(a.entry.metadata@) == labels::pairs_map(b.entry.metadata@)
    &&& same_value(a.value, b.value)
}

/// Puts each entry together with its value.
pub fn pair_readings(entries: Vec<Entry>, values: Vec<Option<MetricValue>>) -> (readings: Vec<
    Reading,
>)
    requires
        entries@.len() == values@.len(),
    ensures
        readings@.len() == entries@.len(),
        forall|i: int|
            0 <= i < readings@.len() ==> (#[trigger] readings@[i]).entry == entries@[i]
                && readings@[i].value == values@[i],
{
    let ghost all = entries@;
    let ghost answers = values@;
    let mut values = values;
    let mut readings: Vec<Reading> = Vec::new();
    for entry in it: entries
        invariant
            it.seq() == all,
            values@.len() == all.len(),
            readings@.len() == it.index(),
            forall|i: int| it.index() <= i < all.len() ==> values@[i] == answers[i],
            forall|i: int|
                0 <= i < readings@.len() ==> (#[trigger] readings@[i]).entry == all[i]
                    && readings@[i].value == answers[i],
    {
        let i: usize = readings.len();
        let value = values[i].take();
        readings.push(Reading { entry, value });
    }
    readings
}

/// Reads every registered metric, in the order in which the registry is walked.
pub fn read_registry() -> (readings: Vec<Reading>)
    ensures
        exists|metrics: metriken::Metrics| #[trigger] read_from(metrics, readings@),
{
    let metrics = metriken::metrics();
    let entries = entries(&metrics);
    let values = values(&metrics);
    let ghost listed = entries@;
    let ghost read = values@;
    let readings = pair_readings(entries, values);
    proof {
        assert(identities(readings@) =~= registered(metrics));
        assert(readings@.map_values(|reading: Reading| reading.entry) =~= listed);
        assert(readings@.map_values(|reading: Reading| reading.value) =~= read);
        assert(read_from(metrics, readings@));
    }
    readings
}

/// Every registered metric is read, and nothing else: there is one reading for
/// each, in order, under its name and description, with an entry and a value that
/// a walk over the metrics may give.
pub proof fn every_registered_metric_is_read(metrics: metriken::Metrics, readings: Seq<Reading>)
    requires
        read_from(metrics, readings),
    ensures
        readings.len() == registered(metrics).len(),
        forall|i: int|
            0 <= i < readings.len() ==> (#[trigger] readings[i]).entry.name@ == registered(
                metrics,
            )[i].0,
        forall|i: int|
            0 <= i < readings.len() ==> registered(metrics)[i].1 == (match (
            #[trigger] readings[i]).entry.description {
                Some(text) => Some(text@),
                None => None,
            }),
        may_list(metrics, Seq::new(readings.len(), |i: int| readings[i].entry)),
        may_read(metrics, Seq::new(readings.len(), |i: int| readings[i].value)),
{
    assert forall|i: int| 0 <= i < readings.len() implies identity(
        (#[trigger] readings[i]).entry,
    ) == registered(metrics)[i] by {
        assert(identities(readings)[i] == identity(readings[i].entry));
    }
    assert(readings.map_values(|reading: Reading| reading.entry) =~= Seq::new(
        readings.len(),
        |i: int| readings[i].entry,
    ));
    assert(readings.map_values(|reading: Reading| reading.value) =~= Seq::new(
        readings.len(),
        |i: int| readings[i].value,
    ));
}

} // verus!
