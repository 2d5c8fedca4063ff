//! Snapshots of the registered metrics.

use crate::exposition::Bucket;
use crate::labels;
use crate::labels::Labels;
use crate::registry;
use crate::registry::{Entry, MetricValue, Reading};
use crate::text;
use metriken_exposition::{Counter, Gauge, Histogram, SnapshotV2};
use std::time::{Duration, Instant, SystemTime};
use vstd::prelude::*;
use vstd::string::*;

verus! {

/// The system clock's time of the standard library.
#[verifier::external_type_specification]
#[verifier::external_body]
pub struct ExSystemTime(SystemTime);

/// The monotonic clock's time of the standard library.
#[verifier::external_type_specification]
#[verifier::external_body]
pub struct ExInstant(Instant);

/// The error of a msgpack encoder.
#[verifier::external_type_specification]
#[verifier::external_body]
pub struct ExMsgpackError(rmp_serde::encode::Error);

/// A counter of a snapshot.
#[derive(Debug)]
pub struct CounterRow {
    /// The name of the metric.
    pub name: String,
    /// The value.
    pub value: u64,
    /// The labels of the metric, its name among them.
    pub metadata: Labels,
}

/// A gauge of a snapshot.
#[derive(Debug)]
pub struct GaugeRow {
    /// The name of the metric.
    pub name: String,
    /// The value.
    pub value: i64,
    /// The labels of the metric, its name among them.
    pub metadata: Labels,
}

/// A histogram of a snapshot.
#[derive(Debug)]
pub struct HistogramRow {
    /// The name of the metric.
    pub name: String,
    /// The observations.
    pub value: histogram::Histogram,
    /// The labels of the metric, its name and its configuration among them.
    pub metadata: Labels,
}

/// The metrics of a snapshot, by kind.
#[derive(Debug)]
pub struct Rows {
    /// The counters.
    pub counters: Vec<CounterRow>,
    /// The gauges.
    pub gauges: Vec<GaugeRow>,
    /// The histograms.
    pub histograms: Vec<HistogramRow>,
}

/// The values of the registered metrics at a time.
#[derive(Debug)]
pub struct Snapshot {
    /// When the snapshot was begun.
    pub systemtime: SystemTime,
    /// How long it took.
    pub duration: Duration,
    /// Where the snapshot is from.
    pub metadata: Labels,
    /// The metrics.
    pub rows: Rows,
}

/// The content of a counter.
#[verifier::ext_equal]
pub ghost struct CounterView {
    pub name: Seq<char>,
    pub value: u64,
    pub metadata: Map<Seq<char>, Seq<char>>,
}

/// The content of a gauge.
#[verifier::ext_equal]
pub ghost struct GaugeView {
    pub name: Seq<char>,
    pub value: i64,
    pub metadata: Map<Seq<char>, Seq<char>>,
}

/// The content of a histogram.
#[verifier::ext_equal]
pub ghost struct HistogramView {
    pub name: Seq<char>,
    pub powers: (u8, u8),
    pub buckets: Seq<Bucket>,
    pub metadata: Map<Seq<char>, Seq<char>>,
}

/// The content of the metrics of a snapshot.
#[verifier::ext_equal]
pub ghost struct RowsView {
    pub counters: Seq<CounterView>,
    pub gauges: Seq<GaugeView>,
    pub histograms: Seq<HistogramView>,
}

/// The content of a snapshot.
#[verifier::ext_equal]
pub ghost struct SnapshotView {
    pub systemtime: SystemTime,
    pub duration: Duration,
    pub metadata: Map<Seq<char>, Seq<char>>,
    pub rows: RowsView,
}

impl View for CounterRow {
    type V = CounterView;

    open spec fn view(&self) -> CounterView {
        CounterView { name: self.name@, value: self.value, metadata: self.metadata@ }
    }
}

impl View for GaugeRow {
    type V = GaugeView;

    open spec fn view(&self) -> GaugeView {
        GaugeView { name: self.name@, value: self.value, metadata: self.metadata@ }
    }
}

impl View for HistogramRow {
    type V = HistogramView;

    open spec fn view(&self) -> HistogramView {
        HistogramView {
            name: self.name@,
            powers: registry::powers_of(self.value),
            buckets: registry::buckets_of(self.value),
            metadata: self.metadata@,
        }
    }
}

impl View for Rows {
    type V = RowsView;

    open spec fn view(&self) -> RowsView {
        RowsView {
            counters: self.counters@.map_values(|row: CounterRow| row@),
            gauges: self.gauges@.map_values(|row: GaugeRow| row@),
            histograms: self.histograms@.map_values(|row: HistogramRow| row@),
        }
    }
}

impl View for Snapshot {
    type V = SnapshotView;

    open spec fn view(&self) -> SnapshotView {
        SnapshotView {
            systemtime: self.systemtime,
            duration: self.duration,
            metadata: self.metadata@,
            rows: self.rows@,
        }
    }
}

impl Rows {
    /// The labels of every metric are well-formed.
    pub open spec fn wf(&self) -> bool {
        &&& forall|i: int|
            0 <= i < self.counters@.len() ==> (#[trigger] self.counters@[i]).metadata.wf()
        &&& forall|i: int|
            0 <= i < self.gauges@.len() ==> (#[trigger] self.gauges@[i]).metadata.wf()
        &&& forall|i: int|
            0 <= i < self.histograms@.len() ==> (#[trigger] self.histograms@[i]).metadata.wf()
    }
}

impl Snapshot {
    /// All labels are well-formed.
    pub open spec fn wf(&self) -> bool {
        &&& self.metadata.wf()
        &&& self.rows.wf()
    }
}

/// The labels of a metric: its name under `metric`, and its own labels, which
/// win over that.
pub open spec fn row_labels(entry: Entry) -> Map<Seq<char>, Seq<char>> {
    Map::<Seq<char>, Seq<char>>::empty().insert("metric"@, entry.name@).union_prefer_right(
        labels::pairs_map(entry.metadata@),
    )
}

/// The labels of a histogram: those of its metric, and the two powers of its
/// configuration.
pub open spec fn histogram_labels(entry: Entry, powers: (u8, u8)) -> Map<Seq<char>, Seq<char>> {
    row_labels(entry).insert("grouping_power"@, text::decimal(powers.0 as nat)).insert(
        "max_value_power"@,
        text::decimal(powers.1 as nat),
    )
}

/// The histogram of a value, if there is one, and the powers that are reported
/// with it.
pub open spec fn recorded_histogram(value: Option<MetricValue>) -> Option<
    (histogram::Histogram, (u8, u8)),
> {
    match value {
        Some(MetricValue::Histogram { loaded: Some(h), powers }) => Some((h, powers)),
        Some(MetricValue::Other { atomic: Some(h), .. }) => Some((h, registry::powers_of(h))),
        Some(MetricValue::Other { atomic: None, rwlock: Some(h) }) => Some(
            (h, registry::powers_of(h)),
        ),
        _ => None,
    }
}

/// No metrics.
pub open spec fn no_rows() -> RowsView {
    RowsView { counters: Seq::empty(), gauges: Seq::empty(), histograms: Seq::empty() }
}

/// The metrics of a snapshot with one more reading: a counter, a gauge or a
/// histogram that holds something becomes a row behind those of its kind.
pub open spec fn with_reading(rows: RowsView, reading: Reading) -> RowsView {
    match reading.value {
        Some(MetricValue::Counter(value)) => RowsView {
            counters: rows.counters.push(
                CounterView {
                    name: reading.entry.name@,
                    value,
                    metadata: row_labels(reading.entry),
                },
            ),
            ..rows
        },
        Some(MetricValue::Gauge(value)) => RowsView {
            gauges: rows.gauges.push(
                GaugeView { name: reading.entry.name@, value, metadata: row_labels(reading.entry) },
            ),
            ..rows
        },
        value => match recorded_histogram(value) {
            Some((histogram, powers)) => RowsView {
                histograms: rows.histograms.push(
                    HistogramView {
                        name: reading.entry.name@,
                        powers: registry::powers_of(histogram),
                        buckets: registry::buckets_of(histogram),
                        metadata: histogram_labels(reading.entry, powers),
                    },
                ),
                ..rows
            },
            None => rows,
        },
    }
}

/// The metrics of a snapshot of some readings.
pub open spec fn rows_of(readings: Seq<Reading>) -> RowsView
    decreases readings.len(),
{
    if readings.len() == 0 {
        no_rows()
    } else {
        with_reading(rows_of(readings.drop_last()), readings.last())
    }
}

/// Where a snapshot is from: this program, in a version.
pub open spec fn source_labels(version: Seq<char>) -> Map<Seq<char>, Seq<char>> {
    Map::<Seq<char>, Seq<char>>::empty().insert("source"@, "cachecannon"@).insert(
        "version"@,
        version,
    )
}

/// Whether a time is one that the system clock may read. The clock goes on, and
/// it may be set, so one call may read another time than the next.
pub uninterp spec fn system_clock_reads(time: SystemTime) -> bool;

/// Whether a time is one that the monotonic clock may read. The clock goes on, so
/// one call may read another time than the next.
pub uninterp spec fn monotonic_clock_reads(time: Instant) -> bool;

/// Whether a duration is one that may be measured from a time of the monotonic
/// clock. The clock goes on, so one call may measure another duration than the
/// next.
pub uninterp spec fn may_elapse(start: Instant, duration: Duration) -> bool;

/// `std::time::SystemTime::now`: what the system clock reads. Which time that is,
/// is left open.
pub assume_specification[ SystemTime::now ]() -> (time: SystemTime)
    ensures
        system_clock_reads(time),
;

/// `std::time::Instant::now`: what the monotonic clock reads. Which time that is,
/// is left open.
pub assume_specification[ Instant::now ]() -> (time: Instant)
    ensures
        monotonic_clock_reads(time),
;

/// `std::time::Instant::elapsed`: what is measured from that time on. How long
/// that is, is left open.
pub assume_specification[ Instant::elapsed ](start: &Instant) -> (duration: Duration)
    ensures
        may_elapse(*start, duration),
;

/// The labels of a metric.
fn entry_labels(entry: &Entry) -> (labels: Labels)
    ensures
        labels.wf(),
        labels@ == row_labels(*entry),
{
    let mut labels = Labels::new();
    labels.insert("metric".to_owned(), entry.name.clone());
    labels.extend(&entry.metadata);
    labels
}

/// A row for a histogram.
fn histogram_row(entry: &Entry, value: histogram::Histogram, powers: (u8, u8)) -> (row:
    HistogramRow)
    ensures
        row.metadata.wf(),
        row.name@ == entry.name@,
        row.value == value,
        row.metadata@ == histogram_labels(*entry, powers),
{
    let mut metadata = entry_labels(entry);
    let mut grouping_power = String::new();
    text::push_decimal(&mut grouping_power, powers.0 as u128);
    metadata.insert("grouping_power".to_owned(), grouping_power);
    let mut max_value_power = String::new();
    text::push_decimal(&mut max_value_power, powers.1 as u128);
    metadata.insert("max_value_power".to_owned(), max_value_power);
    proof {
        assert(Seq::<char>::empty() + text::decimal(powers.0 as nat) =~= text::decimal(
            powers.0 as nat,
        ));
        assert(Seq::<char>::empty() + text::decimal(powers.1 as nat) =~= text::decimal(
            powers.1 as nat,
        ));
    }
    HistogramRow { name: entry.name.clone(), value, metadata }
}

impl Rows {
    /// No metrics.
    pub fn new() -> (rows: Self)
        ensures
            rows.wf(),
            rows@ == no_rows(),
    {
        let rows = Rows { counters: Vec::new(), gauges: Vec::new(), histograms: Vec::new() };
        proof {
            assert(rows@ =~= no_rows());
        }
        rows
    }

    /// Adds a metric that was read.
    pub fn push(&mut self, reading: Reading)
        requires
            old(self).wf(),
        ensures
            final(self).wf(),
            final(self)@ == with_reading(old(self)@, reading),
    {
        let ghost before = self@;
        let entry = reading.entry;
        let histogram: Option<(histogram::Histogram, (u8, u8))> = match reading.value {
            Some(MetricValue::Counter(value)) => {
                let metadata = entry_labels(&entry);
                self.counters.push(CounterRow { name: entry.name.clone(), value, metadata });
                None
            },
            Some(MetricValue::Gauge(value)) => {
                let metadata = entry_labels(&entry);
                self.gauges.push(GaugeRow { name: entry.name.clone(), value, metadata });
                None
            },
            Some(MetricValue::Histogram { loaded: Some(h), powers }) => Some((h, powers)),
            Some(MetricValue::Other { atomic: Some(h), .. }) => {
                let powers = registry::powers(&h);
                Some((h, powers))
            },
            Some(MetricValue::Other { atomic: None, rwlock: Some(h) }) => {
                let powers = registry::powers(&h);
                Some((h, powers))
            },
            _ => None,
        };
        if let Some((value, powers)) = histogram {
            self.histograms.push(histogram_row(&entry, value, powers));
        }
        proof {
            assert(self@.counters =~= with_reading(before, reading).counters);
            assert(self@.gauges =~= with_reading(before, reading).gauges);
            assert(self@.histograms =~= with_reading(before, reading).histograms);
        }
    }
}

/// Sorts the metrics that were read into rows.
pub fn collect_rows(readings: Vec<Reading>) -> (rows: Rows)
    ensures
        rows.wf(),
        rows@ == rows_of(readings@),
{
    let mut rows = Rows::new();
    let ghost all = readings@;
    proof {
        assert(all.take(0) =~= Seq::empty());
    }
    for reading in it: readings
        invariant
            it.seq() == all,
            rows.wf(),
            rows@ == rows_of(all.take(it.index() as int)),
    {
        proof {
            let done = all.take(it.index() as int + 1);
            assert(done.drop_last() =~= all.take(it.index() as int));
            assert(done.last() == reading);
        }
        rows.push(reading);
    }
    proof {
        assert(all.take(all.len() as int) =~= all);
    }
    rows
}

/// The labels of where a snapshot is from.
pub fn source_metadata(version: &str) -> (labels: Labels)
    ensures
        labels.wf(),
        labels@ == source_labels(version@),
{
    let mut labels = Labels::new();
    labels.insert("source".to_owned(), "cachecannon".to_owned());
    labels.insert("version".to_owned(), version.to_owned());
    labels
}

/// The content of a snapshot that was begun at a time, took so long and holds
/// these metrics.
pub open spec fn snapshot_content(
    systemtime: SystemTime,
    duration: Duration,
    rows: RowsView,
    version: Seq<char>,
) -> SnapshotView {
    SnapshotView { systemtime, duration, metadata: source_labels(version), rows }
}

/// The snapshot that was begun at a time, took so long and holds these metrics.
pub fn snapshot_of(
    systemtime: SystemTime,
    duration: Duration,
    rows: Rows,
    version: &str,
) -> (snapshot: Snapshot)
    requires
        rows.wf(),
    ensures
        snapshot.wf(),
        snapshot@ == snapshot_content(systemtime, duration, rows@, version@),
{
    Snapshot { systemtime, duration, metadata: source_metadata(version), rows }
}

/// Create a snapshot with the `metric` key added to each metric's metadata.
/// This matches the format expected by metriken-query.
///
/// The snapshot carries the time before the metrics are read, and the time that
/// it took to read and sort them. Both come from the clocks. That the clocks are
/// read before the metrics is left unsaid: a contract does not tell the order of
/// such calls.
pub fn create_snapshot(version: &str) -> (snapshot: Snapshot)
    ensures
        snapshot.wf(),
        snapshot@.metadata == source_labels(version@),
        records_registry(snapshot@.rows),
        timed_by_the_clocks(snapshot@),
{
    let start = Instant::now();
    let systemtime = SystemTime::now();
    let rows = collect_rows(registry::read_registry());
    let duration = start.elapsed();
    snapshot_of(systemtime, duration, rows, version)
}

/// Whether the times of a snapshot come from the clocks: its time from the system
/// clock, and its duration from a time of the monotonic clock on.
pub open spec fn timed_by_the_clocks(content: SnapshotView) -> bool {
    &&& system_clock_reads(content.systemtime)
    &&& exists|start: Instant|
        {
            &&& #[trigger] monotonic_clock_reads(start)
            &&& may_elapse(start, content.duration)
        }
}

/// Whether these are rows of what may be read of registered metrics.
pub open spec fn records_registry(rows: RowsView) -> bool {
    exists|metrics: metriken::Metrics, readings: Seq<Reading>|
        {
            &&& #[trigger] registry::read_from(metrics, readings)
            &&& rows == #[trigger] rows_of(readings)
        }
}

/// Whether an outcome is one that `metriken_exposition::Snapshot::to_msgpack` may
/// have for a snapshot: some bytes, or the error with which it refuses the
/// snapshot. The bytes for a snapshot differ in the order of the labels, which
/// are encoded as hash maps.
pub uninterp spec fn encodes_as(
    snapshot: SnapshotView,
    outcome: Result<Seq<u8>, rmp_serde::encode::Error>,
) -> bool;

/// `metriken_exposition::Snapshot::to_msgpack`, of the snapshot as that crate's
/// `SnapshotV2`: the bytes or the error are an outcome that the encoder may have
/// for that snapshot. Which bytes it gives, and which snapshots it refuses with
/// which error, is left open.
#[verifier::external_body]
fn to_msgpack(snapshot: Snapshot) -> (encoded: Result<Vec<u8>, rmp_serde::encode::Error>)
    ensures
        encodes_as(
            snapshot@,
            match encoded {
                Ok(bytes) => Ok(bytes@),
                Err(cause) => Err(cause),
            },
        ),
{
    let map = |labels: Labels| labels.pairs.into_iter().collect();
    let counter = |CounterRow { name, value, metadata }|
        Counter { name, value, metadata: map(metadata) };
    let gauge = |GaugeRow { name, value, metadata }|
        Gauge { name, value, metadata: map(metadata) };
    let histogram = |HistogramRow { name, value, metadata }|
        Histogram { name, value, metadata: map(metadata) };
    let Snapshot { systemtime, duration, metadata, rows } = snapshot;
    metriken_exposition::Snapshot::to_msgpack(&metriken_exposition::Snapshot::V2(SnapshotV2 {
        systemtime,
        duration,
        metadata: map(metadata),
        counters: rows.counters.into_iter().map(counter).collect(),
        gauges: rows.gauges.into_iter().map(gauge).collect(),
        histograms: rows.histograms.into_iter().map(histogram).collect() }))
}

/// A snapshot could not be encoded.
#[derive(Debug)]
pub struct EncodeError {
    /// What the encoder reported.
    pub cause: rmp_serde::encode::Error,
}

/// Encodes a snapshot as msgpack, or hands on the error of the encoder.
pub fn encode_snapshot(snapshot: Snapshot) -> (encoded: Result<Vec<u8>, EncodeError>)
    ensures
        encodes_as(
            snapshot@,
            match encoded {
                Ok(bytes) => Ok(bytes@),
                Err(error) => Err(error.cause),
            },
        ),
{
    match to_msgpack(snapshot) {
        Ok(bytes) => Ok(bytes),
        Err(cause) => Err(EncodeError { cause }),
    }
}

/// Every metric of a snapshot is labelled with its name under `metric`, unless
/// it brings a label of that key.
pub proof fn rows_are_labelled_with_their_metric(entry: Entry)
    ensures
        row_labels(entry).contains_key("metric"@),
        !labels::pairs_map(entry.metadata@).contains_key("metric"@) ==> row_labels(
            entry,
        )["metric"@] == entry.name@,
        forall|key: Seq<char>|
            #![trigger row_labels(entry)[key]]
            labels::pairs_map(entry.metadata@).contains_key(key) ==> row_labels(entry)[key]
                == labels::pairs_map(entry.metadata@)[key],
{
}

/// Every histogram of a snapshot is labelled with the two powers of its
/// configuration, whatever labels its metric brings.
pub proof fn histograms_are_labelled_with_their_powers(entry: Entry, powers: (u8, u8))
    ensures
        histogram_labels(entry, powers).contains_key("grouping_power"@),
        histogram_labels(entry, powers).contains_key("max_value_power"@),
        histogram_labels(entry, powers).contains_key("metric"@),
        text::decimal_value(histogram_labels(entry, powers)["grouping_power"@]) == powers.0,
        text::decimal_value(histogram_labels(entry, powers)["max_value_power"@]) == powers.1,
{
    reveal_strlit("grouping_power");
    reveal_strlit("max_value_power");
    assert("grouping_power"@.len() != "max_value_power"@.len());
    text::decimal_reads_back(powers.0 as nat);
    text::decimal_reads_back(powers.1 as nat);
}

/// In a snapshot of any readings, every row has a `metric` label, and every
/// histogram has the labels of its configuration as well.
pub proof fn every_row_is_labelled(readings: Seq<Reading>)
    ensures
        forall|i: int|
            0 <= i < rows_of(readings).counters.len() ==> (#[trigger] rows_of(
                readings,
            ).counters[i]).metadata.contains_key("metric"@),
        forall|i: int|
            0 <= i < rows_of(readings).gauges.len() ==> (#[trigger] rows_of(
                readings,
            ).gauges[i]).metadata.contains_key("metric"@),
        forall|i: int|
            0 <= i < rows_of(readings).histograms.len() ==> ({
                let metadata = (#[trigger] rows_of(readings).histograms[i]).metadata;
                &&& metadata.contains_key("metric"@)
                &&& metadata.contains_key("grouping_power"@)
                &&& metadata.contains_key("max_value_power"@)
            }),
    decreases readings.len(),
{
    if readings.len() > 0 {
        every_row_is_labelled(readings.drop_last());
        let reading = readings.last();
        rows_are_labelled_with_their_metric(reading.entry);
        if let Some((_, powers)) = recorded_histogram(reading.value) {
            histograms_are_labelled_with_their_powers(reading.entry, powers);
        }
        let before = rows_of(readings.drop_last());
        let after = rows_of(readings);
        assert forall|i: int| 0 <= i < after.counters.len() implies (#[trigger] after.counters[i]).metadata.contains_key(
            "metric"@,
        ) by {
            if i < before.counters.len() {
                assert(after.counters[i] == before.counters[i]);
            }
        }
        assert forall|i: int| 0 <= i < after.gauges.len() implies (#[trigger] after.gauges[i]).metadata.contains_key(
            "metric"@,
        ) by {
            if i < before.gauges.len() {
                assert(after.gauges[i] == before.gauges[i]);
            }
        }
        assert forall|i: int| 0 <= i < after.histograms.len() implies ({
            let metadata = (#[trigger] after.histograms[i]).metadata;
            &&& metadata.contains_key("metric"@)
            &&& metadata.contains_key("grouping_power"@)
            &&& metadata.contains_key("max_value_power"@)
        }) by {
            if i < before.histograms.len() {
                assert(after.histograms[i] == before.histograms[i]);
            }
        }
    }
}

/// The metrics of one snapshot and then of another.
pub open spec fn joined(a: RowsView, b: RowsView) -> RowsView {
    RowsView {
        counters: a.counters + b.counters,
        gauges: a.gauges + b.gauges,
        histograms: a.histograms + b.histograms,
    }
}

/// The rows of one list of readings and then of another are the rows of the
/// joined list.
pub proof fn rows_of_a_joined_list(a: Seq<Reading>, b: Seq<Reading>)
    ensures
        rows_of(a + b) == joined(rows_of(a), rows_of(b)),
    decreases b.len(),
{
    if b.len() == 0 {
        assert(a + b =~= a);
        assert(joined(rows_of(a), rows_of(b)) =~= rows_of(a));
    } else {
        rows_of_a_joined_list(a, b.drop_last());
        assert((a + b).drop_last() =~= a + b.drop_last());
        assert(rows_of(a + b) =~= joined(rows_of(a), rows_of(b)));
    }
}

/// No metric is left out: each reading adds its row, if it has one, behind
/// those of the readings before it.
pub proof fn every_reading_is_recorded(readings: Seq<Reading>, i: int)
    requires
        0 <= i < readings.len(),
    ensures
        rows_of(readings) == joined(
            with_reading(rows_of(readings.take(i)), readings[i]),
            rows_of(readings.skip(i + 1)),
        ),
{
    let front = readings.take(i + 1);
    assert(readings =~= front + readings.skip(i + 1));
    rows_of_a_joined_list(front, readings.skip(i + 1));
    assert(front.drop_last() =~= readings.take(i));
}

/// Readings with the same content give the same rows.
pub proof fn same_readings_are_recorded_alike(a: Seq<Reading>, b: Seq<Reading>)
    requires
        a.len() == b.len(),
        forall|i: int| 0 <= i < a.len() ==> registry::same_reading(#[trigger] a[i], b[i]),
    ensures
        rows_of(a) == rows_of(b),
    decreases a.len(),
{
    if a.len() > 0 {
        assert forall|i: int| 0 <= i < a.drop_last().len() implies registry::same_reading(
            #[trigger] a.drop_last()[i],
            b.drop_last()[i],
        ) by {
            assert(registry::same_reading(a[i], b[i]));
        }
        same_readings_are_recorded_alike(a.drop_last(), b.drop_last());
        assert(registry::same_reading(a[a.len() - 1], b[b.len() - 1]));
    }
}

/// Two snapshots of readings with the same content, in the same version, have
/// the same counters, gauges, histograms and labels, whenever they were taken
/// and however long they took.
pub proof fn snapshots_of_the_same_readings_differ_in_time_only(
    first: (SystemTime, Duration),
    second: (SystemTime, Duration),
    a: Seq<Reading>,
    b: Seq<Reading>,
    version: Seq<char>,
)
    requires
        a.len() == b.len(),
        forall|i: int| 0 <= i < a.len() ==> registry::same_reading(#[trigger] a[i], b[i]),
    ensures
        snapshot_content(second.0, second.1, rows_of(b), version) == (SnapshotView {
            systemtime: second.0,
            duration: second.1,
            ..snapshot_content(first.0, first.1, rows_of(a), version)
        }),
{
    same_readings_are_recorded_alike(a, b);
}

/// Whether labels are those that a metric brings, with its name under `metric`
/// unless it brings a label of that key, as far as the keys that are added to them
/// do not matter: each label of the metric is there with its value, and there is
/// no other.
pub open spec fn keeps_the_labels(
    labels: Map<Seq<char>, Seq<char>>,
    entry: Entry,
    added: Set<Seq<char>>,
) -> bool {
    let own = labels::pairs_map(entry.metadata@);
    forall|key: Seq<char>|
        !added.contains(key) ==> {
            &&& #[trigger] labels.contains_key(key) <==> (own.contains_key(key) || key
                == "metric"@)
            &&& own.contains_key(key) ==> labels[key] == own[key]
            &&& key == "metric"@ && !own.contains_key(key) ==> labels[key] == entry.name@
        }
}

/// The keys that are added to the labels of a histogram.
pub open spec fn power_keys() -> Set<Seq<char>> {
    set!["grouping_power"@, "max_value_power"@]
}

/// Whether labels are those of a histogram: the labels that its metric brings, and
/// the numerals of its two powers.
pub open spec fn keeps_the_labels_and_powers(
    labels: Map<Seq<char>, Seq<char>>,
    entry: Entry,
    powers: (u8, u8),
) -> bool {
    &&& keeps_the_labels(labels, entry, power_keys())
    &&& labels.contains_key("grouping_power"@)
    &&& labels.contains_key("max_value_power"@)
    &&& text::is_numeral_of(labels["grouping_power"@], powers.0 as int)
    &&& text::is_numeral_of(labels["max_value_power"@], powers.1 as int)
}

/// No label of a metric is lost, changed or made up, in a row of any kind, and a
/// histogram has its powers besides.
pub proof fn labels_of_a_metric_are_kept(entry: Entry, powers: (u8, u8))
    ensures
        keeps_the_labels(row_labels(entry), entry, Set::empty()),
        keeps_the_labels_and_powers(histogram_labels(entry, powers), entry, powers),
{
    reveal_strlit("grouping_power");
    reveal_strlit("max_value_power");
    assert("grouping_power"@.len() != "max_value_power"@.len());
    text::decimal_is_a_numeral(powers.0 as nat);
    text::decimal_is_a_numeral(powers.1 as nat);
    let own = labels::pairs_map(entry.metadata@);
    let labels = histogram_labels(entry, powers);
    assert forall|key: Seq<char>| !power_keys().contains(key) implies {
        &&& #[trigger] labels.contains_key(key) <==> (own.contains_key(key) || key == "metric"@)
        &&& own.contains_key(key) ==> labels[key] == own[key]
        &&& key == "metric"@ && !own.contains_key(key) ==> labels[key] == entry.name@
    } by {
        assert(power_keys().contains("grouping_power"@));
        assert(power_keys().contains("max_value_power"@));
    }
}

/// Whether a row is that of a histogram that was read with these powers.
pub open spec fn is_row_of(
    row: HistogramView,
    entry: Entry,
    histogram: histogram::Histogram,
    powers: (u8, u8),
) -> bool {
    &&& row.name == entry.name@
    &&& row.powers == registry::powers_of(histogram)
    &&& row.buckets == registry::buckets_of(histogram)
    &&& keeps_the_labels_and_powers(row.metadata, entry, powers)
}

/// A reading is recorded by its kind, and only there: a counter and a gauge with
/// their values, a histogram that holds something with its buckets, each under
/// the name of the metric and with its labels. Nothing is recorded of any other.
pub proof fn reading_is_recorded_by_its_kind(reading: Reading)
    ensures
        ({
            let rows = rows_of(seq![reading]);
            let entry = reading.entry;
            match reading.value {
                Some(MetricValue::Counter(value)) => {
                    &&& rows.counters.len() == 1
                    &&& rows.gauges.len() == 0
                    &&& rows.histograms.len() == 0
                    &&& rows.counters[0].name == entry.name@
                    &&& rows.counters[0].value == value
                    &&& keeps_the_labels(rows.counters[0].metadata, entry, Set::empty())
                },
                Some(MetricValue::Gauge(value)) => {
                    &&& rows.counters.len() == 0
                    &&& rows.gauges.len() == 1
                    &&& rows.histograms.len() == 0
                    &&& rows.gauges[0].name == entry.name@
                    &&& rows.gauges[0].value == value
                    &&& keeps_the_labels(rows.gauges[0].metadata, entry, Set::empty())
                },
                Some(MetricValue::Histogram { loaded: Some(histogram), powers }) => {
                    &&& rows.counters.len() == 0
                    &&& rows.gauges.len() == 0
                    &&& rows.histograms.len() == 1
                    &&& is_row_of(rows.histograms[0], entry, histogram, powers)
                },
                Some(MetricValue::Other { atomic: Some(histogram), .. }) => {
                    &&& rows.counters.len() == 0
                    &&& rows.gauges.len() == 0
                    &&& rows.histograms.len() == 1
                    &&& is_row_of(
                        rows.histograms[0],
                        entry,
                        histogram,
                        registry::powers_of(histogram),
                    )
                },
                Some(MetricValue::Other { atomic: None, rwlock: Some(histogram) }) => {
                    &&& rows.counters.len() == 0
                    &&& rows.gauges.len() == 0
                    &&& rows.histograms.len() == 1
                    &&& is_row_of(
                        rows.histograms[0],
                        entry,
                        histogram,
                        registry::powers_of(histogram),
                    )
                },
                _ => {
                    &&& rows.counters.len() == 0
                    &&& rows.gauges.len() == 0
                    &&& rows.histograms.len() == 0
                },
            }
        }),
{
    reveal_with_fuel(rows_of, 2);
    assert(seq![reading].drop_last() =~= Seq::empty());
    labels_of_a_metric_are_kept(reading.entry, (0, 0));
    if let Some((histogram, powers)) = recorded_histogram(reading.value) {
        labels_of_a_metric_are_kept(reading.entry, powers);
    }
}

/// Every reading has its place, whatever was read before and after it: the rows of
/// joined lists are the rows of the one and then those of the other, kind by kind,
/// and nothing gives no rows.
pub proof fn rows_follow_the_readings(a: Seq<Reading>, b: Seq<Reading>)
    ensures
        rows_of(a + b).counters == rows_of(a).counters + rows_of(b).counters,
        rows_of(a + b).gauges == rows_of(a).gauges + rows_of(b).gauges,
        rows_of(a + b).histograms == rows_of(a).histograms + rows_of(b).histograms,
        rows_of(Seq::empty()).counters.len() == 0,
        rows_of(Seq::empty()).gauges.len() == 0,
        rows_of(Seq::empty()).histograms.len() == 0,
{
    rows_of_a_joined_list(a, b);
}

/// Whether a row is that of a histogram among some readings.
pub open spec fn is_row_among(row: HistogramView, readings: Seq<Reading>, i: int) -> bool {
    &&& 0 <= i < readings.len()
    &&& row.name == readings[i].entry.name@
    &&& keeps_the_labels(row.metadata, readings[i].entry, power_keys())
}

/// Every histogram of a snapshot keeps the labels of its metric.
pub proof fn histogram_rows_keep_the_labels_of_their_metrics(readings: Seq<Reading>, j: int)
    requires
        0 <= j < rows_of(readings).histograms.len(),
    ensures
        exists|i: int| #[trigger] is_row_among(rows_of(readings).histograms[j], readings, i),
    decreases readings.len(),
{
    let row = rows_of(readings).histograms[j];
    let front = readings.drop_last();
    let last = readings.last();
    assert(readings =~= front + seq![last]);
    rows_follow_the_readings(front, seq![last]);
    reading_is_recorded_by_its_kind(last);
    let earlier = rows_of(front).histograms;
    if j < earlier.len() {
        histogram_rows_keep_the_labels_of_their_metrics(front, j);
        let i = choose|i: int| #[trigger] is_row_among(earlier[j], front, i);
        assert(is_row_among(row, readings, i));
    } else {
        assert(row == rows_of(seq![last]).histograms[0]);
        assert(is_row_among(row, readings, readings.len() - 1));
    }
}

/// A snapshot says that it is from this program, in which version, and nothing
/// else.
pub proof fn snapshot_names_its_source(version: Seq<char>, key: Seq<char>)
    ensures
        source_labels(version).contains_key(key) <==> key == "source"@ || key == "version"@,
        source_labels(version)["source"@] == "cachecannon"@,
        source_labels(version)["version"@] == version,
{
    reveal_strlit("source");
    reveal_strlit("version");
    assert("source"@.len() != "version"@.len());
}

/// The content of a snapshot is what its fields hold.
pub proof fn content_is_what_the_fields_hold(snapshot: Snapshot)
    ensures
        snapshot@.systemtime == snapshot.systemtime,
        snapshot@.duration == snapshot.duration,
        snapshot@.metadata == snapshot.metadata@,
        snapshot@.rows == snapshot.rows@,
        snapshot.rows@.counters.len() == snapshot.rows.counters@.len(),
        snapshot.rows@.gauges.len() == snapshot.rows.gauges@.len(),
        snapshot.rows@.histograms.len() == snapshot.rows.histograms@.len(),
        forall|i: int|
            0 <= i < snapshot.rows.counters@.len() ==> {
                let row = #[trigger] snapshot.rows.counters@[i];
                let content = snapshot.rows@.counters[i];
                &&& content.name == row.name@
                &&& content.value == row.value
                &&& content.metadata == row.metadata@
            },
        forall|i: int|
            0 <= i < snapshot.rows.gauges@.len() ==> {
                let row = #[trigger] snapshot.rows.gauges@[i];
                let content = snapshot.rows@.gauges[i];
                &&& content.name == row.name@
                &&& content.value == row.value
                &&& content.metadata == row.metadata@
            },
        forall|i: int|
            0 <= i < snapshot.rows.histograms@.len() ==> {
                let row = #[trigger] snapshot.rows.histograms@[i];
                let content = snapshot.rows@.histograms[i];
                &&& content.name == row.name@
                &&& content.powers == registry::powers_of(row.value)
                &&& content.buckets == registry::buckets_of(row.value)
                &&& content.metadata == row.metadata@
            },
{
}

/// A snapshot of the registry holds the rows of a reading of every registered
/// metric, in the order of the metrics.
pub proof fn every_registered_metric_is_recorded(rows: RowsView)
    requires
        records_registry(rows),
    ensures
        exists|
            metrics: metriken::Metrics,
            readings: Seq<Reading>,
            entries: Seq<Entry>,
            values: Seq<Option<MetricValue>>,
        |
            {
                &&& #[trigger] registry::may_list(metrics, entries)
                &&& #[trigger] registry::may_read(metrics, values)
                &&& readings.len() == registry::registered(metrics).len()
                &&& entries.len() == readings.len()
                &&& values.len() == readings.len()
                &&& forall|i: int|
                    0 <= i < readings.len() ==> (#[trigger] readings[i]).entry == entries[i]
                        && readings[i].value == values[i]
                &&& forall|i: int|
                    0 <= i < readings.len() ==> (#[trigger] readings[i]).entry.name@
                        == registry::registered(metrics)[i].0
                &&& rows.counters == (#[trigger] rows_of(readings)).counters
                &&& rows.gauges == rows_of(readings).gauges
                &&& rows.histograms == rows_of(readings).histograms
            },
{
    let (metrics, readings) = choose|metrics: metriken::Metrics, readings: Seq<Reading>|
        {
            &&& #[trigger] registry::read_from(metrics, readings)
            &&& rows == #[trigger] rows_of(readings)
        };
    registry::every_registered_metric_is_read(metrics, readings);
    let listed = Seq::new(readings.len(), |i: int| readings[i].entry);
    let read = Seq::new(readings.len(), |i: int| readings[i].value);
    assert(registry::may_list(metrics, listed) && registry::may_read(metrics, read));
}

/// A snapshot that was put together holds the time, the duration, the metrics and
/// the version that it was put together from.
pub proof fn snapshot_holds_what_it_is_made_of(
    systemtime: SystemTime,
    duration: Duration,
    rows: RowsView,
    version: Seq<char>,
)
    ensures
        ({
            let content = snapshot_content(systemtime, duration, rows, version);
            &&& content.systemtime == systemtime
            &&& content.duration == duration
            &&& content.rows == rows
            &&& content.metadata["source"@] == "cachecannon"@
            &&& content.metadata["version"@] == version
            &&& content.metadata.dom() == set!["source"@, "version"@]
        }),
{
    let content = snapshot_content(systemtime, duration, rows, version);
    snapshot_names_its_source(version, "source"@);
    assert forall|key: Seq<char>| content.metadata.dom().contains(key) <==> set![
        "source"@,
        "version"@,
    ].contains(key) by {
        snapshot_names_its_source(version, key);
    }
    assert(content.metadata.dom() =~= set!["source"@, "version"@]);
}

/// The times of a snapshot of the registry are read from the clocks.
pub proof fn times_are_read_from_the_clocks(content: SnapshotView)
    requires
        timed_by_the_clocks(content),
    ensures
        system_clock_reads(content.systemtime),
        exists|start: Instant|
            monotonic_clock_reads(start) && #[trigger] may_elapse(start, content.duration),
{
}

/// In a well-formed snapshot no key occurs twice among the labels of a metric, nor
/// among those of the snapshot.
pub proof fn labels_occur_once(snapshot: Snapshot)
    requires
        snapshot.wf(),
    ensures
        labels::keys_differ(snapshot.metadata.pairs@),
        forall|i: int|
            0 <= i < snapshot.rows.counters@.len() ==> labels::keys_differ(
                (#[trigger] snapshot.rows.counters@[i]).metadata.pairs@,
            ),
        forall|i: int|
            0 <= i < snapshot.rows.gauges@.len() ==> labels::keys_differ(
                (#[trigger] snapshot.rows.gauges@[i]).metadata.pairs@,
            ),
        forall|i: int|
            0 <= i < snapshot.rows.histograms@.len() ==> labels::keys_differ(
                (#[trigger] snapshot.rows.histograms@[i]).metadata.pairs@,
            ),
{
}

} // verus!
