//! The exposition text of the registered metrics.

use crate::exposition;
use crate::exposition::{Bucket, Distribution, Family, QuantileRow, Sample};
use crate::registry;
use crate::registry::{MetricValue, Reading};
use crate::snapshot;
use crate::text;
use vstd::prelude::*;

verus! {

/// The number of quantiles that are reported of a histogram.
pub const QUANTILES: usize = 6;

/// The quantiles that are reported of a histogram, as decimal fractions.
pub open spec fn quantile_label(i: int) -> &'static str {
    if i == 0 {
        "0.5"
    } else if i == 1 {
        "0.9"
    } else if i == 2 {
        "0.95"
    } else if i == 3 {
        "0.99"
    } else if i == 4 {
        "0.999"
    } else {
        "0.9999"
    }
}

/// The label and the end of a row.
pub open spec fn row_view(row: QuantileRow) -> (Seq<char>, u64) {
    (row.label@, row.end)
}

/// The rows of the quantiles that an end was found for.
pub open spec fn answered_rows(ends: Seq<Option<u64>>) -> Seq<(Seq<char>, u64)>
    decreases ends.len(),
{
    if ends.len() == 0 {
        Seq::empty()
    } else {
        match ends.last() {
            Some(end) => answered_rows(ends.drop_last()).push(
                (quantile_label(ends.len() - 1)@, end),
            ),
            None => answered_rows(ends.drop_last()),
        }
    }
}

/// Whether these are the ends that a function gives for the first quantiles of
/// a histogram.
pub open spec fn ends_of<F: Fn(&histogram::Histogram, &str) -> Option<u64>>(
    quantile_end: F,
    histogram: histogram::Histogram,
    ends: Seq<Option<u64>>,
) -> bool {
    forall|i: int|
        0 <= i < ends.len() ==> call_ensures(
            quantile_end,
            (&histogram, quantile_label(i)),
            #[trigger] ends[i],
        )
}

/// Whether a distribution reports a histogram: all of its buckets, and the
/// quantiles with the ends that a function gives for them.
pub open spec fn reports<F: Fn(&histogram::Histogram, &str) -> Option<u64>>(
    quantile_end: F,
    histogram: histogram::Histogram,
    report: Distribution,
) -> bool {
    &&& report.buckets@ == registry::buckets_of(histogram)
    &&& exists|ends: Seq<Option<u64>>|
        {
            &&& ends.len() == QUANTILES
            &&& #[trigger] ends_of(quantile_end, histogram, ends)
            &&& report.quantiles@.map_values(|row: QuantileRow| row_view(row)) == answered_rows(
                ends,
            )
        }
}

/// The histogram that is exposed of a value.
pub open spec fn exposed_histogram(value: Option<MetricValue>) -> Option<histogram::Histogram> {
    match value {
        Some(MetricValue::Histogram { loaded, .. }) => loaded,
        Some(MetricValue::Other { atomic, .. }) => atomic,
        _ => None,
    }
}

/// Whether a metric is exposed as it was read: under its name and description,
/// a counter and a gauge by value, and a histogram that holds something by a
/// report of it. Nothing is exposed of any other metric.
pub open spec fn exposes<F: Fn(&histogram::Histogram, &str) -> Option<u64>>(
    quantile_end: F,
    reading: Reading,
    family: Family,
) -> bool {
    &&& family.name@ == reading.entry.name@
    &&& exposition::description_of(family) == registry::identity(reading.entry).1
    &&& match reading.value {
        Some(MetricValue::Counter(value)) => family.sample == Some(Sample::Counter(value)),
        Some(MetricValue::Gauge(value)) => family.sample == Some(Sample::Gauge(value)),
        value => match exposed_histogram(value) {
            Some(histogram) => {
                &&& family.sample matches Some(Sample::Summary(report))
                &&& reports(quantile_end, histogram, report)
            },
            None => family.sample is None,
        },
    }
}

/// Whether some metrics are exposed as they were read, one by one and in order.
pub open spec fn exposes_all<F: Fn(&histogram::Histogram, &str) -> Option<u64>>(
    quantile_end: F,
    readings: Seq<Reading>,
    families: Seq<Family>,
) -> bool {
    &&& families.len() == readings.len()
    &&& forall|i: int|
        0 <= i < families.len() ==> exposes(quantile_end, readings[i], #[trigger] families[i])
}

/// The label of a quantile that is reported.
fn label(i: usize) -> (label: &'static str)
    requires
        i < QUANTILES,
    ensures
        label == quantile_label(i as int),
{
    match i {
        0 => "0.5",
        1 => "0.9",
        2 => "0.95",
        3 => "0.99",
        4 => "0.999",
        _ => "0.9999",
    }
}

/// Reports a histogram. The ends of its quantiles are asked for one by one.
pub fn report<F: Fn(&histogram::Histogram, &str) -> Option<u64>>(
    histogram: &histogram::Histogram,
    quantile_end: &F,
) -> (report: Distribution)
    requires
        forall|h: &histogram::Histogram, q: &str| #[trigger] call_requires(*quantile_end, (h, q)),
    ensures
        reports(*quantile_end, *histogram, report),
{
    let mut quantiles: Vec<QuantileRow> = Vec::new();
    let ghost mut ends: Seq<Option<u64>> = Seq::empty();
    let mut i: usize = 0;
    proof {
        assert(quantiles@.map_values(|row: QuantileRow| row_view(row)) =~= answered_rows(ends));
    }
    while i < QUANTILES
        invariant
            forall|h: &histogram::Histogram, q: &str| #[trigger]
                call_requires(*quantile_end, (h, q)),
            i <= QUANTILES,
            ends.len() == i,
            ends_of(*quantile_end, *histogram, ends),
            quantiles@.map_values(|row: QuantileRow| row_view(row)) == answered_rows(ends),
        decreases QUANTILES - i,
    {
        let label = label(i);
        let answer = quantile_end(histogram, label);
        let ghost before = quantiles@;
        if let Some(end) = answer {
            quantiles.push(QuantileRow { label: label.to_owned(), end });
        }
        proof {
            let grown = ends.push(answer);
            assert(grown.drop_last() =~= ends);
            assert(quantiles@.map_values(|row: QuantileRow| row_view(row)) =~= answered_rows(
                grown,
            ));
            ends = grown;
        }
        i += 1;
    }
    Distribution { buckets: registry::buckets(histogram), quantiles }
}

/// The exposed form of a metric that was read.
pub fn family<F: Fn(&histogram::Histogram, &str) -> Option<u64>>(
    reading: &Reading,
    quantile_end: &F,
) -> (family: Family)
    requires
        forall|h: &histogram::Histogram, q: &str| #[trigger] call_requires(*quantile_end, (h, q)),
    ensures
        exposes(*quantile_end, *reading, family),
{
    let histogram: Option<&histogram::Histogram> = match &reading.value {
        Some(MetricValue::Histogram { loaded, .. }) => loaded.as_ref(),
        Some(MetricValue::Other { atomic, .. }) => atomic.as_ref(),
        _ => None,
    };
    let sample = match &reading.value {
        Some(MetricValue::Counter(value)) => Some(Sample::Counter(*value)),
        Some(MetricValue::Gauge(value)) => Some(Sample::Gauge(*value)),
        _ => match histogram {
            Some(h) => Some(Sample::Summary(report(h, quantile_end))),
            None => None,
        },
    };
    let description = match &reading.entry.description {
        Some(text) => Some(text.clone()),
        None => None,
    };
    Family { name: reading.entry.name.clone(), description, sample }
}

/// The exposed form of the metrics that were read.
pub fn families<F: Fn(&histogram::Histogram, &str) -> Option<u64>>(
    readings: &Vec<Reading>,
    quantile_end: &F,
) -> (families: Vec<Family>)
    requires
        forall|h: &histogram::Histogram, q: &str| #[trigger] call_requires(*quantile_end, (h, q)),
    ensures
        exposes_all(*quantile_end, readings@, families@),
{
    let mut families: Vec<Family> = Vec::new();
    let mut i: usize = 0;
    while i < readings.len()
        invariant
            forall|h: &histogram::Histogram, q: &str| #[trigger]
                call_requires(*quantile_end, (h, q)),
            i <= readings.len(),
            exposes_all(*quantile_end, readings@.take(i as int), families@),
        decreases readings.len() - i,
    {
        families.push(family(&readings[i], quantile_end));
        i += 1;
    }
    proof {
        assert(readings@.take(i as int) =~= readings@);
    }
    families
}

/// The exposition text of the registered metrics.
///
/// The end of the bucket that a quantile of a histogram falls into comes from
/// `quantile_end`, which is given the histogram and the quantile as a decimal
/// fraction, and which gives none for a histogram without observations.
pub fn generate_prometheus_output<F: Fn(&histogram::Histogram, &str) -> Option<u64>>(
    quantile_end: &F,
) -> (text: String)
    requires
        forall|h: &histogram::Histogram, q: &str| #[trigger] call_requires(*quantile_end, (h, q)),
    ensures
        exposes_registry(*quantile_end, text@),
{
    let readings = registry::read_registry();
    let families = families(&readings, quantile_end);
    exposition::render(&families)
}

/// Whether a text is the exposition of what may be read of registered metrics.
pub open spec fn exposes_registry<F: Fn(&histogram::Histogram, &str) -> Option<u64>>(
    quantile_end: F,
    text: Seq<char>,
) -> bool {
    exists|metrics: metriken::Metrics, readings: Seq<Reading>, families: Seq<Family>|
        {
            &&& #[trigger] registry::read_from(metrics, readings)
            &&& #[trigger] exposes_all(quantile_end, readings, families)
            &&& text == exposition::exposition_text(families)
        }
}

/// Every histogram that holds something is exposed: the lines of a report of it
/// stand in the text, under the name and the description of its metric.
pub proof fn histograms_are_exposed<F: Fn(&histogram::Histogram, &str) -> Option<u64>>(
    quantile_end: F,
    readings: Seq<Reading>,
    families: Seq<Family>,
    i: int,
)
    requires
        exposes_all(quantile_end, readings, families),
        0 <= i < readings.len(),
        exposed_histogram(readings[i].value) is Some,
    ensures
        exists|report: Distribution|
            {
                &&& #[trigger] reports(
                    quantile_end,
                    exposed_histogram(readings[i].value)->0,
                    report,
                )
                &&& exposition::exposition_text(families) == exposition::exposition_text(
                    families.take(i),
                ) + exposition::summary(
                    readings[i].entry.name@,
                    registry::identity(readings[i].entry).1,
                    report,
                ) + exposition::exposition_text(families.skip(i + 1))
            },
{
    exposition::every_family_is_exposed(families, i);
    assert(exposes(quantile_end, readings[i], families[i]));
    let report = families[i].sample->0->Summary_0;
    assert(reports(quantile_end, exposed_histogram(readings[i].value)->0, report));
}

/// What the exposition shows of a value, a snapshot records as well: the same
/// number, or the same histogram.
pub proof fn exposed_values_are_recorded<F: Fn(&histogram::Histogram, &str) -> Option<u64>>(
    quantile_end: F,
    reading: Reading,
    family: Family,
)
    requires
        exposes(quantile_end, reading, family),
    ensures
        family.sample matches Some(Sample::Counter(value)) ==> snapshot::with_reading(
            snapshot::no_rows(),
            reading,
        ).counters == seq![
            snapshot::CounterView {
                name: family.name@,
                value,
                metadata: snapshot::row_labels(reading.entry),
            },
        ],
        family.sample matches Some(Sample::Gauge(value)) ==> snapshot::with_reading(
            snapshot::no_rows(),
            reading,
        ).gauges == seq![
            snapshot::GaugeView {
                name: family.name@,
                value,
                metadata: snapshot::row_labels(reading.entry),
            },
        ],
        family.sample matches Some(Sample::Summary(report)) ==> ({
            let histograms = snapshot::with_reading(
                snapshot::no_rows(),
                reading,
            ).histograms;
            &&& histograms.len() == 1
            &&& histograms[0].name == family.name@
            &&& histograms[0].buckets == report.buckets@
        }),
{
    let rows = snapshot::with_reading(snapshot::no_rows(), reading);
    match family.sample {
        Some(Sample::Counter(value)) => {
            assert(rows.counters.len() == 1);
        },
        Some(Sample::Gauge(value)) => {
            assert(rows.gauges.len() == 1);
        },
        _ => {},
    }
}

/// The counters among some families, by name and value.
pub open spec fn exposed_counters(families: Seq<Family>) -> Seq<(Seq<char>, u64)>
    decreases families.len(),
{
    if families.len() == 0 {
        Seq::empty()
    } else {
        match families.last().sample {
            Some(Sample::Counter(value)) => exposed_counters(families.drop_last()).push(
                (families.last().name@, value),
            ),
            _ => exposed_counters(families.drop_last()),
        }
    }
}

/// The gauges among some families, by name and value.
pub open spec fn exposed_gauges(families: Seq<Family>) -> Seq<(Seq<char>, i64)>
    decreases families.len(),
{
    if families.len() == 0 {
        Seq::empty()
    } else {
        match families.last().sample {
            Some(Sample::Gauge(value)) => exposed_gauges(families.drop_last()).push(
                (families.last().name@, value),
            ),
            _ => exposed_gauges(families.drop_last()),
        }
    }
}

/// The histograms among some families, by name and buckets.
pub open spec fn exposed_summaries(families: Seq<Family>) -> Seq<(Seq<char>, Seq<Bucket>)>
    decreases families.len(),
{
    if families.len() == 0 {
        Seq::empty()
    } else {
        match families.last().sample {
            Some(Sample::Summary(report)) => exposed_summaries(families.drop_last()).push(
                (families.last().name@, report.buckets@),
            ),
            _ => exposed_summaries(families.drop_last()),
        }
    }
}

/// Whether a value is recorded and not exposed: a histogram behind a lock that is
/// of a kind of its own.
pub open spec fn only_recorded(value: Option<MetricValue>) -> bool {
    value matches Some(MetricValue::Other { atomic: None, rwlock: Some(_) })
}

/// The exposition and the snapshot of the same readings agree: they hold the same
/// counters and gauges, by name and value and in the same order, and the same
/// histograms, by name and buckets, unless one is only recorded.
pub proof fn exposition_and_snapshot_agree<F: Fn(&histogram::Histogram, &str) -> Option<u64>>(
    quantile_end: F,
    readings: Seq<Reading>,
    families: Seq<Family>,
)
    requires
        exposes_all(quantile_end, readings, families),
    ensures
        exposed_counters(families) == snapshot::rows_of(readings).counters.map_values(
            |row: snapshot::CounterView| (row.name, row.value),
        ),
        exposed_gauges(families) == snapshot::rows_of(readings).gauges.map_values(
            |row: snapshot::GaugeView| (row.name, row.value),
        ),
        (forall|i: int| 0 <= i < readings.len() ==> !only_recorded((#[trigger] readings[i]).value))
            ==> exposed_summaries(families) == snapshot::rows_of(readings).histograms.map_values(
            |row: snapshot::HistogramView| (row.name, row.buckets),
        ),
    decreases readings.len(),
{
    let rows = snapshot::rows_of(readings);
    let counter = |row: snapshot::CounterView| (row.name, row.value);
    let gauge = |row: snapshot::GaugeView| (row.name, row.value);
    let histogram = |row: snapshot::HistogramView| (row.name, row.buckets);
    if readings.len() > 0 {
        let earlier = readings.drop_last();
        assert forall|i: int| 0 <= i < earlier.len() implies exposes(
            quantile_end,
            earlier[i],
            #[trigger] families.drop_last()[i],
        ) by {
            assert(exposes(quantile_end, readings[i], families[i]));
        }
        exposition_and_snapshot_agree(quantile_end, earlier, families.drop_last());
        assert(exposes(quantile_end, readings.last(), families[families.len() - 1]));
        if forall|i: int| 0 <= i < readings.len() ==> !only_recorded(
            (#[trigger] readings[i]).value,
        ) {
            assert forall|i: int| 0 <= i < earlier.len() implies !only_recorded(
                (#[trigger] earlier[i]).value,
            ) by {
                assert(!only_recorded(readings[i].value));
            }
            assert(!only_recorded(readings[readings.len() - 1].value));
            assert(exposed_summaries(families) =~= rows.histograms.map_values(histogram));
        }
    }
    assert(exposed_counters(families) =~= rows.counters.map_values(counter));
    assert(exposed_gauges(families) =~= rows.gauges.map_values(gauge));
    assert(readings.len() == 0 ==> exposed_summaries(families) =~= rows.histograms.map_values(
        histogram,
    ));
}

/// The quantiles that are asked for, in order.
pub open spec fn quantile_texts() -> Seq<Seq<char>> {
    seq!["0.5"@, "0.9"@, "0.95"@, "0.99"@, "0.999"@, "0.9999"@]
}

/// What is shown of the quantiles with these ends: each quantile that has an end,
/// with that end, in order.
pub open spec fn rows_for(ends: Seq<Option<u64>>) -> Seq<(Seq<char>, u64)> {
    Seq::new(ends.len(), |i: int| (quantile_texts()[i], ends[i])).filter(
        |row: (Seq<char>, Option<u64>)| row.1 is Some,
    ).map_values(|row: (Seq<char>, Option<u64>)| (row.0, row.1->0))
}

proof fn lemma_answered_rows(ends: Seq<Option<u64>>)
    requires
        ends.len() <= 6,
    ensures
        answered_rows(ends) == rows_for(ends),
    decreases ends.len(),
{
    reveal(Seq::filter);
    let answered = |row: (Seq<char>, Option<u64>)| row.1 is Some;
    let plain = |row: (Seq<char>, Option<u64>)| (row.0, row.1->0);
    let all = Seq::new(ends.len(), |i: int| (quantile_texts()[i], ends[i]));
    if ends.len() > 0 {
        let front = ends.drop_last();
        lemma_answered_rows(front);
        let earlier = Seq::new(front.len(), |i: int| (quantile_texts()[i], front[i]));
        assert(all.drop_last() =~= earlier);
        assert(all.last() == (quantile_label(ends.len() - 1)@, ends.last()));
        assert(answered_rows(ends) =~= all.filter(answered).map_values(plain));
    } else {
        assert(answered_rows(ends) =~= all.filter(answered).map_values(plain));
    }
}

/// Whether these are ends that a function gives for the six quantiles of a
/// histogram.
pub open spec fn are_ends_of<F: Fn(&histogram::Histogram, &str) -> Option<u64>>(
    quantile_end: F,
    histogram: histogram::Histogram,
    ends: Seq<Option<u64>>,
) -> bool {
    &&& ends.len() == 6
    &&& call_ensures(quantile_end, (&histogram, "0.5"), ends[0])
    &&& call_ensures(quantile_end, (&histogram, "0.9"), ends[1])
    &&& call_ensures(quantile_end, (&histogram, "0.95"), ends[2])
    &&& call_ensures(quantile_end, (&histogram, "0.99"), ends[3])
    &&& call_ensures(quantile_end, (&histogram, "0.999"), ends[4])
    &&& call_ensures(quantile_end, (&histogram, "0.9999"), ends[5])
}

/// A report of a histogram has all of its buckets, and a row for each of the six
/// quantiles that an end was given for, under that quantile and with that end.
pub proof fn report_has_every_bucket_and_quantile<
    F: Fn(&histogram::Histogram, &str) -> Option<u64>,
>(quantile_end: F, histogram: histogram::Histogram, report: Distribution)
    requires
        reports(quantile_end, histogram, report),
    ensures
        report.buckets@ == registry::buckets_of(histogram),
        exists|ends: Seq<Option<u64>>|
            {
                &&& #[trigger] are_ends_of(quantile_end, histogram, ends)
                &&& report.quantiles@.len() == rows_for(ends).len()
                &&& forall|i: int|
                    0 <= i < report.quantiles@.len() ==> (#[trigger] report.quantiles@[i]).label@
                        == rows_for(ends)[i].0 && report.quantiles@[i].end == rows_for(ends)[i].1
            },
{
    let ends = choose|ends: Seq<Option<u64>>|
        {
            &&& ends.len() == QUANTILES
            &&& #[trigger] ends_of(quantile_end, histogram, ends)
            &&& report.quantiles@.map_values(|row: QuantileRow| row_view(row)) == answered_rows(
                ends,
            )
        };
    lemma_answered_rows(ends);
    assert(call_ensures(quantile_end, (&histogram, quantile_label(0)), ends[0]));
    assert(call_ensures(quantile_end, (&histogram, quantile_label(1)), ends[1]));
    assert(call_ensures(quantile_end, (&histogram, quantile_label(2)), ends[2]));
    assert(call_ensures(quantile_end, (&histogram, quantile_label(3)), ends[3]));
    assert(call_ensures(quantile_end, (&histogram, quantile_label(4)), ends[4]));
    assert(call_ensures(quantile_end, (&histogram, quantile_label(5)), ends[5]));
    assert(are_ends_of(quantile_end, histogram, ends));
    let rows = report.quantiles@.map_values(|row: QuantileRow| row_view(row));
    assert forall|i: int| 0 <= i < report.quantiles@.len() implies (
    #[trigger] report.quantiles@[i]).label@ == rows_for(ends)[i].0 && report.quantiles@[i].end
        == rows_for(ends)[i].1 by {
        assert(rows[i] == row_view(report.quantiles@[i]));
    }
}

/// A reading is shown by its kind: a counter and a gauge with their values, and a
/// histogram that holds something by the summary of a report of it, each under the
/// name and the description of the metric. Nothing is shown of any other.
pub proof fn reading_is_shown_by_its_kind<F: Fn(&histogram::Histogram, &str) -> Option<u64>>(
    quantile_end: F,
    reading: Reading,
    family: Family,
)
    requires
        exposes(quantile_end, reading, family),
    ensures
        ({
            let shown = exposition::exposition_text(seq![family]);
            let name = reading.entry.name@;
            let description = match reading.entry.description {
                Some(text) => Some(text@),
                None => None,
            };
            let help = exposition::help(name, description);
            match reading.value {
                Some(MetricValue::Counter(value)) => exists|digits: Seq<char>|
                    {
                        &&& #[trigger] text::is_numeral_of(digits, value as int)
                        &&& shown == help + "# TYPE "@ + name + " counter\n"@ + name + " "@ + digits
                            + "\n"@
                    },
                Some(MetricValue::Gauge(value)) => exists|digits: Seq<char>|
                    {
                        &&& #[trigger] text::is_signed_numeral_of(digits, value as int)
                        &&& shown == help + "# TYPE "@ + name + " gauge\n"@ + name + " "@ + digits
                            + "\n"@
                    },
                Some(MetricValue::Histogram { loaded: Some(histogram), .. }) => exists|
                    report: Distribution,
                |
                    {
                        &&& #[trigger] reports(quantile_end, histogram, report)
                        &&& shown == exposition::summary(name, description, report)
                    },
                Some(MetricValue::Other { atomic: Some(histogram), .. }) => exists|
                    report: Distribution,
                |
                    {
                        &&& #[trigger] reports(quantile_end, histogram, report)
                        &&& shown == exposition::summary(name, description, report)
                    },
                _ => shown.len() == 0,
            }
        }),
{
    match family.sample {
        Some(Sample::Counter(value)) => {
            exposition::counter_is_shown_with_its_value(family, value);
        },
        Some(Sample::Gauge(value)) => {
            exposition::gauge_is_shown_with_its_value(family, value);
        },
        Some(Sample::Summary(report)) => {
            exposition::histogram_is_shown_by_its_summary(family, report);
            assert(reports(quantile_end, exposed_histogram(reading.value)->0, report));
        },
        None => {
            exposition::nothing_is_shown_without_a_value(family);
        },
    }
}

/// The exposition of the registry shows a reading of every registered metric, in
/// the order of the metrics, and nothing else.
pub proof fn every_registered_metric_is_exposed<
    F: Fn(&histogram::Histogram, &str) -> Option<u64>,
>(quantile_end: F, text: Seq<char>)
    requires
        exposes_registry(quantile_end, text),
    ensures
        exists|
            metrics: metriken::Metrics,
            readings: Seq<Reading>,
            values: Seq<Option<MetricValue>>,
            families: Seq<Family>,
        |
            {
                &&& #[trigger] registry::may_read(metrics, values)
                &&& readings.len() == registry::registered(metrics).len()
                &&& values.len() == readings.len()
                &&& families.len() == readings.len()
                &&& forall|i: int|
                    0 <= i < readings.len() ==> {
                        &&& (#[trigger] readings[i]).value == values[i]
                        &&& registry::identity(readings[i].entry) == registry::registered(
                            metrics,
                        )[i]
                        &&& exposes(quantile_end, readings[i], families[i])
                    }
                &&& #[trigger] exposes_all(quantile_end, readings, families)
                &&& text == Seq::new(
                    families.len(),
                    |i: int| exposition::exposition_text(seq![families[i]]),
                ).flatten()
            },
{
    let (metrics, readings, families) = choose|
        metrics: metriken::Metrics,
        readings: Seq<Reading>,
        families: Seq<Family>,
    |
        {
            &&& #[trigger] registry::read_from(metrics, readings)
            &&& #[trigger] exposes_all(quantile_end, readings, families)
            &&& text == exposition::exposition_text(families)
        };
    registry::every_registered_metric_is_read(metrics, readings);
    let values = Seq::new(readings.len(), |i: int| readings[i].value);
    assert(registry::may_read(metrics, values));
    assert forall|i: int| 0 <= i < readings.len() implies {
        &&& (#[trigger] readings[i]).value == values[i]
        &&& registry::identity(readings[i].entry) == registry::registered(metrics)[i]
        &&& exposes(quantile_end, readings[i], families[i])
    } by {
        assert(registry::identities(readings)[i] == registry::identity(readings[i].entry));
        assert(exposes(quantile_end, readings[i], families[i]));
    }
    lemma_text_by_family(families);
}

proof fn lemma_text_by_family(families: Seq<Family>)
    ensures
        exposition::exposition_text(families) == Seq::new(
            families.len(),
            |i: int| exposition::exposition_text(seq![families[i]]),
        ).flatten(),
    decreases families.len(),
{
    let parts = Seq::new(
        families.len(),
        |i: int| exposition::exposition_text(seq![families[i]]),
    );
    if families.len() > 0 {
        let front = families.drop_last();
        lemma_text_by_family(front);
        let earlier = Seq::new(
            front.len(),
            |i: int| exposition::exposition_text(seq![front[i]]),
        );
        assert(parts =~= earlier.push(parts.last()));
        earlier.lemma_flatten_push(parts.last());
        assert(families =~= front + seq![families.last()]);
        exposition::exposition_of_a_joined_list(front, seq![families.last()]);
    }
}

} // verus!
