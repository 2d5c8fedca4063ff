use cachecannon::exposition::{
    render, write_help, write_histogram_summary, Bucket, Distribution, Family, QuantileRow, Sample,
};
use cachecannon::labels::Labels;
use cachecannon::registry::{pair_readings, read_registry, Entry, MetricValue, Reading};
use cachecannon::scrape::{families, generate_prometheus_output, report};
use cachecannon::snapshot::{collect_rows, create_snapshot, encode_snapshot, snapshot_of, source_metadata};
use metriken::{
    AtomicHistogram, Counter, CounterGroup, Gauge, GaugeGroup, HistogramGroup, MetricBuilder,
    RwLockHistogram,
};
use std::any::Any;
use std::time::{Duration, UNIX_EPOCH};

struct Opaque(AtomicHistogram);

impl metriken::Metric for Opaque {
    fn as_any(&self) -> Option<&dyn Any> {
        Some(self)
    }

    fn value(&self) -> Option<metriken::Value<'_>> {
        Some(metriken::Value::Other(&self.0))
    }
}

struct Locked(RwLockHistogram);

impl metriken::Metric for Locked {
    fn as_any(&self) -> Option<&dyn Any> {
        Some(self)
    }

    fn value(&self) -> Option<metriken::Value<'_>> {
        Some(metriken::Value::Other(&self.0))
    }
}

struct Valueless;

impl metriken::Metric for Valueless {
    fn as_any(&self) -> Option<&dyn Any> {
        Some(self)
    }

    fn value(&self) -> Option<metriken::Value<'_>> {
        None
    }
}

fn quantile_end(histogram: &histogram::Histogram, label: &str) -> Option<u64> {
    let quantile: f64 = label.parse().ok()?;
    let result = histogram.quantile(quantile).ok()??;
    result.entries().values().next().map(|bucket| bucket.end())
}

fn entry(name: &str, description: Option<&str>, metadata: &[(&str, &str)]) -> Entry {
    Entry {
        name: name.to_string(),
        description: description.map(str::to_string),
        metadata: metadata
            .iter()
            .map(|(key, value)| (key.to_string(), value.to_string()))
            .collect(),
    }
}

fn reading(name: &str, value: Option<MetricValue>) -> Reading {
    Reading { entry: entry(name, None, &[]), value }
}

fn histogram_of(values: &[u64]) -> histogram::Histogram {
    let mut histogram = histogram::Histogram::new(7, 64).unwrap();
    for value in values {
        histogram.increment(*value).unwrap();
    }
    histogram
}

fn label_of<'a>(labels: &'a Labels, key: &str) -> Option<&'a str> {
    labels
        .pairs
        .iter()
        .find(|(k, _)| k == key)
        .map(|(_, value)| value.as_str())
}

#[test]
fn help_is_escaped() {
    let mut out = "x".to_string();
    write_help(&mut out, "m", Some("a\\b\nc\r\"d\""));
    assert_eq!(out, "x# HELP m a\\\\b\\nc\r\"d\"\n");
}

#[test]
fn help_is_left_out_without_a_description() {
    let mut out = String::new();
    write_help(&mut out, "m", None);
    write_help(&mut out, "m", Some(""));
    assert_eq!(out, "");
}

#[test]
fn families_are_rendered_in_order() {
    let text = render(&vec![
        Family {
            name: "requests".to_string(),
            description: Some("all\nrequests".to_string()),
            sample: Some(Sample::Counter(u64::MAX)),
        },
        Family {
            name: "silent".to_string(),
            description: Some("nothing".to_string()),
            sample: None,
        },
        Family {
            name: "depth".to_string(),
            description: None,
            sample: Some(Sample::Gauge(i64::MIN)),
        },
    ]);
    assert_eq!(
        text,
        "# HELP requests all\\nrequests\n\
         # TYPE requests counter\n\
         requests 18446744073709551615\n\
         # TYPE depth gauge\n\
         depth -9223372036854775808\n"
    );
    assert_eq!(render(&vec![]), "");
}

#[test]
fn summary_counts_observations_at_their_midpoints() {
    let snapshot = Distribution {
        buckets: vec![
            Bucket { start: 0, end: 0, count: 4 },
            Bucket { start: 10, end: 13, count: 3 },
            Bucket { start: u64::MAX - 1, end: u64::MAX, count: 1 },
        ],
        quantiles: vec![
            QuantileRow { label: "0.5".to_string(), end: 13 },
            QuantileRow { label: "0.9".to_string(), end: u64::MAX },
        ],
    };
    let mut out = String::new();
    write_histogram_summary(&mut out, "lat", Some("latency"), &snapshot);
    assert_eq!(
        out,
        "# HELP lat latency\n\
         # TYPE lat summary\n\
         lat{quantile=\"0.5\"} 13\n\
         lat{quantile=\"0.9\"} 18446744073709551615\n\
         lat_count 8\n\
         lat_sum 18446744073709551647\n"
    );
}

#[test]
fn summary_of_nothing_has_its_totals() {
    let snapshot = Distribution { buckets: vec![], quantiles: vec![] };
    let mut out = String::new();
    write_histogram_summary(&mut out, "lat", None, &snapshot);
    assert_eq!(out, "# TYPE lat summary\nlat_count 0\nlat_sum 0\n");
}

#[test]
fn summary_count_wraps_around() {
    let snapshot = Distribution {
        buckets: vec![
            Bucket { start: 1, end: 1, count: u64::MAX },
            Bucket { start: 2, end: 2, count: 3 },
        ],
        quantiles: vec![],
    };
    let mut out = String::new();
    write_histogram_summary(&mut out, "lat", None, &snapshot);
    assert_eq!(
        out,
        "# TYPE lat summary\nlat_count 2\nlat_sum 18446744073709551621\n"
    );
}

#[test]
fn histogram_is_reported_bucket_by_bucket() {
    let histogram = histogram_of(&[1, 1, 12_345]);
    let distribution = report(&histogram, &quantile_end);
    let held: Vec<Bucket> = distribution
        .buckets
        .iter()
        .copied()
        .filter(|bucket| bucket.count > 0)
        .collect();
    assert_eq!(
        held,
        vec![
            Bucket { start: 1, end: 1, count: 2 },
            Bucket { start: 12_288, end: 12_351, count: 1 },
        ]
    );
    let rows: Vec<(&str, u64)> = distribution
        .quantiles
        .iter()
        .map(|row| (row.label.as_str(), row.end))
        .collect();
    assert_eq!(
        rows,
        vec![
            ("0.5", 1),
            ("0.9", 12_351),
            ("0.95", 12_351),
            ("0.99", 12_351),
            ("0.999", 12_351),
            ("0.9999", 12_351),
        ]
    );
}

#[test]
fn quantiles_agree_with_a_single_query() {
    let values: Vec<u64> = (0..1_000u64).map(|i| (i * 7_919) % 5_003).collect();
    let histogram = histogram_of(&values);
    let quantiles = [0.50, 0.90, 0.95, 0.99, 0.999, 0.9999];
    let all = histogram.quantiles(&quantiles).unwrap().unwrap();
    let expected: Vec<(String, u64)> = all
        .entries()
        .iter()
        .map(|(quantile, bucket)| (format!("{}", quantile.as_f64()), bucket.end()))
        .collect();
    let reported: Vec<(String, u64)> = report(&histogram, &quantile_end)
        .quantiles
        .into_iter()
        .map(|row| (row.label, row.end))
        .collect();
    assert_eq!(reported, expected);
}

#[test]
fn empty_histogram_has_no_quantiles() {
    let distribution = report(&histogram_of(&[]), &quantile_end);
    assert!(distribution.quantiles.is_empty());
    assert!(distribution.buckets.iter().all(|bucket| bucket.count == 0));
}

#[test]
fn readings_are_exposed_by_kind() {
    let readings = vec![
        reading("a", Some(MetricValue::Counter(3))),
        reading("b", None),
        reading("c", Some(MetricValue::Gauge(-3))),
        reading(
            "d",
            Some(MetricValue::Histogram { loaded: Some(histogram_of(&[12_345])), powers: (7, 64) }),
        ),
        reading("e", Some(MetricValue::Histogram { loaded: None, powers: (7, 64) })),
        reading(
            "f",
            Some(MetricValue::Other { atomic: Some(histogram_of(&[2])), rwlock: None }),
        ),
        reading(
            "g",
            Some(MetricValue::Other { atomic: None, rwlock: Some(histogram_of(&[2])) }),
        ),
        reading("h", Some(MetricValue::Unsupported)),
    ];
    let none = |_: &histogram::Histogram, _: &str| -> Option<u64> { None };
    assert_eq!(
        render(&families(&readings, &none)),
        "# TYPE a counter\na 3\n\
         # TYPE c gauge\nc -3\n\
         # TYPE d summary\nd_count 1\nd_sum 12319\n\
         # TYPE f summary\nf_count 1\nf_sum 2\n"
    );
}

#[test]
fn readings_are_recorded_by_kind() {
    let rows = collect_rows(vec![
        reading("a", Some(MetricValue::Counter(3))),
        reading("b", None),
        reading("c", Some(MetricValue::Gauge(-3))),
        reading(
            "d",
            Some(MetricValue::Histogram { loaded: Some(histogram_of(&[5])), powers: (6, 32) }),
        ),
        reading("e", Some(MetricValue::Histogram { loaded: None, powers: (7, 64) })),
        reading(
            "f",
            Some(MetricValue::Other { atomic: Some(histogram_of(&[2])), rwlock: None }),
        ),
        reading(
            "g",
            Some(MetricValue::Other { atomic: None, rwlock: Some(histogram_of(&[2])) }),
        ),
        reading("h", Some(MetricValue::Unsupported)),
        reading("i", Some(MetricValue::Counter(4))),
    ]);
    let counters: Vec<(&str, u64)> =
        rows.counters.iter().map(|row| (row.name.as_str(), row.value)).collect();
    assert_eq!(counters, vec![("a", 3), ("i", 4)]);
    let gauges: Vec<(&str, i64)> =
        rows.gauges.iter().map(|row| (row.name.as_str(), row.value)).collect();
    assert_eq!(gauges, vec![("c", -3)]);
    let histograms: Vec<&str> = rows.histograms.iter().map(|row| row.name.as_str()).collect();
    assert_eq!(histograms, vec!["d", "f", "g"]);
    assert_eq!(label_of(&rows.histograms[0].metadata, "grouping_power"), Some("6"));
    assert_eq!(label_of(&rows.histograms[0].metadata, "max_value_power"), Some("32"));
    assert_eq!(label_of(&rows.histograms[2].metadata, "grouping_power"), Some("7"));
    assert_eq!(label_of(&rows.histograms[2].metadata, "max_value_power"), Some("64"));
    assert_eq!(label_of(&rows.histograms[2].metadata, "metric"), Some("g"));
}

#[test]
fn labels_of_a_metric_follow_its_name() {
    let metadata = [("op", "get"), ("metric", "alias"), ("op", "set"), ("grouping_power", "x")];
    let rows = collect_rows(vec![
        Reading { entry: entry("a", None, &[]), value: Some(MetricValue::Counter(1)) },
        Reading { entry: entry("b", None, &metadata), value: Some(MetricValue::Gauge(1)) },
        Reading {
            entry: entry("c", None, &metadata),
            value: Some(MetricValue::Histogram {
                loaded: Some(histogram_of(&[1])),
                powers: (7, 64),
            }),
        },
    ]);
    assert_eq!(
        rows.counters[0].metadata.pairs,
        vec![("metric".to_string(), "a".to_string())]
    );
    assert_eq!(rows.gauges[0].metadata.pairs.len(), 3);
    assert_eq!(label_of(&rows.gauges[0].metadata, "metric"), Some("alias"));
    assert_eq!(label_of(&rows.gauges[0].metadata, "op"), Some("set"));
    assert_eq!(label_of(&rows.gauges[0].metadata, "grouping_power"), Some("x"));
    assert_eq!(label_of(&rows.histograms[0].metadata, "grouping_power"), Some("7"));
    assert_eq!(label_of(&rows.histograms[0].metadata, "max_value_power"), Some("64"));
}

#[test]
fn later_labels_replace_earlier_ones() {
    let mut labels = Labels::new();
    labels.insert("a".to_string(), "1".to_string());
    labels.insert("b".to_string(), "2".to_string());
    labels.insert("a".to_string(), "3".to_string());
    labels.extend(&vec![
        ("c".to_string(), "4".to_string()),
        ("b".to_string(), "5".to_string()),
    ]);
    let pair = |key: &str, value: &str| (key.to_string(), value.to_string());
    assert_eq!(labels.pairs, vec![pair("a", "3"), pair("b", "5"), pair("c", "4")]);
}

#[test]
fn entries_keep_their_values() {
    let readings = pair_readings(
        vec![entry("a", None, &[]), entry("b", None, &[])],
        vec![None, Some(MetricValue::Gauge(9))],
    );
    assert_eq!(readings.len(), 2);
    assert_eq!(readings[0].entry.name, "a");
    assert!(readings[0].value.is_none());
    assert_eq!(readings[1].entry.name, "b");
    assert!(matches!(readings[1].value, Some(MetricValue::Gauge(9))));
}

#[test]
fn registry_is_read_with_names_labels_and_values() {
    let counter = MetricBuilder::new("read_hits")
        .description("cache hits")
        .metadata("op", "get")
        .build(Counter::new());
    counter.add(41);
    let gauge = MetricBuilder::new("read_depth").build(Gauge::new());
    gauge.set(-7);
    let latency = MetricBuilder::new("read_latency").build(AtomicHistogram::new(7, 64));
    let other = MetricBuilder::new("read_other").build(Opaque(AtomicHistogram::new(5, 32)));
    let locked = MetricBuilder::new("read_locked").build(Locked(RwLockHistogram::new(5, 32)));
    let _valueless = MetricBuilder::new("read_valueless").build(Valueless);
    latency.increment(12_345).unwrap();
    other.0.increment(1).unwrap();
    let slots = histogram::Config::new(5, 32).unwrap().total_buckets();
    locked.0.update_from(&vec![1; slots]).unwrap();

    let readings = read_registry();
    let find = |name: &str| readings.iter().find(|r| r.entry.name == name).unwrap();

    assert_eq!(find("read_hits").entry.description.as_deref(), Some("cache hits"));
    assert!(find("read_hits").entry.metadata.contains(&("op".to_string(), "get".to_string())));
    assert!(matches!(find("read_hits").value, Some(MetricValue::Counter(41))));
    assert_eq!(find("read_depth").entry.description, None);
    assert!(matches!(find("read_depth").value, Some(MetricValue::Gauge(-7))));
    assert!(matches!(
        find("read_latency").value,
        Some(MetricValue::Histogram { loaded: Some(_), powers: (7, 64) })
    ));
    assert!(matches!(
        find("read_other").value,
        Some(MetricValue::Other { atomic: Some(_), rwlock: None })
    ));
    assert!(matches!(
        find("read_locked").value,
        Some(MetricValue::Other { atomic: None, rwlock: Some(_) })
    ));
    assert!(find("read_valueless").value.is_none());
}

#[test]
fn exposition_shows_the_registered_metrics() {
    let counter = MetricBuilder::new("shown_hits").description("cache\\hits").build(Counter::new());
    counter.add(41);
    let latency = MetricBuilder::new("shown_latency").build(AtomicHistogram::new(7, 64));
    latency.increment(12_345).unwrap();

    let output = generate_prometheus_output(&quantile_end);

    assert!(output.contains("# HELP shown_hits cache\\\\hits\n# TYPE shown_hits counter\nshown_hits 41\n"));
    assert!(output.contains(
        "# TYPE shown_latency summary\n\
         shown_latency{quantile=\"0.5\"} 12351\n\
         shown_latency{quantile=\"0.9\"} 12351\n\
         shown_latency{quantile=\"0.95\"} 12351\n\
         shown_latency{quantile=\"0.99\"} 12351\n\
         shown_latency{quantile=\"0.999\"} 12351\n\
         shown_latency{quantile=\"0.9999\"} 12351\n\
         shown_latency_count 1\n\
         shown_latency_sum 12319\n"
    ));
}

#[test]
fn encoded_snapshot_carries_what_was_recorded() {
    let counter = MetricBuilder::new("encoded_hits").metadata("op", "get").build(Counter::new());
    counter.add(41);
    let gauge = MetricBuilder::new("encoded_depth").build(Gauge::new());
    gauge.set(-7);
    let latency = MetricBuilder::new("encoded_latency").build(AtomicHistogram::new(7, 64));
    latency.increment(12_345).unwrap();

    let snapshot = create_snapshot("1.2.3");
    let taken_at = snapshot.systemtime;
    let bytes = encode_snapshot(snapshot).unwrap();
    let mut decoded: metriken_exposition::Snapshot = rmp_serde::from_slice(&bytes).unwrap();

    assert_eq!(decoded.systemtime(), taken_at);
    let metadata = decoded.metadata();
    assert_eq!(metadata.get("source").map(String::as_str), Some("cachecannon"));
    assert_eq!(metadata.get("version").map(String::as_str), Some("1.2.3"));
    let counters = decoded.counters();
    let hits = counters.iter().find(|c| c.name == "encoded_hits").unwrap();
    assert_eq!(hits.value, 41);
    assert_eq!(hits.metadata.get("metric").map(String::as_str), Some("encoded_hits"));
    assert_eq!(hits.metadata.get("op").map(String::as_str), Some("get"));
    let gauges = decoded.gauges();
    let depth = gauges.iter().find(|g| g.name == "encoded_depth").unwrap();
    assert_eq!(depth.value, -7);
    let histograms = decoded.histograms();
    let latency = histograms.iter().find(|h| h.name == "encoded_latency").unwrap();
    assert_eq!(latency.value, histogram_of(&[12_345]));
    assert_eq!(latency.metadata.get("grouping_power").map(String::as_str), Some("7"));
    assert_eq!(latency.metadata.get("max_value_power").map(String::as_str), Some("64"));
}

#[test]
fn time_before_the_epoch_is_not_encoded() {
    let mut snapshot = create_snapshot("1.2.3");
    snapshot.systemtime = UNIX_EPOCH - Duration::from_secs(1);
    assert!(!encode_snapshot(snapshot).unwrap_err().cause.to_string().is_empty());
}

#[test]
fn snapshots_say_where_they_are_from() {
    let pair = |key: &str, value: &str| (key.to_string(), value.to_string());
    assert_eq!(
        source_metadata("9.9").pairs,
        vec![pair("source", "cachecannon"), pair("version", "9.9")]
    );
}

#[test]
fn groups_are_read_and_not_reported() {
    let counters = MetricBuilder::new("group_counters").build(CounterGroup::new(2));
    let _gauges = MetricBuilder::new("group_gauges").build(GaugeGroup::new(2));
    let _histograms = MetricBuilder::new("group_histograms").build(HistogramGroup::new(2, 7, 64));
    counters.add(0, 5);

    // Other tests may have metrics registered at the same time.
    let readings: Vec<Reading> = read_registry()
        .into_iter()
        .filter(|r| r.entry.name.starts_with("group_"))
        .collect();
    assert_eq!(readings.len(), 3);
    let find = |name: &str| readings.iter().find(|r| r.entry.name == name).unwrap();
    assert!(matches!(find("group_counters").value, Some(MetricValue::CounterGroup)));
    assert!(matches!(find("group_gauges").value, Some(MetricValue::GaugeGroup)));
    assert!(matches!(find("group_histograms").value, Some(MetricValue::HistogramGroup)));

    assert_eq!(render(&families(&readings, &quantile_end)), "");
    let rows = collect_rows(readings);
    assert!(rows.counters.is_empty());
    assert!(rows.gauges.is_empty());
    assert!(rows.histograms.is_empty());
}

#[test]
fn snapshot_keeps_its_time_and_duration() {
    let systemtime = UNIX_EPOCH + Duration::from_secs(1_700_000_000);
    let duration = Duration::from_nanos(12_345);
    let readings = vec![reading("a", Some(MetricValue::Counter(3)))];
    let snapshot = snapshot_of(systemtime, duration, collect_rows(readings), "1.2.3");
    assert_eq!(snapshot.systemtime, systemtime);
    assert_eq!(snapshot.duration, duration);
    assert_eq!(label_of(&snapshot.metadata, "version"), Some("1.2.3"));
    assert_eq!(snapshot.rows.counters.len(), 1);
    assert_eq!(snapshot.rows.counters[0].value, 3);
}

#[test]
fn taking_a_snapshot_changes_no_metric() {
    let counter = MetricBuilder::new("kept_hits").metadata("op", "get").build(Counter::new());
    counter.add(41);
    let gauge = MetricBuilder::new("kept_depth").build(Gauge::new());
    gauge.set(-7);
    let latency = MetricBuilder::new("kept_latency").build(AtomicHistogram::new(7, 64));
    latency.increment(12_345).unwrap();

    // Other tests may have metrics registered at the same time.
    let taken = || {
        let snapshot = create_snapshot("1.2.3");
        let hits = snapshot.rows.counters.into_iter().find(|row| row.name == "kept_hits").unwrap();
        let depth = snapshot.rows.gauges.into_iter().find(|row| row.name == "kept_depth").unwrap();
        let latency =
            snapshot.rows.histograms.into_iter().find(|row| row.name == "kept_latency").unwrap();
        (
            (hits.value, hits.metadata.pairs),
            (depth.value, depth.metadata.pairs),
            (latency.value, latency.metadata.pairs),
            snapshot.metadata.pairs,
        )
    };
    let first = taken();
    let second = taken();

    assert_eq!(first, second);
    assert_eq!(first.0 .0, 41);
    assert_eq!(counter.value(), 41);
    assert_eq!(gauge.value(), -7);
    assert_eq!(latency.load(), Some(histogram_of(&[12_345])));
}

#[test]
fn exposition_and_snapshot_hold_the_same_metrics() {
    let readings = || {
        vec![
            reading("a", Some(MetricValue::Counter(3))),
            reading("b", Some(MetricValue::Gauge(-3))),
            reading(
                "c",
                Some(MetricValue::Other { atomic: Some(histogram_of(&[2])), rwlock: None }),
            ),
            reading(
                "d",
                Some(MetricValue::Other { atomic: None, rwlock: Some(histogram_of(&[2])) }),
            ),
        ]
    };
    let exposed: Vec<String> = families(&readings(), &quantile_end)
        .into_iter()
        .filter(|family| family.sample.is_some())
        .map(|family| family.name)
        .collect();
    let rows = collect_rows(readings());
    let recorded: Vec<String> = rows
        .counters
        .into_iter()
        .map(|row| row.name)
        .chain(rows.gauges.into_iter().map(|row| row.name))
        .chain(rows.histograms.into_iter().map(|row| row.name))
        .collect();
    assert_eq!(exposed, vec!["a", "b", "c"]);
    // A histogram behind a lock that surfaces as a value of its own kind is only
    // recorded.
    assert_eq!(recorded, vec!["a", "b", "c", "d"]);
}
