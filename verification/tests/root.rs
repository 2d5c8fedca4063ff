use cachecannon::server::answer;
use metriken::{Counter, MetricBuilder};

// The registry is that of the whole process, so this test stands alone.
#[test]
fn root_is_answered_like_the_metrics_path() {
    let counter = MetricBuilder::new("root_hits").build(Counter::new());
    counter.add(41);
    let none = |_: &histogram::Histogram, _: &str| -> Option<u64> { None };

    let root = answer(b"GET / HTTP/1.1\r\n\r\n", "1.2.3", &none).bytes;
    let metrics = answer(b"HEAD /metrics?a=b HTTP/1.0\nx", "1.2.3", &none).bytes;

    assert_eq!(root, metrics);
    assert!(root.ends_with(b"\r\n\r\n# TYPE root_hits counter\nroot_hits 41\n"));
}
