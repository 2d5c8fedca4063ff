use cachecannon::request::request_target;
use cachecannon::response::{http_response, AdminBody};
use cachecannon::scrape::generate_prometheus_output;
use cachecannon::server::{
    admin_tasks, answer, listener_action, respond, route, serve_path, serve_snapshot, AdminTask, ListenerAction,
    ListenerEvent, Route,
};
use cachecannon::snapshot::EncodeError;
use metriken::{AtomicHistogram, MetricBuilder};
use metriken_exposition::Snapshot;

const VERSION: &str = "1.2.3";

fn quantile_end(histogram: &histogram::Histogram, label: &str) -> Option<u64> {
    let quantile: f64 = label.parse().ok()?;
    let result = histogram.quantile(quantile).ok()??;
    result.entries().values().next().map(|bucket| bucket.end())
}

#[test]
fn prometheus_output_carries_latency_histograms() {
    let response_latency =
        MetricBuilder::new("response_latency").build(AtomicHistogram::new(7, 64));
    let _ = response_latency.increment(12_345);

    let output = generate_prometheus_output(&quantile_end);

    assert!(
        output.contains("# TYPE response_latency summary"),
        "response_latency missing from the exposition output:\n{output}"
    );
    assert!(output.contains("response_latency{quantile="));
    assert!(output.contains("response_latency_count "));
}

#[test]
fn request_target_reads_the_path_from_the_request_line() {
    assert_eq!(
        request_target(b"GET /metrics/binary HTTP/1.1\r\nHost: x\r\n\r\n"),
        Some("/metrics/binary")
    );
    assert_eq!(
        request_target(b"GET /metrics?collect=all HTTP/1.1\r\n\r\n"),
        Some("/metrics")
    );
    assert_eq!(request_target(b"garbage"), None);
}

#[test]
fn metrics_paths_route_to_their_formats() {
    assert!(matches!(
        respond("/metrics", VERSION, &quantile_end),
        AdminBody::Prometheus(_)
    ));
    // A scraper pointed at the root must not be answered with a 404.
    assert!(matches!(
        respond("/", VERSION, &quantile_end),
        AdminBody::Prometheus(_)
    ));
    assert!(matches!(
        respond("/metrics/binary", VERSION, &quantile_end),
        AdminBody::Msgpack(_)
    ));
    assert!(matches!(
        respond("/nope", VERSION, &quantile_end),
        AdminBody::NotFound
    ));
}

#[test]
fn msgpack_body_decodes_as_a_snapshot_carrying_histograms() {
    let response_latency =
        MetricBuilder::new("response_latency").build(AtomicHistogram::new(7, 64));
    let _ = response_latency.increment(12_345);

    let AdminBody::Msgpack(bytes) = respond("/metrics/binary", VERSION, &quantile_end) else {
        panic!("/metrics/binary did not serve msgpack");
    };

    // `Snapshot` is an untagged enum and rmp-serde encodes structs as
    // arrays, so this also pins the variant: a V2 body must not decode as
    // a V1 one.
    let mut snapshot: Snapshot =
        rmp_serde::from_slice(&bytes).expect("msgpack body is not a snapshot");
    assert!(matches!(snapshot, Snapshot::V2(_)));

    assert!(
        snapshot
            .histograms()
            .iter()
            .any(|h| h.name == "response_latency"),
        "decoded snapshot carries no response_latency histogram"
    );
    assert_eq!(
        snapshot.metadata().get("source").map(String::as_str),
        Some("cachecannon")
    );
}

#[test]
fn msgpack_response_is_framed_as_binary() {
    let target = request_target(b"GET /metrics/binary HTTP/1.1\r\nHost: x\r\n\r\n").unwrap();
    let response = http_response(respond(target, VERSION, &quantile_end));

    let split = response
        .windows(4)
        .position(|w| w == b"\r\n\r\n")
        .expect("no header/body separator");
    let headers = std::str::from_utf8(&response[..split]).unwrap();
    let body = &response[split + 4..];

    assert!(headers.starts_with("HTTP/1.1 200 OK\r\n"), "{headers}");
    assert!(
        headers.contains("Content-Type: application/msgpack\r\n"),
        "{headers}"
    );
    assert!(
        headers.contains(&format!("Content-Length: {}\r\n", body.len())),
        "content-length disagrees with the {} byte body:\n{headers}",
        body.len()
    );
    rmp_serde::from_slice::<Snapshot>(body).expect("framed body is not a snapshot");
}

#[test]
fn paths_are_routed_whole() {
    assert_eq!(route("/"), Route::Exposition);
    assert_eq!(route("/metrics"), Route::Exposition);
    assert_eq!(route("/metrics/binary"), Route::Snapshot);
    assert_eq!(route(""), Route::Nothing);
    assert_eq!(route("/metrics/"), Route::Nothing);
    assert_eq!(route("/Metrics"), Route::Nothing);
    assert_eq!(route("/metrics/binary/x"), Route::Nothing);
}

#[test]
fn unparseable_requests_are_not_found() {
    let not_found = http_response(AdminBody::NotFound);
    let garbage: [&[u8]; 5] = [
        b"",
        b"garbage",
        b"GET metrics HTTP/1.1\r\n\r\n",
        b"GET \xff/metrics HTTP/1.1\r\n\r\n",
        b"GET /nope HTTP/1.1\r\n\r\n",
    ];
    for request in garbage {
        let answer = answer(request, VERSION, &quantile_end);
        assert_eq!(answer.bytes, not_found);
        assert!(answer.failure.is_none());
    }
}

#[test]
fn requests_are_answered_by_their_path() {
    let text = answer(b"GET / HTTP/1.1\r\n\r\n", VERSION, &quantile_end).bytes;
    assert!(text.starts_with(b"HTTP/1.1 200 OK\r\nContent-Type: text/plain; version=0.0.4\r\n"));
    let same = answer(b"HEAD /metrics?a=b HTTP/1.0\nx", VERSION, &quantile_end).bytes;
    assert!(same.starts_with(b"HTTP/1.1 200 OK\r\nContent-Type: text/plain; version=0.0.4\r\n"));
    let binary = answer(b"GET /metrics/binary HTTP/1.1\r\n", VERSION, &quantile_end).bytes;
    assert!(binary.starts_with(b"HTTP/1.1 200 OK\r\nContent-Type: application/msgpack\r\n"));
}

#[test]
fn encoding_errors_are_server_errors() {
    let cause = rmp_serde::encode::Error::Syntax("broken".to_string());
    let refused = serve_snapshot(Err(EncodeError { cause }));
    assert!(matches!(refused.body, AdminBody::ServerError));
    assert_eq!(refused.failure.unwrap().cause.to_string(), "broken");

    let served = serve_snapshot(Ok(vec![1, 2, 3]));
    let AdminBody::Msgpack(bytes) = served.body else {
        panic!("an encoded snapshot was not served");
    };
    assert_eq!(bytes, vec![1, 2, 3]);
    assert!(served.failure.is_none());
}

#[test]
fn paths_that_are_served_do_not_fail() {
    for path in ["/", "/metrics", "/metrics/binary", "/nope"] {
        assert!(serve_path(path, VERSION, &quantile_end).failure.is_none());
    }
}

#[test]
fn only_a_request_to_stop_ends_the_listener() {
    assert_eq!(listener_action(ListenerEvent::Accepted), ListenerAction::Serve);
    assert_eq!(listener_action(ListenerEvent::AcceptFailed), ListenerAction::Listen);
    assert_eq!(listener_action(ListenerEvent::StopRequested), ListenerAction::Stop);
}

#[test]
fn tasks_are_those_that_are_configured() {
    assert_eq!(admin_tasks(false, false), vec![]);
    assert_eq!(admin_tasks(true, false), vec![AdminTask::Serve]);
    assert_eq!(admin_tasks(false, true), vec![AdminTask::Record]);
    assert_eq!(admin_tasks(true, true), vec![AdminTask::Serve, AdminTask::Record]);
}
