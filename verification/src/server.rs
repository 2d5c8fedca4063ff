//! What the admin server answers, and when it stops.

use crate::request;
use crate::response;
use crate::response::AdminBody;
use crate::scrape;
use crate::snapshot;
use crate::text;
use vstd::prelude::*;
use vstd::utf8::*;

verus! {

/// What is served under a path.
#[derive(Clone, Copy, Debug, PartialEq, Eq, Structural)]
pub enum Route {
    /// The Prometheus exposition text.
    Exposition,
    /// A snapshot.
    Snapshot,
    /// Nothing.
    Nothing,
}

/// What is served under a path.
pub open spec fn route_of(path: Seq<char>) -> Route {
    if path == "/"@ || path == "/metrics"@ {
        Route::Exposition
    } else if path == "/metrics/binary"@ {
        Route::Snapshot
    } else {
        Route::Nothing
    }
}

/// What is served under a path.
pub fn route(path: &str) -> (route: Route)
    ensures
        route == route_of(path@),
{
    // A scraper that is pointed at the root must not be answered with a 404.
    if text::same_text(path, "/") || text::same_text(path, "/metrics") {
        Route::Exposition
    } else if text::same_text(path, "/metrics/binary") {
        Route::Snapshot
    } else {
        Route::Nothing
    }
}

/// Whether a body is what is served under a route: the exposition text, or a
/// snapshot of the registered metrics, or an error if it cannot be encoded. The
/// failure is then what the encoder reported; there is none otherwise.
pub open spec fn serves<F: Fn(&histogram::Histogram, &str) -> Option<u64>>(
    route: Route,
    version: Seq<char>,
    quantile_end: F,
    body: AdminBody,
    failure: Option<snapshot::EncodeError>,
) -> bool {
    match route {
        Route::Exposition => {
            &&& body matches AdminBody::Prometheus(text)
            &&& scrape::exposes_registry(quantile_end, text@)
            &&& failure is None
        },
        Route::Snapshot => match (body, failure) {
            (AdminBody::Msgpack(bytes), None) => encodes_registry(version, Ok(bytes@)),
            (AdminBody::ServerError, Some(error)) => encodes_registry(version, Err(error.cause)),
            _ => false,
        },
        Route::Nothing => body is NotFound && failure is None,
    }
}

/// Whether an outcome is one of encoding a snapshot of what may be read of
/// registered metrics: some bytes, or the error with which it is refused.
pub open spec fn encodes_registry(
    version: Seq<char>,
    outcome: Result<Seq<u8>, rmp_serde::encode::Error>,
) -> bool {
    exists|content: snapshot::SnapshotView|
        {
            &&& #[trigger] snapshot::encodes_as(content, outcome)
            &&& content.metadata == snapshot::source_labels(version)
            &&& snapshot::records_registry(content.rows)
            &&& snapshot::timed_by_the_clocks(content)
        }
}

/// What is served, and why it is an error.
pub struct Served {
    /// The body.
    pub body: AdminBody,
    /// Why the snapshot that was asked for could not be encoded.
    pub failure: Option<snapshot::EncodeError>,
}

/// What is served of an encoded snapshot: its bytes, or an error if there are
/// none.
pub fn serve_snapshot(encoded: Result<Vec<u8>, snapshot::EncodeError>) -> (served: Served)
    ensures
        match encoded {
            Ok(bytes) => served.body == AdminBody::Msgpack(bytes) && served.failure is None,
            Err(failure) => served.body is ServerError && served.failure == Some(failure),
        },
{
    match encoded {
        Ok(bytes) => Served { body: AdminBody::Msgpack(bytes), failure: None },
        Err(failure) => Served { body: AdminBody::ServerError, failure: Some(failure) },
    }
}

/// Serve one path, and say why where a snapshot could not be encoded.
///
/// The two metric paths are the ones `rezolus record` probes: it tries
/// `/metrics/binary` for a msgpack source first and falls back to `/metrics`
/// for a Prometheus one. Serving msgpack is what lets a run be recorded into
/// the same `.rez` archive as the server- and client-side agents, as one more
/// `--endpoint`.
pub fn serve_path<F: Fn(&histogram::Histogram, &str) -> Option<u64>>(
    path: &str,
    version: &str,
    quantile_end: &F,
) -> (served: Served)
    requires
        forall|h: &histogram::Histogram, q: &str| #[trigger] call_requires(*quantile_end, (h, q)),
    ensures
        serves(route_of(path@), version@, *quantile_end, served.body, served.failure),
{
    match route(path) {
        Route::Exposition => Served {
            body: AdminBody::Prometheus(scrape::generate_prometheus_output(quantile_end)),
            failure: None,
        },
        Route::Snapshot => {
            let taken = snapshot::create_snapshot(version);
            serve_snapshot(snapshot::encode_snapshot(taken))
        },
        Route::Nothing => Served { body: AdminBody::NotFound, failure: None },
    }
}

/// Serve one path.
pub fn respond<F: Fn(&histogram::Histogram, &str) -> Option<u64>>(
    path: &str,
    version: &str,
    quantile_end: &F,
) -> (body: AdminBody)
    requires
        forall|h: &histogram::Histogram, q: &str| #[trigger] call_requires(*quantile_end, (h, q)),
    ensures
        exists|failure: Option<snapshot::EncodeError>| #[trigger]
            serves(route_of(path@), version@, *quantile_end, body, failure),
{
    serve_path(path, version, quantile_end).body
}

/// What is served for a request. An unparseable request names no target, so
/// there is nothing to serve it from.
pub open spec fn route_of_request(request: Seq<u8>) -> Route {
    match request::target(request) {
        Some(path) => route_of(path),
        None => Route::Nothing,
    }
}

/// The answer to a request.
pub struct Answer {
    /// The response.
    pub bytes: Vec<u8>,
    /// Why the snapshot that was asked for could not be encoded.
    pub failure: Option<snapshot::EncodeError>,
}

/// Answers a request.
pub fn answer<F: Fn(&histogram::Histogram, &str) -> Option<u64>>(
    request: &[u8],
    version: &str,
    quantile_end: &F,
) -> (answer: Answer)
    requires
        forall|h: &histogram::Histogram, q: &str| #[trigger] call_requires(*quantile_end, (h, q)),
    ensures
        exists|body: AdminBody|
            {
                &&& #[trigger] serves(
                    route_of_request(request@),
                    version@,
                    *quantile_end,
                    body,
                    answer.failure,
                )
                &&& answer.bytes@ == response::response(body)
            },
        route_of_request(request@) is Nothing ==> answer.bytes@ == response::response(
            AdminBody::NotFound,
        ) && answer.failure is None,
{
    let served = match request::request_target(request) {
        Some(target) => serve_path(target, version, quantile_end),
        None => Served { body: AdminBody::NotFound, failure: None },
    };
    let Served { body, failure } = served;
    proof {
        assert(serves(route_of_request(request@), version@, *quantile_end, body, failure));
    }
    Answer { bytes: response::http_response(body), failure }
}

/// The route of a request is that of the path on its first line: neither the
/// method, nor a query string, nor the rest of the request changes it.
pub proof fn request_is_routed_by_its_path(
    method: Seq<char>,
    path: Seq<char>,
    query: Seq<char>,
    rest: Seq<char>,
    lines: Seq<u8>,
)
    requires
        method.len() > 0,
        forall|i: int| 0 <= i < method.len() ==> !text::is_white(#[trigger] method[i]),
        path.len() > 0,
        path[0] == '/',
        !path.contains('?'),
        forall|i: int| 0 <= i < path.len() ==> !text::is_white(#[trigger] path[i]),
        query.len() > 0 ==> query[0] == '?',
        forall|i: int| 0 <= i < query.len() ==> !text::is_white(#[trigger] query[i]),
        rest.len() > 0 ==> text::is_white(rest[0]),
        !rest.contains('\n'),
    ensures
        route_of_request(
            encode_utf8(method + seq![' '] + path + query + rest) + seq![10u8] + lines,
        ) == route_of(path),
{
    request::request_names_its_path(method, path, query, rest, lines);
}

/// The status of an answer follows from the route: the exposition text is always
/// served, a snapshot is served unless it cannot be encoded, and a request that
/// is refused is answered with an empty 404. A failure is reported with a 500, and
/// with nothing else.
pub proof fn status_follows_the_route<F: Fn(&histogram::Histogram, &str) -> Option<u64>>(
    route: Route,
    version: Seq<char>,
    quantile_end: F,
    body: AdminBody,
    failure: Option<snapshot::EncodeError>,
)
    requires
        serves(route, version, quantile_end, body, failure),
    ensures
        failure is Some <==> response::status(body) == "500 Internal Server Error"@,
        match route {
            Route::Exposition => response::status(body) == "200 OK"@,
            Route::Snapshot => response::status(body) == if body is ServerError {
                "500 Internal Server Error"@
            } else {
                "200 OK"@
            },
            Route::Nothing => response::response(body) == encode_utf8(
                response::head("404 Not Found"@, "text/plain"@, 0),
            ),
        },
{
    reveal_strlit("200 OK");
    reveal_strlit("404 Not Found");
    reveal_strlit("500 Internal Server Error");
    assert("500 Internal Server Error"@.len() != "200 OK"@.len());
    assert("500 Internal Server Error"@.len() != "404 Not Found"@.len());
    if route is Nothing {
        assert(response::response(body) =~= encode_utf8(
            response::head("404 Not Found"@, "text/plain"@, 0),
        ));
    }
}

/// What is served is found in the answer behind its first blank line: the bytes
/// of a snapshot, or of the exposition text.
pub proof fn served_body_is_found_behind_the_head<
    F: Fn(&histogram::Histogram, &str) -> Option<u64>,
>(
    route: Route,
    version: Seq<char>,
    quantile_end: F,
    body: AdminBody,
    failure: Option<snapshot::EncodeError>,
    i: int,
)
    requires
        serves(route, version, quantile_end, body, failure),
        response::blank_line_at(response::response(body), i),
        forall|j: int| 0 <= j < i ==> !#[trigger] response::blank_line_at(
            response::response(body),
            j,
        ),
    ensures
        route is Snapshot && !(body is ServerError) ==> encodes_registry(
            version,
            Ok(response::response(body).skip(i + 4)),
        ),
        route is Exposition ==> exists|text: Seq<char>|
            #![trigger encode_utf8(text)]
            scrape::exposes_registry(quantile_end, text) && response::response(body).skip(i + 4)
                == encode_utf8(text),
{
    response::response_splits_at_its_first_blank_line(body);
    assert(response::response(body).skip(i + 4) =~= response::payload(body));
}

/// What the listener is told.
#[derive(Clone, Copy, Debug, PartialEq, Eq, Structural)]
pub enum ListenerEvent {
    /// A connection was accepted.
    Accepted,
    /// A connection could not be accepted.
    AcceptFailed,
    /// The server is to stop.
    StopRequested,
}

/// What the listener does next.
#[derive(Clone, Copy, Debug, PartialEq, Eq, Structural)]
pub enum ListenerAction {
    /// Answer the connection, and listen on.
    Serve,
    /// Listen on.
    Listen,
    /// Listen no more.
    Stop,
}

/// What the listener does next: only a request to stop ends it.
pub fn listener_action(event: ListenerEvent) -> (action: ListenerAction)
    ensures
        action == ListenerAction::Stop <==> event == ListenerEvent::StopRequested,
        action == ListenerAction::Serve <==> event == ListenerEvent::Accepted,
{
    match event {
        ListenerEvent::Accepted => ListenerAction::Serve,
        ListenerEvent::AcceptFailed => ListenerAction::Listen,
        ListenerEvent::StopRequested => ListenerAction::Stop,
    }
}

/// A task of the admin thread.
#[derive(Clone, Copy, Debug, PartialEq, Eq, Structural)]
pub enum AdminTask {
    /// Serve the metrics over HTTP.
    Serve,
    /// Record snapshots to a Parquet file.
    Record,
}

/// The tasks of the admin thread: the server if there is an address to listen
/// on, and the recorder if there is a file to write.
pub fn admin_tasks(listen: bool, record: bool) -> (tasks: Vec<AdminTask>)
    ensures
        tasks@ == (if listen {
            seq![AdminTask::Serve]
        } else {
            seq![]
        }) + (if record {
            seq![AdminTask::Record]
        } else {
            seq![]
        }),
{
    let mut tasks: Vec<AdminTask> = Vec::new();
    if listen {
        tasks.push(AdminTask::Serve);
    }
    if record {
        tasks.push(AdminTask::Record);
    }
    proof {
        let served: Seq<AdminTask> = if listen {
            seq![AdminTask::Serve]
        } else {
            seq![]
        };
        let recorded: Seq<AdminTask> = if record {
            seq![AdminTask::Record]
        } else {
            seq![]
        };
        assert(tasks@ =~= served + recorded);
    }
    tasks
}

/// Whether a body has the format of a path: the text under the root and under
/// `/metrics`, a snapshot under `/metrics/binary`, unless it cannot be encoded, and
/// nothing under any other path.
pub open spec fn has_the_format_of(body: AdminBody, path: Seq<char>) -> bool {
    &&& body is Prometheus <==> (path == "/"@ || path == "/metrics"@)
    &&& (body is Msgpack || body is ServerError) <==> path == "/metrics/binary"@
}

/// A path is served in its format.
pub proof fn path_is_served_in_its_format<F: Fn(&histogram::Histogram, &str) -> Option<u64>>(
    path: Seq<char>,
    version: Seq<char>,
    quantile_end: F,
    body: AdminBody,
    failure: Option<snapshot::EncodeError>,
)
    requires
        serves(route_of(path), version, quantile_end, body, failure),
    ensures
        has_the_format_of(body, path),
{
    reveal_strlit("/");
    reveal_strlit("/metrics");
    reveal_strlit("/metrics/binary");
    assert("/metrics/binary"@.len() != "/metrics"@.len());
    assert("/metrics/binary"@.len() != "/"@.len());
}

/// A request is answered in the format of the path that it names, and with a 404
/// where it names none.
pub proof fn request_is_answered_in_the_format_of_its_path<
    F: Fn(&histogram::Histogram, &str) -> Option<u64>,
>(
    request: Seq<u8>,
    version: Seq<char>,
    quantile_end: F,
    body: AdminBody,
    failure: Option<snapshot::EncodeError>,
)
    requires
        serves(route_of_request(request), version, quantile_end, body, failure),
    ensures
        request::target(request) matches Some(path) ==> has_the_format_of(body, path),
        request::target(request) is None ==> body is NotFound,
{
    if let Some(path) = request::target(request) {
        path_is_served_in_its_format(path, version, quantile_end, body, failure);
    }
}

/// What is served is what was made for the route: the text is the exposition of
/// the registry, the bytes are what the encoder gave for a snapshot of the
/// registry, and a failure is what the encoder refused such a snapshot with.
pub proof fn served_body_is_made_from_the_registry<
    F: Fn(&histogram::Histogram, &str) -> Option<u64>,
>(
    route: Route,
    version: Seq<char>,
    quantile_end: F,
    body: AdminBody,
    failure: Option<snapshot::EncodeError>,
)
    requires
        serves(route, version, quantile_end, body, failure),
    ensures
        body matches AdminBody::Prometheus(text) ==> scrape::exposes_registry(quantile_end, text@),
        body matches AdminBody::Msgpack(bytes) ==> exists|content: snapshot::SnapshotView|
            {
                &&& #[trigger] snapshot::encodes_as(content, Ok(bytes@))
                &&& snapshot::records_registry(content.rows)
                &&& snapshot::timed_by_the_clocks(content)
                &&& content.metadata["source"@] == "cachecannon"@
                &&& content.metadata["version"@] == version
            },
        failure matches Some(error) ==> exists|content: snapshot::SnapshotView|
            {
                &&& #[trigger] snapshot::encodes_as(content, Err(error.cause))
                &&& snapshot::records_registry(content.rows)
                &&& snapshot::timed_by_the_clocks(content)
                &&& content.metadata["source"@] == "cachecannon"@
                &&& content.metadata["version"@] == version
            },
{
    snapshot::snapshot_names_its_source(version, "source"@);
}

} // verus!
