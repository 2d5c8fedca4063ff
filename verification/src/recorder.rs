//! When the recorder stages, converts and clears away what it records, and
//! where it does so.

use crate::labels::Labels;
use crate::text;
use std::path::{Path, PathBuf};
use vstd::prelude::*;
use vstd::utf8::*;

verus! {

/// What the recorder is doing.
#[derive(Clone, Copy, Debug, PartialEq, Eq, Structural)]
pub enum RecorderState {
    /// It waits for the interval to pass, or for the request to stop.
    Waiting,
    /// It stages a snapshot.
    Staging,
    /// It stages the final snapshot.
    Closing,
    /// It brings the staged snapshots to disk.
    Flushing,
    /// It converts the staged snapshots.
    Converting,
    /// It removes the staging file.
    Removing,
    /// It has stopped.
    Stopped,
}

/// What the recorder is told.
#[derive(Clone, Copy, Debug, PartialEq, Eq, Structural)]
pub enum RecorderEvent {
    /// The interval has passed.
    Tick {
        /// Whether the run is in a phase that is recorded.
        recording: bool,
    },
    /// The recorder is to stop.
    StopRequested,
    /// A snapshot was staged.
    Stored,
    /// A snapshot could not be staged.
    NotStored,
    /// The staged snapshots are on disk.
    Flushed,
    /// The staged snapshots could not be brought to disk.
    FlushFailed,
    /// The conversion is over, whether or not it came off.
    Converted,
    /// The removal is over, whether or not it came off.
    Removed,
}

/// What is to be done next.
#[derive(Clone, Copy, Debug, PartialEq, Eq, Structural)]
pub enum RecorderAction {
    /// Wait for the interval to pass, or for the request to stop.
    Wait,
    /// Take a snapshot, and append it to the staging file.
    Stage,
    /// Bring the staging file to disk.
    Flush,
    /// Convert the staging file.
    Convert,
    /// Remove the staging file.
    Remove,
    /// Nothing more.
    Stop,
}

/// How far the recorder is: what it is doing, and how many snapshots it has
/// staged.
pub struct Progress {
    pub state: RecorderState,
    pub staged: nat,
}

/// The recorder at its start.
pub open spec fn at_start() -> Progress {
    Progress { state: RecorderState::Waiting, staged: 0 }
}

/// Where the recorder goes from a state. It stages a snapshot at each tick in a
/// recorded phase, and one more when it is to stop. What is staged is then
/// brought to disk, converted unless there is nothing, and removed. Where it
/// cannot be brought to disk, it stays. An event that does not answer what the
/// recorder is doing changes nothing.
pub open spec fn next(before: Progress, event: RecorderEvent) -> Progress {
    match (before.state, event) {
        (RecorderState::Waiting, RecorderEvent::Tick { recording: true }) => Progress {
            state: RecorderState::Staging,
            ..before
        },
        (RecorderState::Waiting, RecorderEvent::StopRequested) => Progress {
            state: RecorderState::Closing,
            ..before
        },
        (RecorderState::Staging, RecorderEvent::Stored) => Progress {
            state: RecorderState::Waiting,
            staged: before.staged + 1,
        },
        (RecorderState::Staging, RecorderEvent::NotStored) => Progress {
            state: RecorderState::Waiting,
            ..before
        },
        (RecorderState::Closing, RecorderEvent::Stored) => Progress {
            state: RecorderState::Flushing,
            staged: before.staged + 1,
        },
        (RecorderState::Closing, RecorderEvent::NotStored) => Progress {
            state: RecorderState::Flushing,
            ..before
        },
        (RecorderState::Flushing, RecorderEvent::Flushed) => Progress {
            state: if before.staged == 0 {
                RecorderState::Removing
            } else {
                RecorderState::Converting
            },
            ..before
        },
        (RecorderState::Flushing, RecorderEvent::FlushFailed) => Progress {
            state: RecorderState::Stopped,
            ..before
        },
        (RecorderState::Converting, RecorderEvent::Converted) => Progress {
            state: RecorderState::Removing,
            ..before
        },
        (RecorderState::Removing, RecorderEvent::Removed) => Progress {
            state: RecorderState::Stopped,
            ..before
        },
        _ => before,
    }
}

/// What is to be done in a state.
pub open spec fn action_in(state: RecorderState) -> RecorderAction {
    match state {
        RecorderState::Waiting => RecorderAction::Wait,
        RecorderState::Staging => RecorderAction::Stage,
        RecorderState::Closing => RecorderAction::Stage,
        RecorderState::Flushing => RecorderAction::Flush,
        RecorderState::Converting => RecorderAction::Convert,
        RecorderState::Removing => RecorderAction::Remove,
        RecorderState::Stopped => RecorderAction::Stop,
    }
}

/// The decisions of the recorder.
#[derive(Debug)]
pub struct Recorder {
    /// What it is doing.
    pub state: RecorderState,
    /// How many snapshots it has staged.
    pub staged: usize,
}

impl View for Recorder {
    type V = Progress;

    open spec fn view(&self) -> Progress {
        Progress { state: self.state, staged: self.staged as nat }
    }
}

impl Recorder {
    /// A recorder that has not staged anything.
    pub fn new() -> (recorder: Recorder)
        ensures
            recorder@ == at_start(),
    {
        Recorder { state: RecorderState::Waiting, staged: 0 }
    }

    /// What is to be done now.
    pub fn action(&self) -> (action: RecorderAction)
        ensures
            action == action_in(self@.state),
    {
        match self.state {
            RecorderState::Waiting => RecorderAction::Wait,
            RecorderState::Staging => RecorderAction::Stage,
            RecorderState::Closing => RecorderAction::Stage,
            RecorderState::Flushing => RecorderAction::Flush,
            RecorderState::Converting => RecorderAction::Convert,
            RecorderState::Removing => RecorderAction::Remove,
            RecorderState::Stopped => RecorderAction::Stop,
        }
    }

    /// Goes on after an event, and says what is to be done next.
    pub fn step(&mut self, event: RecorderEvent) -> (action: RecorderAction)
        requires
            event == RecorderEvent::Stored ==> old(self)@.staged < usize::MAX,
        ensures
            final(self)@ == next(old(self)@, event),
            action == action_in(final(self)@.state),
    {
        match (self.state, event) {
            (RecorderState::Waiting, RecorderEvent::Tick { recording: true }) => {
                // Only collect snapshots during the running phase (skip warmup).
                self.state = RecorderState::Staging;
            },
            (RecorderState::Waiting, RecorderEvent::StopRequested) => {
                self.state = RecorderState::Closing;
            },
            (RecorderState::Staging, RecorderEvent::Stored) => {
                self.staged = self.staged + 1;
                self.state = RecorderState::Waiting;
            },
            (RecorderState::Staging, RecorderEvent::NotStored) => {
                self.state = RecorderState::Waiting;
            },
            (RecorderState::Closing, RecorderEvent::Stored) => {
                self.staged = self.staged + 1;
                self.state = RecorderState::Flushing;
            },
            (RecorderState::Closing, RecorderEvent::NotStored) => {
                self.state = RecorderState::Flushing;
            },
            (RecorderState::Flushing, RecorderEvent::Flushed) => {
                if self.staged == 0 {
                    self.state = RecorderState::Removing;
                } else {
                    self.state = RecorderState::Converting;
                }
            },
            (RecorderState::Flushing, RecorderEvent::FlushFailed) => {
                self.state = RecorderState::Stopped;
            },
            (RecorderState::Converting, RecorderEvent::Converted) => {
                self.state = RecorderState::Removing;
            },
            (RecorderState::Removing, RecorderEvent::Removed) => {
                self.state = RecorderState::Stopped;
            },
            _ => {},
        }
        self.action()
    }
}

/// Where the recorder is after some events.
pub open spec fn after(events: Seq<RecorderEvent>) -> Progress
    decreases events.len(),
{
    if events.len() == 0 {
        at_start()
    } else {
        next(after(events.drop_last()), events.last())
    }
}

/// The recorder never converts an empty recording: whatever happened, there is
/// a staged snapshot when it converts.
pub proof fn only_staged_snapshots_are_converted(events: Seq<RecorderEvent>)
    ensures
        action_in(after(events).state) == RecorderAction::Convert ==> after(events).staged > 0,
    decreases events.len(),
{
    if events.len() > 0 {
        only_staged_snapshots_are_converted(events.drop_last());
    }
}

/// Nothing is staged outside of the recorded phases: as long as no tick falls
/// into one and no request to stop comes, the recorder waits and stages nothing.
pub proof fn nothing_is_staged_before_the_recording(events: Seq<RecorderEvent>)
    requires
        forall|i: int|
            0 <= i < events.len() ==> !(#[trigger] events[i] is StopRequested) && events[i] != (
            RecorderEvent::Tick { recording: true }),
    ensures
        after(events) == at_start(),
    decreases events.len(),
{
    if events.len() > 0 {
        let front = events.drop_last();
        assert forall|i: int| 0 <= i < front.len() implies !(#[trigger] front[i] is StopRequested)
            && front[i] != (RecorderEvent::Tick { recording: true }) by {
            assert(front[i] == events[i]);
        }
        nothing_is_staged_before_the_recording(front);
        assert(events[events.len() - 1] == events.last());
    }
}

/// A snapshot is never lost from the count, and each event adds at most the one
/// that it says was stored.
pub proof fn staged_snapshots_are_counted(before: Progress, event: RecorderEvent)
    ensures
        next(before, event).staged == before.staged + (if action_in(before.state)
            == RecorderAction::Stage && event == RecorderEvent::Stored {
            1nat
        } else {
            0nat
        }),
{
}

/// Whether the recorder has been asked to stop.
pub open spec fn stopping(state: RecorderState) -> bool {
    state != RecorderState::Waiting && state != RecorderState::Staging
}

/// A recorder that was asked to stop never waits or ticks again, and a recorder
/// starts to stop only when it is asked to while it waits.
pub proof fn a_request_to_stop_is_final(before: Progress, event: RecorderEvent)
    ensures
        stopping(before.state) ==> stopping(next(before, event).state),
        !stopping(before.state) && stopping(next(before, event).state) ==> before.state
            == RecorderState::Waiting && event == RecorderEvent::StopRequested,
{
}

/// A recorder that is asked to stop stages a final snapshot, whether or not the
/// phase is recorded, and brings to disk what it has staged.
pub proof fn stopping_stages_a_final_snapshot(before: Progress, stored: bool)
    requires
        before.state == RecorderState::Waiting,
    ensures
        ({
            let asked = next(before, RecorderEvent::StopRequested);
            let closed = next(
                asked,
                if stored {
                    RecorderEvent::Stored
                } else {
                    RecorderEvent::NotStored
                },
            );
            &&& action_in(asked.state) == RecorderAction::Stage
            &&& action_in(closed.state) == RecorderAction::Flush
            &&& closed.staged == before.staged + (if stored {
                1nat
            } else {
                0nat
            })
        }),
{
}

/// Once what is staged is on disk, the recorder converts it, unless there is
/// nothing, removes the staging file and stops.
pub proof fn staging_file_is_cleared_away(before: Progress)
    requires
        before.state == RecorderState::Flushing,
    ensures
        ({
            let flushed = next(before, RecorderEvent::Flushed);
            let converted = next(flushed, RecorderEvent::Converted);
            let removed = next(converted, RecorderEvent::Removed);
            &&& before.staged > 0 ==> action_in(flushed.state) == RecorderAction::Convert
            &&& before.staged == 0 ==> action_in(flushed.state) == RecorderAction::Remove
            &&& action_in(converted.state) == RecorderAction::Remove
            &&& action_in(removed.state) == RecorderAction::Stop
        }),
{
}

/// The labels of a Parquet file: the time between its rows, and where it is
/// from.
pub open spec fn parquet_labels(interval_ms: nat, version: Seq<char>) -> Map<Seq<char>, Seq<char>> {
    Map::empty().insert("sampling_interval_ms"@, text::decimal(interval_ms)).insert(
        "source"@,
        "cachecannon"@,
    ).insert("version"@, version)
}

/// The labels of a Parquet file whose rows are so many milliseconds apart.
pub fn parquet_metadata(interval_ms: u128, version: &str) -> (labels: Labels)
    ensures
        labels.wf(),
        labels@ == parquet_labels(interval_ms as nat, version@),
{
    let mut interval = String::new();
    text::push_decimal(&mut interval, interval_ms);
    let mut labels = Labels::new();
    labels.insert("sampling_interval_ms".to_owned(), interval);
    labels.insert("source".to_owned(), "cachecannon".to_owned());
    labels.insert("version".to_owned(), version.to_owned());
    labels
}

/// `std::path::Path`.
#[verifier::external_type_specification]
#[verifier::external_body]
pub struct ExPath(Path);

/// `std::path::PathBuf`.
#[verifier::external_type_specification]
#[verifier::external_body]
pub struct ExPathBuf(PathBuf);

/// The encoded bytes of a path.
pub uninterp spec fn path_bytes(path: &Path) -> Seq<u8>;

/// The encoded bytes of a path that is owned.
pub uninterp spec fn owned_path_bytes(path: PathBuf) -> Seq<u8>;

/// `std::path::Path::to_path_buf`: the same path, owned.
pub assume_specification[ Path::to_path_buf ](path: &Path) -> (owned: PathBuf)
    ensures
        owned_path_bytes(owned) == path_bytes(path),
;

/// `std::ffi::OsString::push`, on the text of a path: what is pushed follows
/// what was there, with no separator in between.
#[verifier::external_body]
fn push_text(path: &mut PathBuf, suffix: &str)
    ensures
        owned_path_bytes(*final(path)) == owned_path_bytes(*old(path)) + encode_utf8(suffix@),
{
    path.as_mut_os_string().push(suffix)
}

/// The staging path of a destination.
pub open spec fn staging_path(destination: Seq<u8>) -> Seq<u8> {
    destination + encode_utf8(".msgpack.tmp"@)
}

/// Path used for the on-disk msgpack staging file alongside the final
/// parquet output. Sits next to the destination so cleanup is obvious and
/// the user's chosen output filesystem is reused (no /tmp surprises).
pub fn msgpack_temp_path(parquet_path: &Path) -> (path: PathBuf)
    ensures
        owned_path_bytes(path) == staging_path(path_bytes(parquet_path)),
{
    let mut path = parquet_path.to_path_buf();
    push_text(&mut path, ".msgpack.tmp");
    path
}

/// The bytes of the suffix of a staging path.
proof fn lemma_suffix()
    ensures
        encode_utf8(".msgpack.tmp"@).len() == 12,
        forall|i: int|
            0 <= i < 12 ==> (#[trigger] encode_utf8(".msgpack.tmp"@)[i]) != 0x2f && encode_utf8(
                ".msgpack.tmp"@,
            )[i] != 0x5c,
{
    reveal_strlit(".msgpack.tmp");
    let suffix = ".msgpack.tmp"@;
    is_ascii_chars_encode_utf8(suffix);
    assert forall|i: int| 0 <= i < 12 implies (#[trigger] encode_utf8(suffix)[i]) != 0x2f
        && encode_utf8(suffix)[i] != 0x5c by {
        assert(encode_utf8(suffix)[i] == suffix[i] as u8);
    }
}

/// What stands in a path up to its last separator.
pub open spec fn directory(path: Seq<u8>, separator: u8) -> Seq<u8>
    decreases path.len(),
{
    if path.len() == 0 || path.last() == separator {
        path
    } else {
        directory(path.drop_last(), separator)
    }
}

/// Bytes without a separator do not change the directory of a path.
proof fn lemma_directory(path: Seq<u8>, name: Seq<u8>, separator: u8)
    requires
        !name.contains(separator),
    ensures
        directory(path + name, separator) == directory(path, separator),
    decreases name.len(),
{
    if name.len() == 0 {
        assert(path + name =~= path);
    } else {
        assert((path + name).drop_last() =~= path + name.drop_last());
        assert((path + name).last() == name[name.len() - 1]);
        assert(name.contains(name[name.len() - 1]));
        assert forall|i: int| 0 <= i < name.drop_last().len() implies name.drop_last()[i]
            != separator by {
            assert(name.contains(name[i]));
        }
        lemma_directory(path, name.drop_last(), separator);
    }
}

/// The staging file is next to the destination, in the same directory, whether
/// a slash or a backslash separates the parts of a path.
pub proof fn staging_file_is_next_to_its_destination(destination: Seq<u8>, separator: u8)
    requires
        separator == 0x2f || separator == 0x5c,
    ensures
        directory(staging_path(destination), separator) == directory(destination, separator),
{
    lemma_suffix();
    lemma_directory(destination, encode_utf8(".msgpack.tmp"@), separator);
}

/// The staging file is another than its destination, and recordings with
/// different destinations have different staging files.
pub proof fn staging_files_differ(destination: Seq<u8>, other: Seq<u8>)
    ensures
        staging_path(destination) != destination,
        staging_path(destination) == staging_path(other) <==> destination == other,
{
    lemma_suffix();
    assert(staging_path(destination).len() == destination.len() + 12);
    assert(staging_path(other).len() == other.len() + 12);
    if staging_path(destination) == staging_path(other) {
        assert(destination =~= staging_path(destination).take(destination.len() as int));
        assert(other =~= staging_path(other).take(other.len() as int));
    }
}

/// A recorder that waits stages a snapshot at every tick in a recorded phase,
/// however many it has staged, and at no other tick.
pub proof fn every_recorded_tick_is_staged(before: Progress, recording: bool)
    requires
        action_in(before.state) == RecorderAction::Wait,
    ensures
        ({
            let ticked = next(before, RecorderEvent::Tick { recording });
            &&& recording <==> action_in(ticked.state) == RecorderAction::Stage
            &&& !recording ==> ticked == before
            &&& ticked.staged == before.staged
        }),
{
}

/// Once a snapshot is staged, or could not be, a recorder that was not asked to
/// stop waits for the next tick, and one that was asked to brings its snapshots to
/// disk.
pub proof fn recording_goes_on_after_a_snapshot(before: Progress, stored: bool)
    requires
        action_in(before.state) == RecorderAction::Stage,
    ensures
        ({
            let after = next(
                before,
                if stored {
                    RecorderEvent::Stored
                } else {
                    RecorderEvent::NotStored
                },
            );
            &&& action_in(after.state) == (if stopping(before.state) {
                RecorderAction::Flush
            } else {
                RecorderAction::Wait
            })
            &&& after.staged == before.staged + (if stored {
                1nat
            } else {
                0nat
            })
        }),
{
}

/// The events of a run whose snapshots were stored or not, one after the other, at
/// ticks of a recorded phase.
pub open spec fn recorded_ticks(stored: Seq<bool>) -> Seq<RecorderEvent>
    decreases stored.len(),
{
    if stored.len() == 0 {
        Seq::empty()
    } else {
        recorded_ticks(stored.drop_last()) + seq![
            RecorderEvent::Tick { recording: true },
            if stored.last() {
                RecorderEvent::Stored
            } else {
                RecorderEvent::NotStored
            },
        ]
    }
}

/// How many of some snapshots were stored.
pub open spec fn stored_among(stored: Seq<bool>) -> nat
    decreases stored.len(),
{
    if stored.len() == 0 {
        0
    } else {
        stored_among(stored.drop_last()) + (if stored.last() {
            1nat
        } else {
            0nat
        })
    }
}

/// A recording never goes quiet: after any number of ticks in a recorded phase the
/// recorder waits for the next, and has staged every snapshot that was stored.
pub proof fn recording_never_goes_quiet(stored: Seq<bool>)
    ensures
        action_in(after(recorded_ticks(stored)).state) == RecorderAction::Wait,
        !stopping(after(recorded_ticks(stored)).state),
        after(recorded_ticks(stored)).staged == stored_among(stored),
    decreases stored.len(),
{
    if stored.len() > 0 {
        recording_never_goes_quiet(stored.drop_last());
        let earlier = recorded_ticks(stored.drop_last());
        let tick = RecorderEvent::Tick { recording: true };
        let result = if stored.last() {
            RecorderEvent::Stored
        } else {
            RecorderEvent::NotStored
        };
        let events = recorded_ticks(stored);
        assert(events.drop_last() =~= earlier.push(tick));
        assert(events.last() == result);
        assert(earlier.push(tick).drop_last() =~= earlier);
        every_recorded_tick_is_staged(after(earlier), true);
        assert(after(earlier.push(tick)) == next(after(earlier), tick));
        recording_goes_on_after_a_snapshot(after(earlier.push(tick)), stored.last());
    }
}

/// Where the staged snapshots cannot be brought to disk, the recorder stops at
/// once: nothing is converted, and the staging file stays.
pub proof fn failed_flush_stops_the_recorder(before: Progress)
    requires
        action_in(before.state) == RecorderAction::Flush,
    ensures
        action_in(next(before, RecorderEvent::FlushFailed).state) == RecorderAction::Stop,
        next(before, RecorderEvent::FlushFailed).staged == before.staged,
{
}

/// Whether an event answers what is to be done.
pub open spec fn answers(event: RecorderEvent, action: RecorderAction) -> bool {
    match action {
        RecorderAction::Wait => event is Tick || event is StopRequested,
        RecorderAction::Stage => event is Stored || event is NotStored,
        RecorderAction::Flush => event is Flushed || event is FlushFailed,
        RecorderAction::Convert => event is Converted,
        RecorderAction::Remove => event is Removed,
        RecorderAction::Stop => false,
    }
}

/// An event that does not answer what is to be done changes nothing, and one that
/// does leads on, but for a tick outside of a recorded phase.
pub proof fn only_answers_lead_on(before: Progress, event: RecorderEvent)
    ensures
        !answers(event, action_in(before.state)) ==> next(before, event) == before,
        answers(event, action_in(before.state)) && next(before, event).state == before.state
            ==> event == (RecorderEvent::Tick { recording: false }),
        event == (RecorderEvent::Tick { recording: false }) ==> next(before, event) == before,
{
}

/// A conversion is followed by the removal of the staging file, and that by the
/// end, however many snapshots are staged.
pub proof fn conversion_is_followed_by_removal(before: Progress)
    ensures
        action_in(before.state) == RecorderAction::Convert ==> action_in(
            next(before, RecorderEvent::Converted).state,
        ) == RecorderAction::Remove,
        action_in(before.state) == RecorderAction::Remove ==> action_in(
            next(before, RecorderEvent::Removed).state,
        ) == RecorderAction::Stop,
        action_in(before.state) == RecorderAction::Flush ==> (action_in(
            next(before, RecorderEvent::Flushed).state,
        ) == if before.staged > 0 {
            RecorderAction::Convert
        } else {
            RecorderAction::Remove
        }),
{
}

/// A recorder starts out waiting, with nothing staged, and what is said of it is
/// what its fields hold.
pub proof fn recorder_is_what_its_fields_hold(recorder: Recorder)
    ensures
        recorder@.state == recorder.state,
        recorder@.staged == recorder.staged,
        action_in(at_start().state) == RecorderAction::Wait,
        at_start().staged == 0,
{
}

/// A Parquet file is labelled with the numeral of its interval, with this program
/// and with its version, and with nothing else.
pub proof fn parquet_file_names_its_interval_and_source(
    interval_ms: nat,
    version: Seq<char>,
    key: Seq<char>,
)
    ensures
        parquet_labels(interval_ms, version).contains_key(key) <==> key == "sampling_interval_ms"@
            || key == "source"@ || key == "version"@,
        text::is_numeral_of(
            parquet_labels(interval_ms, version)["sampling_interval_ms"@],
            interval_ms as int,
        ),
        parquet_labels(interval_ms, version)["source"@] == "cachecannon"@,
        parquet_labels(interval_ms, version)["version"@] == version,
{
    reveal_strlit("sampling_interval_ms");
    reveal_strlit("source");
    reveal_strlit("version");
    assert("source"@.len() != "version"@.len());
    assert("source"@.len() != "sampling_interval_ms"@.len());
    assert("version"@.len() != "sampling_interval_ms"@.len());
    text::decimal_is_a_numeral(interval_ms);
}

/// A staging path is its destination with a suffix that says what it is.
pub proof fn staging_path_extends_its_destination(destination: Seq<u8>)
    ensures
        destination.is_prefix_of(staging_path(destination)),
        valid_utf8(staging_path(destination).skip(destination.len() as int)),
        decode_utf8(staging_path(destination).skip(destination.len() as int)) == ".msgpack.tmp"@,
{
    let suffix = encode_utf8(".msgpack.tmp"@);
    assert(staging_path(destination).skip(destination.len() as int) =~= suffix);
    assert(staging_path(destination).take(destination.len() as int) =~= destination);
    encode_utf8_valid_utf8(".msgpack.tmp"@);
    encode_utf8_decode_utf8(".msgpack.tmp"@);
}

} // verus!
