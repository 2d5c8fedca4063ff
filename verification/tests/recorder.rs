use cachecannon::recorder::{
    msgpack_temp_path, parquet_metadata, Recorder, RecorderAction, RecorderEvent, RecorderState,
};
use std::path::{Path, PathBuf};

#[test]
fn staging_path_extends_the_destination() {
    assert_eq!(
        msgpack_temp_path(Path::new("/data/run.parquet")),
        PathBuf::from("/data/run.parquet.msgpack.tmp")
    );
    assert_eq!(msgpack_temp_path(Path::new("run")), PathBuf::from("run.msgpack.tmp"));
    assert_eq!(msgpack_temp_path(Path::new("")), PathBuf::from(".msgpack.tmp"));
    assert_eq!(
        msgpack_temp_path(Path::new("out/")).to_str(),
        Some("out/.msgpack.tmp")
    );
}

#[test]
fn staging_file_sits_next_to_its_destination() {
    let destination = Path::new("/data/\u{e9}/run.parquet");
    let staging = msgpack_temp_path(destination);
    assert_eq!(staging.parent(), destination.parent());
    assert_ne!(staging, destination);
    assert_ne!(staging, msgpack_temp_path(Path::new("/data/\u{e9}/other.parquet")));
}

#[test]
fn recording_is_staged_and_converted() {
    let mut recorder = Recorder::new();
    assert_eq!(recorder.action(), RecorderAction::Wait);
    let tick = RecorderEvent::Tick { recording: true };
    assert_eq!(recorder.step(tick), RecorderAction::Stage);
    assert_eq!(recorder.step(RecorderEvent::Stored), RecorderAction::Wait);
    assert_eq!(recorder.step(tick), RecorderAction::Stage);
    assert_eq!(recorder.step(RecorderEvent::NotStored), RecorderAction::Wait);
    assert_eq!(recorder.step(tick), RecorderAction::Stage);
    assert_eq!(recorder.step(RecorderEvent::Stored), RecorderAction::Wait);
    assert_eq!(recorder.staged, 2);
    assert_eq!(recorder.step(RecorderEvent::StopRequested), RecorderAction::Stage);
    assert_eq!(recorder.step(RecorderEvent::Stored), RecorderAction::Flush);
    assert_eq!(recorder.staged, 3);
    assert_eq!(recorder.step(RecorderEvent::Flushed), RecorderAction::Convert);
    assert_eq!(recorder.step(RecorderEvent::Converted), RecorderAction::Remove);
    assert_eq!(recorder.step(RecorderEvent::Removed), RecorderAction::Stop);
    assert_eq!(recorder.step(RecorderEvent::StopRequested), RecorderAction::Stop);
    assert_eq!(recorder.staged, 3);
}

#[test]
fn warmup_is_not_staged() {
    let mut recorder = Recorder::new();
    for _ in 0..3 {
        let tick = RecorderEvent::Tick { recording: false };
        assert_eq!(recorder.step(tick), RecorderAction::Wait);
    }
    assert_eq!(recorder.staged, 0);
    assert_eq!(recorder.state, RecorderState::Waiting);
}

#[test]
fn final_snapshot_is_staged_outside_of_the_recording() {
    let mut recorder = Recorder::new();
    recorder.step(RecorderEvent::Tick { recording: false });
    assert_eq!(recorder.step(RecorderEvent::StopRequested), RecorderAction::Stage);
    assert_eq!(recorder.step(RecorderEvent::Stored), RecorderAction::Flush);
    assert_eq!(recorder.step(RecorderEvent::Flushed), RecorderAction::Convert);
}

#[test]
fn empty_recording_is_not_converted() {
    let mut recorder = Recorder::new();
    recorder.step(RecorderEvent::StopRequested);
    assert_eq!(recorder.step(RecorderEvent::NotStored), RecorderAction::Flush);
    assert_eq!(recorder.step(RecorderEvent::Flushed), RecorderAction::Remove);
    assert_eq!(recorder.step(RecorderEvent::Removed), RecorderAction::Stop);
}

#[test]
fn failed_flush_leaves_the_staging_file() {
    let mut recorder = Recorder::new();
    recorder.step(RecorderEvent::StopRequested);
    recorder.step(RecorderEvent::Stored);
    assert_eq!(recorder.step(RecorderEvent::FlushFailed), RecorderAction::Stop);
    assert_eq!(recorder.state, RecorderState::Stopped);
}

#[test]
fn parquet_file_is_labelled_with_its_interval() {
    let labels = parquet_metadata(1_500, "1.2.3");
    let pair = |key: &str, value: &str| (key.to_string(), value.to_string());
    assert_eq!(
        labels.pairs,
        vec![
            pair("sampling_interval_ms", "1500"),
            pair("source", "cachecannon"),
            pair("version", "1.2.3"),
        ]
    );
}
