use filesplitter::engine::{join_content, split_content};
use filesplitter::errors::EngineError;
use filesplitter::joiner::FileJoiner;
use filesplitter::progress::ProgressInfo;
use filesplitter::splitter::{split_progress_events, FileSplitter};

fn sample_data(len: usize) -> Vec<u8> {
    (0..len).map(|i| (i % 251) as u8).collect()
}

fn assert_monotone_and_terminal(events: &[ProgressInfo], total: u64, total_parts: usize) {
    assert!(!events.is_empty());
    let mut previous = 0u64;
    for e in events {
        assert!(e.current_bytes >= previous);
        assert!(e.current_bytes <= e.total_bytes);
        assert_eq!(e.total_bytes, total);
        assert_eq!(e.total_parts, total_parts);
        previous = e.current_bytes;
    }
    let last = events.last().unwrap();
    assert_eq!(last.current_bytes, total);
    assert_eq!(last.current_part, total_parts);
}

#[test]
fn round_trip_uneven_parts() {
    let data = sample_data(25);
    let parts = split_content(&data, 10).unwrap();
    assert_eq!(parts.len(), 3);
    assert_eq!(parts[0].len(), 10);
    assert_eq!(parts[1].len(), 10);
    assert_eq!(parts[2].len(), 5);
    assert_eq!(join_content(&parts), data);
}

#[test]
fn round_trip_exact_multiple() {
    let data = sample_data(30);
    let parts = split_content(&data, 10).unwrap();
    assert_eq!(parts.len(), 3);
    for part in &parts {
        assert_eq!(part.len(), 10);
    }
    assert_eq!(join_content(&parts), data);
}

#[test]
fn round_trip_single_byte_parts() {
    let data = sample_data(7);
    let parts = split_content(&data, 1).unwrap();
    assert_eq!(parts.len(), 7);
    assert_eq!(join_content(&parts), data);
}

#[test]
fn round_trip_part_larger_than_input() {
    let data = sample_data(9);
    let parts = split_content(&data, 1000).unwrap();
    assert_eq!(parts.len(), 1);
    assert_eq!(parts[0], data);
    assert_eq!(join_content(&parts), data);
}

#[test]
fn split_zero_part_size_is_invalid_argument() {
    let data = sample_data(9);
    assert!(matches!(
        split_content(&data, 0),
        Err(EngineError::InvalidArgument)
    ));
    assert!(matches!(
        FileSplitter::new(String::from("a.bin"), true, 0),
        Err(EngineError::InvalidArgument)
    ));
}

#[test]
fn split_missing_input_is_not_found() {
    assert!(matches!(
        FileSplitter::new(String::from("a.bin"), false, 4),
        Err(EngineError::NotFound)
    ));
}

#[test]
fn empty_input_yields_no_parts_and_still_completes() {
    let splitter = FileSplitter::new(String::from("empty.bin"), true, 10).unwrap();
    let data: Vec<u8> = Vec::new();
    let outcome = splitter.split(&data);
    assert!(outcome.parts.is_empty());
    assert!(outcome.part_names.is_empty());
    assert_monotone_and_terminal(&outcome.events, 0, 0);
}

#[test]
fn split_progress_is_monotone_and_terminal() {
    let splitter = FileSplitter::new(String::from("video.mkv"), true, 10).unwrap();
    let data = sample_data(25);
    let outcome = splitter.split(&data);
    assert_monotone_and_terminal(&outcome.events, 25, 3);
}

#[test]
fn split_progress_with_many_chunks() {
    // Parts larger than the transfer buffer: several chunk events per part.
    let events = split_progress_events(20_000_000, 9_000_000);
    assert_monotone_and_terminal(&events, 20_000_000, 3);
    assert!(events.len() > 4);
}

#[test]
fn join_progress_is_monotone_and_terminal() {
    let entries = vec![
        String::from("clip.avi.part001"),
        String::from("clip.avi.part002"),
    ];
    let joiner = FileJoiner::new(
        "clip.avi.part001",
        true,
        String::from("clip.avi"),
        &entries,
    )
    .unwrap();
    let contents = vec![sample_data(8), sample_data(3)];
    let outcome = joiner.join(&contents);
    let mut expected = sample_data(8);
    expected.extend_from_slice(&sample_data(3));
    assert_eq!(outcome.output, expected);
    assert_monotone_and_terminal(&outcome.events, 11, 2);
}

#[test]
fn percentage_is_zero_for_empty_total() {
    let info = ProgressInfo {
        current_bytes: 0,
        total_bytes: 0,
        current_part: 0,
        total_parts: 0,
        message: String::from("done"),
    };
    assert_eq!(info.percentage(), 0);
}

#[test]
fn percentage_reports_whole_percent() {
    let info = ProgressInfo {
        current_bytes: 50,
        total_bytes: 200,
        current_part: 1,
        total_parts: 2,
        message: String::from("working"),
    };
    assert_eq!(info.percentage(), 25);
    let info2 = ProgressInfo {
        current_bytes: 200,
        total_bytes: 200,
        current_part: 2,
        total_parts: 2,
        message: String::from("done"),
    };
    assert_eq!(info2.percentage(), 100);
}

#[test]
fn error_messages_describe_each_failure() {
    assert_eq!(EngineError::NotFound.message(), "file does not exist");
    assert_eq!(
        EngineError::InvalidArgument.message(),
        "part size must be greater than 0"
    );
    assert_eq!(
        EngineError::IOFailure(String::from("disk full")).message(),
        "disk full"
    );
}
