use filesplitter::discovery::find_all_parts;
use filesplitter::errors::EngineError;
use filesplitter::format::{format_bytes, format_duration};
use filesplitter::joiner::FileJoiner;
use filesplitter::naming::part_file_name;
use filesplitter::splitter::FileSplitter;

#[test]
fn part_names_are_zero_padded_and_sequential() {
    let splitter = FileSplitter::new(String::from("video.mkv"), true, 10).unwrap();
    let data: Vec<u8> = (0..25).collect();
    let outcome = splitter.split(&data);
    assert_eq!(
        outcome.part_names,
        vec![
            String::from("video.mkv.part001"),
            String::from("video.mkv.part002"),
            String::from("video.mkv.part003"),
        ]
    );
}

#[test]
fn part_name_widens_past_three_digits() {
    assert_eq!(part_file_name("video.mkv", 1), "video.mkv.part001");
    assert_eq!(part_file_name("video.mkv", 42), "video.mkv.part042");
    assert_eq!(part_file_name("video.mkv", 123), "video.mkv.part123");
    assert_eq!(part_file_name("video.mkv", 1000), "video.mkv.part1000");
}

#[test]
fn discovery_stops_at_first_gap() {
    let entries = vec![
        String::from("video.mkv.part001"),
        String::from("video.mkv.part002"),
        String::from("video.mkv.part004"),
        String::from("other.txt"),
    ];
    let parts = find_all_parts("video.mkv.part001", &entries).unwrap();
    assert_eq!(
        parts,
        vec![
            String::from("video.mkv.part001"),
            String::from("video.mkv.part002"),
        ]
    );
}

#[test]
fn discovery_is_driven_by_the_base_name_alone() {
    let entries = vec![
        String::from("video.mkv.part001"),
        String::from("video.mkv.part002"),
        String::from("video.mkv.part003"),
    ];
    let parts = find_all_parts("video.mkv.part002", &entries).unwrap();
    assert_eq!(parts.len(), 3);
    assert_eq!(parts[0], "video.mkv.part001");
}

#[test]
fn discovery_uses_the_last_marker_occurrence() {
    let entries = vec![String::from("a.partial.part001")];
    let parts = find_all_parts("a.partial.part001", &entries).unwrap();
    assert_eq!(parts, vec![String::from("a.partial.part001")]);
}

#[test]
fn join_without_marker_is_invalid_format() {
    let entries = vec![String::from("archive.dat")];
    assert!(matches!(
        find_all_parts("archive.dat", &entries),
        Err(EngineError::InvalidFormat)
    ));
    assert!(matches!(
        FileJoiner::new("archive.dat", true, String::from("out.bin"), &entries),
        Err(EngineError::InvalidFormat)
    ));
}

#[test]
fn join_from_missing_first_part_is_not_found() {
    let entries: Vec<String> = Vec::new();
    assert!(matches!(
        FileJoiner::new(
            "archive.part001",
            false,
            String::from("out.bin"),
            &entries
        ),
        Err(EngineError::NotFound)
    ));
}

#[test]
fn join_without_first_part_on_disk_is_no_parts_found() {
    let entries = vec![String::from("archive.part002")];
    assert!(matches!(
        FileJoiner::new(
            "archive.part002",
            true,
            String::from("out.bin"),
            &entries
        ),
        Err(EngineError::NoPartsFound)
    ));
}

#[test]
fn format_bytes_picks_the_largest_unit() {
    assert_eq!(format_bytes(0), "0.00 B");
    assert_eq!(format_bytes(1536), "1.50 KB");
    assert_eq!(format_bytes(1024 * 1024 * 1024), "1.00 GB");
    assert_eq!(format_bytes(1023), "1023.00 B");
    assert_eq!(format_bytes(1024), "1.00 KB");
    assert_eq!(format_bytes(1536 * 1024), "1.50 MB");
    assert_eq!(format_bytes(1024u64 * 1024 * 1024 * 1024), "1.00 TB");
    assert_eq!(format_bytes(1024u64 * 1024 * 1024 * 1024 * 1024), "1024.00 TB");
}

#[test]
fn format_bytes_rounds_to_two_decimals() {
    assert_eq!(format_bytes(1025), "1.00 KB");
    assert_eq!(format_bytes(1075), "1.05 KB");
    // 1152 / 1024 is exactly 1.125: the tie goes to the even neighbour.
    assert_eq!(format_bytes(1152), "1.12 KB");
}

#[test]
fn format_duration_pads_and_adds_hours() {
    assert_eq!(format_duration(0), "00:00");
    assert_eq!(format_duration(59), "00:59");
    assert_eq!(format_duration(61), "01:01");
    assert_eq!(format_duration(3661), "01:01:01");
    assert_eq!(format_duration(360000), "100:00:00");
}
