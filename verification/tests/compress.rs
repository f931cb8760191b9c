use del::compress::{
    archive_name, entry_action, name_for_digest, is_yes, pack_result, timestamp_ms, timestamp_of_millis, tmp_name, millis_of,
    EntryAction, UnpackStats,
};
use del::config::CoverMode;

#[test]
fn archive_is_named_by_its_hash() {
    for data in [&b""[..], b"hello", b"hello world, this is an archive"] {
        let expected = format!("{}.bak", blake3::hash(data).to_hex());
        assert_eq!(archive_name(data), expected);
    }
    assert_eq!(
        archive_name(b""),
        "af1349b9f5f9a1a6a0404dea36dcc9499bcb25c9adc112b7cc9a93cae41f3262.bak"
    );
    assert_eq!(archive_name(b"abc"), archive_name(b"abc"));
    assert_ne!(archive_name(b"abc"), archive_name(b"abd"));
}

#[test]
fn pack_result_describes_the_archive() {
    let bytes = vec![7u8; 1536];
    let r = pack_result("/home/alice/report.txt", "/home/alice/.trash", &bytes, 42);
    assert_eq!(r.original_path, "/home/alice/report.txt");
    assert_eq!(r.present_path, format!("/home/alice/.trash/{}.bak", blake3::hash(&bytes).to_hex()));
    assert_eq!(r.size, "1.50KiB");
    assert_eq!(r.time, 42);
    let small = pack_result("a", "/t/", b"xyz", 1);
    assert_eq!(small.size, "3B");
    assert!(small.present_path.starts_with("/t/"));
}

#[test]
fn temporary_names() {
    assert_eq!(tmp_name(1700000000000, 0, 0), ".tmp-1700000000000-0");
    assert_eq!(tmp_name(5, 3, 2), ".tmp-5-3-2");
    assert_eq!(tmp_name(u64::MAX, 10, 0), ".tmp-18446744073709551615-10");
}

#[test]
fn clock_is_after_2020() {
    assert!(timestamp_ms().unwrap() > 1_577_836_800_000);
}

#[test]
fn millis_as_timestamps() {
    assert_eq!(timestamp_of_millis(1_700_000_000_123), 1_700_000_000_123);
    assert_eq!(timestamp_of_millis(u64::MAX as u128), u64::MAX);
    assert_eq!(timestamp_of_millis((1u128 << 64) + 5), 5);
}

#[test]
fn cover_modes() {
    assert_eq!(entry_action(CoverMode::Always, false), EntryAction::Restore);
    assert_eq!(entry_action(CoverMode::Always, true), EntryAction::Restore);
    assert_eq!(entry_action(CoverMode::Never, false), EntryAction::Restore);
    assert_eq!(entry_action(CoverMode::Ask, false), EntryAction::Restore);
    assert_eq!(entry_action(CoverMode::Never, true), EntryAction::Skip);
    assert_eq!(entry_action(CoverMode::Ask, true), EntryAction::Ask);
}

#[test]
fn only_y_means_yes() {
    assert!(is_yes("y"));
    assert!(is_yes("Y"));
    assert!(!is_yes(""));
    assert!(!is_yes("yes"));
    assert!(!is_yes("n"));
    assert!(!is_yes(" y"));
}

#[test]
fn skipped_entries_keep_the_record() {
    let mut s = UnpackStats::new();
    assert!(s.fully_restored());
    s.record(true);
    s.record(true);
    assert!(s.fully_restored());
    assert_eq!(s.restored, 2);
    s.record(false);
    assert_eq!(s.skipped, 1);
    assert!(!s.fully_restored());
}

#[test]
fn names_for_given_hashes() {
    assert_eq!(name_for_digest(&[0x00, 0xff, 0x1a, 0x90]), "00ff1a90.bak");
    assert_eq!(name_for_digest(&[]), ".bak");
    let digest = blake3::hash(b"archive");
    assert_eq!(name_for_digest(digest.as_bytes()), format!("{}.bak", digest.to_hex()));
}

#[test]
fn names_differ_with_bytes() {
    let a = archive_name(b"one archive");
    let b = archive_name(b"another archive");
    assert_ne!(a, b);
    assert_eq!(a, archive_name(b"one archive"));
}

#[test]
fn millis_of_durations() {
    let d = std::time::Duration::new(1_700_000_000, 987_654_321);
    assert_eq!(millis_of(d.as_secs(), d.subsec_nanos()), d.as_millis());
    assert_eq!(millis_of(u64::MAX, 999_999_999), std::time::Duration::new(u64::MAX, 999_999_999).as_millis());
    assert_eq!(millis_of(0, 999_999), 0);
}
