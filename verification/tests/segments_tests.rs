use recorder_core::error::AppError;
use recorder_core::segments::{
    init_url_path, is_complete_segment, m3u8_entry, needs_init_download, segment_file_name,
    with_init_header, RoundTally, SegmentOutcome, SegmentTracker, M3U8_ENDLIST, M3U8_HEADER,
};

#[test]
fn init_path_drops_query() {
    assert_eq!(init_url_path("https://cdn/x/init.mp4?token=1&b=2"), "https://cdn/x/init.mp4");
    assert_eq!(init_url_path("https://cdn/x/init.mp4"), "https://cdn/x/init.mp4");
    assert_eq!(init_url_path("?q"), "");
}

#[test]
fn init_download_when_path_changes() {
    let a = Some("https://cdn/init.mp4?t=1".to_string());
    let b = Some("https://cdn/init.mp4?t=2".to_string());
    let c = Some("https://cdn/init2.mp4?t=2".to_string());
    assert!(!needs_init_download(&a, &b));
    assert!(needs_init_download(&c, &b));
    assert!(needs_init_download(&a, &None));
    assert!(!needs_init_download(&None, &b));
}

#[test]
fn segment_names_are_zero_padded() {
    assert_eq!(segment_file_name("bob", 7), "bob_segment000007.ts");
    assert_eq!(segment_file_name("bob", 0), "bob_segment000000.ts");
    assert_eq!(segment_file_name("bob", 1234567), "bob_segment1234567.ts");
    assert_eq!(segment_file_name("bob", u32::MAX), "bob_segment4294967295.ts");
}

#[test]
fn playlist_texts() {
    assert_eq!(m3u8_entry("bob_segment000001.ts"), "#EXTINF:0,\nbob_segment000001.ts\n");
    assert_eq!(M3U8_HEADER, "#EXTM3U\n#EXT-X-VERSION:3\n#EXT-X-MEDIA-SEQUENCE:0\n");
    assert_eq!(M3U8_ENDLIST, "#EXT-X-ENDLIST\n");
}

#[test]
fn segment_size_threshold() {
    assert!(!is_complete_segment(1000));
    assert!(is_complete_segment(1001));
    assert!(!is_complete_segment(0));
}

#[test]
fn init_header_is_prepended() {
    assert_eq!(with_init_header(&Some(vec![1, 2]), vec![3, 4]), vec![1, 2, 3, 4]);
    assert_eq!(with_init_header(&None, vec![3, 4]), vec![3, 4]);
    assert_eq!(with_init_header(&Some(vec![]), vec![]), Vec::<u8>::new());
}

#[test]
fn tracker_remembers_sequences() {
    let mut t = SegmentTracker::new();
    assert!(!t.contains(5));
    t.insert(5);
    t.insert(5);
    t.insert(6);
    assert!(t.contains(5));
    assert_eq!(t.len(), 2);
}

#[test]
fn round_all_failed_is_error() {
    let mut r = RoundTally::new();
    r.note_new();
    r.note_cdn_failure();
    r.note_new();
    r.note_cdn_failure();
    assert_eq!(
        r.outcome(),
        Err(AppError::Other(
            "All 2 new segments failed (CDN 404 / token expired), refreshing playlist".to_string()
        ))
    );
}

#[test]
fn round_partial_success() {
    let mut r = RoundTally::new();
    r.note_new();
    r.note_cdn_failure();
    r.note_new();
    r.note_written();
    r.note_new();
    assert_eq!(r.outcome(), Ok((1, 1)));
}

#[test]
fn round_without_new_segments() {
    assert_eq!(RoundTally::new().outcome(), Ok((0, 0)));
}

#[test]
fn round_stores_only_stored_segments() {
    let mut tracker = SegmentTracker::new();
    tracker.insert(1);
    let mut tally = RoundTally::new();
    tally.note_segment(&mut tracker, 2, SegmentOutcome::Stored);
    tally.note_segment(&mut tracker, 3, SegmentOutcome::DownloadFailed);
    tally.note_segment(&mut tracker, 4, SegmentOutcome::NotStored);
    assert!(tracker.contains(1) && tracker.contains(2));
    assert!(!tracker.contains(3) && !tracker.contains(4));
    assert_eq!(tracker.len(), 2);
    assert_eq!((tally.new_segments, tally.cdn_failures, tally.written), (3, 1, 1));
    assert_eq!(tally.outcome(), Ok((1, 1)));
}

#[test]
fn round_with_only_failed_downloads_is_error() {
    let mut tracker = SegmentTracker::new();
    let mut tally = RoundTally::new();
    tally.note_segment(&mut tracker, 7, SegmentOutcome::DownloadFailed);
    tally.note_segment(&mut tracker, 8, SegmentOutcome::DownloadFailed);
    assert_eq!(tracker.len(), 0);
    assert_eq!(
        tally.outcome(),
        Err(AppError::Other(
            "All 2 new segments failed (CDN 404 / token expired), refreshing playlist".to_string()
        ))
    );
}
