use recorder_core::startup::{
    after_leftover_merge, after_recording_merge, collect_segment_dirs, collect_unprocessed_videos,
    session_dir_name, session_names, sort_segment_dirs, sort_videos, startup_remove_empty_dirs,
    total_file_bytes, total_segment_bytes, AfterMerge, DirInfo,
};

fn dir(path: &str, parent: Option<usize>, other: bool, segs: bool) -> DirInfo {
    DirInfo {
        path: path.to_string(),
        parent,
        readable: true,
        has_other_entries: other,
        has_segments: segs,
    }
}

#[test]
fn empty_tree_is_removed_deepest_first() {
    // /out
    //   a (empty)
    //     b (empty)
    //   c (holds a file)
    //     d (empty)
    let dirs = vec![
        dir("/out", None, false, false),
        dir("/out/a", Some(0), false, false),
        dir("/out/a/b", Some(1), false, false),
        dir("/out/c", Some(0), true, false),
        dir("/out/c/d", Some(3), false, false),
    ];
    assert_eq!(startup_remove_empty_dirs(&dirs), vec!["/out/c/d", "/out/a/b", "/out/a"]);
}

#[test]
fn output_directory_itself_is_kept() {
    let dirs = vec![dir("/out", None, false, false)];
    assert!(startup_remove_empty_dirs(&dirs).is_empty());
    assert!(startup_remove_empty_dirs(&Vec::new()).is_empty());
}

#[test]
fn unreadable_directory_is_kept_with_its_parents() {
    let mut b = dir("/out/a/b", Some(1), false, false);
    b.readable = false;
    let dirs = vec![dir("/out", None, false, false), dir("/out/a", Some(0), false, false), b];
    assert!(startup_remove_empty_dirs(&dirs).is_empty());
}

#[test]
fn segment_directories_in_listing_order() {
    let dirs = vec![
        dir("/out", None, false, true),
        dir("/out/alice", Some(0), false, false),
        dir("/out/alice/alice_20240102_000000", Some(1), true, true),
        dir("/out/alice/alice_20240102_000000/inner", Some(2), false, true),
        dir("/out/bob", Some(0), false, false),
        dir("/out/bob/bob_20240101_000000", Some(4), true, true),
    ];
    assert_eq!(
        collect_segment_dirs(&dirs),
        vec!["/out/alice/alice_20240102_000000", "/out/bob/bob_20240101_000000"]
    );
}

#[test]
fn segment_directories_merge_by_timestamp() {
    let paths = vec![
        "/out/alice/alice_20240102_000000".to_string(),
        "/out/bob/bob_20240101_000000".to_string(),
        "/out/carol/carol_20240101_000000".to_string(),
    ];
    assert_eq!(
        sort_segment_dirs(paths),
        vec![
            "/out/bob/bob_20240101_000000",
            "/out/carol/carol_20240101_000000",
            "/out/alice/alice_20240102_000000"
        ]
    );
}

#[test]
fn videos_processed_by_timestamp() {
    let paths = vec![
        "/out/x/x_20240301_120000.mp4".to_string(),
        "/out/y/y_20240301_110000.mp4".to_string(),
    ];
    assert_eq!(
        sort_videos(paths),
        vec!["/out/y/y_20240301_110000.mp4", "/out/x/x_20240301_120000.mp4"]
    );
}

#[test]
fn unprocessed_videos() {
    let files = vec![
        "/out/a/a_1.mp4".to_string(),
        "/out/a/a_1.webp".to_string(),
        "/out/a/a_2.mp4".to_string(),
        "/out/a/noext".to_string(),
    ];
    let processed = vec!["/out/a/a_2.mp4".to_string()];
    assert_eq!(collect_unprocessed_videos(&files, "mp4", &processed), vec!["/out/a/a_1.mp4"]);
    assert_eq!(collect_unprocessed_videos(&files, "", &processed), vec!["/out/a/noext"]);
}

#[test]
fn names_of_a_session_directory() {
    assert_eq!(
        session_names("/out/alice/alice_20240102_000000"),
        ("alice".to_string(), "alice_20240102_000000".to_string())
    );
    assert_eq!(session_names("/"), ("unknown".to_string(), "unknown".to_string()));
    assert_eq!(session_dir_name("alice", "20240102_030405"), "alice_20240102_030405");
}

#[test]
fn what_follows_a_merge() {
    assert_eq!(after_recording_merge(false, true, true), AfterMerge::Discard);
    assert_eq!(after_recording_merge(true, false, true), AfterMerge::Nothing);
    assert_eq!(after_recording_merge(true, true, true), AfterMerge::Postprocess);
    assert_eq!(after_recording_merge(true, true, false), AfterMerge::MarkFinished);
    assert_eq!(after_leftover_merge(false, true), AfterMerge::Nothing);
    assert_eq!(after_leftover_merge(true, true), AfterMerge::Postprocess);
    assert_eq!(after_leftover_merge(true, false), AfterMerge::MarkFinished);
}

#[test]
fn directory_sizes() {
    assert_eq!(total_file_bytes(&vec![(true, 10), (false, 99), (true, 5)]), Some(15));
    assert_eq!(total_file_bytes(&Vec::new()), Some(0));
    assert_eq!(total_file_bytes(&vec![(true, u64::MAX), (true, 1)]), None);
}

#[test]
fn segment_sizes() {
    let e = vec![
        ("/s/a_000001.ts".to_string(), Some(100)),
        ("/s/init.mp4".to_string(), Some(50)),
        ("/s/a_000002.ts".to_string(), None),
        ("/s/a_000003.ts".to_string(), Some(7)),
    ];
    assert_eq!(total_segment_bytes(&e), Some(107));
    let big = vec![("/a.ts".to_string(), Some(u64::MAX)), ("/b.ts".to_string(), Some(2))];
    assert_eq!(total_segment_bytes(&big), None);
}

#[test]
fn new_session_directory_sorts_by_its_timestamp() {
    let name = session_dir_name("a_b", "20240102_030405");
    assert_eq!(name, "a_b_20240102_030405");
    assert_eq!(
        recorder_core::timestamp::session_dir_timestamp_from_stem(&name),
        "20240102_030405"
    );
}

#[test]
fn session_keys_sort_by_date_then_time() {
    let key = recorder_core::timestamp::session_dir_timestamp_from_stem;
    assert!(key("zed_20240101_235959") < key("amy_20240102_000000"));
    assert!(key("a_b_20240102_000001") > key("c_20240102_000000"));
    assert_eq!(key("x_20240102_000000"), key("y_z_20240102_000000"));
}

#[test]
fn second_pass_removes_nothing() {
    let dirs = vec![
        dir("/out", None, false, false),
        dir("/out/a", Some(0), false, false),
        dir("/out/a/b", Some(1), false, false),
        dir("/out/c", Some(0), true, false),
        dir("/out/c/d", Some(3), false, false),
    ];
    assert_eq!(startup_remove_empty_dirs(&dirs).len(), 3);
    let remaining = vec![dir("/out", None, false, false), dir("/out/c", Some(0), true, false)];
    assert!(startup_remove_empty_dirs(&remaining).is_empty());
}
