use recorder_core::error::AppError;
use recorder_core::recordings::{
    delete_refusal, drops_task, effective_size, meta_stem, recording_entry, retry_delete,
    sidecar_names, skips_dir, sort_recordings_newest_first, video_file_name, without_result,
    RecordingFile, VideoMeta, VideoState, DELETE_ATTEMPTS, DELETE_RETRY_PAUSE_MS,
};

fn meta() -> VideoMeta {
    VideoMeta {
        status: "finished".to_string(),
        started_at: "2024-01-02T03:04:05+08:00".to_string(),
        size_bytes: 1000,
        video_duration_secs: Some(3600),
    }
}

fn file(name: &str, started_at: &str) -> RecordingFile {
    RecordingFile {
        name: name.to_string(),
        path: format!("/out/{}", name),
        size_bytes: 0,
        started_at: started_at.to_string(),
        is_recording: false,
        record_duration_secs: None,
        video_duration_secs: None,
        status: None,
    }
}

#[test]
fn meta_stems() {
    assert_eq!(meta_stem(".alice_20240102_030405.json"), Some("alice_20240102_030405".to_string()));
    assert_eq!(meta_stem(".a.json"), Some("a".to_string()));
    assert_eq!(meta_stem(".json"), None);
    assert_eq!(meta_stem("..json"), None);
    assert_eq!(meta_stem("alice.json"), None);
    assert_eq!(meta_stem(".alice.txt"), None);
}

#[test]
fn skipped_directories() {
    assert!(skips_dir(".hidden", false));
    assert!(skips_dir("alice_20240102_030405", true));
    assert!(!skips_dir("alice_20240102_030405", false));
}

#[test]
fn video_names() {
    assert_eq!(video_file_name("alice_1", "mp4"), "alice_1.mp4");
    let s = sidecar_names("v");
    assert_eq!(s, vec!["v.webp", "v.jpg", "v.jpeg", "v.png"]);
}

#[test]
fn size_written_back_only_when_known_and_different() {
    assert_eq!(effective_size(1000, 2000), (2000, true));
    assert_eq!(effective_size(1000, 0), (1000, false));
    assert_eq!(effective_size(1000, 1000), (1000, false));
}

#[test]
fn entry_of_a_present_video() {
    let e = recording_entry("alice_1", "mp4", "/out/alice/alice_1.mp4", &meta(), &VideoState::Present { actual_size: 5000 });
    assert_eq!(e.name, "alice_1.mp4");
    assert_eq!(e.path, "/out/alice/alice_1.mp4");
    assert_eq!(e.size_bytes, 5000);
    assert_eq!(e.started_at, "2024-01-02T03:04:05+08:00");
    assert!(!e.is_recording);
    assert_eq!(e.record_duration_secs, None);
    assert_eq!(e.video_duration_secs, Some(3600));
    assert_eq!(e.status, Some("finished".to_string()));
}

#[test]
fn entry_of_a_running_recording() {
    let v = VideoState::Recording {
        size_bytes: 777,
        started_at: "2024-05-05T00:00:00+00:00".to_string(),
        elapsed_secs: 90,
    };
    let e = recording_entry("alice_1", "mkv", "/out/alice/alice_1.mkv", &meta(), &v);
    assert_eq!(e.name, "alice_1.mkv");
    assert_eq!(e.size_bytes, 777);
    assert_eq!(e.started_at, "2024-05-05T00:00:00+00:00");
    assert!(e.is_recording);
    assert_eq!(e.record_duration_secs, Some(90));
    assert_eq!(e.video_duration_secs, None);
    assert_eq!(e.status, Some("recording".to_string()));
}

#[test]
fn entry_of_a_missing_video() {
    let e = recording_entry("alice_1", "mp4", "/p", &meta(), &VideoState::Missing);
    assert_eq!(e.size_bytes, 1000);
    assert!(!e.is_recording);
    assert_eq!(e.video_duration_secs, None);
    assert_eq!(e.status, Some("finished".to_string()));
}

#[test]
fn list_is_newest_first_and_stable() {
    let files = vec![
        file("a", "2024-01-01T00:00:00+00:00"),
        file("b", "2024-03-01T00:00:00+00:00"),
        file("c", "2024-01-01T00:00:00+00:00"),
        file("d", "2024-02-01T00:00:00+00:00"),
    ];
    let sorted = sort_recordings_newest_first(files);
    let names: Vec<&str> = sorted.iter().map(|f| f.name.as_str()).collect();
    assert_eq!(names, vec!["b", "d", "a", "c"]);
    assert!(sort_recordings_newest_first(Vec::new()).is_empty());
}

#[test]
fn deleting_during_recording_is_refused() {
    assert_eq!(delete_refusal(true), Err(AppError::Other("录制中，无法删除".to_string())));
    assert_eq!(delete_refusal(false), Ok(()));
}

#[test]
fn running_and_waiting_tasks_are_dropped() {
    assert!(drops_task(&Some("running".to_string())));
    assert!(drops_task(&Some("waiting".to_string())));
    assert!(!drops_task(&Some("done".to_string())));
    assert!(!drops_task(&None));
}

#[test]
fn delete_retries() {
    assert_eq!(DELETE_ATTEMPTS, 20);
    assert_eq!(DELETE_RETRY_PAUSE_MS, 200);
    assert!(retry_delete(1));
    assert!(retry_delete(19));
    assert!(!retry_delete(20));
}

#[test]
fn results_without_a_path() {
    let r = vec!["/a".to_string(), "/b".to_string(), "/a".to_string()];
    assert_eq!(without_result(&r, "/a"), (vec!["/b".to_string()], true));
    assert_eq!(without_result(&r, "/c"), (r.clone(), false));
}
