use recorder_core::error::AppError;
use recorder_core::recorder::{elapsed_seconds, find_session_start, RecorderManager};

fn manager_with(users: &[&str]) -> RecorderManager {
    let mut m = RecorderManager::new();
    for (i, u) in users.iter().enumerate() {
        let dir = format!("/rec/{}/{}_20240101_00000{}", u, u, i);
        m.start_session(u, &dir, i as i64, 0).unwrap();
    }
    m
}

#[test]
fn start_registers_session() {
    let m = manager_with(&["alice"]);
    assert!(m.is_recording("alice"));
    assert!(!m.is_recording("bob"));
    assert_eq!(m.active_count(), 1);
    assert_eq!(m.get_active_sessions(), vec![("/rec/alice/alice_20240101_000000".to_string(), 0)]);
}

#[test]
fn start_refused_when_already_recording() {
    let mut m = manager_with(&["alice"]);
    assert_eq!(
        m.start_session("alice", "/elsewhere", 5, 0),
        Err(AppError::AlreadyRecording("alice".to_string()))
    );
    assert_eq!(m.active_count(), 1);
}

#[test]
fn start_refused_at_capacity() {
    let mut m = manager_with(&["alice", "bob"]);
    assert_eq!(
        m.check_can_start("carol", 2),
        Err(AppError::Other("Max concurrent recordings reached".to_string()))
    );
    assert_eq!(
        m.start_session("carol", "/rec/carol", 0, 2),
        Err(AppError::Other("Max concurrent recordings reached".to_string()))
    );
    assert_eq!(m.start_session("carol", "/rec/carol", 0, 3), Ok(()));
    assert_eq!(m.check_can_start("dave", 0), Ok(()));
}

#[test]
fn stop_of_unknown_streamer() {
    let mut m = RecorderManager::new();
    assert_eq!(m.stop_recording("ghost"), Err(AppError::NotRecording("ghost".to_string())));
    assert_eq!(m.stop_recording_auto("ghost"), Err(AppError::NotRecording("ghost".to_string())));
}

#[test]
fn manual_stop_prevents_restart() {
    let mut m = manager_with(&["alice"]);
    assert_eq!(m.stop_recording("alice"), Ok(()));
    let d = m.end_session("alice", 3_500_000_000);
    assert_eq!(d, Some(3));
    assert!(!m.is_recording("alice"));
    assert!(!m.is_naturally_stopped("alice"));
}

#[test]
fn natural_end_marks_restart() {
    let mut m = manager_with(&["alice"]);
    assert_eq!(m.stop_recording_auto("alice"), Ok(()));
    assert_eq!(m.end_session("alice", 10), Some(0));
    assert!(m.is_naturally_stopped("alice"));
    assert!(m.clear_naturally_stopped("alice"));
    assert!(!m.is_naturally_stopped("alice"));
    assert!(!m.clear_naturally_stopped("alice"));
}

#[test]
fn end_without_session() {
    let mut m = RecorderManager::new();
    assert_eq!(m.end_session("nobody", 10), None);
    assert!(m.is_naturally_stopped("nobody"));
}

#[test]
fn start_then_end_keeps_other_sessions() {
    let mut m = manager_with(&["alice", "bob", "carol"]);
    m.end_session("bob", 100);
    assert_eq!(m.active_count(), 2);
    assert!(m.is_recording("alice") && m.is_recording("carol"));
    let dirs: Vec<String> = m.get_active_sessions().into_iter().map(|p| p.0).collect();
    assert_eq!(dirs, vec!["/rec/alice/alice_20240101_000000", "/rec/carol/carol_20240101_000002"]);
}

#[test]
fn files_under_session_dirs_are_locked() {
    let m = manager_with(&["alice"]);
    assert!(m.is_file_locked("/rec/alice/alice_20240101_000000/a_segment000001.ts"));
    assert!(m.is_file_locked("/rec/alice/alice_20240101_000000"));
    assert!(!m.is_file_locked("/rec/alice/alice_20240101_000000.mp4"));
    assert!(!m.is_file_locked("/rec/bob/x.ts"));
}

#[test]
fn merge_queue_progress() {
    let mut m = RecorderManager::new();
    assert!(!m.is_merge_pending("/rec/a/s"));
    m.mark_merge_waiting("/rec/a/s");
    assert!(m.is_merge_pending("/rec/a/s"));
    m.begin_merge("/rec/a/s");
    assert!(m.is_merge_pending("/rec/a/s"));
    m.end_merge("/rec/a/s");
    assert!(!m.is_merge_pending("/rec/a/s"));
}

#[test]
fn elapsed_whole_seconds() {
    assert_eq!(elapsed_seconds(0, 1_999_999_999), 1);
    assert_eq!(elapsed_seconds(5, 5), 0);
    assert_eq!(elapsed_seconds(10, 3), 0);
    assert_eq!(elapsed_seconds(i64::MIN, i64::MAX), 18446744073);
}

#[test]
fn session_start_by_dir() {
    let s = vec![("/rec/a/s1".to_string(), 1), ("/rec/a/s2".to_string(), 2), ("/rec/a//s2".to_string(), 3)];
    assert_eq!(find_session_start(&s, "/rec/a/s2"), Some(2));
    assert_eq!(find_session_start(&s, "/rec/a/s2/"), Some(2));
    assert_eq!(find_session_start(&s, "/rec/a/s3"), None);
}

#[test]
fn merge_pending_compares_paths() {
    let mut m = RecorderManager::new();
    m.mark_merge_waiting("/rec/a/s");
    assert!(m.is_merge_pending("/rec/a/s/"));
    assert!(m.is_merge_pending("/rec//a/s"));
    assert!(!m.is_merge_pending("/rec/a/s2"));
    m.begin_merge("/rec/a/s");
    assert!(m.is_merge_pending("/rec/a/./s"));
}
