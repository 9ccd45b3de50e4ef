use recorder_core::recording_loop::{FetchOutcome, LoopState, LoopStep, RefreshOutcome};

fn fetched(written: usize, cdn_failures: usize) -> FetchOutcome {
    FetchOutcome::Fetched { written, cdn_failures }
}

#[test]
fn progress_resets_retries() {
    let mut s = LoopState::new();
    assert_eq!(s.after_fetch(fetched(0, 0)), (LoopStep::Next { wait: true }, false));
    assert_eq!(s.retry_count, 1);
    assert_eq!(s.after_fetch(fetched(2, 1)), (LoopStep::Next { wait: true }, true));
    assert_eq!(s.retry_count, 0);
    assert_eq!(s.consecutive_cdn_failures, 0);
    assert_eq!(s.total_downloaded, 2);
    assert_eq!(s.total_failed, 1);
}

#[test]
fn ten_empty_rounds_stop() {
    let mut s = LoopState::new();
    for _ in 0..9 {
        assert_eq!(s.after_fetch(fetched(0, 0)).0, LoopStep::Next { wait: true });
    }
    assert_eq!(s.after_fetch(fetched(0, 0)).0, LoopStep::Stop);
}

#[test]
fn cdn_failures_trigger_refresh() {
    let mut s = LoopState::new();
    assert_eq!(s.after_fetch(fetched(0, 2)).0, LoopStep::Next { wait: true });
    assert_eq!(s.after_fetch(fetched(0, 1)).0, LoopStep::Refresh);
    assert_eq!(s.consecutive_cdn_failures, 0);
    assert_eq!(s.after_refresh(RefreshOutcome::NewPlaylist), LoopStep::Next { wait: false });
    assert_eq!(s.retry_count, 0);
}

#[test]
fn failed_round_triggers_refresh() {
    let mut s = LoopState::new();
    assert_eq!(s.after_fetch(FetchOutcome::Failed), (LoopStep::Refresh, false));
    assert_eq!(s.after_refresh(RefreshOutcome::NotRecordable), LoopStep::Stop);
}

#[test]
fn five_failed_refreshes_stop() {
    let mut s = LoopState::new();
    for _ in 0..4 {
        assert_eq!(s.after_fetch(FetchOutcome::Failed).0, LoopStep::Refresh);
        assert_eq!(s.after_refresh(RefreshOutcome::Failed), LoopStep::Next { wait: true });
    }
    assert_eq!(s.after_fetch(FetchOutcome::Failed).0, LoopStep::Refresh);
    assert_eq!(s.after_refresh(RefreshOutcome::NoPlaylistYet), LoopStep::Stop);
}

#[test]
fn refresh_after_tenth_empty_round_stops() {
    let mut s = LoopState::new();
    for _ in 0..9 {
        s.after_fetch(fetched(0, 0));
    }
    assert_eq!(s.after_fetch(fetched(0, 3)).0, LoopStep::Refresh);
    assert_eq!(s.retry_count, 10);
    assert_eq!(s.after_refresh(RefreshOutcome::Failed), LoopStep::Stop);
}
