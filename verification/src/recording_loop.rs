//! The decisions of the recording loop: after each fetch round and each playlist
//! refresh, whether to go on (and whether to pause first), to refresh the playlist,
//! or to stop.

use vstd::prelude::*;
use crate::playlist::pairs_view;
use crate::stripchat::opt_str_view;
use crate::text::str_eq;

verus! {

/// Rounds in a row without a stored segment after which the recording stops.
pub const MAX_RETRIES: u32 = 10;

/// Failed playlist refreshes in a row after which the recording stops.
pub const MAX_PLAYLIST_REFRESH_FAILURES: u32 = 5;

/// Segment download failures in a row after which the playlist is refreshed.
pub const CDN_FAILURE_REFRESH_THRESHOLD: usize = 3;

/// Pause between rounds, in milliseconds.
pub const ROUND_PAUSE_MS: u64 = 1500;

/// What a fetch round gave.
#[derive(Debug, Clone, Copy, PartialEq, Eq, Structural)]
pub enum FetchOutcome {
    /// The round ran: `written` segments were stored, `cdn_failures` downloads failed.
    Fetched { written: usize, cdn_failures: usize },
    /// The round failed as a whole (playlist unreachable, or every new segment failed).
    Failed,
}

/// What a refresh of the stream information gave.
#[derive(Debug, Clone, Copy, PartialEq, Eq, Structural)]
pub enum RefreshOutcome {
    /// A new playlist URL was obtained (the caller switches to it).
    NewPlaylist,
    /// The stream can no longer be recorded.
    NotRecordable,
    /// The stream is still recordable but no playlist URL was obtained.
    NoPlaylistYet,
    /// The stream information could not be fetched.
    Failed,
}

/// What the loop does next.
#[derive(Debug, Clone, Copy, PartialEq, Eq, Structural)]
pub enum LoopStep {
    /// Fetch the stream information again, then report it with `after_refresh`.
    Refresh,
    /// End the recording.
    Stop,
    /// Start another round, after a pause of `ROUND_PAUSE_MS` when `wait` holds.
    Next { wait: bool },
}

/// The counters of the recording loop.
#[derive(Debug, Clone, Copy, PartialEq, Eq, Structural)]
pub struct LoopState {
    pub retry_count: u32,
    pub playlist_refresh_failures: u32,
    pub consecutive_cdn_failures: usize,
    pub total_downloaded: u64,
    pub total_failed: u64,
}

impl LoopState {
    /// Between rounds of a running recording every counter is below its limit.
    pub open spec fn idle(self) -> bool {
        self.retry_count < MAX_RETRIES && self.playlist_refresh_failures
            < MAX_PLAYLIST_REFRESH_FAILURES && self.consecutive_cdn_failures
            < CDN_FAILURE_REFRESH_THRESHOLD
    }

    /// Counters after a fetch round, before any refresh.
    pub open spec fn counted(self, outcome: FetchOutcome) -> LoopState {
        match outcome {
            FetchOutcome::Failed => LoopState { consecutive_cdn_failures: 0, ..self },
            FetchOutcome::Fetched { written, cdn_failures } => {
                let consec = self.consecutive_cdn_failures + cdn_failures;
                let failed = self.total_failed + cdn_failures;
                if written > 0 {
                    LoopState {
                        consecutive_cdn_failures: 0,
                        retry_count: 0,
                        total_downloaded: (self.total_downloaded + written) as u64,
                        total_failed: failed as u64,
                        ..self
                    }
                } else {
                    LoopState {
                        consecutive_cdn_failures: consec as usize,
                        retry_count: (self.retry_count + 1) as u32,
                        total_failed: failed as u64,
                        ..self
                    }
                }
            },
        }
    }

    /// A refresh is due: the round failed, or failures in a row reached the threshold.
    pub open spec fn refresh_due(self, outcome: FetchOutcome) -> bool {
        outcome == FetchOutcome::Failed || self.counted(outcome).consecutive_cdn_failures
            >= CDN_FAILURE_REFRESH_THRESHOLD
    }

    /// State after a fetch round.
    pub open spec fn after_fetch_state(self, outcome: FetchOutcome) -> LoopState {
        let c = self.counted(outcome);
        if self.refresh_due(outcome) {
            LoopState { consecutive_cdn_failures: 0, ..c }
        } else {
            c
        }
    }

    /// Step after a fetch round.
    pub open spec fn after_fetch_step(self, outcome: FetchOutcome) -> LoopStep {
        if self.refresh_due(outcome) {
            LoopStep::Refresh
        } else if self.counted(outcome).retry_count >= MAX_RETRIES {
            LoopStep::Stop
        } else {
            LoopStep::Next { wait: true }
        }
    }

    /// State after a refresh.
    pub open spec fn after_refresh_state(self, outcome: RefreshOutcome) -> LoopState {
        match outcome {
            RefreshOutcome::NewPlaylist => LoopState { playlist_refresh_failures: 0, retry_count: 0, ..self },
            RefreshOutcome::NotRecordable => self,
            _ => LoopState {
                playlist_refresh_failures: (self.playlist_refresh_failures + 1) as u32,
                ..self
            },
        }
    }

    /// Step after a refresh: stop when the stream is gone or a limit is reached, else
    /// go on, at once when a new playlist was obtained.
    pub open spec fn after_refresh_step(self, outcome: RefreshOutcome) -> LoopStep {
        let s = self.after_refresh_state(outcome);
        if outcome == RefreshOutcome::NotRecordable {
            LoopStep::Stop
        } else if s.playlist_refresh_failures >= MAX_PLAYLIST_REFRESH_FAILURES {
            LoopStep::Stop
        } else if s.retry_count >= MAX_RETRIES {
            LoopStep::Stop
        } else {
            LoopStep::Next { wait: outcome != RefreshOutcome::NewPlaylist }
        }
    }

    /// The counters at the start of a recording.
    pub fn new() -> (r: Self)
        ensures
            r.idle(),
            r.retry_count == 0,
            r.playlist_refresh_failures == 0,
            r.consecutive_cdn_failures == 0,
            r.total_downloaded == 0 && r.total_failed == 0,
    {
        LoopState {
            retry_count: 0,
            playlist_refresh_failures: 0,
            consecutive_cdn_failures: 0,
            total_downloaded: 0,
            total_failed: 0,
        }
    }

    /// Takes in the outcome of a fetch round; the returned flag says whether segments
    /// were stored (and progress is to be reported).
    pub fn after_fetch(&mut self, outcome: FetchOutcome) -> (r: (LoopStep, bool))
        requires
            old(self).idle(),
            outcome matches FetchOutcome::Fetched { written, cdn_failures } ==> {
                &&& old(self).consecutive_cdn_failures + cdn_failures <= usize::MAX
                &&& old(self).total_failed + cdn_failures <= u64::MAX
                &&& old(self).total_downloaded + written <= u64::MAX
            },
        ensures
            *final(self) == old(self).after_fetch_state(outcome),
            r.0 == old(self).after_fetch_step(outcome),
            r.1 == (outcome matches FetchOutcome::Fetched { written, .. } && written > 0),
            final(self).playlist_refresh_failures == old(self).playlist_refresh_failures,
            outcome matches FetchOutcome::Fetched { written, cdn_failures } ==> {
                &&& final(self).total_downloaded == old(self).total_downloaded + written
                &&& final(self).total_failed == old(self).total_failed + cdn_failures
                &&& written > 0 ==> final(self).retry_count == 0
                &&& written == 0 ==> final(self).retry_count == old(self).retry_count + 1
            },
            outcome == FetchOutcome::Failed ==> {
                &&& final(self).total_downloaded == old(self).total_downloaded
                &&& final(self).total_failed == old(self).total_failed
                &&& final(self).retry_count == old(self).retry_count
                &&& final(self).consecutive_cdn_failures == 0
                &&& r.0 == LoopStep::Refresh
            },
    {
        let mut report = false;
        match outcome {
            FetchOutcome::Failed => {
                self.consecutive_cdn_failures = 0;
            },
            FetchOutcome::Fetched { written, cdn_failures } => {
                if cdn_failures > 0 {
                    self.consecutive_cdn_failures = self.consecutive_cdn_failures + cdn_failures;
                    self.total_failed = self.total_failed + cdn_failures as u64;
                }
                if written > 0 {
                    self.consecutive_cdn_failures = 0;
                    self.retry_count = 0;
                    self.total_downloaded = self.total_downloaded + written as u64;
                    report = true;
                } else {
                    self.retry_count = self.retry_count + 1;
                }
            },
        }
        let refresh = match outcome {
            FetchOutcome::Failed => true,
            _ => self.consecutive_cdn_failures >= CDN_FAILURE_REFRESH_THRESHOLD,
        };
        if refresh {
            self.consecutive_cdn_failures = 0;
            return (LoopStep::Refresh, report);
        }
        if self.retry_count >= MAX_RETRIES {
            return (LoopStep::Stop, report);
        }
        (LoopStep::Next { wait: true }, report)
    }

    /// Takes in the outcome of a playlist refresh.
    pub fn after_refresh(&mut self, outcome: RefreshOutcome) -> (r: LoopStep)
        requires
            old(self).playlist_refresh_failures < MAX_PLAYLIST_REFRESH_FAILURES,
        ensures
            *final(self) == old(self).after_refresh_state(outcome),
            r == old(self).after_refresh_step(outcome),
            final(self).total_downloaded == old(self).total_downloaded,
            final(self).total_failed == old(self).total_failed,
            final(self).consecutive_cdn_failures == old(self).consecutive_cdn_failures,
            outcome == RefreshOutcome::NewPlaylist ==> {
                &&& final(self).playlist_refresh_failures == 0
                &&& final(self).retry_count == 0
                &&& r == (LoopStep::Next { wait: false })
            },
            outcome == RefreshOutcome::NotRecordable ==> r == LoopStep::Stop && *final(self)
                == *old(self),
            (outcome == RefreshOutcome::Failed || outcome == RefreshOutcome::NoPlaylistYet) ==> {
                &&& final(self).playlist_refresh_failures == old(self).playlist_refresh_failures + 1
                &&& final(self).retry_count == old(self).retry_count
                &&& (r == LoopStep::Stop) == (old(self).playlist_refresh_failures + 1
                    >= MAX_PLAYLIST_REFRESH_FAILURES || old(self).retry_count >= MAX_RETRIES)
                &&& r != LoopStep::Stop ==> r == (LoopStep::Next { wait: true })
            },
    {
        match outcome {
            RefreshOutcome::NewPlaylist => {
                self.playlist_refresh_failures = 0;
                self.retry_count = 0;
            },
            RefreshOutcome::NotRecordable => {
                return LoopStep::Stop;
            },
            _ => {
                self.playlist_refresh_failures = self.playlist_refresh_failures + 1;
            },
        }
        if self.playlist_refresh_failures >= MAX_PLAYLIST_REFRESH_FAILURES {
            return LoopStep::Stop;
        }
        if self.retry_count >= MAX_RETRIES {
            return LoopStep::Stop;
        }
        LoopStep::Next { wait: outcome != RefreshOutcome::NewPlaylist }
    }
}

/// Whether two optional texts are equal.
fn same_opt(a: &Option<String>, b: &Option<String>) -> (r: bool)
    ensures
        r == (opt_str_view(*a) == opt_str_view(*b)),
{
    match (a, b) {
        (None, None) => true,
        (Some(x), Some(y)) => str_eq(x.as_str(), y.as_str()),
        _ => false,
    }
}

/// Whether two lists of key pairs are equal, pair by pair in order.
fn same_pairs(a: &Vec<(String, String)>, b: &Vec<(String, String)>) -> (r: bool)
    ensures
        r == (pairs_view(a@) == pairs_view(b@)),
{
    if a.len() != b.len() {
        assert(pairs_view(a@).len() != pairs_view(b@).len());
        return false;
    }
    let mut i: usize = 0;
    while i < a.len()
        invariant
            i <= a.len() == b.len(),
            forall|k: int| 0 <= k < i ==> pairs_view(a@)[k] == pairs_view(b@)[k],
        decreases a.len() - i,
    {
        if !str_eq(a[i].0.as_str(), b[i].0.as_str()) || !str_eq(a[i].1.as_str(), b[i].1.as_str()) {
            assert(pairs_view(a@)[i as int] != pairs_view(b@)[i as int]);
            return false;
        }
        i = i + 1;
    }
    assert(pairs_view(a@) =~= pairs_view(b@));
    true
}

/// The site client is built anew before a round when the API proxy, the CDN proxy,
/// the mirror or the Mouflon keys (in their configured order) differ from those it
/// was built with.
pub fn client_rebuild_needed(
    last_api_proxy: &Option<String>,
    last_cdn_proxy: &Option<String>,
    last_mirror: &Option<String>,
    last_keys: &Vec<(String, String)>,
    api_proxy: &Option<String>,
    cdn_proxy: &Option<String>,
    mirror: &Option<String>,
    keys: &Vec<(String, String)>,
) -> (b: bool)
    ensures
        b == (opt_str_view(*last_api_proxy) != opt_str_view(*api_proxy) || opt_str_view(
            *last_cdn_proxy,
        ) != opt_str_view(*cdn_proxy) || opt_str_view(*last_mirror) != opt_str_view(*mirror)
            || pairs_view(last_keys@) != pairs_view(keys@)),
{
    !same_opt(last_api_proxy, api_proxy) || !same_opt(last_cdn_proxy, cdn_proxy) || !same_opt(
        last_mirror,
        mirror,
    ) || !same_pairs(last_keys, keys)
}

/// Whenever the loop goes on to another round, every counter is below its limit
/// again, so the next round may start.
pub proof fn law_next_round_is_idle(s: LoopState, f: FetchOutcome, r: RefreshOutcome)
    requires
        s.idle(),
    ensures
        s.after_fetch_step(f) matches LoopStep::Next { .. } ==> s.after_fetch_state(f).idle(),
        s.after_fetch_step(f) == LoopStep::Refresh ==> s.after_fetch_state(f).playlist_refresh_failures
            < MAX_PLAYLIST_REFRESH_FAILURES,
        s.after_fetch_step(f) == LoopStep::Refresh ==> (s.after_fetch_state(f).after_refresh_step(r)
            matches LoopStep::Next { .. } ==> s.after_fetch_state(f).after_refresh_state(r).idle()),
{
}

/// Storing at least one segment clears the retry count and the run of download
/// failures; the loop then goes on after the pause, with no refresh.
pub proof fn law_progress_resets_retries(s: LoopState, written: usize, cdn_failures: usize)
    requires
        s.idle(),
        written > 0,
    ensures
        s.after_fetch_state(FetchOutcome::Fetched { written, cdn_failures }).retry_count == 0,
        s.after_fetch_state(FetchOutcome::Fetched { written, cdn_failures }).consecutive_cdn_failures
            == 0,
        s.after_fetch_step(FetchOutcome::Fetched { written, cdn_failures }) == (LoopStep::Next {
            wait: true,
        }),
{
}

/// A round that stores nothing counts one retry; the loop stops exactly when that
/// count reaches `MAX_RETRIES` (unless a refresh is due first).
pub proof fn law_empty_round_counts_retry(s: LoopState, cdn_failures: usize)
    requires
        s.idle(),
        s.consecutive_cdn_failures + cdn_failures < CDN_FAILURE_REFRESH_THRESHOLD,
    ensures
        s.after_fetch_state(FetchOutcome::Fetched { written: 0, cdn_failures }).retry_count
            == s.retry_count + 1,
        (s.after_fetch_step(FetchOutcome::Fetched { written: 0, cdn_failures }) == LoopStep::Stop)
            == (s.retry_count + 1 == MAX_RETRIES),
{
}

/// Download failures that reach the threshold in a row, or a failed round, always
/// lead to a playlist refresh and clear the run.
pub proof fn law_failures_trigger_refresh(s: LoopState, f: FetchOutcome)
    requires
        s.idle(),
        f == FetchOutcome::Failed || (f matches FetchOutcome::Fetched { written, cdn_failures }
            && written == 0 && s.consecutive_cdn_failures + cdn_failures
            >= CDN_FAILURE_REFRESH_THRESHOLD && s.consecutive_cdn_failures + cdn_failures
            <= usize::MAX),
    ensures
        s.after_fetch_step(f) == LoopStep::Refresh,
        s.after_fetch_state(f).consecutive_cdn_failures == 0,
{
}

/// Failed refreshes in a row stop the loop at the `MAX_PLAYLIST_REFRESH_FAILURES`-th.
pub proof fn law_refresh_failures_stop(s: LoopState, r: RefreshOutcome)
    requires
        s.playlist_refresh_failures < MAX_PLAYLIST_REFRESH_FAILURES,
        r == RefreshOutcome::Failed || r == RefreshOutcome::NoPlaylistYet,
    ensures
        (s.after_refresh_step(r) == LoopStep::Stop) <== (s.playlist_refresh_failures + 1
            == MAX_PLAYLIST_REFRESH_FAILURES),
        s.after_refresh_state(r).playlist_refresh_failures == s.playlist_refresh_failures + 1,
{
}

/// Counters of the whole session add up: a fetch round adds the segments it stored to
/// the downloaded total and its failed downloads to the failed total, and a failed
/// round or any refresh leaves both totals as they were.
pub proof fn law_totals_accumulate(s: LoopState, f: FetchOutcome, r: RefreshOutcome)
    requires
        f matches FetchOutcome::Fetched { written, cdn_failures } ==> {
            &&& s.consecutive_cdn_failures + cdn_failures <= usize::MAX
            &&& s.total_failed + cdn_failures <= u64::MAX
            &&& s.total_downloaded + written <= u64::MAX
        },
    ensures
        f matches FetchOutcome::Fetched { written, cdn_failures } ==> {
            &&& s.after_fetch_state(f).total_downloaded == s.total_downloaded + written
            &&& s.after_fetch_state(f).total_failed == s.total_failed + cdn_failures
        },
        f == FetchOutcome::Failed ==> s.after_fetch_state(f).total_downloaded == s.total_downloaded
            && s.after_fetch_state(f).total_failed == s.total_failed,
        s.after_refresh_state(r).total_downloaded == s.total_downloaded,
        s.after_refresh_state(r).total_failed == s.total_failed,
{
}

/// A refresh that obtains a new playlist URL clears the run of failed refreshes and the
/// retry count, and the next round starts at once, whatever came before.
pub proof fn law_new_playlist_resets_refreshes(s: LoopState)
    ensures
        s.after_refresh_state(RefreshOutcome::NewPlaylist).playlist_refresh_failures == 0,
        s.after_refresh_state(RefreshOutcome::NewPlaylist).retry_count == 0,
        s.after_refresh_step(RefreshOutcome::NewPlaylist) == (LoopStep::Next { wait: false }),
{
}

/// After a new playlist URL, one failed round followed by one failed refresh never
/// ends the recording, however many refreshes had failed before the new URL: the
/// loop goes on after the pause, with one failed refresh counted.
pub proof fn law_one_failure_after_new_playlist_goes_on(s: LoopState, r: RefreshOutcome)
    requires
        r == RefreshOutcome::Failed || r == RefreshOutcome::NoPlaylistYet,
    ensures
        ({
            let fresh = s.after_refresh_state(RefreshOutcome::NewPlaylist);
            let fetched = fresh.after_fetch_state(FetchOutcome::Failed);
            &&& fresh.after_fetch_step(FetchOutcome::Failed) == LoopStep::Refresh
            &&& fetched.after_refresh_step(r) == (LoopStep::Next { wait: true })
            &&& fetched.after_refresh_state(r).playlist_refresh_failures == 1
        }),
{
}

} // verus!
