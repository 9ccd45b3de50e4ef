//! Bookkeeping of recording sessions: who is being recorded, which stops were asked
//! for by hand, and which session directories wait for or undergo merging.

use vstd::prelude::*;
use crate::error::{AppError, ErrorView};
use crate::paths::{path_equal, path_starts_with, same_path, starts_with_path};
use crate::strset::StrSet;
use crate::text::{chars_of, push_str, str_eq, string_of, views};

verus! {

/// One running recording.
pub struct RecordingSession {
    /// The streamer being recorded.
    pub username: String,
    /// The directory that receives the segments.
    pub dir_path: String,
    /// When the recording started, in nanoseconds since the Unix epoch.
    pub started_at_ns: i64,
}

pub struct SessionView {
    pub username: Seq<char>,
    pub dir_path: Seq<char>,
    pub started_at_ns: i64,
}

impl View for RecordingSession {
    type V = SessionView;

    open spec fn view(&self) -> SessionView {
        SessionView {
            username: self.username@,
            dir_path: self.dir_path@,
            started_at_ns: self.started_at_ns,
        }
    }
}

pub open spec fn sessions_view(v: Seq<RecordingSession>) -> Seq<SessionView> {
    v.map_values(|s: RecordingSession| s@)
}

/// Index of the first session of `u`, or -1.
pub open spec fn index_of_user(s: Seq<SessionView>, u: Seq<char>) -> int
    decreases s.len(),
{
    if s.len() == 0 {
        -1
    } else if s[0].username == u {
        0
    } else {
        let r = index_of_user(s.drop_first(), u);
        if r < 0 {
            -1
        } else {
            r + 1
        }
    }
}

pub proof fn lemma_index_of_user(s: Seq<SessionView>, u: Seq<char>)
    ensures
        -1 <= index_of_user(s, u) < s.len(),
        index_of_user(s, u) >= 0 ==> s[index_of_user(s, u)].username == u,
        forall|k: int|
            0 <= k < s.len() && (index_of_user(s, u) < 0 || k < index_of_user(s, u)) ==> s[k].username
                != u,
    decreases s.len(),
{
    if s.len() > 0 && s[0].username != u {
        lemma_index_of_user(s.drop_first(), u);
        assert forall|k: int|
            0 <= k < s.len() && (index_of_user(s, u) < 0 || k < index_of_user(
                s,
                u,
            )) implies s[k].username != u by {
            if k > 0 {
                assert(s[k] == s.drop_first()[k - 1]);
            }
        }
    }
}

/// Seconds from `start_ns` to `now_ns`, whole seconds only, and 0 when not positive.
pub open spec fn elapsed_secs(start_ns: i64, now_ns: i64) -> u64 {
    let d = now_ns - start_ns;
    if d <= 0 {
        0
    } else {
        (d / 1_000_000_000) as u64
    }
}

/// `elapsed_secs(start_ns, now_ns)`.
pub fn elapsed_seconds(start_ns: i64, now_ns: i64) -> (r: u64)
    ensures
        r == elapsed_secs(start_ns, now_ns),
{
    let d: i128 = (now_ns as i128) - (start_ns as i128);
    if d <= 0 {
        0
    } else {
        (d / 1_000_000_000i128) as u64
    }
}

/// The start time of the first session in `sessions` (pairs of directory and start
/// time) whose directory is the path `dir`.
pub fn find_session_start(sessions: &Vec<(String, i64)>, dir: &str) -> (r: Option<i64>)
    ensures
        match r {
            Some(t) => exists|i: int|
                0 <= i < sessions@.len() && path_equal(sessions@[i].0@, dir@) && sessions@[i].1 == t
                    && forall|j: int| 0 <= j < i ==> !path_equal(sessions@[j].0@, dir@),
            None => forall|i: int| 0 <= i < sessions@.len() ==> !path_equal(sessions@[i].0@, dir@),
        },
{
    let mut i: usize = 0;
    while i < sessions.len()
        invariant
            i <= sessions.len(),
            forall|j: int| 0 <= j < i ==> !path_equal(sessions@[j].0@, dir@),
        decreases sessions.len() - i,
    {
        if same_path(sessions[i].0.as_str(), dir) {
            return Some(sessions[i].1);
        }
        i = i + 1;
    }
    None
}

/// Whether some text of `v` is the same path as `dir`.
fn any_same_path(v: &Vec<String>, dir: &str) -> (b: bool)
    ensures
        b == exists|i: int| 0 <= i < v@.len() && path_equal(#[trigger] v@[i]@, dir@),
{
    let mut i: usize = 0;
    while i < v.len()
        invariant
            i <= v.len(),
            forall|k: int| 0 <= k < i ==> !path_equal(#[trigger] v@[k]@, dir@),
        decreases v.len() - i,
    {
        if same_path(v[i].as_str(), dir) {
            return true;
        }
        i = i + 1;
    }
    false
}

/// The state of the recorder as plain values.
pub struct ManagerView {
    /// Running recordings, oldest first; no streamer appears twice.
    pub sessions: Seq<SessionView>,
    /// Streamers whose recording ended without a manual stop (candidates for a restart).
    pub naturally_stopped: Set<Seq<char>>,
    /// Streamers whose recording is being stopped by hand.
    pub manually_stopping: Set<Seq<char>>,
    /// Session directories being merged.
    pub merging_dirs: Set<Seq<char>>,
    /// Session directories waiting to be merged.
    pub waiting_merge_dirs: Set<Seq<char>>,
}

impl ManagerView {
    pub open spec fn empty() -> ManagerView {
        ManagerView {
            sessions: Seq::empty(),
            naturally_stopped: Set::empty(),
            manually_stopping: Set::empty(),
            merging_dirs: Set::empty(),
            waiting_merge_dirs: Set::empty(),
        }
    }

    /// `u` is being recorded.
    pub open spec fn recording(self, u: Seq<char>) -> bool {
        exists|i: int| 0 <= i < self.sessions.len() && self.sessions[i].username == u
    }

    /// No streamer has two sessions.
    pub open spec fn unique_users(self) -> bool {
        forall|i: int, j: int|
            0 <= i < self.sessions.len() && 0 <= j < self.sessions.len() && i != j
                ==> self.sessions[i].username != self.sessions[j].username
    }

    /// Why a recording of `u` may not start, if it may not: it is already running, or
    /// a positive limit `max_concurrent` is reached.
    pub open spec fn start_refusal(self, u: Seq<char>, max_concurrent: usize) -> Option<ErrorView> {
        if self.recording(u) {
            Some(ErrorView::AlreadyRecording(u))
        } else if max_concurrent > 0 && self.sessions.len() >= max_concurrent {
            Some(ErrorView::Other("Max concurrent recordings reached"@))
        } else {
            None
        }
    }

    /// A session added.
    pub open spec fn started(self, s: SessionView) -> ManagerView {
        ManagerView { sessions: self.sessions.push(s), ..self }
    }

    /// A manual stop of `u` asked for.
    pub open spec fn stopped_manually(self, u: Seq<char>) -> ManagerView {
        ManagerView { manually_stopping: self.manually_stopping.insert(u), ..self }
    }

    /// The recording of `u` has ended: its session is gone, and unless its stop was
    /// asked for by hand, `u` is marked as naturally stopped.
    pub open spec fn ended(self, u: Seq<char>) -> ManagerView {
        let i = index_of_user(self.sessions, u);
        ManagerView {
            sessions: if i >= 0 {
                self.sessions.remove(i)
            } else {
                self.sessions
            },
            manually_stopping: self.manually_stopping.remove(u),
            naturally_stopped: if self.manually_stopping.contains(u) {
                self.naturally_stopped
            } else {
                self.naturally_stopped.insert(u)
            },
            ..self
        }
    }

    /// The session directory `d` waits for merging.
    pub open spec fn merge_waiting(self, d: Seq<char>) -> ManagerView {
        ManagerView { waiting_merge_dirs: self.waiting_merge_dirs.insert(d), ..self }
    }

    /// The session directory `d` starts merging.
    pub open spec fn merge_begun(self, d: Seq<char>) -> ManagerView {
        ManagerView {
            waiting_merge_dirs: self.waiting_merge_dirs.remove(d),
            merging_dirs: self.merging_dirs.insert(d),
            ..self
        }
    }

    /// The session directory `d` is done merging.
    pub open spec fn merge_ended(self, d: Seq<char>) -> ManagerView {
        ManagerView { merging_dirs: self.merging_dirs.remove(d), ..self }
    }
}

/// The recorder's registry of sessions and merges.
pub struct RecorderManager {
    sessions: Vec<RecordingSession>,
    naturally_stopped: StrSet,
    manually_stopping: StrSet,
    merging_dirs: StrSet,
    waiting_merge_dirs: StrSet,
}

impl View for RecorderManager {
    type V = ManagerView;

    closed spec fn view(&self) -> ManagerView {
        ManagerView {
            sessions: sessions_view(self.sessions@),
            naturally_stopped: self.naturally_stopped@,
            manually_stopping: self.manually_stopping@,
            merging_dirs: self.merging_dirs@,
            waiting_merge_dirs: self.waiting_merge_dirs@,
        }
    }
}

impl RecorderManager {
    /// Internal consistency; every operation keeps it.
    pub closed spec fn wf(&self) -> bool {
        &&& self@.unique_users()
        &&& self.naturally_stopped.wf()
        &&& self.manually_stopping.wf()
        &&& self.merging_dirs.wf()
        &&& self.waiting_merge_dirs.wf()
    }

    /// A recorder with no sessions.
    pub fn new() -> (r: Self)
        ensures
            r.wf(),
            r@ == ManagerView::empty(),
    {
        let r = RecorderManager {
            sessions: Vec::new(),
            naturally_stopped: StrSet::new(),
            manually_stopping: StrSet::new(),
            merging_dirs: StrSet::new(),
            waiting_merge_dirs: StrSet::new(),
        };
        assert(sessions_view(r.sessions@) =~= Seq::<SessionView>::empty());
        r
    }

    fn find(&self, username: &str) -> (r: Option<usize>)
        ensures
            match r {
                Some(i) => i < self.sessions.len() && i == index_of_user(self@.sessions, username@),
                None => index_of_user(self@.sessions, username@) < 0,
            },
            r is Some <==> self@.recording(username@),
    {
        let ghost sv = self@.sessions;
        proof {
            lemma_index_of_user(sv, username@);
        }
        let mut i: usize = 0;
        while i < self.sessions.len()
            invariant
                i <= self.sessions.len(),
                sv == sessions_view(self.sessions@),
                forall|k: int| 0 <= k < i ==> sv[k].username != username@,
                -1 <= index_of_user(sv, username@) < sv.len(),
                index_of_user(sv, username@) >= 0 ==> sv[index_of_user(sv, username@)].username
                    == username@,
                forall|k: int|
                    0 <= k < sv.len() && (index_of_user(sv, username@) < 0 || k < index_of_user(
                        sv,
                        username@,
                    )) ==> sv[k].username != username@,
            decreases self.sessions.len() - i,
        {
            if str_eq(self.sessions[i].username.as_str(), username) {
                assert(sv[i as int].username == username@);
                return Some(i);
            }
            i = i + 1;
        }
        None
    }

    /// Whether `username` is being recorded.
    pub fn is_recording(&self, username: &str) -> (b: bool)
        ensures
            b == self@.recording(username@),
    {
        self.find(username).is_some()
    }

    /// The number of running recordings.
    pub fn active_count(&self) -> (n: usize)
        ensures
            n == self@.sessions.len(),
    {
        self.sessions.len()
    }

    /// Directory and start time of every running recording, oldest first.
    pub fn get_active_sessions(&self) -> (r: Vec<(String, i64)>)
        ensures
            r@.len() == self@.sessions.len(),
            forall|i: int|
                0 <= i < r@.len() ==> r@[i].0@ == self@.sessions[i].dir_path && r@[i].1
                    == self@.sessions[i].started_at_ns,
    {
        let mut r: Vec<(String, i64)> = Vec::new();
        let mut i: usize = 0;
        while i < self.sessions.len()
            invariant
                i <= self.sessions.len(),
                r@.len() == i,
                forall|k: int|
                    0 <= k < i ==> r@[k].0@ == self.sessions@[k].dir_path@ && r@[k].1
                        == self.sessions@[k].started_at_ns,
            decreases self.sessions.len() - i,
        {
            r.push((self.sessions[i].dir_path.clone(), self.sessions[i].started_at_ns));
            i = i + 1;
        }
        r
    }

    /// Whether `path` lies under the directory of a running recording.
    pub fn is_file_locked(&self, path: &str) -> (b: bool)
        ensures
            b == exists|i: int|
                0 <= i < self@.sessions.len() && path_starts_with(path@, self@.sessions[i].dir_path),
    {
        let mut i: usize = 0;
        while i < self.sessions.len()
            invariant
                i <= self.sessions.len(),
                forall|k: int| 0 <= k < i ==> !path_starts_with(path@, self.sessions@[k].dir_path@),
            decreases self.sessions.len() - i,
        {
            if starts_with_path(path, self.sessions[i].dir_path.as_str()) {
                assert(self@.sessions[i as int].dir_path == self.sessions@[i as int].dir_path@);
                return true;
            }
            i = i + 1;
        }
        assert forall|k: int| 0 <= k < self@.sessions.len() implies !path_starts_with(
            path@,
            self@.sessions[k].dir_path,
        ) by {
            assert(self@.sessions[k].dir_path == self.sessions@[k].dir_path@);
        }
        false
    }

    /// `Err` with the reason when a recording of `username` may not start now.
    pub fn check_can_start(&self, username: &str, max_concurrent: usize) -> (r: Result<(), AppError>)
        ensures
            match self@.start_refusal(username@, max_concurrent) {
                Some(e) => r is Err && r->Err_0@ == e,
                None => r is Ok,
            },
    {
        if self.is_recording(username) {
            return Err(AppError::AlreadyRecording(String::from_str(username)));
        }
        if max_concurrent > 0 && self.sessions.len() >= max_concurrent {
            let mut m: Vec<char> = Vec::new();
            push_str(&mut m, "Max concurrent recordings reached");
            return Err(AppError::Other(string_of(&m)));
        }
        Ok(())
    }

    /// Registers the recording of `username` into `dir_path`, unless it may not start
    /// (see `check_can_start`), in which case nothing changes.
    pub fn start_session(
        &mut self,
        username: &str,
        dir_path: &str,
        started_at_ns: i64,
        max_concurrent: usize,
    ) -> (r: Result<(), AppError>)
        requires
            old(self).wf(),
        ensures
            final(self).wf(),
            match old(self)@.start_refusal(username@, max_concurrent) {
                Some(e) => r is Err && r->Err_0@ == e && final(self)@ == old(self)@,
                None => r is Ok && final(self)@ == old(self)@.started(
                    SessionView {
                        username: username@,
                        dir_path: dir_path@,
                        started_at_ns,
                    },
                ),
            },
    {
        match self.check_can_start(username, max_concurrent) {
            Err(e) => Err(e),
            Ok(()) => {
                let ghost before = sessions_view(self.sessions@);
                assert(before == old(self)@.sessions);
                let s = RecordingSession {
                    username: String::from_str(username),
                    dir_path: String::from_str(dir_path),
                    started_at_ns,
                };
                self.sessions.push(s);
                assert(sessions_view(self.sessions@) =~= before.push(
                    SessionView { username: username@, dir_path: dir_path@, started_at_ns },
                ));
                proof {
                    assert forall|k: int| 0 <= k < before.len() implies before[k].username
                        != username@ by {
                        if before[k].username == username@ {
                            assert(old(self)@.recording(username@));
                        }
                    }
                }
                Ok(())
            },
        }
    }

    /// Asks for a manual stop of `username`'s recording (so that it is not restarted
    /// automatically); `NotRecording` when there is none, and then nothing changes.
    pub fn stop_recording(&mut self, username: &str) -> (r: Result<(), AppError>)
        requires
            old(self).wf(),
        ensures
            final(self).wf(),
            old(self)@.recording(username@) ==> r is Ok && final(self)@ == old(self)@.stopped_manually(
                username@,
            ),
            !old(self)@.recording(username@) ==> r is Err && r->Err_0@ == ErrorView::NotRecording(
                username@,
            ) && final(self)@ == old(self)@,
    {
        if !self.is_recording(username) {
            return Err(AppError::NotRecording(String::from_str(username)));
        }
        self.manually_stopping.insert(username);
        Ok(())
    }

    /// Checks that `username` is being recorded before an automatic stop (which leaves
    /// a later restart possible); `NotRecording` when it is not.
    pub fn stop_recording_auto(&self, username: &str) -> (r: Result<(), AppError>)
        ensures
            self@.recording(username@) ==> r is Ok,
            !self@.recording(username@) ==> r is Err && r->Err_0@ == ErrorView::NotRecording(
                username@,
            ),
    {
        if !self.is_recording(username) {
            return Err(AppError::NotRecording(String::from_str(username)));
        }
        Ok(())
    }

    /// The recording of `username` has ended at `now_ns`: drops its session and
    /// returns how long it ran (`None` when there was no session); marks `username` as
    /// naturally stopped unless a manual stop was asked for.
    pub fn end_session(&mut self, username: &str, now_ns: i64) -> (r: Option<u64>)
        requires
            old(self).wf(),
        ensures
            final(self).wf(),
            final(self)@ == old(self)@.ended(username@),
            match r {
                Some(d) => old(self)@.recording(username@) && d == elapsed_secs(
                    old(self)@.sessions[index_of_user(old(self)@.sessions, username@)].started_at_ns,
                    now_ns,
                ),
                None => !old(self)@.recording(username@),
            },
    {
        let ghost before = sessions_view(self.sessions@);
        let found = self.find(username);
        let duration = match found {
            None => None,
            Some(i) => {
                let start = self.sessions[i].started_at_ns;
                let secs = elapsed_seconds(start, now_ns);
                assert(sessions_view(self.sessions@)[i as int].started_at_ns == start);
                self.sessions.remove(i);
                assert(sessions_view(self.sessions@) =~= before.remove(i as int));
                Some(secs)
            },
        };
        let was_manual = self.manually_stopping.remove(username);
        if !was_manual {
            self.naturally_stopped.insert(username);
        }
        proof {
            let after = sessions_view(self.sessions@);
            assert forall|a: int, b: int|
                0 <= a < after.len() && 0 <= b < after.len() && a != b implies after[a].username
                != after[b].username by {
                if let Some(i) = found {
                    let a0 = if a < i { a } else { a + 1 };
                    let b0 = if b < i { b } else { b + 1 };
                    assert(after[a] == before[a0]);
                    assert(after[b] == before[b0]);
                }
            }
        }
        duration
    }

    /// The session directory `dir` waits for merging.
    pub fn mark_merge_waiting(&mut self, dir: &str)
        requires
            old(self).wf(),
        ensures
            final(self).wf(),
            final(self)@ == old(self)@.merge_waiting(dir@),
    {
        self.waiting_merge_dirs.insert(dir);
        assert(self@.sessions == old(self)@.sessions);
    }

    /// The session directory `dir` leaves the waiting list and starts merging.
    pub fn begin_merge(&mut self, dir: &str)
        requires
            old(self).wf(),
        ensures
            final(self).wf(),
            final(self)@ == old(self)@.merge_begun(dir@),
    {
        self.waiting_merge_dirs.remove(dir);
        self.merging_dirs.insert(dir);
        assert(self@.sessions == old(self)@.sessions);
    }

    /// The session directory `dir` is done merging.
    pub fn end_merge(&mut self, dir: &str)
        requires
            old(self).wf(),
        ensures
            final(self).wf(),
            final(self)@ == old(self)@.merge_ended(dir@),
    {
        self.merging_dirs.remove(dir);
        assert(self@.sessions == old(self)@.sessions);
    }

    /// Whether `dir` waits for merging or is being merged: some directory in either
    /// list is the same path as `dir` (compared as paths, component by component).
    pub fn is_merge_pending(&self, dir: &str) -> (b: bool)
        ensures
            b == exists|d: Seq<char>|
                (self@.merging_dirs.contains(d) || self@.waiting_merge_dirs.contains(d))
                    && #[trigger] path_equal(d, dir@),
    {
        let merging = self.merging_dirs.to_vec();
        let waiting = self.waiting_merge_dirs.to_vec();
        let in_merging = any_same_path(&merging, dir);
        let in_waiting = any_same_path(&waiting, dir);
        proof {
            if in_merging {
                let i = choose|i: int| 0 <= i < merging@.len() && path_equal(merging@[i]@, dir@);
                assert(views(merging@)[i] == merging@[i]@);
                assert(views(merging@).to_set().contains(merging@[i]@));
            }
            if in_waiting {
                let i = choose|i: int| 0 <= i < waiting@.len() && path_equal(waiting@[i]@, dir@);
                assert(views(waiting@)[i] == waiting@[i]@);
                assert(views(waiting@).to_set().contains(waiting@[i]@));
            }
            if !in_merging && !in_waiting {
                assert forall|d: Seq<char>|
                    (self@.merging_dirs.contains(d) || self@.waiting_merge_dirs.contains(d)) implies !path_equal(d, dir@) by {
                    if self@.merging_dirs.contains(d) {
                        assert(views(merging@).contains(d));
                        let i = choose|i: int| 0 <= i < views(merging@).len() && views(merging@)[i] == d;
                        assert(merging@[i]@ == d);
                    } else {
                        assert(views(waiting@).contains(d));
                        let i = choose|i: int| 0 <= i < views(waiting@).len() && views(waiting@)[i] == d;
                        assert(waiting@[i]@ == d);
                    }
                }
            }
        }
        in_merging || in_waiting
    }

    /// Whether `username`'s last recording ended without a manual stop.
    pub fn is_naturally_stopped(&self, username: &str) -> (b: bool)
        ensures
            b == self@.naturally_stopped.contains(username@),
    {
        self.naturally_stopped.contains(username)
    }

    /// Forgets that `username` stopped naturally; `true` when it was marked.
    pub fn clear_naturally_stopped(&mut self, username: &str) -> (b: bool)
        requires
            old(self).wf(),
        ensures
            final(self).wf(),
            b == old(self)@.naturally_stopped.contains(username@),
            final(self)@ == (ManagerView {
                naturally_stopped: old(self)@.naturally_stopped.remove(username@),
                ..old(self)@
            }),
    {
        let b = self.naturally_stopped.remove(username);
        assert(self@.sessions == old(self)@.sessions);
        b
    }
}


/// A manual stop keeps a streamer from being marked for an automatic restart when its
/// recording then ends, and the manual mark is cleared by the end.
pub proof fn law_manual_stop_prevents_restart(v: ManagerView, u: Seq<char>)
    ensures
        v.stopped_manually(u).ended(u).naturally_stopped == v.naturally_stopped,
        !v.stopped_manually(u).ended(u).manually_stopping.contains(u),
{
}

/// A recording that ends without a manual stop marks its streamer for a restart.
pub proof fn law_natural_end_marks_restart(v: ManagerView, u: Seq<char>)
    requires
        !v.manually_stopping.contains(u),
    ensures
        v.ended(u).naturally_stopped.contains(u),
{
}

/// Once its recording has ended, a streamer is no longer being recorded, and no
/// streamer has two sessions.
pub proof fn law_ended_not_recording(v: ManagerView, u: Seq<char>)
    requires
        v.unique_users(),
    ensures
        !v.ended(u).recording(u),
        v.ended(u).unique_users(),
{
    lemma_index_of_user(v.sessions, u);
    let i = index_of_user(v.sessions, u);
    let after = v.ended(u).sessions;
    if i >= 0 {
        assert forall|k: int| 0 <= k < after.len() implies after[k].username != u by {
            let k0 = if k < i { k } else { k + 1 };
            assert(after[k] == v.sessions[k0]);
        }
        assert forall|a: int, b: int|
            0 <= a < after.len() && 0 <= b < after.len() && a != b implies after[a].username
            != after[b].username by {
            let a0 = if a < i { a } else { a + 1 };
            let b0 = if b < i { b } else { b + 1 };
            assert(after[a] == v.sessions[a0]);
            assert(after[b] == v.sessions[b0]);
        }
    }
}

/// A start that is accepted records the streamer, keeps streamers unique and stays
/// within a positive limit on concurrent recordings.
pub proof fn law_start_accepted(v: ManagerView, s: SessionView, max_concurrent: usize)
    requires
        v.unique_users(),
        v.start_refusal(s.username, max_concurrent) is None,
    ensures
        v.started(s).recording(s.username),
        v.started(s).unique_users(),
        max_concurrent > 0 ==> v.started(s).sessions.len() <= max_concurrent,
{
    let after = v.started(s).sessions;
    assert(after[after.len() - 1] == s);
    assert forall|a: int, b: int|
        0 <= a < after.len() && 0 <= b < after.len() && a != b implies after[a].username
        != after[b].username by {
        if a == v.sessions.len() {
            assert(!v.recording(s.username));
            assert(after[b] == v.sessions[b]);
        } else if b == v.sessions.len() {
            assert(!v.recording(s.username));
            assert(after[a] == v.sessions[a]);
        }
    }
}

/// Ending a recording that was just started gives back the sessions held before.
pub proof fn law_start_then_end_restores_sessions(v: ManagerView, s: SessionView, max_concurrent: usize)
    requires
        v.unique_users(),
        v.start_refusal(s.username, max_concurrent) is None,
    ensures
        v.started(s).ended(s.username).sessions == v.sessions,
{
    let after = v.started(s).sessions;
    assert forall|k: int| 0 <= k < v.sessions.len() implies after[k].username != s.username by {
        assert(after[k] == v.sessions[k]);
    }
    lemma_index_of_user(after, s.username);
    let i = index_of_user(after, s.username);
    assert(after[v.sessions.len() as int].username == s.username);
    assert(i == v.sessions.len());
    assert(after.remove(i) =~= v.sessions);
}

/// An accepted manual stop only adds the manual mark: the sessions and the restart
/// marks stay as they were.
pub proof fn law_stop_only_marks(v: ManagerView, u: Seq<char>)
    ensures
        v.stopped_manually(u).sessions == v.sessions,
        v.stopped_manually(u).manually_stopping.contains(u),
        v.stopped_manually(u).naturally_stopped == v.naturally_stopped,
{
}

/// A directory that starts merging leaves the waiting list and is being merged; once
/// its merge ends it is neither waiting nor being merged, unless it was queued again.
pub proof fn law_merge_progress(v: ManagerView, d: Seq<char>)
    ensures
        v.merge_begun(d).merging_dirs.contains(d),
        !v.merge_begun(d).waiting_merge_dirs.contains(d),
        !v.merge_begun(d).merge_ended(d).merging_dirs.contains(d),
        !v.merge_begun(d).merge_ended(d).waiting_merge_dirs.contains(d),
{
}

} // verus!
