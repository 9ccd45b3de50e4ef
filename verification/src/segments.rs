//! One round of segment fetching: which segments are new, how they are named and
//! stored, and what the round reports.

use vstd::prelude::*;
use std::collections::HashSet;
use crate::error::AppError;
use crate::text::{
    chars_of, decimal, find_char, find_char_in, lemma_find_char, push_decimal, push_str,
    push_zero_padded, slice_chars, string_of, chars_eq, zero_padded,
};

verus! {

broadcast use vstd::std_specs::hash::group_hash_axioms;

/// Header written when a session's `playlist.m3u8` is created.
pub const M3U8_HEADER: &'static str = "#EXTM3U\n#EXT-X-VERSION:3\n#EXT-X-MEDIA-SEQUENCE:0\n";

/// Line appended to a session's `playlist.m3u8` before merging.
pub const M3U8_ENDLIST: &'static str = "#EXT-X-ENDLIST\n";

/// Segments shorter than this many bytes (or of exactly this size) are not stored.
pub const MIN_SEGMENT_BYTES: usize = 1000;

/// The part of a URL before its first `?`.
pub open spec fn url_path(u: Seq<char>) -> Seq<char> {
    let k = find_char(u, '?');
    if k < 0 {
        u
    } else {
        u.take(k)
    }
}

/// `url_path` of `u`.
pub fn init_url_path(u: &str) -> (r: String)
    ensures
        r@ == url_path(u@),
{
    let v = chars_of(u);
    proof {
        lemma_find_char(v@, '?');
        assert(v@.subrange(0, v@.len() as int) =~= v@);
    }
    match find_char_in(&v, 0, v.len(), '?') {
        None => string_of(&v),
        Some(k) => {
            let p = slice_chars(&v, 0, k);
            assert(p@ =~= v@.take(k as int));
            string_of(&p)
        },
    }
}

/// Whether the initialisation segment must be downloaded again: the playlist names
/// one, and its path differs from that of the one already held.
pub open spec fn init_download_needed(new_init: Option<Seq<char>>, cached: Option<Seq<char>>) -> bool {
    match new_init {
        None => false,
        Some(n) => match cached {
            None => true,
            Some(c) => url_path(n) != url_path(c),
        },
    }
}

/// `init_download_needed` of the playlist's initialisation URL and the cached one.
pub fn needs_init_download(new_init: &Option<String>, cached: &Option<String>) -> (b: bool)
    ensures
        b == init_download_needed(
            match new_init {
                Some(s) => Some(s@),
                None => None,
            },
            match cached {
                Some(s) => Some(s@),
                None => None,
            },
        ),
{
    match new_init {
        None => false,
        Some(n) => match cached {
            None => true,
            Some(c) => {
                let a = chars_of(init_url_path(n.as_str()).as_str());
                let b = chars_of(init_url_path(c.as_str()).as_str());
                !chars_eq(&a, &b)
            },
        },
    }
}

/// `{username}_segment{sequence:06}.ts`.
pub open spec fn segment_name(username: Seq<char>, sequence: u32) -> Seq<char> {
    username + "_segment"@ + zero_padded(decimal(sequence as nat), 6) + ".ts"@
}

/// File name of the stored segment `sequence` of `username`'s session.
pub fn segment_file_name(username: &str, sequence: u32) -> (r: String)
    ensures
        r@ == segment_name(username@, sequence),
{
    let mut out = chars_of(username);
    push_str(&mut out, "_segment");
    push_zero_padded(&mut out, sequence as u64, 6);
    push_str(&mut out, ".ts");
    assert(out@ =~= segment_name(username@, sequence));
    string_of(&out)
}

/// `#EXTINF:0,\n{file_name}\n`: the playlist entry of a stored segment.
pub fn m3u8_entry(file_name: &str) -> (r: String)
    ensures
        r@ == "#EXTINF:0,\n"@ + file_name@ + "\n"@,
{
    let mut out: Vec<char> = Vec::new();
    push_str(&mut out, "#EXTINF:0,\n");
    push_str(&mut out, file_name);
    push_str(&mut out, "\n");
    assert(out@ =~= "#EXTINF:0,\n"@ + file_name@ + "\n"@);
    string_of(&out)
}

/// A downloaded segment is stored only when it holds more than `MIN_SEGMENT_BYTES` bytes.
pub fn is_complete_segment(len: usize) -> (b: bool)
    ensures
        b == (len > MIN_SEGMENT_BYTES),
{
    len > MIN_SEGMENT_BYTES
}

/// The data handed to the converter: the cached initialisation segment (if any)
/// followed by the segment's own bytes.
pub fn with_init_header(header: &Option<Vec<u8>>, data: Vec<u8>) -> (r: Vec<u8>)
    ensures
        r@ == match header {
            Some(h) => h@ + data@,
            None => data@,
        },
{
    match header {
        None => data,
        Some(h) => {
            let mut v: Vec<u8> = Vec::new();
            let mut i: usize = 0;
            while i < h.len()
                invariant
                    i <= h.len(),
                    v@ == h@.take(i as int),
                decreases h.len() - i,
            {
                v.push(h[i]);
                i = i + 1;
                assert(v@ =~= h@.take(i as int));
            }
            let mut j: usize = 0;
            while j < data.len()
                invariant
                    j <= data.len(),
                    v@ == h@ + data@.take(j as int),
                decreases data.len() - j,
            {
                v.push(data[j]);
                j = j + 1;
                assert(v@ =~= h@ + data@.take(j as int));
            }
            assert(data@.take(j as int) =~= data@);
            v
        },
    }
}

/// The sequence numbers of the segments already stored in a session.
pub struct SegmentTracker {
    seen: HashSet<u32>,
}

impl View for SegmentTracker {
    type V = Set<u32>;

    closed spec fn view(&self) -> Set<u32> {
        self.seen@
    }
}

impl SegmentTracker {
    /// A session that has stored nothing.
    pub fn new() -> (r: Self)
        ensures
            r@ == Set::<u32>::empty(),
    {
        SegmentTracker { seen: HashSet::new() }
    }

    /// Whether segment `sequence` is already stored.
    pub fn contains(&self, sequence: u32) -> (b: bool)
        ensures
            b == self@.contains(sequence),
    {
        self.seen.contains(&sequence)
    }

    /// Records that segment `sequence` is stored.
    pub fn insert(&mut self, sequence: u32)
        ensures
            final(self)@ == old(self)@.insert(sequence),
    {
        self.seen.insert(sequence);
    }

    /// How many distinct segments are stored.
    pub fn len(&self) -> (n: usize)
        ensures
            n == self@.len(),
    {
        self.seen.len()
    }
}

/// What became of one new segment of a round.
#[derive(Debug, Clone, Copy, PartialEq, Eq, Structural)]
pub enum SegmentOutcome {
    /// Downloaded, converted and stored.
    Stored,
    /// Downloaded, but too short or not converted; it stays new for the next round.
    NotStored,
    /// Its download failed.
    DownloadFailed,
}

/// The stored segments after a round whose new segments had the outcomes `rs`, in
/// order, starting from the stored segments `t`.
pub open spec fn round_tracker(t: Set<u32>, rs: Seq<(u32, SegmentOutcome)>) -> Set<u32>
    decreases rs.len(),
{
    if rs.len() == 0 {
        t
    } else {
        let prev = round_tracker(t, rs.drop_last());
        if rs.last().1 == SegmentOutcome::Stored {
            prev.insert(rs.last().0)
        } else {
            prev
        }
    }
}

/// The segments of `rs` that were stored.
pub open spec fn stored_in(rs: Seq<(u32, SegmentOutcome)>) -> Set<u32> {
    Set::new(|q: u32| exists|i: int| 0 <= i < rs.len() && rs[i] == (q, SegmentOutcome::Stored))
}

/// Over a whole round, the stored segments grow by exactly the segments stored in the
/// round: a failed download or a segment not stored adds nothing.
pub proof fn law_round_stores_exactly(t: Set<u32>, rs: Seq<(u32, SegmentOutcome)>)
    ensures
        round_tracker(t, rs) == t.union(stored_in(rs)),
    decreases rs.len(),
{
    if rs.len() == 0 {
        assert(stored_in(rs) =~= Set::<u32>::empty());
        assert(t.union(stored_in(rs)) =~= t);
    } else {
        let d = rs.drop_last();
        law_round_stores_exactly(t, d);
        let l = rs.last();
        if l.1 == SegmentOutcome::Stored {
            assert(stored_in(rs) =~= stored_in(d).insert(l.0)) by {
                assert(rs[rs.len() - 1] == (l.0, SegmentOutcome::Stored));
                assert forall|q: u32| stored_in(rs).contains(q) implies stored_in(d).insert(l.0).contains(q) by {
                    let i = choose|i: int| 0 <= i < rs.len() && rs[i] == (q, SegmentOutcome::Stored);
                    if i < rs.len() - 1 {
                        assert(d[i] == rs[i]);
                    }
                }
                assert forall|q: u32| stored_in(d).contains(q) implies stored_in(rs).contains(q) by {
                    let i = choose|i: int| 0 <= i < d.len() && d[i] == (q, SegmentOutcome::Stored);
                    assert(rs[i] == d[i]);
                }
            }
        } else {
            assert(stored_in(rs) =~= stored_in(d)) by {
                assert forall|q: u32| stored_in(rs).contains(q) implies stored_in(d).contains(q) by {
                    let i = choose|i: int| 0 <= i < rs.len() && rs[i] == (q, SegmentOutcome::Stored);
                    assert(i < rs.len() - 1);
                    assert(d[i] == rs[i]);
                }
                assert forall|q: u32| stored_in(d).contains(q) implies stored_in(rs).contains(q) by {
                    let i = choose|i: int| 0 <= i < d.len() && d[i] == (q, SegmentOutcome::Stored);
                    assert(rs[i] == d[i]);
                }
            }
        }
        assert(round_tracker(t, rs) =~= t.union(stored_in(rs)));
    }
}

/// The counts of one fetch round.
pub struct RoundTally {
    /// Segments of the playlist that were not stored yet.
    pub new_segments: usize,
    /// New segments whose download failed.
    pub cdn_failures: usize,
    /// New segments converted and stored.
    pub written: usize,
}

impl RoundTally {
    /// Every failed or stored segment was counted as new.
    pub open spec fn wf(&self) -> bool {
        self.cdn_failures + self.written <= self.new_segments
    }

    pub fn new() -> (r: Self)
        ensures
            r.wf(),
            r.new_segments == 0 && r.cdn_failures == 0 && r.written == 0,
    {
        RoundTally { new_segments: 0, cdn_failures: 0, written: 0 }
    }

    /// A segment not stored before is about to be downloaded.
    pub fn note_new(&mut self)
        requires
            old(self).wf(),
            old(self).new_segments < usize::MAX,
        ensures
            final(self).wf(),
            final(self).new_segments == old(self).new_segments + 1,
            final(self).cdn_failures == old(self).cdn_failures,
            final(self).written == old(self).written,
    {
        self.new_segments = self.new_segments + 1;
    }

    /// The download of the segment just counted as new failed.
    pub fn note_cdn_failure(&mut self)
        requires
            old(self).wf(),
            old(self).cdn_failures + old(self).written < old(self).new_segments,
        ensures
            final(self).wf(),
            final(self).new_segments == old(self).new_segments,
            final(self).cdn_failures == old(self).cdn_failures + 1,
            final(self).written == old(self).written,
    {
        self.cdn_failures = self.cdn_failures + 1;
    }

    /// The segment just counted as new was converted and stored.
    pub fn note_written(&mut self)
        requires
            old(self).wf(),
            old(self).cdn_failures + old(self).written < old(self).new_segments,
        ensures
            final(self).wf(),
            final(self).new_segments == old(self).new_segments,
            final(self).cdn_failures == old(self).cdn_failures,
            final(self).written == old(self).written + 1,
    {
        self.written = self.written + 1;
    }

    /// Records what became of the new segment `sequence`: it is counted as new, as a
    /// failed download when its download failed, and as written, and joins the stored
    /// segments, only when it was stored.
    pub fn note_segment(
        &mut self,
        tracker: &mut SegmentTracker,
        sequence: u32,
        outcome: SegmentOutcome,
    )
        requires
            old(self).wf(),
            old(self).new_segments < usize::MAX,
        ensures
            final(self).wf(),
            final(tracker)@ == round_tracker(old(tracker)@, seq![(sequence, outcome)]),
            final(self).new_segments == old(self).new_segments + 1,
            final(self).cdn_failures == old(self).cdn_failures + (if outcome
                == SegmentOutcome::DownloadFailed {
                1int
            } else {
                0int
            }),
            final(self).written == old(self).written + (if outcome == SegmentOutcome::Stored {
                1int
            } else {
                0int
            }),
    {
        let ghost t0 = tracker@;
        let ghost one = seq![(sequence, outcome)];
        proof {
            assert(one.drop_last() =~= Seq::<(u32, SegmentOutcome)>::empty());
            assert(round_tracker(t0, one.drop_last()) == t0);
            assert(one.last() == (sequence, outcome));
        }
        self.note_new();
        match outcome {
            SegmentOutcome::Stored => {
                tracker.insert(sequence);
                self.note_written();
            },
            SegmentOutcome::NotStored => {},
            SegmentOutcome::DownloadFailed => {
                self.note_cdn_failure();
            },
        }
    }

    /// What the round reports: `(written, cdn_failures)`, or an error when there were
    /// new segments and every one of them failed to download.
    pub fn outcome(&self) -> (r: Result<(usize, usize), AppError>)
        ensures
            match r {
                Ok((w, f)) => !(self.new_segments > 0 && self.cdn_failures == self.new_segments)
                    && w == self.written && f == self.cdn_failures,
                Err(e) => self.new_segments > 0 && self.cdn_failures == self.new_segments && e@
                    == crate::error::ErrorView::Other(
                    "All "@ + decimal(self.new_segments as nat)
                        + " new segments failed (CDN 404 / token expired), refreshing playlist"@,
                ),
            },
    {
        if self.new_segments > 0 && self.cdn_failures == self.new_segments {
            let mut msg: Vec<char> = Vec::new();
            push_str(&mut msg, "All ");
            push_decimal(&mut msg, self.new_segments as u64);
            push_str(&mut msg, " new segments failed (CDN 404 / token expired), refreshing playlist");
            assert(msg@ =~= "All "@ + decimal(self.new_segments as nat)
                + " new segments failed (CDN 404 / token expired), refreshing playlist"@);
            return Err(AppError::Other(string_of(&msg)));
        }
        Ok((self.written, self.cdn_failures))
    }
}

} // verus!
