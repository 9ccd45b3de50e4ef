//! Start-up housekeeping of the output directory, decided over a listing of it:
//! which empty directories go, which session directories still hold segments to
//! merge, which videos were never post-processed, and in which order.

use vstd::prelude::*;
use crate::paths::{
    extension_of, file_name_of, file_stem_of, opt_view, parent_of, path_extension, path_file_name,
    path_file_stem, path_parent,
};
use crate::sorting::{is_stable_sort, stable_sort_by_keys};
use crate::text::{str_eq, views};
use crate::timestamp::{session_dir_timestamp, session_dir_timestamp_from_stem, session_timestamp_key};

verus! {

/// One directory of a listing of the output directory. The listing holds the output
/// directory first, then every directory below it, each after its parent.
pub struct DirInfo {
    /// Path of the directory.
    pub path: String,
    /// Index of the parent directory in the listing (`None` for the output directory).
    pub parent: Option<usize>,
    /// Whether the directory could be read.
    pub readable: bool,
    /// Whether it holds anything but directories (files, or entries that could not be read).
    pub has_other_entries: bool,
    /// Whether it holds a file with the extension `ts`.
    pub has_segments: bool,
}

/// Whether each directory from index `k` on can be removed as empty: it can be read,
/// holds nothing but directories, and each of its subdirectories can be removed.
pub open spec fn removable_from(dirs: Seq<DirInfo>, k: int) -> Seq<bool>
    decreases dirs.len() - k,
{
    if k < 0 || k >= dirs.len() {
        Seq::empty()
    } else {
        let rest = removable_from(dirs, k + 1);
        let me = dirs[k].readable && !dirs[k].has_other_entries && forall|j: int|
            k < j < dirs.len() && dirs[j].parent == Some(k as usize) ==> #[trigger] rest[j - k - 1];
        seq![me] + rest
    }
}

/// Directory `i` holds nothing but (recursively) empty directories.
pub open spec fn removable(dirs: Seq<DirInfo>, i: int) -> bool {
    removable_from(dirs, i)[0]
}

pub proof fn lemma_removable_from(dirs: Seq<DirInfo>, k: int, j: int)
    requires
        0 <= k <= j < dirs.len(),
    ensures
        removable_from(dirs, k).len() == dirs.len() - k,
        removable_from(dirs, k)[j - k] == removable(dirs, j),
    decreases j - k,
{
    lemma_removable_len(dirs, k);
    if k < j {
        lemma_removable_from(dirs, k + 1, j);
    }
}

pub proof fn lemma_removable_len(dirs: Seq<DirInfo>, k: int)
    requires
        0 <= k <= dirs.len(),
    ensures
        removable_from(dirs, k).len() == dirs.len() - k,
    decreases dirs.len() - k,
{
    if k < dirs.len() {
        lemma_removable_len(dirs, k + 1);
    }
}

/// The directories to remove, deepest listing entries first: those of index `k` or
/// more that are removable, the output directory (index 0) excepted.
pub open spec fn removal_plan(dirs: Seq<DirInfo>, k: int) -> Seq<Seq<char>>
    decreases dirs.len() - k,
{
    if k < 0 || k >= dirs.len() {
        Seq::empty()
    } else {
        removal_plan(dirs, k + 1) + if k >= 1 && removable(dirs, k) {
            seq![dirs[k].path@]
        } else {
            Seq::empty()
        }
    }
}

/// The empty directories below the output directory, to be removed in this order
/// (each after its subdirectories). Removing them one by one and counting the
/// removals that succeed gives the number of directories removed.
pub fn startup_remove_empty_dirs(dirs: &Vec<DirInfo>) -> (r: Vec<String>)
    ensures
        views(r@) == removal_plan(dirs@, 0),
{
    let n = dirs.len();
    let ghost d = dirs@;
    // rem_rev[n - 1 - j] tells whether directory j is removable
    let mut rem_rev: Vec<bool> = Vec::new();
    let mut plan: Vec<String> = Vec::new();
    let mut k: usize = n;
    while k > 0
        invariant
            k <= n == d.len(),
            d == dirs@,
            rem_rev@.len() == n - k,
            forall|j: int| k <= j < n ==> rem_rev@[n - 1 - j] == removable(d, j),
            views(plan@) == removal_plan(d, k as int),
        decreases k,
    {
        let i = k - 1;
        let mut me = dirs[i].readable && !dirs[i].has_other_entries;
        let mut j: usize = i + 1;
        proof {
            lemma_removable_len(d, i + 1);
        }
        while j < n
            invariant
                i < j <= n == d.len(),
                d == dirs@,
                rem_rev@.len() == n - k,
                k == i + 1,
                forall|q: int| k <= q < n ==> rem_rev@[n - 1 - q] == removable(d, q),
                removable_from(d, i + 1).len() == n - i - 1,
                me == (d[i as int].readable && !d[i as int].has_other_entries && forall|q: int|
                    i < q < j && d[q].parent == Some(i) ==> #[trigger] removable(d, q)),
            decreases n - j,
        {
            proof {
                lemma_removable_from(d, i + 1, j as int);
            }
            let child = match dirs[j].parent {
                Some(p) => p == i,
                None => false,
            };
            assert(child == (d[j as int].parent == Some(i)));
            let ghost me_before = me;
            if child && !rem_rev[n - 1 - j] {
                me = false;
            }
            assert(rem_rev@[n - 1 - j] == removable(d, j as int));
            j = j + 1;
        }
        proof {
            law_removal_plan(d, i as int);
        }
        assert(removable(d, i as int) == me);
        rem_rev.push(me);
        let ghost before = views(plan@);
        if i >= 1 && me {
            plan.push(dirs[i].path.clone());
            assert(views(plan@) =~= before + seq![d[i as int].path@]);
        } else {
            assert(views(plan@) =~= before + Seq::<Seq<char>>::empty());
        }
        k = i;
    }
    plan
}

/// A directory counts as removable exactly when it can be read and holds nothing but
/// subdirectories that are removable as well; the output directory adds nothing to
/// the plan, which is that of the directories below it.
pub proof fn law_removal_plan(dirs: Seq<DirInfo>, i: int)
    requires
        0 <= i < dirs.len(),
    ensures
        removable(dirs, i) <==> (dirs[i].readable && !dirs[i].has_other_entries && forall|j: int|
            i < j < dirs.len() && dirs[j].parent == Some(i as usize) ==> removable(dirs, j)),
        removal_plan(dirs, 0) == removal_plan(dirs, 1),
{
    assert(removal_plan(dirs, 0) =~= removal_plan(dirs, 1));
    lemma_removable_len(dirs, i + 1);
    let rest = removable_from(dirs, i + 1);
    assert forall|j: int| i < j < dirs.len() implies rest[j - i - 1] == removable(dirs, j) by {
        lemma_removable_from(dirs, i + 1, j);
    }
    assert(removable_from(dirs, i) == seq![
        dirs[i].readable && !dirs[i].has_other_entries && forall|j: int|
            i < j < dirs.len() && dirs[j].parent == Some(i as usize) ==> #[trigger] rest[j - i - 1],
    ] + rest);
    let me = dirs[i].readable && !dirs[i].has_other_entries && forall|j: int|
        i < j < dirs.len() && dirs[j].parent == Some(i as usize) ==> #[trigger] rest[j - i - 1];
    assert(removable(dirs, i) == me);
    let claim = dirs[i].readable && !dirs[i].has_other_entries && forall|j: int|
        i < j < dirs.len() && dirs[j].parent == Some(i as usize) ==> removable(dirs, j);
    if me {
        assert forall|j: int| i < j < dirs.len() && dirs[j].parent == Some(i as usize) implies removable(dirs, j) by {
            assert(rest[j - i - 1]);
        }
    }
    if claim {
        assert forall|j: int| i < j < dirs.len() && dirs[j].parent == Some(i as usize) implies #[trigger] rest[j - i - 1] by {
            assert(removable(dirs, j));
        }
    }
}

/// Directory `i` is still there after the removals: the output directory, or one that
/// is not removable.
pub open spec fn kept(dirs: Seq<DirInfo>, i: int) -> bool {
    i == 0 || !removable(dirs, i)
}

/// How many directories before index `i` are kept: the index of a kept directory `i`
/// in the listing taken after the removals.
pub open spec fn rank(dirs: Seq<DirInfo>, i: int) -> int
    decreases i,
{
    if i <= 0 {
        0
    } else {
        rank(dirs, i - 1) + if kept(dirs, i - 1) {
            1int
        } else {
            0int
        }
    }
}

/// A kept directory as listed after the removals: the same path and entries other than
/// subdirectories, its parent at its new index.
pub open spec fn moved(dirs: Seq<DirInfo>, d: DirInfo) -> DirInfo {
    DirInfo {
        parent: match d.parent {
            Some(p) => Some(rank(dirs, p as int) as usize),
            None => None,
        },
        ..d
    }
}

/// The listing, taken after the removals, of the directories before index `k` that
/// are kept (nothing else having changed in the tree).
pub open spec fn remaining_upto(dirs: Seq<DirInfo>, k: int) -> Seq<DirInfo>
    decreases k,
{
    if k <= 0 {
        Seq::empty()
    } else {
        let prev = remaining_upto(dirs, k - 1);
        if kept(dirs, k - 1) {
            prev.push(moved(dirs, dirs[k - 1]))
        } else {
            prev
        }
    }
}

/// The listing of the output directory after the removals of one pass.
pub open spec fn remaining_listing(dirs: Seq<DirInfo>) -> Seq<DirInfo> {
    remaining_upto(dirs, dirs.len() as int)
}

/// Some kept directory before index `k` has the new index `r`.
pub open spec fn ranked_below(dirs: Seq<DirInfo>, k: int, r: int) -> bool {
    exists|i: int| 0 <= i < k && kept(dirs, i) && #[trigger] rank(dirs, i) == r
}

proof fn lemma_rank(dirs: Seq<DirInfo>, k: int)
    requires
        0 <= k,
    ensures
        remaining_upto(dirs, k).len() == rank(dirs, k),
        forall|i: int| 0 <= i < k && kept(dirs, i) ==> #[trigger] remaining_upto(dirs, k)[rank(dirs, i)]
            == moved(dirs, dirs[i]),
        forall|r: int| 0 <= r < rank(dirs, k) ==> #[trigger] ranked_below(dirs, k, r),
        forall|i: int| 0 <= i <= k ==> 0 <= #[trigger] rank(dirs, i) <= rank(dirs, k),
        forall|i: int| 0 <= i < k && kept(dirs, i) ==> #[trigger] rank(dirs, i) < rank(dirs, k),
    decreases k,
{
    if k > 0 {
        lemma_rank(dirs, k - 1);
        let prev = remaining_upto(dirs, k - 1);
        assert forall|i: int| 0 <= i < k && kept(dirs, i) implies #[trigger] remaining_upto(
            dirs,
            k,
        )[rank(dirs, i)] == moved(dirs, dirs[i]) by {
            if i < k - 1 {
                assert(prev[rank(dirs, i)] == moved(dirs, dirs[i]));
            }
        }
        assert forall|r: int| 0 <= r < rank(dirs, k) implies #[trigger] ranked_below(dirs, k, r) by {
            if r < rank(dirs, k - 1) {
                assert(ranked_below(dirs, k - 1, r));
                let i = choose|i: int| 0 <= i < k - 1 && kept(dirs, i) && #[trigger] rank(dirs, i) == r;
                assert(0 <= i < k && kept(dirs, i) && rank(dirs, i) == r);
            } else {
                assert(kept(dirs, k - 1) && rank(dirs, k - 1) == r);
            }
        }
    }
}

/// A kept directory below the output directory is not removable in the listing taken
/// after the removals.
proof fn lemma_kept_not_removable(dirs: Seq<DirInfo>, i: int)
    requires
        dirs.len() <= usize::MAX,
        1 <= i < dirs.len(),
        kept(dirs, i),
    ensures
        !removable(remaining_listing(dirs), rank(dirs, i)),
    decreases dirs.len() - i,
{
    let n = dirs.len() as int;
    let rl = remaining_listing(dirs);
    lemma_rank(dirs, n);
    let ri = rank(dirs, i);
    assert(rl[ri] == moved(dirs, dirs[i]));
    law_removal_plan(dirs, i);
    law_removal_plan(rl, ri);
    if dirs[i].readable && !dirs[i].has_other_entries {
        let j = choose|j: int|
            i < j < n && dirs[j].parent == Some(i as usize) && !removable(dirs, j);
        lemma_kept_not_removable(dirs, j);
        let rj = rank(dirs, j);
        assert(rl[rj] == moved(dirs, dirs[j]));
        lemma_rank(dirs, j);
        assert(ri < rj);
        assert(rl[rj].parent == Some(ri as usize));
        assert(ri < rj < rl.len());
    }
}

proof fn lemma_plan_empty_from(dirs: Seq<DirInfo>, k: int)
    requires
        dirs.len() <= usize::MAX,
        0 <= k,
    ensures
        removal_plan(remaining_listing(dirs), k) == Seq::<Seq<char>>::empty(),
    decreases remaining_listing(dirs).len() - k,
{
    let rl = remaining_listing(dirs);
    let n = dirs.len() as int;
    if k < rl.len() {
        lemma_plan_empty_from(dirs, k + 1);
        if k >= 1 {
            lemma_rank(dirs, n);
            assert(ranked_below(dirs, n, k));
            let i = choose|i: int| 0 <= i < n && kept(dirs, i) && #[trigger] rank(dirs, i) == k;
            assert(rank(dirs, 0) == 0);
            assert(i != 0);
            lemma_kept_not_removable(dirs, i);
        }
        assert(removal_plan(rl, k) =~= Seq::<Seq<char>>::empty());
    }
}

/// Run again on the tree that one pass leaves (the same directories less those removed,
/// each holding the same entries other than subdirectories), the removal finds nothing
/// to remove.
pub proof fn law_second_pass_removes_nothing(dirs: Seq<DirInfo>)
    requires
        dirs.len() <= usize::MAX,
    ensures
        removal_plan(remaining_listing(dirs), 0) == Seq::<Seq<char>>::empty(),
{
    lemma_plan_empty_from(dirs, 0);
}

/// No proper ancestor of directory `i`, other than the output directory, holds
/// segments: the walk that looks for segment directories reaches `i`.
pub open spec fn reached(dirs: Seq<DirInfo>, i: int) -> bool
    decreases i,
{
    if i <= 0 || i >= dirs.len() {
        true
    } else {
        match dirs[i].parent {
            None => true,
            Some(p) => if p == 0 || p >= i {
                true
            } else {
                !dirs[p as int].has_segments && reached(dirs, p as int)
            },
        }
    }
}

/// The session directories that still hold segments: reached directories below the
/// output directory holding `.ts` files, in listing order (the walk does not go below them).
pub open spec fn segment_dirs(dirs: Seq<DirInfo>, k: int) -> Seq<Seq<char>>
    decreases k,
{
    if k <= 0 || k > dirs.len() {
        Seq::empty()
    } else {
        segment_dirs(dirs, k - 1) + if k - 1 >= 1 && dirs[k - 1].has_segments && reached(
            dirs,
            k - 1,
        ) {
            seq![dirs[k - 1].path@]
        } else {
            Seq::empty()
        }
    }
}

/// `segment_dirs` of the whole listing.
pub fn collect_segment_dirs(dirs: &Vec<DirInfo>) -> (r: Vec<String>)
    ensures
        views(r@) == segment_dirs(dirs@, dirs@.len() as int),
{
    let n = dirs.len();
    let ghost d = dirs@;
    let mut reach: Vec<bool> = Vec::new();
    let mut out: Vec<String> = Vec::new();
    let mut i: usize = 0;
    while i < n
        invariant
            i <= n == d.len(),
            d == dirs@,
            reach@.len() == i,
            forall|q: int| 0 <= q < i ==> reach@[q] == reached(d, q),
            views(out@) == segment_dirs(d, i as int),
        decreases n - i,
    {
        let r = if i == 0 {
            true
        } else {
            match dirs[i].parent {
                None => true,
                Some(p) => if p == 0 || p >= i {
                    true
                } else {
                    assert(reach@[p as int] == reached(d, p as int));
                    !dirs[p].has_segments && reach[p]
                },
            }
        };
        assert(r == reached(d, i as int));
        reach.push(r);
        let ghost before = views(out@);
        if i >= 1 && dirs[i].has_segments && r {
            out.push(dirs[i].path.clone());
            assert(views(out@) =~= before + seq![d[i as int].path@]);
        } else {
            assert(views(out@) =~= before + Seq::<Seq<char>>::empty());
        }
        i = i + 1;
    }
    out
}

pub open spec fn dir_keys(paths: Seq<String>) -> Seq<Seq<char>> {
    paths.map_values(
        |p: String|
            session_timestamp_key(
                match path_file_name(p@) {
                    Some(n) => n,
                    None => Seq::empty(),
                },
            ),
    )
}

/// Session directories in the order they are merged: by the timestamp in their name
/// (see `session_dir_timestamp`), ties in the given order.
pub fn sort_segment_dirs(paths: Vec<String>) -> (r: Vec<String>)
    ensures
        exists|perm: Seq<int>| is_stable_sort(paths@, dir_keys(paths@), r@, perm, false),
{
    let mut keys: Vec<String> = Vec::new();
    let mut i: usize = 0;
    while i < paths.len()
        invariant
            i <= paths.len(),
            keys@.len() == i,
            forall|k: int| 0 <= k < i ==> keys@[k]@ == dir_keys(paths@)[k],
        decreases paths.len() - i,
    {
        keys.push(session_dir_timestamp(paths[i].as_str()));
        i = i + 1;
    }
    assert(views(keys@) =~= dir_keys(paths@));
    stable_sort_by_keys(paths, &keys, false)
}

pub open spec fn video_keys(paths: Seq<String>) -> Seq<Seq<char>> {
    paths.map_values(
        |p: String|
            session_timestamp_key(
                match path_file_stem(p@) {
                    Some(n) => n,
                    None => Seq::empty(),
                },
            ),
    )
}

/// Videos in the order they are post-processed: by the timestamp in their file stem,
/// ties in the given order.
pub fn sort_videos(paths: Vec<String>) -> (r: Vec<String>)
    ensures
        exists|perm: Seq<int>| is_stable_sort(paths@, video_keys(paths@), r@, perm, false),
{
    let mut keys: Vec<String> = Vec::new();
    let mut i: usize = 0;
    while i < paths.len()
        invariant
            i <= paths.len(),
            keys@.len() == i,
            forall|k: int| 0 <= k < i ==> keys@[k]@ == video_keys(paths@)[k],
        decreases paths.len() - i,
    {
        let key = match file_stem_of(paths[i].as_str()) {
            Some(s) => session_dir_timestamp_from_stem(s.as_str()),
            None => {
                proof {
                    reveal_strlit("");
                }
                session_dir_timestamp_from_stem("")
            },
        };
        keys.push(key);
        i = i + 1;
    }
    assert(views(keys@) =~= video_keys(paths@));
    stable_sort_by_keys(paths, &keys, false)
}

/// A video is waiting for post-processing: its extension (or the empty text, when it
/// has none) is the merge format, and it is not among the processed paths.
pub open spec fn unprocessed(path: Seq<char>, merge_format: Seq<char>, processed: Seq<Seq<char>>) -> bool {
    (match path_extension(path) {
        Some(e) => e,
        None => Seq::empty(),
    }) == merge_format && !processed.contains(path)
}

/// The files of the walk that wait for post-processing, in walk order.
pub fn collect_unprocessed_videos(
    files: &Vec<String>,
    merge_format: &str,
    processed: &Vec<String>,
) -> (r: Vec<String>)
    ensures
        views(r@) == views(files@).filter(
            |p: Seq<char>| unprocessed(p, merge_format@, views(processed@)),
        ),
{
    let mut out: Vec<String> = Vec::new();
    let mut i: usize = 0;
    while i < files.len()
        invariant
            i <= files.len(),
            views(out@) == views(files@).take(i as int).filter(
                |p: Seq<char>| unprocessed(p, merge_format@, views(processed@)),
            ),
        decreases files.len() - i,
    {
        let path = files[i].as_str();
        let ext_matches = match extension_of(path) {
            Some(e) => str_eq(e.as_str(), merge_format),
            None => merge_format.unicode_len() == 0,
        };
        let mut seen = false;
        let mut k: usize = 0;
        while k < processed.len()
            invariant
                k <= processed.len(),
                seen == exists|q: int| 0 <= q < k && processed@[q]@ == path@,
            decreases processed.len() - k,
        {
            if str_eq(processed[k].as_str(), path) {
                seen = true;
            }
            k = k + 1;
        }
        proof {
            if seen {
                let q = choose|q: int| 0 <= q < k && processed@[q]@ == path@;
                assert(views(processed@)[q] == path@);
            }
            if views(processed@).contains(path@) {
                let q = choose|q: int| 0 <= q < views(processed@).len() && views(processed@)[q] == path@;
                assert(processed@[q]@ == path@);
            }
        }
        proof {
            if merge_format@.len() == 0 {
                assert(merge_format@ =~= Seq::<char>::empty());
            }
        }
        let keep = ext_matches && !seen;
        assert(keep == unprocessed(path@, merge_format@, views(processed@)));
        let ghost prev = views(out@);
        assert(views(files@).take(i + 1).drop_last() =~= views(files@).take(i as int));
        proof {
            reveal(Seq::filter);
        }
        if keep {
            out.push(files[i].clone());
            assert(views(out@) =~= prev.push(files@[i as int]@));
        } else {
            assert(views(out@) =~= prev);
        }
        i = i + 1;
    }
    assert(views(files@).take(i as int) =~= views(files@));
    out
}

/// The streamer and the stem of a session directory: the names of its parent and of
/// itself, `unknown` where a name is missing.
pub fn session_names(path: &str) -> (r: (String, String))
    ensures
        r.0@ == match path_parent(path@) {
            Some(p) => match path_file_name(p) {
                Some(n) => n,
                None => "unknown"@,
            },
            None => "unknown"@,
        },
        r.1@ == match path_file_name(path@) {
            Some(n) => n,
            None => "unknown"@,
        },
{
    let user = match parent_of(path) {
        Some(p) => match file_name_of(p.as_str()) {
            Some(n) => n,
            None => String::from_str("unknown"),
        },
        None => String::from_str("unknown"),
    };
    let stem = match file_name_of(path) {
        Some(n) => n,
        None => String::from_str("unknown"),
    };
    (user, stem)
}

/// `{username}_{timestamp}`: the name of a new session directory.
pub fn session_dir_name(username: &str, timestamp: &str) -> (r: String)
    ensures
        r@ == username@ + "_"@ + timestamp@,
{
    let mut r = String::from_str(username);
    r.append("_");
    r.append(timestamp);
    r
}

/// What follows the merge of a session.
#[derive(Debug, Clone, Copy, PartialEq, Eq, Structural)]
pub enum AfterMerge {
    /// Hand the merged video to the post-processing pipeline.
    Postprocess,
    /// Mark the merged video as finished.
    MarkFinished,
    /// Nothing to do.
    Nothing,
    /// The merge gave nothing: delete the video's metadata and the session directory.
    Discard,
}

/// After merging a session that was just recorded: a failed merge is discarded; a
/// video that exists goes to post-processing when there is a pipeline, else is
/// finished.
pub fn after_recording_merge(merged: bool, video_exists: bool, has_pipeline: bool) -> (r: AfterMerge)
    ensures
        !merged ==> r == AfterMerge::Discard,
        merged && !video_exists ==> r == AfterMerge::Nothing,
        merged && video_exists && has_pipeline ==> r == AfterMerge::Postprocess,
        merged && video_exists && !has_pipeline ==> r == AfterMerge::MarkFinished,
{
    if !merged {
        AfterMerge::Discard
    } else if !video_exists {
        AfterMerge::Nothing
    } else if has_pipeline {
        AfterMerge::Postprocess
    } else {
        AfterMerge::MarkFinished
    }
}

/// After merging a leftover session at start-up: a video that exists goes to
/// post-processing when there is a pipeline, else is finished.
pub fn after_leftover_merge(video_exists: bool, has_pipeline: bool) -> (r: AfterMerge)
    ensures
        !video_exists ==> r == AfterMerge::Nothing,
        video_exists && has_pipeline ==> r == AfterMerge::Postprocess,
        video_exists && !has_pipeline ==> r == AfterMerge::MarkFinished,
{
    if !video_exists {
        AfterMerge::Nothing
    } else if has_pipeline {
        AfterMerge::Postprocess
    } else {
        AfterMerge::MarkFinished
    }
}

/// Sum of the sizes of the entries that are files.
pub open spec fn file_bytes(entries: Seq<(bool, u64)>) -> int
    decreases entries.len(),
{
    if entries.len() == 0 {
        0
    } else {
        file_bytes(entries.drop_last()) + if entries.last().0 {
            entries.last().1 as int
        } else {
            0
        }
    }
}

/// Total size of the files of a directory, from `(is_file, size)` of each entry;
/// `None` when the total does not fit in a `u64`.
pub fn total_file_bytes(entries: &Vec<(bool, u64)>) -> (r: Option<u64>)
    ensures
        match r {
            Some(t) => t == file_bytes(entries@),
            None => file_bytes(entries@) > u64::MAX,
        },
{
    let mut total: u64 = 0;
    let mut i: usize = 0;
    while i < entries.len()
        invariant
            i <= entries.len(),
            total == file_bytes(entries@.take(i as int)),
        decreases entries.len() - i,
    {
        assert(entries@.take(i + 1).drop_last() =~= entries@.take(i as int));
        let (is_file, len) = entries[i];
        if is_file {
            if len > u64::MAX - total {
                proof {
                    lemma_file_bytes_mono(entries@, i + 1, entries@.len() as int);
                    assert(entries@.take(entries@.len() as int) =~= entries@);
                }
                return None;
            }
            total = total + len;
        }
        i = i + 1;
    }
    assert(entries@.take(i as int) =~= entries@);
    Some(total)
}

pub proof fn lemma_file_bytes_mono(s: Seq<(bool, u64)>, i: int, j: int)
    requires
        0 <= i <= j <= s.len(),
    ensures
        file_bytes(s.take(i)) <= file_bytes(s.take(j)),
    decreases j - i,
{
    if i < j {
        lemma_file_bytes_mono(s, i, j - 1);
        assert(s.take(j).drop_last() =~= s.take(j - 1));
    }
}

/// Sum of the known sizes of the segment files (extension `ts`) among `entries`.
pub open spec fn segment_bytes(entries: Seq<(String, Option<u64>)>) -> int
    decreases entries.len(),
{
    if entries.len() == 0 {
        0
    } else {
        let e = entries.last();
        segment_bytes(entries.drop_last()) + if path_extension(e.0@) == Some("ts"@) && e.1 is Some {
            e.1->0 as int
        } else {
            0
        }
    }
}

/// Total size of the segments of a session, from `(path, size when readable)` of each
/// entry of its directory; `None` when the total does not fit in a `u64`.
pub fn total_segment_bytes(entries: &Vec<(String, Option<u64>)>) -> (r: Option<u64>)
    ensures
        match r {
            Some(t) => t == segment_bytes(entries@),
            None => segment_bytes(entries@) > u64::MAX,
        },
{
    let mut total: u64 = 0;
    let mut i: usize = 0;
    while i < entries.len()
        invariant
            i <= entries.len(),
            total == segment_bytes(entries@.take(i as int)),
        decreases entries.len() - i,
    {
        assert(entries@.take(i + 1).drop_last() =~= entries@.take(i as int));
        assert(entries@.take(i + 1).last() == entries@[i as int]);
        let is_segment = match extension_of(entries[i].0.as_str()) {
            Some(e) => str_eq(e.as_str(), "ts"),
            None => false,
        };
        if is_segment {
            if let Some(len) = entries[i].1 {
                if len > u64::MAX - total {
                    proof {
                        lemma_segment_bytes_mono(entries@, i + 1, entries@.len() as int);
                        assert(entries@.take(entries@.len() as int) =~= entries@);
                    }
                    return None;
                }
                total = total + len;
            }
        }
        i = i + 1;
    }
    assert(entries@.take(i as int) =~= entries@);
    Some(total)
}

pub proof fn lemma_segment_bytes_mono(s: Seq<(String, Option<u64>)>, i: int, j: int)
    requires
        0 <= i <= j <= s.len(),
    ensures
        segment_bytes(s.take(i)) <= segment_bytes(s.take(j)),
    decreases j - i,
{
    if i < j {
        lemma_segment_bytes_mono(s, i, j - 1);
        assert(s.take(j).drop_last() =~= s.take(j - 1));
    }
}

} // verus!
