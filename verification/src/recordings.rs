//! The recordings list and the deletion of a recording: which files count, what
//! each entry of the list says, and in which order the list comes.

use vstd::prelude::*;
use crate::error::{AppError, ErrorView};
use crate::sorting::{is_stable_sort, stable_sort_by_keys};
use crate::text::{
    chars_of, ends_with, push_str, slice_chars, starts_with, starts_with_at, str_eq, string_of,
    views,
};

verus! {

/// One entry of the recordings list.
pub struct RecordingFile {
    /// File name of the video (`{stem}.{format}`).
    pub name: String,
    /// Path of the video.
    pub path: String,
    /// Size in bytes.
    pub size_bytes: u64,
    /// Start time of the recording (RFC 3339).
    pub started_at: String,
    /// Whether the recording is still running.
    pub is_recording: bool,
    /// How long a running recording has run, in seconds.
    pub record_duration_secs: Option<u64>,
    /// Length of the finished video, in seconds.
    pub video_duration_secs: Option<u64>,
    /// Processing status of the video.
    pub status: Option<String>,
}

/// The fields of a video's metadata file that the list uses.
pub struct VideoMeta {
    pub status: String,
    pub started_at: String,
    pub size_bytes: u64,
    pub video_duration_secs: Option<u64>,
}

/// What is known of the video that a metadata file describes.
pub enum VideoState {
    /// The video file exists and has `actual_size` bytes (0 when unknown).
    Present { actual_size: u64 },
    /// No video file, and a running session records into the matching directory.
    Recording { size_bytes: u64, started_at: String, elapsed_secs: u64 },
    /// No video file and no running session.
    Missing,
}

/// The stem of a metadata file name `.{stem}.json` with a non-empty stem.
pub open spec fn meta_stem_of(name: Seq<char>) -> Option<Seq<char>> {
    if starts_with(name, "."@) && ends_with(name, ".json"@) && name.len() > 6 {
        Some(name.subrange(1, name.len() - 5))
    } else {
        None
    }
}

/// `meta_stem_of` of a file name.
pub fn meta_stem(name: &str) -> (r: Option<String>)
    ensures
        match r {
            Some(s) => meta_stem_of(name@) == Some(s@),
            None => meta_stem_of(name@) is None,
        },
{
    proof {
        reveal_strlit(".");
        reveal_strlit(".json");
    }
    let v = chars_of(name);
    let n = v.len();
    assert(v@.subrange(0, n as int) =~= v@);
    if n <= 6 || !starts_with_at(&v, 0, n, ".") || !starts_with_at(&v, n - 5, n, ".json") {
        proof {
            if n > 6 {
                assert(v@.subrange(n - 5, n as int) =~= v@.skip(n - 5));
                assert(v@.subrange(n - 5, n as int).take(5) =~= v@.skip(n - 5));
            }
        }
        return None;
    }
    assert(v@.subrange(n - 5, n as int).take(5) =~= v@.skip(n - 5));
    Some(string_of(&slice_chars(&v, 1, n - 5)))
}

/// The metadata file name `.{stem}.json` of a video with a non-empty stem gives that
/// stem back.
pub proof fn law_meta_name_gives_stem(stem: Seq<char>)
    requires
        stem.len() > 0,
    ensures
        meta_stem_of("."@ + stem + ".json"@) == Some(stem),
{
    reveal_strlit(".");
    reveal_strlit(".json");
    let n = "."@ + stem + ".json"@;
    assert(n.take(1) =~= "."@);
    assert(n.skip(n.len() - 5) =~= ".json"@);
    assert(n.subrange(1, n.len() - 5) =~= stem);
}

/// A directory is left out of the list when hidden (its name starts with `.`) or
/// waiting for or undergoing a merge.
pub fn skips_dir(name: &str, merge_pending: bool) -> (b: bool)
    ensures
        b == (starts_with(name@, "."@) || merge_pending),
{
    let v = chars_of(name);
    assert(v@.subrange(0, v@.len() as int) =~= v@);
    starts_with_at(&v, 0, v.len(), ".") || merge_pending
}

/// `{stem}.{format}`.
pub open spec fn video_name(stem: Seq<char>, format: Seq<char>) -> Seq<char> {
    stem + "."@ + format
}

/// File name of the video of session `stem` in format `format`.
pub fn video_file_name(stem: &str, format: &str) -> (r: String)
    ensures
        r@ == video_name(stem@, format@),
{
    let mut r = String::from_str(stem);
    r.append(".");
    r.append(format);
    r
}

/// The size shown for an existing video: its actual size when known (non-zero) and
/// different from the recorded one, which is then to be written back.
pub fn effective_size(meta_size: u64, actual_size: u64) -> (r: (u64, bool))
    ensures
        r.1 == (meta_size != actual_size && actual_size > 0),
        r.0 == if r.1 {
            actual_size
        } else {
            meta_size
        },
{
    if meta_size != actual_size && actual_size > 0 {
        (actual_size, true)
    } else {
        (meta_size, false)
    }
}

/// The list entry of the video `stem`, at `video_path`, described by `meta`.
pub fn recording_entry(
    stem: &str,
    merge_format: &str,
    video_path: &str,
    meta: &VideoMeta,
    video: &VideoState,
) -> (r: RecordingFile)
    ensures
        r.name@ == video_name(stem@, merge_format@),
        r.path@ == video_path@,
        match video {
            VideoState::Present { actual_size } => {
                &&& r.size_bytes == (if meta.size_bytes != *actual_size && *actual_size > 0 {
                    *actual_size
                } else {
                    meta.size_bytes
                })
                &&& r.started_at@ == meta.started_at@
                &&& !r.is_recording
                &&& r.record_duration_secs is None
                &&& r.video_duration_secs == meta.video_duration_secs
                &&& r.status is Some && r.status->0@ == meta.status@
            },
            VideoState::Recording { size_bytes, started_at, elapsed_secs } => {
                &&& r.size_bytes == *size_bytes
                &&& r.started_at@ == started_at@
                &&& r.is_recording
                &&& r.record_duration_secs == Some(*elapsed_secs)
                &&& r.video_duration_secs is None
                &&& r.status is Some && r.status->0@ == "recording"@
            },
            VideoState::Missing => {
                &&& r.size_bytes == meta.size_bytes
                &&& r.started_at@ == meta.started_at@
                &&& !r.is_recording
                &&& r.record_duration_secs is None
                &&& r.video_duration_secs is None
                &&& r.status is Some && r.status->0@ == meta.status@
            },
        },
{
    let name = video_file_name(stem, merge_format);
    let path = String::from_str(video_path);
    match video {
        VideoState::Present { actual_size } => {
            let (size, _) = effective_size(meta.size_bytes, *actual_size);
            RecordingFile {
                name,
                path,
                size_bytes: size,
                started_at: meta.started_at.clone(),
                is_recording: false,
                record_duration_secs: None,
                video_duration_secs: meta.video_duration_secs,
                status: Some(meta.status.clone()),
            }
        },
        VideoState::Recording { size_bytes, started_at, elapsed_secs } => RecordingFile {
            name,
            path,
            size_bytes: *size_bytes,
            started_at: started_at.clone(),
            is_recording: true,
            record_duration_secs: Some(*elapsed_secs),
            video_duration_secs: None,
            status: Some(String::from_str("recording")),
        },
        VideoState::Missing => RecordingFile {
            name,
            path,
            size_bytes: meta.size_bytes,
            started_at: meta.started_at.clone(),
            is_recording: false,
            record_duration_secs: None,
            video_duration_secs: None,
            status: Some(meta.status.clone()),
        },
    }
}

pub open spec fn started_keys(files: Seq<RecordingFile>) -> Seq<Seq<char>> {
    files.map_values(|f: RecordingFile| f.started_at@)
}

/// The list, newest start first; entries with the same start keep their order.
pub fn sort_recordings_newest_first(files: Vec<RecordingFile>) -> (r: Vec<RecordingFile>)
    ensures
        exists|perm: Seq<int>| is_stable_sort(files@, started_keys(files@), r@, perm, true),
{
    let mut keys: Vec<String> = Vec::new();
    let mut i: usize = 0;
    while i < files.len()
        invariant
            i <= files.len(),
            keys@.len() == i,
            forall|k: int| 0 <= k < i ==> keys@[k]@ == files@[k].started_at@,
        decreases files.len() - i,
    {
        keys.push(files[i].started_at.clone());
        i = i + 1;
    }
    assert(views(keys@) =~= started_keys(files@));
    stable_sort_by_keys(files, &keys, true)
}

/// Deleting a file under a running session's directory is refused.
pub fn delete_refusal(locked: bool) -> (r: Result<(), AppError>)
    ensures
        locked ==> r is Err && r->Err_0@ == ErrorView::Other("录制中，无法删除"@),
        !locked ==> r is Ok,
{
    if locked {
        Err(AppError::Other(String::from_str("录制中，无法删除")))
    } else {
        Ok(())
    }
}

/// A post-processing task in state `running` or `waiting` is dropped with the file.
pub fn drops_task(status: &Option<String>) -> (b: bool)
    ensures
        b == match status {
            Some(s) => s@ == "running"@ || s@ == "waiting"@,
            None => false,
        },
{
    match status {
        Some(s) => str_eq(s.as_str(), "running") || str_eq(s.as_str(), "waiting"),
        None => false,
    }
}

/// The image files kept beside a video `stem`: `{stem}.webp`, `.jpg`, `.jpeg`, `.png`.
pub fn sidecar_names(stem: &str) -> (r: Vec<String>)
    ensures
        r@.len() == 4,
        r@[0]@ == video_name(stem@, "webp"@),
        r@[1]@ == video_name(stem@, "jpg"@),
        r@[2]@ == video_name(stem@, "jpeg"@),
        r@[3]@ == video_name(stem@, "png"@),
{
    let mut r: Vec<String> = Vec::new();
    r.push(video_file_name(stem, "webp"));
    r.push(video_file_name(stem, "jpg"));
    r.push(video_file_name(stem, "jpeg"));
    r.push(video_file_name(stem, "png"));
    r
}

/// Attempts at removing a file before giving up.
pub const DELETE_ATTEMPTS: u32 = 20;

/// Pause between attempts at removing a file, in milliseconds.
pub const DELETE_RETRY_PAUSE_MS: u64 = 200;

/// Whether another attempt at removing a file follows a failed attempt number
/// `attempt` (counting from 1).
pub fn retry_delete(attempt: u32) -> (b: bool)
    ensures
        b == (attempt < DELETE_ATTEMPTS),
{
    attempt < DELETE_ATTEMPTS
}

/// The post-processed paths without `path`, and whether any was dropped.
pub fn without_result(results: &Vec<String>, path: &str) -> (r: (Vec<String>, bool))
    ensures
        views(r.0@) == views(results@).filter(|p: Seq<char>| p != path@),
        r.1 == (r.0@.len() != results@.len()),
{
    let mut out: Vec<String> = Vec::new();
    let mut i: usize = 0;
    while i < results.len()
        invariant
            i <= results.len(),
            views(out@) == views(results@).take(i as int).filter(|p: Seq<char>| p != path@),
            out@.len() <= i,
        decreases results.len() - i,
    {
        let ghost prev = views(out@);
        assert(views(results@).take(i + 1).drop_last() =~= views(results@).take(i as int));
        proof {
            reveal(Seq::filter);
        }
        if !str_eq(results[i].as_str(), path) {
            out.push(results[i].clone());
            assert(views(out@) =~= prev.push(results@[i as int]@));
        } else {
            assert(views(out@) =~= prev);
        }
        i = i + 1;
    }
    assert(views(results@).take(i as int) =~= views(results@));
    let changed = out.len() != results.len();
    (out, changed)
}

} // verus!
