//! Verified core of a stream recorder: file-name and playlist text handling,
//! stream-status decisions and the bookkeeping of recording sessions.

pub mod text;
pub mod paths;
pub mod timestamp;
pub mod playlist;
pub mod error;
pub mod segments;
pub mod strset;
pub mod recorder;
pub mod recording_loop;
pub mod stripchat;
pub mod sorting;
pub mod recordings;
pub mod startup;
