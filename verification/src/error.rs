//! Errors reported by the recorder.

use vstd::prelude::*;

verus! {

/// Why an operation of the recorder failed.
#[derive(Debug, PartialEq, Eq)]
pub enum AppError {
    /// A recording of this streamer is already running.
    AlreadyRecording(String),
    /// No recording of this streamer is running.
    NotRecording(String),
    /// The streaming site does not know this user.
    UserNotFound(String),
    /// The streamer is not broadcasting a recordable stream.
    StreamOffline(String),
    /// Any other failure, with its message.
    Other(String),
}

/// A view of an error in which each message is a character sequence.
pub enum ErrorView {
    AlreadyRecording(Seq<char>),
    NotRecording(Seq<char>),
    UserNotFound(Seq<char>),
    StreamOffline(Seq<char>),
    Other(Seq<char>),
}

impl View for AppError {
    type V = ErrorView;

    open spec fn view(&self) -> ErrorView {
        match self {
            AppError::AlreadyRecording(s) => ErrorView::AlreadyRecording(s@),
            AppError::NotRecording(s) => ErrorView::NotRecording(s@),
            AppError::UserNotFound(s) => ErrorView::UserNotFound(s@),
            AppError::StreamOffline(s) => ErrorView::StreamOffline(s@),
            AppError::Other(s) => ErrorView::Other(s@),
        }
    }
}

} // verus!
