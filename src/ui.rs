//! What the user is asked, as plain values; the program renders the questions.
use vstd::prelude::*;
use crate::backends::UtcTime;

verus! {

/// A conflict between local files and the remote copy.
#[derive(Debug, Clone)]
pub struct SyncIssueInfo {
    /// The newest modification among the local files.
    pub local_time: UtcTime,
    /// When the remote copy was written.
    pub remote_time: UtcTime,
    /// The backend's name.
    pub remote_name: String,
    /// The host that wrote the remote copy.
    pub remote_last_writer: String,
}

/// The user's answer to a conflict.
#[derive(Debug, Clone, Copy, PartialEq, Eq, Structural, Hash)]
pub enum SyncChoices {
    /// Download the remote copy over the local files.
    Download,
    /// Keep the local files; they are uploaded when the game exits.
    Continue,
    /// Stop without doing anything.
    Exit,
}

} // verus!
