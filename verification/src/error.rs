use vstd::prelude::*;

use crate::progress::{ProgressError, ProgressErrorView};
use crate::text::dec_digits;

verus! {

/// Model of a download failure.
pub enum DownloadErrorView {
    Progress(ProgressErrorView),
    InvalidURL(int),
    DownloadDir(Seq<char>),
    NoDownloadURL,
    YtDlpMissing,
    Other,
}

/// Why a download could not start or continue: a parse-level terminal
/// condition, a rejected link with its 1-based position, a missing
/// download directory, empty input, a missing downloader binary, or an
/// unspecified fault.
#[derive(Debug, Clone, PartialEq, Eq)]
pub enum DownloadError {
    Progress(ProgressError),
    InvalidURL(usize),
    DownloadDir(String),
    NoDownloadURL,
    YtDlpMissing,
    Other,
}

impl View for DownloadError {
    type V = DownloadErrorView;

    open spec fn view(&self) -> DownloadErrorView {
        match self {
            DownloadError::Progress(e) => DownloadErrorView::Progress(e@),
            DownloadError::InvalidURL(n) => DownloadErrorView::InvalidURL(*n as int),
            DownloadError::DownloadDir(d) => DownloadErrorView::DownloadDir(d@),
            DownloadError::NoDownloadURL => DownloadErrorView::NoDownloadURL,
            DownloadError::YtDlpMissing => DownloadErrorView::YtDlpMissing,
            DownloadError::Other => DownloadErrorView::Other,
        }
    }
}

/// The user-facing message of a parse-level failure.
pub open spec fn spec_progress_error_message(e: ProgressErrorView) -> Seq<char> {
    match e {
        ProgressErrorView::AlreadyExists => "File already exists"@,
        ProgressErrorView::PlaylistNotChecked => "Playlist checkbox not checked"@,
        ProgressErrorView::PrivateVideo => "Private video, skipping..."@,
        ProgressErrorView::VideoUnavailable => "Video unavailable, skipping..."@,
        ProgressErrorView::NoPlaylist => "Playlist does not exist"@,
        ProgressErrorView::Other(m) => m,
    }
}

/// The user-facing message of a download failure.
pub open spec fn spec_download_error_message(e: DownloadErrorView) -> Seq<char> {
    match e {
        DownloadErrorView::Progress(p) => spec_progress_error_message(p),
        DownloadErrorView::InvalidURL(n) => "invalid URL on position: "@ + dec_digits(n),
        DownloadErrorView::DownloadDir(d) => "Directory \""@ + d
            + "\" does not exist, please create it then start the download"@,
        DownloadErrorView::NoDownloadURL => "No Download URL was provided!"@,
        DownloadErrorView::YtDlpMissing => "yt-dlp binary is missing"@,
        DownloadErrorView::Other => "Something went wrong, logging..."@,
    }
}

impl ProgressError {
    /// Writes the user-facing message for this failure.
    pub fn message(&self) -> (r: String)
        ensures
            r@ == spec_progress_error_message(self@),
    {
        match self {
            ProgressError::AlreadyExists => "File already exists".to_owned(),
            ProgressError::PlaylistNotChecked => "Playlist checkbox not checked".to_owned(),
            ProgressError::PrivateVideo => "Private video, skipping...".to_owned(),
            ProgressError::VideoUnavailable => "Video unavailable, skipping...".to_owned(),
            ProgressError::NoPlaylist => "Playlist does not exist".to_owned(),
            ProgressError::Other(m) => m.clone(),
        }
    }
}

impl DownloadError {
    /// Writes the user-facing message for this failure.
    pub fn message(&self) -> (r: String)
        ensures
            r@ == spec_download_error_message(self@),
    {
        match self {
            DownloadError::Progress(p) => p.message(),
            DownloadError::InvalidURL(n) => {
                let mut s = "invalid URL on position: ".to_owned();
                s.append(crate::text::u64_string(*n as u64).as_str());
                s
            },
            DownloadError::DownloadDir(d) => {
                let mut s = "Directory \"".to_owned();
                s.append(d.as_str());
                s.append("\" does not exist, please create it then start the download");
                s
            },
            DownloadError::NoDownloadURL => "No Download URL was provided!".to_owned(),
            DownloadError::YtDlpMissing => "yt-dlp binary is missing".to_owned(),
            DownloadError::Other => "Something went wrong, logging...".to_owned(),
        }
    }
}

} // verus!
