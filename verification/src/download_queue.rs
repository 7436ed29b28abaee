use vstd::prelude::*;

verus! {

/// One queued download: its link and where it should land.
#[derive(Debug, Clone, PartialEq, Eq)]
pub struct QueueVideo {
    pub url: String,
    pub download_path: String,
}

impl QueueVideo {
    /// A queue entry from its link and destination path.
    pub fn new(url: String, download_path: String) -> (r: QueueVideo)
        ensures
            r.url@ == url@,
            r.download_path@ == download_path@,
    {
        QueueVideo { url, download_path }
    }
}

} // verus!
