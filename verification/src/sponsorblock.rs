use vstd::prelude::*;

verus! {

/// How SponsorBlock segments are treated: cut out of the file, or only
/// marked as chapters.
#[derive(Debug, Clone, Copy, PartialEq, Eq, Structural)]
pub enum SponsorBlockOption {
    Remove,
    Mark,
}

impl SponsorBlockOption {
    /// The downloader flag this choice turns into.
    pub fn arg(&self) -> (r: &'static str)
        ensures
            self is Remove ==> r@ == "--sponsorblock-remove=default"@,
            self is Mark ==> r@ == "--sponsorblock-mark=default"@,
    {
        match self {
            SponsorBlockOption::Remove => "--sponsorblock-remove=default",
            SponsorBlockOption::Mark => "--sponsorblock-mark=default",
        }
    }
}

} // verus!
