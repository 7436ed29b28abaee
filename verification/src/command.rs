use vstd::prelude::*;

use crate::text::views_of;

verus! {

/// The fixed machine-output arguments the process supervisor appends
/// after every option-derived argument: print directives that tag the
/// lifecycle hooks, a progress template that prints each snapshot as one
/// sentinel-prefixed object, and the flag that keeps printing on.
pub open spec fn spec_fixed_args() -> Seq<Seq<char>> {
    seq![
        "--print"@,
        "before_dl:__{\"type\": \"pre_download\", \"video_id\": \"%(id)s\"}"@,
        "--print"@,
        "playlist:__{\"type\": \"end_of_playlist\"}"@,
        "--print"@,
        "after_video:__{\"type\": \"end_of_video\"}"@,
        "--progress-template"@,
        "__{\"type\": \"downloading\",\"eta\": %(progress.eta)s, \"downloaded_bytes\": %(progress.downloaded_bytes)s,\"total_bytes\": %(progress.total_bytes)s, \"total_bytes_estimate\": %(progress.total_bytes_estimate)s,\"elapsed\": %(progress.elapsed)s, \"speed\": %(progress.speed)s, \"playlist_count\": %(info.playlist_count)s,\"playlist_index\": %(info.playlist_index)s }"@,
        "--no-quiet"@,
    ]
}

/// Appends the fixed machine-output suffix to the option-derived
/// arguments, leaving those unchanged in front.
pub fn with_fixed_args(args: Vec<String>) -> (r: Vec<String>)
    ensures
        views_of(r@) == views_of(args@) + spec_fixed_args(),
{
    let mut r = args;
    r.push("--print".to_owned());
    r.push("before_dl:__{\"type\": \"pre_download\", \"video_id\": \"%(id)s\"}".to_owned());
    r.push("--print".to_owned());
    r.push("playlist:__{\"type\": \"end_of_playlist\"}".to_owned());
    r.push("--print".to_owned());
    r.push("after_video:__{\"type\": \"end_of_video\"}".to_owned());
    r.push("--progress-template".to_owned());
    r.push(
        "__{\"type\": \"downloading\",\"eta\": %(progress.eta)s, \"downloaded_bytes\": %(progress.downloaded_bytes)s,\"total_bytes\": %(progress.total_bytes)s, \"total_bytes_estimate\": %(progress.total_bytes_estimate)s,\"elapsed\": %(progress.elapsed)s, \"speed\": %(progress.speed)s, \"playlist_count\": %(info.playlist_count)s,\"playlist_index\": %(info.playlist_index)s }".to_owned(),
    );
    r.push("--no-quiet".to_owned());
    proof {
        assert(views_of(r@) =~= views_of(args@) + spec_fixed_args());
    }
    r
}

/// The message a session shows as soon as its subprocess starts.
pub fn initializing_message() -> (r: String)
    ensures
        r@ == "Initializing..."@,
{
    "Initializing...".to_owned()
}

} // verus!
