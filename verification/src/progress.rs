use vstd::prelude::*;

use crate::json::{
    key_count_from, key_first_from, key_probe, members_view, JsonVal, JsonValView, Member,
    MemberView,
};
use crate::num::{Decimal, DecimalView};
use crate::text::str_eq;

verus! {

/// Model of one progress event of the downloader's output protocol.
pub enum ProgressView {
    PreProcessing,
    PreDownload { video_id: Seq<char> },
    Downloading {
        eta: Option<DecimalView>,
        downloaded_bytes: DecimalView,
        total_bytes: Option<DecimalView>,
        total_bytes_estimate: Option<DecimalView>,
        elapsed: DecimalView,
        speed: Option<DecimalView>,
        playlist_count: Option<u32>,
        playlist_index: Option<u32>,
    },
    EndOfVideo,
    EndOfPlaylist,
    PostProcessing { status: Seq<char> },
    Error { message: Seq<char> },
}

/// One progress event, exactly one tag active per value. Byte counts,
/// speeds and times arrive as written decimals; a missing or null field of
/// the payload is `None`.
#[derive(Debug, Clone, PartialEq, Eq)]
pub enum Progress {
    PreProcessing,
    PreDownload { video_id: String },
    Downloading {
        eta: Option<Decimal>,
        downloaded_bytes: Decimal,
        total_bytes: Option<Decimal>,
        total_bytes_estimate: Option<Decimal>,
        elapsed: Decimal,
        speed: Option<Decimal>,
        playlist_count: Option<u32>,
        playlist_index: Option<u32>,
    },
    EndOfVideo,
    EndOfPlaylist,
    PostProcessing { status: String },
    Error { message: String },
}

/// The view of an optional decimal.
pub open spec fn opt_dec_view(d: Option<Decimal>) -> Option<DecimalView> {
    match d {
        Some(x) => Some(x@),
        None => None,
    }
}

impl View for Progress {
    type V = ProgressView;

    open spec fn view(&self) -> ProgressView {
        match self {
            Progress::PreProcessing => ProgressView::PreProcessing,
            Progress::PreDownload { video_id } => ProgressView::PreDownload {
                video_id: video_id@,
            },
            Progress::Downloading {
                eta,
                downloaded_bytes,
                total_bytes,
                total_bytes_estimate,
                elapsed,
                speed,
                playlist_count,
                playlist_index,
            } => ProgressView::Downloading {
                eta: opt_dec_view(*eta),
                downloaded_bytes: downloaded_bytes@,
                total_bytes: opt_dec_view(*total_bytes),
                total_bytes_estimate: opt_dec_view(*total_bytes_estimate),
                elapsed: elapsed@,
                speed: opt_dec_view(*speed),
                playlist_count: *playlist_count,
                playlist_index: *playlist_index,
            },
            Progress::EndOfVideo => ProgressView::EndOfVideo,
            Progress::EndOfPlaylist => ProgressView::EndOfPlaylist,
            Progress::PostProcessing { status } => ProgressView::PostProcessing { status: status@ },
            Progress::Error { message } => ProgressView::Error { message: message@ },
        }
    }
}

/// The views of a sequence of events.
pub open spec fn progress_views(v: Seq<Progress>) -> Seq<ProgressView> {
    v.map_values(|p: Progress| p@)
}

/// A required string field: present exactly once, and a string.
pub open spec fn req_string(ms: Seq<MemberView>, k: Seq<char>) -> Option<Seq<char>> {
    if key_count_from(ms, k, 0) == 1 {
        match key_first_from(ms, k, 0) {
            JsonValView::Str(b) => Some(b),
            _ => None,
        }
    } else {
        None
    }
}

/// A required number field: present exactly once, and a number.
pub open spec fn req_num(ms: Seq<MemberView>, k: Seq<char>) -> Option<DecimalView> {
    if key_count_from(ms, k, 0) == 1 {
        match key_first_from(ms, k, 0) {
            JsonValView::Num(d) => Some(d),
            _ => None,
        }
    } else {
        None
    }
}

/// An optional number field: absent or null means no value; a string or a
/// repeated key makes the object malformed.
pub open spec fn opt_num(ms: Seq<MemberView>, k: Seq<char>) -> Option<Option<DecimalView>> {
    if key_count_from(ms, k, 0) == 0 {
        Some(None)
    } else if key_count_from(ms, k, 0) == 1 {
        match key_first_from(ms, k, 0) {
            JsonValView::Num(d) => Some(Some(d)),
            JsonValView::Null => Some(None),
            _ => None,
        }
    } else {
        None
    }
}

/// An optional playlist counter: absent or null means no value; the value
/// must be a whole number that a signed 32-bit counter could carry.
pub open spec fn opt_index(ms: Seq<MemberView>, k: Seq<char>) -> Option<Option<u32>> {
    if key_count_from(ms, k, 0) == 0 {
        Some(None)
    } else if key_count_from(ms, k, 0) == 1 {
        match key_first_from(ms, k, 0) {
            JsonValView::Num(d) => {
                if d.frac.len() == 0 && d.int_part <= 0x7fffffff {
                    Some(Some(d.int_part as u32))
                } else {
                    None
                }
            },
            JsonValView::Null => Some(None),
            _ => None,
        }
    } else {
        None
    }
}

/// The event that an object's members carry: the `type` member names the
/// tag, the tag's own fields are taken as the payload, members of other
/// names are ignored.
pub open spec fn event_of_members(ms: Seq<MemberView>) -> Option<ProgressView> {
    match req_string(ms, "type"@) {
        None => None,
        Some(ty) => {
            if ty == "pre_processing"@ {
                Some(ProgressView::PreProcessing)
            } else if ty == "pre_download"@ {
                match req_string(ms, "video_id"@) {
                    Some(id) => Some(ProgressView::PreDownload { video_id: id }),
                    None => None,
                }
            } else if ty == "downloading"@ {
                match (req_num(ms, "downloaded_bytes"@), req_num(ms, "elapsed"@)) {
                    (Some(db), Some(el)) => {
                        match (
                            opt_num(ms, "eta"@),
                            opt_num(ms, "total_bytes"@),
                            opt_num(ms, "total_bytes_estimate"@),
                            opt_num(ms, "speed"@),
                            opt_index(ms, "playlist_count"@),
                            opt_index(ms, "playlist_index"@),
                        ) {
                            (Some(eta), Some(tb), Some(tbe), Some(sp), Some(pc), Some(pi)) => Some(
                                ProgressView::Downloading {
                                    eta,
                                    downloaded_bytes: db,
                                    total_bytes: tb,
                                    total_bytes_estimate: tbe,
                                    elapsed: el,
                                    speed: sp,
                                    playlist_count: pc,
                                    playlist_index: pi,
                                },
                            ),
                            _ => None,
                        }
                    },
                    _ => None,
                }
            } else if ty == "end_of_video"@ {
                Some(ProgressView::EndOfVideo)
            } else if ty == "end_of_playlist"@ {
                Some(ProgressView::EndOfPlaylist)
            } else if ty == "post_processing"@ {
                match req_string(ms, "status"@) {
                    Some(st) => Some(ProgressView::PostProcessing { status: st }),
                    None => None,
                }
            } else if ty == "error"@ {
                match req_string(ms, "message"@) {
                    Some(m) => Some(ProgressView::Error { message: m }),
                    None => None,
                }
            } else {
                None
            }
        },
    }
}

} // verus!

verus! {

/// Extracts a required string field.
fn req_string_exec(ms: &Vec<Member>, k: &str) -> (r: Option<String>)
    ensures
        match r {
            Some(s) => req_string(members_view(ms@), k@) == Some(s@),
            None => req_string(members_view(ms@), k@) is None,
        },
{
    let (count, first) = key_probe(ms, k);
    if count != 1 {
        return None;
    }
    match first {
        Some(fi) => {
            proof {
                assert(members_view(ms@)[fi as int] == ms@[fi as int]@);
            }
            match &ms[fi].val {
                JsonVal::Str(s) => Some(s.clone()),
                _ => None,
            }
        },
        None => {
            proof {
                assert(false);
            }
            None
        },
    }
}

/// Extracts a required number field.
fn req_num_exec(ms: &Vec<Member>, k: &str) -> (r: Option<Decimal>)
    ensures
        match r {
            Some(d) => req_num(members_view(ms@), k@) == Some(d@),
            None => req_num(members_view(ms@), k@) is None,
        },
{
    let (count, first) = key_probe(ms, k);
    if count != 1 {
        return None;
    }
    match first {
        Some(fi) => {
            proof {
                assert(members_view(ms@)[fi as int] == ms@[fi as int]@);
            }
            match &ms[fi].val {
                JsonVal::Num(d) => Some(Decimal { int_part: d.int_part, frac: d.frac.clone() }),
                _ => None,
            }
        },
        None => {
            proof {
                assert(false);
            }
            None
        },
    }
}

/// Extracts an optional number field.
fn opt_num_exec(ms: &Vec<Member>, k: &str) -> (r: Option<Option<Decimal>>)
    ensures
        match r {
            Some(d) => opt_num(members_view(ms@), k@) == Some(opt_dec_view(d)),
            None => opt_num(members_view(ms@), k@) is None,
        },
{
    let (count, first) = key_probe(ms, k);
    if count == 0 {
        return Some(None);
    }
    if count != 1 {
        return None;
    }
    match first {
        Some(fi) => {
            proof {
                assert(members_view(ms@)[fi as int] == ms@[fi as int]@);
            }
            match &ms[fi].val {
                JsonVal::Num(d) => Some(
                    Some(Decimal { int_part: d.int_part, frac: d.frac.clone() }),
                ),
                JsonVal::Null => Some(None),
                _ => None,
            }
        },
        None => {
            proof {
                assert(false);
            }
            None
        },
    }
}

/// Extracts an optional playlist counter field.
fn opt_index_exec(ms: &Vec<Member>, k: &str) -> (r: Option<Option<u32>>)
    ensures
        match r {
            Some(d) => opt_index(members_view(ms@), k@) == Some(d),
            None => opt_index(members_view(ms@), k@) is None,
        },
{
    let (count, first) = key_probe(ms, k);
    if count == 0 {
        return Some(None);
    }
    if count != 1 {
        return None;
    }
    match first {
        Some(fi) => {
            proof {
                assert(members_view(ms@)[fi as int] == ms@[fi as int]@);
            }
            match &ms[fi].val {
                JsonVal::Num(d) => {
                    if d.frac.as_str().unicode_len() == 0 && d.int_part <= 0x7fffffff {
                        Some(Some(d.int_part as u32))
                    } else {
                        None
                    }
                },
                JsonVal::Null => Some(None),
                _ => None,
            }
        },
        None => {
            proof {
                assert(false);
            }
            None
        },
    }
}

/// Assembles the event that an object's members carry.
pub fn event_of_members_exec(ms: &Vec<Member>) -> (r: Option<Progress>)
    ensures
        match r {
            Some(p) => event_of_members(members_view(ms@)) == Some(p@),
            None => event_of_members(members_view(ms@)) is None,
        },
{
    let ty = match req_string_exec(ms, "type") {
        Some(t) => t,
        None => {
            return None;
        },
    };
    if str_eq(ty.as_str(), "pre_processing") {
        Some(Progress::PreProcessing)
    } else if str_eq(ty.as_str(), "pre_download") {
        match req_string_exec(ms, "video_id") {
            Some(id) => Some(Progress::PreDownload { video_id: id }),
            None => None,
        }
    } else if str_eq(ty.as_str(), "downloading") {
        let db = match req_num_exec(ms, "downloaded_bytes") {
            Some(x) => x,
            None => {
                return None;
            },
        };
        let el = match req_num_exec(ms, "elapsed") {
            Some(x) => x,
            None => {
                return None;
            },
        };
        let eta = match opt_num_exec(ms, "eta") {
            Some(x) => x,
            None => {
                return None;
            },
        };
        let tb = match opt_num_exec(ms, "total_bytes") {
            Some(x) => x,
            None => {
                return None;
            },
        };
        let tbe = match opt_num_exec(ms, "total_bytes_estimate") {
            Some(x) => x,
            None => {
                return None;
            },
        };
        let sp = match opt_num_exec(ms, "speed") {
            Some(x) => x,
            None => {
                return None;
            },
        };
        let pc = match opt_index_exec(ms, "playlist_count") {
            Some(x) => x,
            None => {
                return None;
            },
        };
        let pi = match opt_index_exec(ms, "playlist_index") {
            Some(x) => x,
            None => {
                return None;
            },
        };
        Some(Progress::Downloading {
            eta,
            downloaded_bytes: db,
            total_bytes: tb,
            total_bytes_estimate: tbe,
            elapsed: el,
            speed: sp,
            playlist_count: pc,
            playlist_index: pi,
        })
    } else if str_eq(ty.as_str(), "end_of_video") {
        Some(Progress::EndOfVideo)
    } else if str_eq(ty.as_str(), "end_of_playlist") {
        Some(Progress::EndOfPlaylist)
    } else if str_eq(ty.as_str(), "post_processing") {
        match req_string_exec(ms, "status") {
            Some(st) => Some(Progress::PostProcessing { status: st }),
            None => None,
        }
    } else if str_eq(ty.as_str(), "error") {
        match req_string_exec(ms, "message") {
            Some(m) => Some(Progress::Error { message: m }),
            None => None,
        }
    } else {
        None
    }
}

} // verus!

verus! {

/// Model of a terminal parse failure.
pub enum ProgressErrorView {
    AlreadyExists,
    PlaylistNotChecked,
    PrivateVideo,
    VideoUnavailable,
    NoPlaylist,
    Other(Seq<char>),
}

/// A terminal condition read from the downloader's output: one of five
/// known signal phrases, or a tagged error line's remainder.
#[derive(Debug, Clone, PartialEq, Eq)]
pub enum ProgressError {
    AlreadyExists,
    PlaylistNotChecked,
    PrivateVideo,
    VideoUnavailable,
    NoPlaylist,
    Other(String),
}

impl View for ProgressError {
    type V = ProgressErrorView;

    open spec fn view(&self) -> ProgressErrorView {
        match self {
            ProgressError::AlreadyExists => ProgressErrorView::AlreadyExists,
            ProgressError::PlaylistNotChecked => ProgressErrorView::PlaylistNotChecked,
            ProgressError::PrivateVideo => ProgressErrorView::PrivateVideo,
            ProgressError::VideoUnavailable => ProgressErrorView::VideoUnavailable,
            ProgressError::NoPlaylist => ProgressErrorView::NoPlaylist,
            ProgressError::Other(m) => ProgressErrorView::Other(m@),
        }
    }
}

/// The event one object text carries: the object must parse — the bare
/// placeholder token reads as an absent value at value positions, string
/// bodies pass through untouched — and its members must assemble; a
/// failure at either step yields nothing.
pub open spec fn decode_object(o: Seq<char>) -> Option<ProgressView> {
    match crate::json::parse_payload(o) {
        Some(ms) => event_of_members(ms),
        None => None,
    }
}

/// The events of one run of sentinel-separated object texts: each piece
/// that decodes contributes its event, the rest are skipped.
pub open spec fn events_of_objects(os: Seq<Seq<char>>) -> Seq<ProgressView>
    decreases os.len(),
{
    if os.len() == 0 {
        seq![]
    } else {
        (match decode_object(os[0]) {
            Some(e) => seq![e],
            None => seq![],
        }) + events_of_objects(os.drop_first())
    }
}

/// The events of one output line: a line opening with the sentinel is
/// split on every further sentinel; any other line carries none.
pub open spec fn events_of_line(l: Seq<char>) -> Seq<ProgressView> {
    if crate::text::starts_with(l, "__"@) {
        events_of_objects(crate::text::split_pat(l, "__"@))
    } else {
        seq![]
    }
}

/// The events of a fragment's lines, in order.
pub open spec fn events_of_lines(ls: Seq<Seq<char>>) -> Seq<ProgressView>
    decreases ls.len(),
{
    if ls.len() == 0 {
        seq![]
    } else {
        events_of_line(ls[0]) + events_of_lines(ls.drop_first())
    }
}

/// What parsing a fragment of the downloader's output yields. Six signal
/// conditions are checked first, in priority order, anywhere in the
/// fragment; otherwise every line is scanned for sentinel-tagged objects
/// and the decodable ones become events, in input order. The placeholder
/// token is read by the grammar as an absent value, so string fields keep
/// every character they arrived with.
pub open spec fn spec_parse_progress(s: Seq<char>) -> Result<Seq<ProgressView>, ProgressErrorView> {
    if crate::text::contains_seq(s, "has already been downloaded"@) {
        Err(ProgressErrorView::AlreadyExists)
    } else if crate::text::contains_seq(s, "entry does not pass filter (!playlist)"@) {
        Err(ProgressErrorView::PlaylistNotChecked)
    } else if crate::text::contains_seq(
        s,
        "Private video. Sign in if you've been granted access to this video"@,
    ) {
        Err(ProgressErrorView::PrivateVideo)
    } else if crate::text::contains_seq(s, "Video unavailable. This video contains content"@)
        || crate::text::contains_seq(
        s,
        "Video unavailable. This video is no longer available because the YouTube account associated with this video has been terminated."@,
    ) {
        Err(ProgressErrorView::VideoUnavailable)
    } else if crate::text::contains_seq(s, "YouTube said: The playlist does not exist."@) {
        Err(ProgressErrorView::NoPlaylist)
    } else if crate::text::starts_with(s, "stderr:ERROR: "@) {
        Err(ProgressErrorView::Other(s.subrange("stderr:ERROR: "@.len() as int, s.len() as int)))
    } else {
        Ok(events_of_lines(crate::text::split_lines(s)))
    }
}

/// Decodes one object text.
fn decode_object_exec(o: &str) -> (r: Option<Progress>)
    ensures
        match r {
            Some(p) => decode_object(o@) == Some(p@),
            None => decode_object(o@) is None,
        },
{
    match crate::json::parse_payload_exec(o) {
        Some(ms) => event_of_members_exec(&ms),
        None => None,
    }
}

/// Parses one fragment of the downloader's output into its events, or into
/// the terminal condition it signals.
pub fn parse_progress(progress: &str) -> (r: Result<Vec<Progress>, ProgressError>)
    ensures
        match r {
            Ok(v) => spec_parse_progress(progress@) == Ok::<_, ProgressErrorView>(
                progress_views(v@),
            ),
            Err(e) => spec_parse_progress(progress@) == Err::<Seq<ProgressView>, _>(e@),
        },
{
    if crate::text::contains_sub(progress, "has already been downloaded") {
        return Err(ProgressError::AlreadyExists);
    }
    if crate::text::contains_sub(progress, "entry does not pass filter (!playlist)") {
        return Err(ProgressError::PlaylistNotChecked);
    }
    if crate::text::contains_sub(
        progress,
        "Private video. Sign in if you've been granted access to this video",
    ) {
        return Err(ProgressError::PrivateVideo);
    }
    if crate::text::contains_sub(progress, "Video unavailable. This video contains content")
        || crate::text::contains_sub(
        progress,
        "Video unavailable. This video is no longer available because the YouTube account associated with this video has been terminated.",
    ) {
        return Err(ProgressError::VideoUnavailable);
    }
    if crate::text::contains_sub(progress, "YouTube said: The playlist does not exist.") {
        return Err(ProgressError::NoPlaylist);
    }
    if crate::text::starts_with_exec(progress, "stderr:ERROR: ") {
        let plen = "stderr:ERROR: ".unicode_len();
        let rest = progress.substring_char(plen, progress.unicode_len());
        return Err(ProgressError::Other(rest.to_owned()));
    }
    let lines = crate::text::lines_of(progress);
    let ghost line_views = crate::text::views_of(lines@);
    let mut events: Vec<Progress> = Vec::new();
    let mut li: usize = 0;
    proof {
        assert(progress_views(events@) =~= Seq::<ProgressView>::empty());
        assert(events_of_lines(line_views.subrange(0, 0)) =~= Seq::<ProgressView>::empty());
    }
    while li < lines.len()
        invariant
            0 <= li <= lines.len(),
            line_views == crate::text::views_of(lines@),
            line_views.len() == lines@.len(),
            progress_views(events@) =~= events_of_lines(line_views.subrange(0, li as int)),
        decreases lines.len() - li,
    {
        let line: &str = lines[li].as_str();
        proof {
            assert(line@ == line_views[li as int]);
        }
        let ghost before = events@;
        if crate::text::starts_with_exec(line, "__") {
            proof {
                reveal_strlit("__");
            }
            let pieces = crate::text::split_string(line, "__");
            let ghost piece_views = crate::text::views_of(pieces@);
            let mut pi: usize = 0;
            proof {
                assert(progress_views(events@) =~= events_of_lines(
                    line_views.subrange(0, li as int),
                ) + events_of_objects(piece_views.subrange(0, 0)));
            }
            while pi < pieces.len()
                invariant
                    0 <= pi <= pieces.len(),
                    piece_views == crate::text::views_of(pieces@),
                    piece_views.len() == pieces@.len(),
                    progress_views(events@) =~= events_of_lines(
                        line_views.subrange(0, li as int),
                    ) + events_of_objects(piece_views.subrange(0, pi as int)),
                decreases pieces.len() - pi,
            {
                let ghost mid = events@;
                match decode_object_exec(pieces[pi].as_str()) {
                    Some(p) => {
                        events.push(p);
                        proof {
                            assert(progress_views(events@) =~= progress_views(mid).push(p@));
                        }
                    },
                    None => {},
                }
                proof {
                    lemma_events_of_objects_step(piece_views, pi as int);
                    assert(piece_views.subrange(0, pi as int).push(piece_views[pi as int])
                        =~= piece_views.subrange(0, pi + 1));
                }
                pi += 1;
            }
            proof {
                assert(piece_views.subrange(0, pieces@.len() as int) =~= piece_views);
                assert(events_of_line(line@) == events_of_objects(piece_views));
            }
        }
        proof {
            lemma_events_of_lines_step(line_views, li as int);
            assert(line_views.subrange(0, li as int).push(line_views[li as int]) =~= line_views
                .subrange(0, li + 1));
            if !crate::text::starts_with(line@, "__"@) {
                assert(events_of_line(line@) =~= Seq::<ProgressView>::empty());
            }
        }
        li += 1;
    }
    proof {
        assert(line_views.subrange(0, lines@.len() as int) =~= line_views);
    }
    Ok(events)
}

/// Appending one line's events extends the flattened run.
proof fn lemma_events_of_lines_step(ls: Seq<Seq<char>>, i: int)
    requires
        0 <= i < ls.len(),
    ensures
        events_of_lines(ls.subrange(0, i + 1)) =~= events_of_lines(ls.subrange(0, i))
            + events_of_line(ls[i]),
    decreases i,
{
    lemma_events_of_lines_snoc(ls.subrange(0, i + 1));
    assert(ls.subrange(0, i + 1).drop_last() =~= ls.subrange(0, i));
    assert(ls.subrange(0, i + 1).last() == ls[i]);
}

/// The events of a non-empty run split at its last line.
proof fn lemma_events_of_lines_snoc(ls: Seq<Seq<char>>)
    requires
        ls.len() >= 1,
    ensures
        events_of_lines(ls) =~= events_of_lines(ls.drop_last()) + events_of_line(ls.last()),
    decreases ls.len(),
{
    if ls.len() == 1 {
        assert(ls.drop_first() =~= Seq::<Seq<char>>::empty());
        assert(ls.drop_last() =~= Seq::<Seq<char>>::empty());
    } else {
        lemma_events_of_lines_snoc(ls.drop_first());
        assert(ls.drop_first().drop_last() =~= ls.drop_last().drop_first());
        assert(ls.drop_first().last() == ls.last());
        assert(events_of_lines(ls.drop_last()) =~= events_of_line(ls.drop_last()[0])
            + events_of_lines(ls.drop_last().drop_first()));
        assert(ls.drop_last()[0] == ls[0]);
    }
}

/// Appending one object's events extends the flattened run.
proof fn lemma_events_of_objects_step(os: Seq<Seq<char>>, i: int)
    requires
        0 <= i < os.len(),
    ensures
        events_of_objects(os.subrange(0, i + 1)) =~= events_of_objects(os.subrange(0, i)) + (
        match decode_object(os[i]) {
            Some(e) => seq![e],
            None => Seq::<ProgressView>::empty(),
        }),
    decreases i,
{
    lemma_events_of_objects_snoc(os.subrange(0, i + 1));
    assert(os.subrange(0, i + 1).drop_last() =~= os.subrange(0, i));
    assert(os.subrange(0, i + 1).last() == os[i]);
}

/// The events of a non-empty run of objects split at the last object.
proof fn lemma_events_of_objects_snoc(os: Seq<Seq<char>>)
    requires
        os.len() >= 1,
    ensures
        events_of_objects(os) =~= events_of_objects(os.drop_last()) + (match decode_object(
            os.last(),
        ) {
            Some(e) => seq![e],
            None => Seq::<ProgressView>::empty(),
        }),
    decreases os.len(),
{
    if os.len() == 1 {
        assert(os.drop_first() =~= Seq::<Seq<char>>::empty());
        assert(os.drop_last() =~= Seq::<Seq<char>>::empty());
    } else {
        lemma_events_of_objects_snoc(os.drop_first());
        assert(os.drop_first().drop_last() =~= os.drop_last().drop_first());
        assert(os.drop_first().last() == os.last());
        assert(events_of_objects(os.drop_last()) =~= (match decode_object(os.drop_last()[0]) {
            Some(e) => seq![e],
            None => Seq::<ProgressView>::empty(),
        }) + events_of_objects(os.drop_last().drop_first()));
        assert(os.drop_last()[0] == os[0]);
    }
}

} // verus!

verus! {

/// The events one decoded object contributes: one event or none.
pub open spec fn opt_events(d: Option<ProgressView>) -> Seq<ProgressView> {
    match d {
        Some(e) => seq![e],
        None => seq![],
    }
}

/// A one-line fragment carrying two sentinel-delimited object texts
/// back-to-back yields exactly the events of the two objects, in order:
/// both events where both decode, only the sound one where the other is
/// malformed. The fragment must reach the object path: it holds no
/// newline and no signal phrase, the object texts hold no sentinel of
/// their own, and the first does not end in half a sentinel.
#[verifier::rlimit(100)]
pub proof fn lemma_two_piece_line(l: Seq<char>, o1: Seq<char>, o2: Seq<char>)
    requires
        l == "__"@ + o1 + "__"@ + o2,
        o1.len() >= 1,
        o1.last() != '_',
        !crate::text::contains_seq(o1, "__"@),
        !crate::text::contains_seq(o2, "__"@),
        forall|i: int| 0 <= i < l.len() ==> l[i] != '\n' && l[i] != '\r',
        !crate::text::contains_seq(l, "has already been downloaded"@),
        !crate::text::contains_seq(l, "entry does not pass filter (!playlist)"@),
        !crate::text::contains_seq(
            l,
            "Private video. Sign in if you've been granted access to this video"@,
        ),
        !crate::text::contains_seq(l, "Video unavailable. This video contains content"@),
        !crate::text::contains_seq(
            l,
            "Video unavailable. This video is no longer available because the YouTube account associated with this video has been terminated."@,
        ),
        !crate::text::contains_seq(l, "YouTube said: The playlist does not exist."@),
        !crate::text::starts_with(l, "stderr:ERROR: "@),
    ensures
        spec_parse_progress(l) == Ok::<_, ProgressErrorView>(
            opt_events(decode_object(o1)) + opt_events(decode_object(o2)),
        ),
{
    reveal_strlit("__");
    reveal_strlit("NA");
    assert("__"@ =~= seq!['_', '_']);
    let uu = "__"@;
    let n1 = o1.len() as int;
    let n2 = o2.len() as int;

    // no signal fires, so the fragment is read line by line
    assert(spec_parse_progress(l) == Ok::<_, ProgressErrorView>(
        events_of_lines(crate::text::split_lines(l)),
    ));

    // one line: no newline anywhere, no carriage return to strip
    crate::text::lemma_no_char_no_match(l, seq!['\n'], '\n', 0);
    crate::text::lemma_find_none_not_contains(l, seq!['\n']);
    assert(crate::text::find_from(l, seq!['\n'], 0) is None);
    assert(l.len() > 0);
    assert(crate::text::split_lines(l) =~= seq![crate::text::strip_cr(l)]);
    assert(l.last() != '\r');
    assert(crate::text::strip_cr(l) == l);
    assert(events_of_lines(seq![l]) =~= events_of_line(l) + events_of_lines(
        seq![l].drop_first(),
    ));
    assert(seq![l].drop_first() =~= Seq::<Seq<char>>::empty());
    assert(events_of_lines(seq![l]) =~= events_of_line(l));

    // the line opens with the sentinel
    assert(l.subrange(0, 2) =~= uu);
    assert(crate::text::starts_with(l, uu));

    // the line splits on the sentinel into "", o1 and o2
    assert(crate::text::match_at(l, uu, 0));
    crate::text::lemma_find_from_is(l, uu, 0, 0);
    let rest1 = l.subrange(2, l.len() as int);
    assert(rest1 =~= o1 + uu + o2);
    assert(crate::text::split_pat(l, uu) =~= seq![l.subrange(0, 0)] + crate::text::split_pat(
        rest1,
        uu,
    ));

    assert(rest1.subrange(n1, n1 + 2) =~= uu);
    assert(crate::text::match_at(rest1, uu, n1));
    assert forall|j: int| 0 <= j < n1 implies !crate::text::match_at(rest1, uu, j) by {
        if crate::text::match_at(rest1, uu, j) {
            if j + 2 <= n1 {
                assert(rest1.subrange(j, j + 2)[0] == rest1[j]);
                assert(rest1.subrange(j, j + 2)[1] == rest1[j + 1]);
                assert(o1.subrange(j, j + 2) =~= rest1.subrange(j, j + 2));
                assert(crate::text::match_at(o1, uu, j));
                assert(crate::text::contains_seq(o1, uu));
            } else {
                assert(j == n1 - 1);
                assert(rest1.subrange(j, j + 2)[0] == rest1[j]);
                assert(rest1[j] == o1[n1 - 1]);
                assert(o1[n1 - 1] == '_');
            }
        }
    }
    crate::text::lemma_find_from_is(rest1, uu, 0, n1);
    let rest2 = rest1.subrange(n1 + 2, rest1.len() as int);
    assert(rest2 =~= o2);
    assert(rest1.subrange(0, n1) =~= o1);
    assert(crate::text::split_pat(rest1, uu) =~= seq![o1] + crate::text::split_pat(o2, uu));

    crate::text::lemma_find_none_not_contains(o2, uu);
    assert(crate::text::split_pat(o2, uu) =~= seq![o2]);
    assert(crate::text::split_pat(rest1, uu) =~= seq![o1, o2]);
    assert(l.subrange(0, 0) =~= Seq::<char>::empty());
    assert(crate::text::split_pat(l, uu) =~= seq![Seq::<char>::empty(), o1, o2]);

    // the empty leading piece decodes to nothing
    let e = Seq::<char>::empty();
    assert(crate::json::skip_ws(e, 0) == 0);
    assert(crate::json::parse_payload(e) is None);
    assert(decode_object(e) is None);

    // assemble the events of the three pieces
    let pieces = seq![Seq::<char>::empty(), o1, o2];
    assert(events_of_objects(pieces) =~= opt_events(decode_object(pieces[0])) + events_of_objects(
        pieces.drop_first(),
    ));
    assert(pieces.drop_first() =~= seq![o1, o2]);
    assert(events_of_objects(seq![o1, o2]) =~= opt_events(decode_object(o1)) + events_of_objects(
        seq![o1, o2].drop_first(),
    ));
    assert(seq![o1, o2].drop_first() =~= seq![o2]);
    assert(events_of_objects(seq![o2]) =~= opt_events(decode_object(o2)) + events_of_objects(
        seq![o2].drop_first(),
    ));
    assert(seq![o2].drop_first() =~= Seq::<Seq<char>>::empty());
    assert(events_of_objects(pieces) =~= opt_events(decode_object(o1)) + opt_events(
        decode_object(o2),
    ));
    assert(events_of_line(l) =~= events_of_objects(pieces));
}

} // verus!

verus! {

/// A fragment carrying a known signal phrase parses to the corresponding
/// typed failure and to no events, the phrases checked in priority order:
/// an already-downloaded notice beats the filter notice, which beats the
/// private-video notice, then the two unavailable phrasings, then the
/// missing-playlist notice, and a tagged error line is taken last.
pub proof fn lemma_signal_errors(s: Seq<char>)
    ensures
        crate::text::contains_seq(s, "has already been downloaded"@) ==> spec_parse_progress(s)
            == Err::<Seq<ProgressView>, _>(ProgressErrorView::AlreadyExists),
        !crate::text::contains_seq(s, "has already been downloaded"@) && crate::text::contains_seq(
            s,
            "entry does not pass filter (!playlist)"@,
        ) ==> spec_parse_progress(s) == Err::<Seq<ProgressView>, _>(
            ProgressErrorView::PlaylistNotChecked,
        ),
        !crate::text::contains_seq(s, "has already been downloaded"@)
            && !crate::text::contains_seq(s, "entry does not pass filter (!playlist)"@)
            && crate::text::contains_seq(
            s,
            "Private video. Sign in if you've been granted access to this video"@,
        ) ==> spec_parse_progress(s) == Err::<Seq<ProgressView>, _>(
            ProgressErrorView::PrivateVideo,
        ),
        !crate::text::contains_seq(s, "has already been downloaded"@)
            && !crate::text::contains_seq(s, "entry does not pass filter (!playlist)"@)
            && !crate::text::contains_seq(
            s,
            "Private video. Sign in if you've been granted access to this video"@,
        ) && (crate::text::contains_seq(s, "Video unavailable. This video contains content"@)
            || crate::text::contains_seq(
            s,
            "Video unavailable. This video is no longer available because the YouTube account associated with this video has been terminated."@,
        )) ==> spec_parse_progress(s) == Err::<Seq<ProgressView>, _>(
            ProgressErrorView::VideoUnavailable,
        ),
        !crate::text::contains_seq(s, "has already been downloaded"@)
            && !crate::text::contains_seq(s, "entry does not pass filter (!playlist)"@)
            && !crate::text::contains_seq(
            s,
            "Private video. Sign in if you've been granted access to this video"@,
        ) && !crate::text::contains_seq(s, "Video unavailable. This video contains content"@)
            && !crate::text::contains_seq(
            s,
            "Video unavailable. This video is no longer available because the YouTube account associated with this video has been terminated."@,
        ) && crate::text::contains_seq(s, "YouTube said: The playlist does not exist."@)
            ==> spec_parse_progress(s) == Err::<Seq<ProgressView>, _>(
            ProgressErrorView::NoPlaylist,
        ),
        !crate::text::contains_seq(s, "has already been downloaded"@)
            && !crate::text::contains_seq(s, "entry does not pass filter (!playlist)"@)
            && !crate::text::contains_seq(
            s,
            "Private video. Sign in if you've been granted access to this video"@,
        ) && !crate::text::contains_seq(s, "Video unavailable. This video contains content"@)
            && !crate::text::contains_seq(
            s,
            "Video unavailable. This video is no longer available because the YouTube account associated with this video has been terminated."@,
        ) && !crate::text::contains_seq(s, "YouTube said: The playlist does not exist."@)
            && crate::text::starts_with(s, "stderr:ERROR: "@) ==> spec_parse_progress(s) == Err::<
            Seq<ProgressView>,
            _,
        >(ProgressErrorView::Other(s.subrange("stderr:ERROR: "@.len() as int, s.len() as int))),
{
}

/// Parsing is a pure function of the fragment: equal fragments always
/// yield equal results, so parsing twice changes nothing.
pub proof fn lemma_parse_progress_pure(s1: Seq<char>, s2: Seq<char>)
    requires
        s1 == s2,
    ensures
        spec_parse_progress(s1) == spec_parse_progress(s2),
{
}

} // verus!

verus! {

/// A one-line fragment carrying one sentinel-prefixed object text parses
/// to exactly the event that object decodes to — every present field
/// preserved, the placeholder token read as absent by `decode_object` —
/// and to nothing else. The fragment must reach the object path: it holds
/// no newline and no signal phrase, and the object text holds no sentinel
/// of its own.
#[verifier::rlimit(100)]
pub proof fn lemma_single_object_fragment(l: Seq<char>, o: Seq<char>, e: ProgressView)
    requires
        l == "__"@ + o,
        !crate::text::contains_seq(o, "__"@),
        decode_object(o) == Some(e),
        forall|i: int| 0 <= i < l.len() ==> l[i] != '\n' && l[i] != '\r',
        !crate::text::contains_seq(l, "has already been downloaded"@),
        !crate::text::contains_seq(l, "entry does not pass filter (!playlist)"@),
        !crate::text::contains_seq(
            l,
            "Private video. Sign in if you've been granted access to this video"@,
        ),
        !crate::text::contains_seq(l, "Video unavailable. This video contains content"@),
        !crate::text::contains_seq(
            l,
            "Video unavailable. This video is no longer available because the YouTube account associated with this video has been terminated."@,
        ),
        !crate::text::contains_seq(l, "YouTube said: The playlist does not exist."@),
        !crate::text::starts_with(l, "stderr:ERROR: "@),
    ensures
        spec_parse_progress(l) == Ok::<_, ProgressErrorView>(seq![e]),
{
    reveal_strlit("__");
    assert("__"@ =~= seq!['_', '_']);
    let uu = "__"@;

    // no signal fires, so the fragment is read line by line
    assert(spec_parse_progress(l) == Ok::<_, ProgressErrorView>(
        events_of_lines(crate::text::split_lines(l)),
    ));

    // one line: no newline anywhere, no carriage return to strip
    crate::text::lemma_no_char_no_match(l, seq!['\n'], '\n', 0);
    crate::text::lemma_find_none_not_contains(l, seq!['\n']);
    assert(l.len() > 0);
    assert(crate::text::split_lines(l) =~= seq![crate::text::strip_cr(l)]);
    assert(l.last() != '\r');
    assert(crate::text::strip_cr(l) == l);
    assert(events_of_lines(seq![l]) =~= events_of_line(l) + events_of_lines(
        seq![l].drop_first(),
    ));
    assert(seq![l].drop_first() =~= Seq::<Seq<char>>::empty());
    assert(events_of_lines(seq![l]) =~= events_of_line(l));

    // the line opens with the sentinel and splits into "" and the object
    assert(l.subrange(0, 2) =~= uu);
    assert(crate::text::starts_with(l, uu));
    assert(crate::text::match_at(l, uu, 0));
    crate::text::lemma_find_from_is(l, uu, 0, 0);
    let rest = l.subrange(2, l.len() as int);
    assert(rest =~= o);
    crate::text::lemma_find_none_not_contains(o, uu);
    assert(crate::text::split_pat(o, uu) =~= seq![o]);
    assert(l.subrange(0, 0) =~= Seq::<char>::empty());
    assert(crate::text::split_pat(l, uu) =~= seq![Seq::<char>::empty(), o]);

    // the empty leading piece decodes to nothing
    let emp = Seq::<char>::empty();
    assert(crate::json::skip_ws(emp, 0) == 0);
    assert(crate::json::parse_payload(emp) is None);
    assert(decode_object(emp) is None);

    // assemble: the one decoded event, nothing else
    let pieces = seq![Seq::<char>::empty(), o];
    assert(events_of_objects(pieces) =~= opt_events(decode_object(pieces[0])) + events_of_objects(
        pieces.drop_first(),
    ));
    assert(pieces.drop_first() =~= seq![o]);
    assert(events_of_objects(seq![o]) =~= opt_events(decode_object(o)) + events_of_objects(
        seq![o].drop_first(),
    ));
    assert(seq![o].drop_first() =~= Seq::<Seq<char>>::empty());
    assert(events_of_objects(pieces) =~= seq![e]);
    assert(events_of_line(l) =~= events_of_objects(pieces));
}

} // verus!

verus! {

/// Two sound sentinel-delimited objects back-to-back on one line parse to
/// exactly their two events, in input order.
pub proof fn lemma_two_valid_objects(
    l: Seq<char>,
    o1: Seq<char>,
    o2: Seq<char>,
    e1: ProgressView,
    e2: ProgressView,
)
    requires
        l == "__"@ + o1 + "__"@ + o2,
        o1.len() >= 1,
        o1.last() != '_',
        !crate::text::contains_seq(o1, "__"@),
        !crate::text::contains_seq(o2, "__"@),
        decode_object(o1) == Some(e1),
        decode_object(o2) == Some(e2),
        forall|i: int| 0 <= i < l.len() ==> l[i] != '\n' && l[i] != '\r',
        !crate::text::contains_seq(l, "has already been downloaded"@),
        !crate::text::contains_seq(l, "entry does not pass filter (!playlist)"@),
        !crate::text::contains_seq(
            l,
            "Private video. Sign in if you've been granted access to this video"@,
        ),
        !crate::text::contains_seq(l, "Video unavailable. This video contains content"@),
        !crate::text::contains_seq(
            l,
            "Video unavailable. This video is no longer available because the YouTube account associated with this video has been terminated."@,
        ),
        !crate::text::contains_seq(l, "YouTube said: The playlist does not exist."@),
        !crate::text::starts_with(l, "stderr:ERROR: "@),
    ensures
        spec_parse_progress(l) == Ok::<_, ProgressErrorView>(seq![e1, e2]),
{
    lemma_two_piece_line(l, o1, o2);
    assert(opt_events(decode_object(o1)) + opt_events(decode_object(o2)) =~= seq![e1, e2]);
}

/// A malformed object beside a sound one is skipped, never fatal: only
/// the sound object's event comes back, whichever of the two decodes.
pub proof fn lemma_malformed_object_skipped(
    l: Seq<char>,
    o1: Seq<char>,
    o2: Seq<char>,
    e: ProgressView,
)
    requires
        l == "__"@ + o1 + "__"@ + o2,
        o1.len() >= 1,
        o1.last() != '_',
        !crate::text::contains_seq(o1, "__"@),
        !crate::text::contains_seq(o2, "__"@),
        (decode_object(o1) == Some(e) && decode_object(o2) is None) || (decode_object(o1) is None
            && decode_object(o2) == Some(e)),
        forall|i: int| 0 <= i < l.len() ==> l[i] != '\n' && l[i] != '\r',
        !crate::text::contains_seq(l, "has already been downloaded"@),
        !crate::text::contains_seq(l, "entry does not pass filter (!playlist)"@),
        !crate::text::contains_seq(
            l,
            "Private video. Sign in if you've been granted access to this video"@,
        ),
        !crate::text::contains_seq(l, "Video unavailable. This video contains content"@),
        !crate::text::contains_seq(
            l,
            "Video unavailable. This video is no longer available because the YouTube account associated with this video has been terminated."@,
        ),
        !crate::text::contains_seq(l, "YouTube said: The playlist does not exist."@),
        !crate::text::starts_with(l, "stderr:ERROR: "@),
    ensures
        spec_parse_progress(l) == Ok::<_, ProgressErrorView>(seq![e]),
{
    lemma_two_piece_line(l, o1, o2);
    assert(opt_events(decode_object(o1)) + opt_events(decode_object(o2)) =~= seq![e]);
}

} // verus!
