use vstd::prelude::*;

use crate::error::{DownloadError, DownloadErrorView};
use crate::json::is_ws;
use crate::text::views_of;

verus! {

/// Whether a session downloads the video or extracts its audio.
#[derive(Debug, Clone, PartialEq, Eq, Structural)]
pub enum DownloadType {
    Video,
    Audio,
}

/// Which pane of the window is active.
#[derive(Debug, Clone, PartialEq, Eq, Structural)]
pub enum Tab {
    Video,
    Audio,
    Settings,
}

/// Whether link syntax validation accepts the text as an absolute URL.
pub uninterp spec fn url_accepts(s: Seq<char>) -> bool;

/// Relies on url::Url::parse: absolute-URL syntax validation, a pure
/// function of the link text alone.
#[verifier::external_body]
fn link_is_valid(link: &str) -> (r: bool)
    ensures
        r == url_accepts(link@),
{
    url::Url::parse(link).is_ok()
}

/// First position at or after `i` that holds whitespace (or the end).
pub open spec fn scan_non_ws(s: Seq<char>, i: int) -> int
    decreases s.len() - i,
{
    if i < 0 || i >= s.len() {
        i
    } else if !is_ws(s[i]) {
        scan_non_ws(s, i + 1)
    } else {
        i
    }
}

/// `scan_non_ws` stays within bounds, skips non-blanks only, and stops on
/// the first blank.
pub proof fn lemma_scan_non_ws(s: Seq<char>, i: int)
    requires
        0 <= i <= s.len(),
    ensures
        i <= scan_non_ws(s, i) <= s.len(),
        scan_non_ws(s, i) < s.len() ==> is_ws(s[scan_non_ws(s, i)]),
        forall|k: int| i <= k < scan_non_ws(s, i) ==> !is_ws(#[trigger] s[k]),
    decreases s.len() - i,
{
    if i < s.len() && !is_ws(s[i]) {
        lemma_scan_non_ws(s, i + 1);
    }
}

/// The whitespace-separated words of `s` at or after `i`: each maximal
/// run of non-blank characters, in order.
pub open spec fn ws_tokens(s: Seq<char>, i: int) -> Seq<Seq<char>>
    decreases s.len() - i,
    via ws_tokens_decreases
{
    if i < 0 || i >= s.len() {
        seq![]
    } else if is_ws(s[i]) {
        ws_tokens(s, i + 1)
    } else {
        seq![s.subrange(i, scan_non_ws(s, i))] + ws_tokens(s, scan_non_ws(s, i))
    }
}

#[via_fn]
proof fn ws_tokens_decreases(s: Seq<char>, i: int) {
    if 0 <= i < s.len() && !is_ws(s[i]) {
        lemma_scan_non_ws(s, i);
    }
}

/// Splits the input into its whitespace-separated words.
pub fn link_tokens(input: &str) -> (r: Vec<String>)
    ensures
        views_of(r@) == ws_tokens(input@, 0),
{
    let n = input.unicode_len();
    let mut out: Vec<String> = Vec::new();
    let mut i: usize = 0;
    proof {
        assert(views_of(out@) =~= Seq::<Seq<char>>::empty());
    }
    while i < n
        invariant
            0 <= i <= n,
            n == input@.len(),
            views_of(out@) + ws_tokens(input@, i as int) =~= ws_tokens(input@, 0),
        decreases n - i,
    {
        if is_ws_at(input, i) {
            i += 1;
        } else {
            proof {
                lemma_scan_non_ws(input@, i as int);
            }
            let j = scan_non_ws_exec(input, i);
            let ghost old_out = out@;
            let tok = input.substring_char(i, j);
            out.push(tok.to_owned());
            proof {
                assert(views_of(out@) =~= views_of(old_out).push(tok@));
                assert(views_of(out@) + ws_tokens(input@, j as int) =~= ws_tokens(input@, 0));
            }
            i = j;
        }
    }
    proof {
        assert(views_of(out@) =~= ws_tokens(input@, 0));
    }
    out
}

/// Skips non-blank characters from `i`.
fn scan_non_ws_exec(s: &str, i: usize) -> (r: usize)
    requires
        i <= s@.len(),
    ensures
        r == scan_non_ws(s@, i as int),
        i <= r <= s@.len(),
{
    proof {
        lemma_scan_non_ws(s@, i as int);
    }
    let n = s.unicode_len();
    let mut k: usize = i;
    while k < n && !is_ws_at(s, k)
        invariant
            i <= k <= n,
            n == s@.len(),
            scan_non_ws(s@, i as int) == scan_non_ws(s@, k as int),
        decreases n - k,
    {
        k += 1;
    }
    proof {
        lemma_scan_non_ws(s@, k as int);
    }
    k
}

/// Whether the character at `i` is whitespace.
fn is_ws_at(s: &str, i: usize) -> (r: bool)
    requires
        i < s@.len(),
    ensures
        r == is_ws(s@[i as int]),
{
    let c = s.get_char(i);
    c == ' ' || c == '\t' || c == '\n' || c == '\r'
}

/// The whitespace-separated link tokens of a submission.
pub open spec fn spec_link_tokens(input: Seq<char>) -> Seq<Seq<char>> {
    ws_tokens(input, 0)
}

/// The first token at or after `i` that link validation rejects.
pub open spec fn first_invalid_from(toks: Seq<Seq<char>>, i: int) -> Option<int>
    decreases toks.len() - i,
{
    if i < 0 || i >= toks.len() {
        None
    } else if !url_accepts(toks[i]) {
        Some(i)
    } else {
        first_invalid_from(toks, i + 1)
    }
}

/// What validating a submission yields: input holding no word at all is
/// rejected as empty; otherwise the first word failing URL syntax
/// validation is reported with its 1-based position, and with none
/// failing the words are the download links.
pub open spec fn spec_validate_links(input: Seq<char>) -> Result<
    Seq<Seq<char>>,
    DownloadErrorView,
> {
    let toks = spec_link_tokens(input);
    if toks.len() == 0 {
        Err(DownloadErrorView::NoDownloadURL)
    } else {
        match first_invalid_from(toks, 0) {
            Some(k) => Err(DownloadErrorView::InvalidURL(k + 1)),
            None => Ok(toks),
        }
    }
}

/// Validates a submission's links before anything is spawned.
pub fn validate_links(input: &str) -> (r: Result<Vec<String>, DownloadError>)
    ensures
        match r {
            Ok(v) => spec_validate_links(input@) == Ok::<_, DownloadErrorView>(views_of(v@)),
            Err(e) => spec_validate_links(input@) == Err::<Seq<Seq<char>>, _>(e@),
        },
{
    let toks = link_tokens(input);
    if toks.len() == 0 {
        return Err(DownloadError::NoDownloadURL);
    }
    let ghost tok_views = views_of(toks@);
    let n = toks.len();
    let mut i: usize = 0;
    while i < n
        invariant
            0 <= i <= n,
            n == toks@.len(),
            tok_views == views_of(toks@),
            tok_views.len() == n,
            tok_views == spec_link_tokens(input@),
            tok_views.len() != 0,
            first_invalid_from(tok_views, 0) == first_invalid_from(tok_views, i as int),
        decreases n - i,
    {
        proof {
            assert(tok_views[i as int] == toks@[i as int]@);
        }
        if !link_is_valid(toks[i].as_str()) {
            return Err(DownloadError::InvalidURL(i + 1));
        }
        i += 1;
    }
    Ok(toks)
}

} // verus!

verus! {

/// Model of one download session's UI-facing state.
pub struct SessionView {
    pub running: bool,
    pub is_playlist: bool,
    pub videos_num: int,
    pub progress: Option<int>,
    pub playlist_progress: Option<Seq<char>>,
    pub message: Option<Result<Seq<char>, DownloadErrorView>>,
}

/// One download session: whether a subprocess is owned, the playlist
/// flag, how many queued single-video links remain, and the UI-facing
/// progress percentage (hundredths of a percent, absent until the first
/// downloading event), playlist position text and message.
pub struct Session {
    pub running: bool,
    pub is_playlist: bool,
    pub videos_num: usize,
    pub progress: Option<u64>,
    pub playlist_progress: Option<String>,
    pub message: Option<Result<String, DownloadError>>,
}

/// The view of an optional progress percentage.
pub open spec fn progress_view(p: Option<u64>) -> Option<int> {
    match p {
        Some(v) => Some(v as int),
        None => None,
    }
}

/// The view of an optional text.
pub open spec fn opt_string_view(s: Option<String>) -> Option<Seq<char>> {
    match s {
        Some(v) => Some(v@),
        None => None,
    }
}

/// The view of an optional message-or-failure.
pub open spec fn message_view(m: Option<Result<String, DownloadError>>) -> Option<
    Result<Seq<char>, DownloadErrorView>,
> {
    match m {
        Some(Ok(s)) => Some(Ok(s@)),
        Some(Err(e)) => Some(Err(e@)),
        None => None,
    }
}

impl View for Session {
    type V = SessionView;

    open spec fn view(&self) -> SessionView {
        SessionView {
            running: self.running,
            is_playlist: self.is_playlist,
            videos_num: self.videos_num as int,
            progress: progress_view(self.progress),
            playlist_progress: opt_string_view(self.playlist_progress),
            message: message_view(self.message),
        }
    }
}

/// The idle session: nothing running, nothing shown.
pub open spec fn spec_idle_session(is_playlist: bool) -> SessionView {
    SessionView {
        running: false,
        is_playlist,
        videos_num: 0,
        progress: None,
        playlist_progress: None,
        message: None,
    }
}

impl Session {
    /// A fresh idle session.
    pub fn new(is_playlist: bool) -> (r: Session)
        ensures
            r@ == spec_idle_session(is_playlist),
    {
        Session {
            running: false,
            is_playlist,
            videos_num: 0,
            progress: None,
            playlist_progress: None,
            message: None,
        }
    }

    /// There is more than one queued single-video link left.
    pub fn is_multiple_videos(&self) -> (r: bool)
        ensures
            r == (self@.videos_num > 1),
    {
        self.videos_num > 1
    }

    /// One queued single-video link has finished.
    pub fn finished_single_video(&mut self)
        requires
            old(self)@.videos_num >= 1,
        ensures
            final(self)@ == (SessionView { videos_num: old(self)@.videos_num - 1, ..old(self)@ }),
    {
        self.videos_num = self.videos_num - 1;
    }

    /// A subprocess is owned.
    pub fn is_running(&self) -> (r: bool)
        ensures
            r == self@.running,
    {
        self.running
    }
}

} // verus!

verus! {

/// The downloaded-size text: mebibytes with two decimals, or gibibytes
/// once more than 1024.00 MB are down.
pub open spec fn spec_size_text(bytes: int) -> Seq<char> {
    let mb = crate::num::spec_mb_hundredths(bytes);
    if mb > 102400 {
        crate::num::spec_hundredths_string(mb / 1024) + "GB"@
    } else {
        crate::num::spec_hundredths_string(mb) + "MB"@
    }
}

/// The whole part of an optional decimal, zero when absent.
pub open spec fn spec_or_zero(d: Option<crate::num::DecimalView>) -> int {
    match d {
        Some(x) => x.int_part as int,
        None => 0,
    }
}

/// The message a downloading snapshot shows: the size downloaded, the
/// speed in mebibytes per second, and the whole-second countdown, its
/// fraction truncated toward zero, as minutes and seconds.
pub open spec fn spec_downloading_message(
    eta: Option<crate::num::DecimalView>,
    downloaded_bytes: crate::num::DecimalView,
    speed: Option<crate::num::DecimalView>,
) -> Seq<char> {
    spec_size_text(downloaded_bytes.int_part as int) + " | "@ + crate::num::spec_hundredths_string(
        crate::num::spec_mb_hundredths(spec_or_zero(speed)),
    ) + "MB/s | ETA "@ + crate::num::spec_clock_string(spec_or_zero(eta))
}

/// Writes the message of one downloading snapshot.
pub fn downloading_message(
    eta: &Option<crate::num::Decimal>,
    downloaded_bytes: &crate::num::Decimal,
    speed: &Option<crate::num::Decimal>,
) -> (r: String)
    ensures
        r@ == spec_downloading_message(
            crate::progress::opt_dec_view(*eta),
            downloaded_bytes@,
            crate::progress::opt_dec_view(*speed),
        ),
{
    let mb = crate::num::mb_hundredths(downloaded_bytes.int_part);
    let mut s: String = if mb > 102400 {
        crate::num::hundredths_string(mb / 1024)
    } else {
        crate::num::hundredths_string(mb)
    };
    if mb > 102400 {
        s.append("GB");
    } else {
        s.append("MB");
    }
    s.append(" | ");
    let speed_whole: u64 = match speed {
        Some(d) => d.int_part,
        None => 0,
    };
    s.append(crate::num::hundredths_string(crate::num::mb_hundredths(speed_whole)).as_str());
    s.append("MB/s | ETA ");
    let eta_whole: u64 = match eta {
        Some(d) => d.int_part,
        None => 0,
    };
    s.append(crate::num::clock_string(eta_whole).as_str());
    s
}

/// The playlist position text: which entry of how many is downloading.
pub open spec fn spec_playlist_position(count: int, index: int) -> Seq<char> {
    "Downloading "@ + crate::text::dec_digits(index) + "/"@ + crate::text::dec_digits(count)
}

/// Writes the playlist position text.
pub fn playlist_position(count: u32, index: u32) -> (r: String)
    ensures
        r@ == spec_playlist_position(count as int, index as int),
{
    let mut s = "Downloading ".to_owned();
    s.append(crate::text::u64_string(index as u64).as_str());
    s.append("/");
    s.append(crate::text::u64_string(count as u64).as_str());
    s
}

/// The denominator a percentage is computed against: the total size when
/// known, else its estimate, else zero.
pub open spec fn spec_denominator(
    total_bytes: Option<crate::num::DecimalView>,
    total_bytes_estimate: Option<crate::num::DecimalView>,
) -> int {
    match total_bytes {
        Some(t) => t.int_part as int,
        None => match total_bytes_estimate {
            Some(e) => e.int_part as int,
            None => 0,
        },
    }
}

/// A session after its download ended: the subprocess is gone, the bar is
/// cleared, and the closing message shows.
pub open spec fn spec_end_download(
    s: SessionView,
    message: Option<Result<Seq<char>, DownloadErrorView>>,
) -> SessionView {
    SessionView { running: false, progress: None, message, ..s }
}

/// One event's effect on a session, with how many kill and history-log
/// actions it asks of the surrounding process owner. A downloading
/// snapshot recomputes percentage and message absolutely (the percentage
/// only where a non-zero denominator exists); pre-processing and
/// pre-download notices update the message only, the percentage staying
/// as it was; a post-processing notice only changes the message; the end
/// of a playlist ends the download; the end of a video ends it only when
/// no playlist is expected and no further queued link remains; an error
/// event leaves the session as it is.
pub open spec fn spec_step_event(s: SessionView, e: crate::progress::ProgressView) -> (
    SessionView,
    int,
    int,
) {
    match e {
        crate::progress::ProgressView::Downloading {
            eta,
            downloaded_bytes,
            total_bytes,
            total_bytes_estimate,
            elapsed,
            speed,
            playlist_count,
            playlist_index,
        } => {
            let den = spec_denominator(total_bytes, total_bytes_estimate);
            let progress = match crate::num::spec_percent_hundredths(
                downloaded_bytes.int_part as int,
                den,
            ) {
                Some(p) => Some(p),
                None => s.progress,
            };
            let playlist_progress = match (playlist_count, playlist_index) {
                (Some(c), Some(i)) => Some(spec_playlist_position(c as int, i as int)),
                _ => s.playlist_progress,
            };
            (
                SessionView {
                    progress,
                    playlist_progress,
                    message: Some(Ok(spec_downloading_message(eta, downloaded_bytes, speed))),
                    ..s
                },
                0,
                0,
            )
        },
        crate::progress::ProgressView::PreProcessing => (
            SessionView { message: Some(Ok("Pre-processing..."@)), ..s },
            0,
            0,
        ),
        crate::progress::ProgressView::PreDownload { video_id } => (
            SessionView { message: Some(Ok("Downloading video "@ + video_id)), ..s },
            0,
            0,
        ),
        crate::progress::ProgressView::PostProcessing { status } => (
            SessionView { message: Some(Ok("Processing..."@)), ..s },
            0,
            0,
        ),
        crate::progress::ProgressView::EndOfPlaylist => (
            spec_end_download(s, Some(Ok("Finished playlist!"@))),
            1,
            1,
        ),
        crate::progress::ProgressView::EndOfVideo => {
            if !s.is_playlist {
                if s.videos_num > 1 {
                    (SessionView { videos_num: s.videos_num - 1, ..s }, 0, 0)
                } else {
                    (spec_end_download(s, Some(Ok("Finished!"@))), 1, 1)
                }
            } else {
                (s, 0, 0)
            }
        },
        _ => (s, 0, 0),
    }
}

/// The effect of a run of events, folded left, with the kill and log
/// actions summed.
pub open spec fn spec_run_events(s: SessionView, es: Seq<crate::progress::ProgressView>) -> (
    SessionView,
    int,
    int,
)
    decreases es.len(),
{
    if es.len() == 0 {
        (s, 0, 0)
    } else {
        let (s1, k1, l1) = spec_step_event(s, es[0]);
        let (s2, k2, l2) = spec_run_events(s1, es.drop_first());
        (s2, k1 + k2, l1 + l2)
    }
}

/// The effect of one raw output fragment: nothing while no subprocess is
/// owned; a parse failure ends the download with the mapped error, killing
/// and logging once; otherwise every parsed event is applied in order.
pub open spec fn spec_handle_fragment(s: SessionView, f: Seq<char>) -> (SessionView, int, int) {
    if !s.running {
        (s, 0, 0)
    } else {
        match crate::progress::spec_parse_progress(f) {
            Err(e) => (
                spec_end_download(s, Some(Err(DownloadErrorView::Progress(e)))),
                1,
                1,
            ),
            Ok(es) => spec_run_events(s, es),
        }
    }
}

impl Session {
    /// Ends the download: the caller must kill the subprocess and append
    /// a history record; the session clears its bar and shows `message`.
    pub fn end_download(&mut self, message: Option<Result<String, DownloadError>>)
        ensures
            final(self)@ == spec_end_download(old(self)@, message_view(message)),
    {
        self.running = false;
        self.progress = None;
        self.message = message;
    }

    /// Applies one parsed event, yielding how many kill and history-log
    /// actions the caller owes.
    pub fn apply_event(&mut self, e: &crate::progress::Progress) -> (fx: (u64, u64))
        ensures
            spec_step_event(old(self)@, e@) == (final(self)@, fx.0 as int, fx.1 as int),
    {
        match e {
            crate::progress::Progress::Downloading {
                eta,
                downloaded_bytes,
                total_bytes,
                total_bytes_estimate,
                elapsed: _,
                speed,
                playlist_count,
                playlist_index,
            } => {
                let den: u64 = match total_bytes {
                    Some(t) => t.int_part,
                    None => match total_bytes_estimate {
                        Some(x) => x.int_part,
                        None => 0,
                    },
                };
                match crate::num::percent_hundredths(downloaded_bytes.int_part, den) {
                    Some(p) => {
                        self.progress = Some(p);
                    },
                    None => {},
                }
                match (playlist_count, playlist_index) {
                    (Some(c), Some(i)) => {
                        self.playlist_progress = Some(playlist_position(*c, *i));
                    },
                    _ => {},
                }
                self.message = Some(Ok(downloading_message(eta, downloaded_bytes, speed)));
                (0, 0)
            },
            crate::progress::Progress::PreProcessing => {
                self.message = Some(Ok("Pre-processing...".to_owned()));
                (0, 0)
            },
            crate::progress::Progress::PreDownload { video_id } => {
                let mut m = "Downloading video ".to_owned();
                m.append(video_id.as_str());
                self.message = Some(Ok(m));
                (0, 0)
            },
            crate::progress::Progress::PostProcessing { status: _ } => {
                self.message = Some(Ok("Processing...".to_owned()));
                (0, 0)
            },
            crate::progress::Progress::EndOfPlaylist => {
                self.end_download(Some(Ok("Finished playlist!".to_owned())));
                (1, 1)
            },
            crate::progress::Progress::EndOfVideo => {
                if !self.is_playlist {
                    if self.is_multiple_videos() {
                        self.finished_single_video();
                        (0, 0)
                    } else {
                        self.end_download(Some(Ok("Finished!".to_owned())));
                        (1, 1)
                    }
                } else {
                    (0, 0)
                }
            },
            _ => { (0, 0) },
        }
    }

    /// Feeds one raw output fragment to the session, yielding how many
    /// kill and history-log actions the caller owes.
    pub fn handle_progress_event(&mut self, fragment: &str) -> (fx: (u64, u64))
        ensures
            spec_handle_fragment(old(self)@, fragment@) == (final(self)@, fx.0 as int, fx.1 as int),
{
        if !self.is_running() {
            return (0, 0);
        }
        match crate::progress::parse_progress(fragment) {
            Err(e) => {
                self.end_download(Some(Err(DownloadError::Progress(e))));
                (1, 1)
            },
            Ok(events) => {
                let ghost s0 = self@;
                let ghost full = crate::progress::progress_views(events@);
                let n = events.len();
                let mut kills: u64 = 0;
                let mut logs: u64 = 0;
                let mut i: usize = 0;
                proof {
                    assert(full.subrange(0, n as int) =~= full);
                }
                while i < n
                    invariant
                        0 <= i <= n,
                        n == events@.len(),
                        full == crate::progress::progress_views(events@),
                        full.len() == n,
                        kills <= i,
                        logs <= i,
                        ({
                            let (fs, fk, fl) = spec_run_events(s0, full);
                            let (cs, ck, cl) = spec_run_events(
                                self@,
                                full.subrange(i as int, n as int),
                            );
                            fs == cs && fk == ck + kills && fl == cl + logs
                        }),
                    decreases n - i,
                {
                    proof {
                        assert(full[i as int] == events@[i as int]@);
                        assert(full.subrange(i as int, n as int).drop_first() =~= full.subrange(
                            i + 1,
                            n as int,
                        ));
                        assert(full.subrange(i as int, n as int)[0] == full[i as int]);
                    }
                    let fx = self.apply_event(&events[i]);
                    kills = kills + fx.0;
                    logs = logs + fx.1;
                    i += 1;
                }
                proof {
                    assert(full.subrange(n as int, n as int) =~= Seq::<
                        crate::progress::ProgressView,
                    >::empty());
                }
                (kills, logs)
            },
        }
    }

    /// An explicit stop: the caller kills the subprocess exactly once; the
    /// session returns to idle with bar and message cleared.
    pub fn stop(&mut self) -> (kills: u64)
        ensures
            final(self)@ == (SessionView {
                running: false,
                progress: None,
                message: None,
                ..old(self)@
            }),
            kills == 1,
    {
        self.running = false;
        self.progress = None;
        self.message = None;
        1
    }
}

} // verus!

verus! {

/// The media-type argument block: a video download sorts formats by the
/// chosen resolution and remuxes into the chosen container; an audio
/// download extracts audio in the chosen codec and quality.
pub open spec fn spec_media_args(dt: DownloadType, o: crate::media_options::Options) -> Seq<
    Seq<char>,
> {
    match dt {
        DownloadType::Video => seq![
            "-S"@,
            crate::media_options::spec_resolution_options(o.video_resolution),
            "--remux-video"@,
            crate::media_options::spec_video_format_options(o.video_format),
        ],
        DownloadType::Audio => seq![
            "-x"@,
            "--audio-format"@,
            crate::media_options::spec_audio_format_options(o.audio_format),
            "--audio-quality"@,
            crate::media_options::spec_audio_quality_options(o.audio_quality),
        ],
    }
}

/// The cookies argument block: the flag and the file, or nothing.
pub open spec fn spec_cookies_args(cookies: Option<Seq<char>>) -> Seq<Seq<char>> {
    match cookies {
        Some(c) => seq!["--cookies"@, c],
        None => seq![],
    }
}

/// The SponsorBlock argument block: the chosen flag, or nothing.
pub open spec fn spec_sponsorblock_args(
    sb: Option<crate::sponsorblock::SponsorBlockOption>,
) -> Seq<Seq<char>> {
    match sb {
        Some(crate::sponsorblock::SponsorBlockOption::Remove) => seq![
            "--sponsorblock-remove=default"@,
        ],
        Some(crate::sponsorblock::SponsorBlockOption::Mark) => seq!["--sponsorblock-mark=default"@],
        None => seq![],
    }
}

/// The whole option-derived argument vector, in its fixed relative order:
/// the links first, then the media-type block, the cookies block, the
/// playlist block with the destination folder, and the SponsorBlock block.
/// The supervisor's fixed machine-output suffix is not here: it is
/// appended at spawn time, so option changes never touch it.
pub open spec fn spec_build_args(
    links: Seq<Seq<char>>,
    dt: DownloadType,
    o: crate::media_options::Options,
    cookies: Option<Seq<char>>,
    is_playlist: bool,
    folder: Seq<char>,
    sb: Option<crate::sponsorblock::SponsorBlockOption>,
) -> Seq<Seq<char>> {
    links + spec_media_args(dt, o) + spec_cookies_args(cookies)
        + crate::media_options::spec_playlist_options(is_playlist, folder)
        + spec_sponsorblock_args(sb)
}

/// Builds the option-derived argument vector.
pub fn build_args(
    links: Vec<String>,
    download_type: &DownloadType,
    options: &crate::media_options::Options,
    cookies: Option<String>,
    is_playlist: bool,
    download_folder: String,
    sponsorblock: &Option<crate::sponsorblock::SponsorBlockOption>,
) -> (r: Vec<String>)
    ensures
        views_of(r@) == spec_build_args(
            views_of(links@),
            *download_type,
            *options,
            opt_string_view(cookies),
            is_playlist,
            download_folder@,
            *sponsorblock,
        ),
{
    let ghost link_views = views_of(links@);
    let mut r = links;
    match download_type {
        DownloadType::Video => {
            r.push("-S".to_owned());
            r.push(options.video_resolution.options().to_owned());
            r.push("--remux-video".to_owned());
            r.push(options.video_format.options().to_owned());
        },
        DownloadType::Audio => {
            r.push("-x".to_owned());
            r.push("--audio-format".to_owned());
            r.push(options.audio_format.options().to_owned());
            r.push("--audio-quality".to_owned());
            r.push(options.audio_quality.options().to_owned());
        },
    }
    proof {
        assert(views_of(r@) =~= link_views + spec_media_args(*download_type, *options));
    }
    let ghost with_media = views_of(r@);
    match &cookies {
        Some(c) => {
            r.push("--cookies".to_owned());
            r.push(c.clone());
        },
        None => {},
    }
    proof {
        assert(views_of(r@) =~= with_media + spec_cookies_args(opt_string_view(cookies)));
    }
    let ghost with_cookies = views_of(r@);
    let mut playlist_part = crate::media_options::playlist_options(is_playlist, download_folder);
    let ghost playlist_views = views_of(playlist_part@);
    r.append(&mut playlist_part);
    proof {
        assert(views_of(r@) =~= with_cookies + playlist_views);
    }
    let ghost with_playlist = views_of(r@);
    match sponsorblock {
        Some(sb) => {
            r.push(sb.arg().to_owned());
        },
        None => {},
    }
    proof {
        assert(views_of(r@) =~= with_playlist + spec_sponsorblock_args(*sponsorblock));
        assert(views_of(r@) =~= spec_build_args(
            link_views,
            *download_type,
            *options,
            opt_string_view(cookies),
            is_playlist,
            download_folder@,
            *sponsorblock,
        ));
    }
    r
}

/// What a submission asks the process supervisor to run: the
/// option-derived arguments and how many links are queued.
pub struct DownloadRequest {
    pub args: Vec<String>,
    pub videos_num: usize,
}

/// What starting a download does to the session and whether a subprocess
/// is to be spawned: a missing destination directory or a failed link
/// validation shows the error and spawns nothing; otherwise the queued
/// link count is recorded and the argument vector handed out.
pub open spec fn spec_start_download(
    s: SessionView,
    input: Seq<char>,
    dt: DownloadType,
    o: crate::media_options::Options,
    cookies: Option<Seq<char>>,
    folder: Seq<char>,
    folder_exists: bool,
    sb: Option<crate::sponsorblock::SponsorBlockOption>,
) -> (SessionView, Option<(Seq<Seq<char>>, int)>) {
    if !folder_exists {
        (
            SessionView {
                progress: None,
                message: Some(Err(DownloadErrorView::DownloadDir(folder))),
                ..s
            },
            None,
        )
    } else {
        match spec_validate_links(input) {
            Err(e) => (
                SessionView { progress: None, message: Some(Err(e)), ..s },
                None,
            ),
            Ok(links) => (
                SessionView { videos_num: links.len() as int, ..s },
                Some(
                    (
                        spec_build_args(links, dt, o, cookies, s.is_playlist, folder, sb),
                        links.len() as int,
                    ),
                ),
            ),
        }
    }
}

impl Session {
    /// Starts a download from the submitted link text: validates before
    /// anything is spawned, and hands back what to run, or records the
    /// rejection.
    pub fn start_download(
        &mut self,
        link_input: &str,
        download_type: &DownloadType,
        options: &crate::media_options::Options,
        cookies: Option<String>,
        download_folder: String,
        folder_exists: bool,
        sponsorblock: &Option<crate::sponsorblock::SponsorBlockOption>,
    ) -> (r: Option<DownloadRequest>)
        ensures
            ({
                let (sv, req) = spec_start_download(
                    old(self)@,
                    link_input@,
                    *download_type,
                    *options,
                    opt_string_view(cookies),
                    download_folder@,
                    folder_exists,
                    *sponsorblock,
                );
                final(self)@ == sv && (match r {
                    Some(rq) => req == Some((views_of(rq.args@), rq.videos_num as int)),
                    None => req is None,
                })
            }),
    {
        if !folder_exists {
            self.progress = None;
            self.message = Some(Err(DownloadError::DownloadDir(download_folder)));
            return None;
        }
        match validate_links(link_input) {
            Err(e) => {
                self.progress = None;
                self.message = Some(Err(e));
                None
            },
            Ok(links) => {
                let videos_num = links.len();
                self.videos_num = videos_num;
                let args = build_args(
                    links,
                    download_type,
                    options,
                    cookies,
                    self.is_playlist,
                    download_folder,
                    sponsorblock,
                );
                Some(DownloadRequest { args, videos_num })
            },
        }
    }

    /// Records the outcome of the spawn attempt: a live session showing
    /// its opening message, or the missing-binary error.
    pub fn note_spawned(&mut self, ok: bool)
        ensures
            ok ==> final(self)@ == (SessionView {
                running: true,
                message: Some(Ok("Initializing..."@)),
                ..old(self)@
            }),
            !ok ==> final(self)@ == (SessionView {
                running: false,
                message: Some(Err(DownloadErrorView::YtDlpMissing)),
                ..old(self)@
            }),
    {
        if ok {
            self.running = true;
            self.message = Some(Ok(crate::command::initializing_message()));
        } else {
            self.running = false;
            self.message = Some(Err(DownloadError::YtDlpMissing));
        }
    }
}

/// The name of each resolution choice, as the history log spells it.
pub open spec fn spec_resolution_name(v: crate::media_options::VideoResolution) -> Seq<char> {
    match v {
        crate::media_options::VideoResolution::FourK => "FourK"@,
        crate::media_options::VideoResolution::TwoK => "TwoK"@,
        crate::media_options::VideoResolution::FullHD => "FullHD"@,
        crate::media_options::VideoResolution::Hd => "Hd"@,
        crate::media_options::VideoResolution::Sd => "Sd"@,
    }
}

/// The name of each container choice.
pub open spec fn spec_video_format_name(v: crate::media_options::VideoFormat) -> Seq<char> {
    match v {
        crate::media_options::VideoFormat::Mp4 => "Mp4"@,
        crate::media_options::VideoFormat::Mkv => "Mkv"@,
        crate::media_options::VideoFormat::Webm => "Webm"@,
    }
}

/// The name of each audio quality tier.
pub open spec fn spec_audio_quality_name(v: crate::media_options::AudioQuality) -> Seq<char> {
    match v {
        crate::media_options::AudioQuality::Best => "Best"@,
        crate::media_options::AudioQuality::Good => "Good"@,
        crate::media_options::AudioQuality::Medium => "Medium"@,
        crate::media_options::AudioQuality::Low => "Low"@,
    }
}

/// The name of each audio codec choice.
pub open spec fn spec_audio_format_name(v: crate::media_options::AudioFormat) -> Seq<char> {
    match v {
        crate::media_options::AudioFormat::Mp3 => "Mp3"@,
        crate::media_options::AudioFormat::Wav => "Wav"@,
        crate::media_options::AudioFormat::Vorbis => "Vorbis"@,
        crate::media_options::AudioFormat::M4a => "M4a"@,
        crate::media_options::AudioFormat::Opus => "Opus"@,
    }
}

/// The option summary of a history record: resolution and container for a
/// video download, quality and codec for an audio one.
pub open spec fn spec_option_summary(
    dt: DownloadType,
    o: crate::media_options::Options,
) -> Seq<char> {
    match dt {
        DownloadType::Video => spec_resolution_name(o.video_resolution) + ":"@
            + spec_video_format_name(o.video_format),
        DownloadType::Audio => spec_audio_quality_name(o.audio_quality) + ":"@
            + spec_audio_format_name(o.audio_format),
    }
}

/// Writes the option summary of a history record.
pub fn option_summary(dt: &DownloadType, o: &crate::media_options::Options) -> (r: String)
    ensures
        r@ == spec_option_summary(*dt, *o),
{
    match dt {
        DownloadType::Video => {
            let mut s: String = match o.video_resolution {
                crate::media_options::VideoResolution::FourK => "FourK".to_owned(),
                crate::media_options::VideoResolution::TwoK => "TwoK".to_owned(),
                crate::media_options::VideoResolution::FullHD => "FullHD".to_owned(),
                crate::media_options::VideoResolution::Hd => "Hd".to_owned(),
                crate::media_options::VideoResolution::Sd => "Sd".to_owned(),
            };
            s.append(":");
            match o.video_format {
                crate::media_options::VideoFormat::Mp4 => s.append("Mp4"),
                crate::media_options::VideoFormat::Mkv => s.append("Mkv"),
                crate::media_options::VideoFormat::Webm => s.append("Webm"),
            }
            s
        },
        DownloadType::Audio => {
            let mut s: String = match o.audio_quality {
                crate::media_options::AudioQuality::Best => "Best".to_owned(),
                crate::media_options::AudioQuality::Good => "Good".to_owned(),
                crate::media_options::AudioQuality::Medium => "Medium".to_owned(),
                crate::media_options::AudioQuality::Low => "Low".to_owned(),
            };
            s.append(":");
            match o.audio_format {
                crate::media_options::AudioFormat::Mp3 => s.append("Mp3"),
                crate::media_options::AudioFormat::Wav => s.append("Wav"),
                crate::media_options::AudioFormat::Vorbis => s.append("Vorbis"),
                crate::media_options::AudioFormat::M4a => s.append("M4a"),
                crate::media_options::AudioFormat::Opus => s.append("Opus"),
            }
            s
        },
    }
}

/// One line of the append-only download history: timestamp, link, option
/// summary and destination, joined by double colons.
pub open spec fn spec_history_line(
    timestamp: Seq<char>,
    link: Seq<char>,
    summary: Seq<char>,
    folder: Seq<char>,
) -> Seq<char> {
    timestamp + "::"@ + link + "::"@ + summary + "::"@ + folder
}

/// Writes one line of the download history.
pub fn history_line(timestamp: &str, link: &str, summary: &str, folder: &str) -> (r: String)
    ensures
        r@ == spec_history_line(timestamp@, link@, summary@, folder@),
{
    let mut s = timestamp.to_owned();
    s.append("::");
    s.append(link);
    s.append("::");
    s.append(summary);
    s.append("::");
    s.append(folder);
    s
}

} // verus!
