use vstd::prelude::*;

use crate::text::views_of;

verus! {

/// The media options a download runs with.
#[derive(Debug, Clone, Copy, PartialEq, Eq, Structural)]
pub struct Options {
    pub video_resolution: VideoResolution,
    pub video_format: VideoFormat,
    pub audio_quality: AudioQuality,
    pub audio_format: AudioFormat,
}

impl Default for Options {
    /// The default option set: 1080p MP4 video, good-quality MP3 audio.
    fn default() -> (r: Options)
        ensures
            r == (Options {
                video_resolution: VideoResolution::FullHD,
                video_format: VideoFormat::Mp4,
                audio_quality: AudioQuality::Good,
                audio_format: AudioFormat::Mp3,
            }),
    {
        Options {
            video_resolution: VideoResolution::FullHD,
            video_format: VideoFormat::Mp4,
            audio_quality: AudioQuality::Good,
            audio_format: AudioFormat::Mp3,
        }
    }
}

/// The vertical resolution a video download is capped at.
#[derive(Debug, Clone, Copy, PartialEq, Eq, Structural)]
pub enum VideoResolution {
    FourK,
    TwoK,
    FullHD,
    Hd,
    Sd,
}

impl Default for VideoResolution {
    /// 1080p.
    fn default() -> (r: VideoResolution)
        ensures
            r == VideoResolution::FullHD,
    {
        VideoResolution::FullHD
    }
}

impl VideoResolution {
    /// The downloader's format-sort key for this resolution.
    pub fn options(&self) -> (r: &'static str)
        ensures
            r@ == spec_resolution_options(*self),
    {
        match self {
            VideoResolution::FourK => "res:2160",
            VideoResolution::TwoK => "res:1440",
            VideoResolution::FullHD => "res:1080",
            VideoResolution::Hd => "res:720",
            VideoResolution::Sd => "res:480",
        }
    }
}

/// The format-sort key of each resolution choice.
pub open spec fn spec_resolution_options(v: VideoResolution) -> Seq<char> {
    match v {
        VideoResolution::FourK => "res:2160"@,
        VideoResolution::TwoK => "res:1440"@,
        VideoResolution::FullHD => "res:1080"@,
        VideoResolution::Hd => "res:720"@,
        VideoResolution::Sd => "res:480"@,
    }
}

/// The container a video download is remuxed into.
#[derive(Debug, Clone, Copy, PartialEq, Eq, Structural)]
pub enum VideoFormat {
    Mp4,
    Mkv,
    Webm,
}

impl Default for VideoFormat {
    /// MP4.
    fn default() -> (r: VideoFormat)
        ensures
            r == VideoFormat::Mp4,
    {
        VideoFormat::Mp4
    }
}

impl VideoFormat {
    /// The downloader's remux target name for this container.
    pub fn options(&self) -> (r: &'static str)
        ensures
            r@ == spec_video_format_options(*self),
    {
        match self {
            VideoFormat::Mp4 => "mp4",
            VideoFormat::Mkv => "mkv",
            VideoFormat::Webm => "webm",
        }
    }
}

/// The remux target name of each container choice.
pub open spec fn spec_video_format_options(v: VideoFormat) -> Seq<char> {
    match v {
        VideoFormat::Mp4 => "mp4"@,
        VideoFormat::Mkv => "mkv"@,
        VideoFormat::Webm => "webm"@,
    }
}

/// The quality tier an audio download is encoded at.
#[derive(Debug, Clone, Copy, PartialEq, Eq, Structural)]
pub enum AudioQuality {
    Best,
    Good,
    Medium,
    Low,
}

impl Default for AudioQuality {
    /// The good tier.
    fn default() -> (r: AudioQuality)
        ensures
            r == AudioQuality::Good,
    {
        AudioQuality::Good
    }
}

impl AudioQuality {
    /// The downloader's audio-quality level for this tier: 0 is best,
    /// larger is worse.
    pub fn options(&self) -> (r: &'static str)
        ensures
            r@ == spec_audio_quality_options(*self),
    {
        match self {
            AudioQuality::Best => "0",
            AudioQuality::Good => "2",
            AudioQuality::Medium => "4",
            AudioQuality::Low => "6",
        }
    }
}

/// The audio-quality level of each tier.
pub open spec fn spec_audio_quality_options(v: AudioQuality) -> Seq<char> {
    match v {
        AudioQuality::Best => "0"@,
        AudioQuality::Good => "2"@,
        AudioQuality::Medium => "4"@,
        AudioQuality::Low => "6"@,
    }
}

/// The codec an audio download is converted to.
#[derive(Debug, Clone, Copy, PartialEq, Eq, Structural)]
pub enum AudioFormat {
    Mp3,
    Wav,
    Vorbis,
    M4a,
    Opus,
}

impl Default for AudioFormat {
    /// MP3.
    fn default() -> (r: AudioFormat)
        ensures
            r == AudioFormat::Mp3,
    {
        AudioFormat::Mp3
    }
}

impl AudioFormat {
    /// The downloader's audio-format name for this codec.
    pub fn options(&self) -> (r: &'static str)
        ensures
            r@ == spec_audio_format_options(*self),
    {
        match self {
            AudioFormat::Mp3 => "mp3",
            AudioFormat::Wav => "wav",
            AudioFormat::Vorbis => "vorbis",
            AudioFormat::Opus => "opus",
            AudioFormat::M4a => "m4a",
        }
    }
}

/// The audio-format name of each codec choice.
pub open spec fn spec_audio_format_options(v: AudioFormat) -> Seq<char> {
    match v {
        AudioFormat::Mp3 => "mp3"@,
        AudioFormat::Wav => "wav"@,
        AudioFormat::Vorbis => "vorbis"@,
        AudioFormat::Opus => "opus"@,
        AudioFormat::M4a => "m4a"@,
    }
}

/// The playlist-dependent argument block: with a playlist, accept it and
/// file each entry under a playlist directory; without one, reject
/// playlist entries, take the single video, and file it flat.
pub open spec fn spec_playlist_options(is_playlist: bool, download_folder: Seq<char>) -> Seq<
    Seq<char>,
> {
    if is_playlist {
        seq![
            "--yes-playlist"@,
            "-P"@,
            download_folder,
            "-o"@,
            "%(playlist)s/%(title)s.%(ext)s"@,
        ]
    } else {
        seq![
            "--break-on-reject"@,
            "--match-filter"@,
            "!playlist"@,
            "--no-playlist"@,
            "-P"@,
            download_folder,
            "-o"@,
            "%(title)s.%(ext)s"@,
        ]
    }
}

/// Builds the playlist-dependent argument block.
pub fn playlist_options(is_playlist: bool, download_folder: String) -> (r: Vec<String>)
    ensures
        views_of(r@) == spec_playlist_options(is_playlist, download_folder@),
{
    let mut r: Vec<String> = Vec::new();
    if is_playlist {
        r.push("--yes-playlist".to_owned());
        r.push("-P".to_owned());
        r.push(download_folder);
        r.push("-o".to_owned());
        r.push("%(playlist)s/%(title)s.%(ext)s".to_owned());
    } else {
        r.push("--break-on-reject".to_owned());
        r.push("--match-filter".to_owned());
        r.push("!playlist".to_owned());
        r.push("--no-playlist".to_owned());
        r.push("-P".to_owned());
        r.push(download_folder);
        r.push("-o".to_owned());
        r.push("%(title)s.%(ext)s".to_owned());
    }
    proof {
        assert(views_of(r@) =~= spec_playlist_options(is_playlist, download_folder@));
    }
    r
}

/// Without the playlist flag the argument block carries the no-playlist
/// exclusion and never the playlist output template; with it, the other
/// way round. The destination folder must not itself spell one of those
/// two flags, else it would smuggle the flag back in.
pub proof fn lemma_playlist_options_exclusive(is_playlist: bool, download_folder: Seq<char>)
    requires
        download_folder != "--no-playlist"@,
        download_folder != "%(playlist)s/%(title)s.%(ext)s"@,
    ensures
        !is_playlist ==> spec_playlist_options(is_playlist, download_folder).contains(
            "--no-playlist"@,
        ) && !spec_playlist_options(is_playlist, download_folder).contains(
            "%(playlist)s/%(title)s.%(ext)s"@,
        ),
        is_playlist ==> !spec_playlist_options(is_playlist, download_folder).contains(
            "--no-playlist"@,
        ) && spec_playlist_options(is_playlist, download_folder).contains(
            "%(playlist)s/%(title)s.%(ext)s"@,
        ),
{
    let opts = spec_playlist_options(is_playlist, download_folder);
    reveal_strlit("--yes-playlist");
    reveal_strlit("-P");
    reveal_strlit("-o");
    reveal_strlit("%(playlist)s/%(title)s.%(ext)s");
    reveal_strlit("--break-on-reject");
    reveal_strlit("--match-filter");
    reveal_strlit("!playlist");
    reveal_strlit("--no-playlist");
    reveal_strlit("%(title)s.%(ext)s");
    if is_playlist {
        assert(opts.contains("%(playlist)s/%(title)s.%(ext)s"@)) by {
            assert(opts[4] == "%(playlist)s/%(title)s.%(ext)s"@);
        }
        assert forall|i: int| 0 <= i < opts.len() implies opts[i] != "--no-playlist"@ by {
            assert("--yes-playlist"@.len() == 14);
            assert("-P"@.len() == 2);
            assert("-o"@.len() == 2);
            assert("%(playlist)s/%(title)s.%(ext)s"@.len() == 30);
            assert("--no-playlist"@.len() == 13);
        }
        assert(!opts.contains("--no-playlist"@));
    } else {
        assert(opts.contains("--no-playlist"@)) by {
            assert(opts[3] == "--no-playlist"@);
        }
        assert forall|i: int| 0 <= i < opts.len() implies opts[i]
            != "%(playlist)s/%(title)s.%(ext)s"@ by {
            assert("--break-on-reject"@.len() == 17);
            assert("--match-filter"@.len() == 14);
            assert("!playlist"@.len() == 9);
            assert("--no-playlist"@.len() == 13);
            assert("-P"@.len() == 2);
            assert("-o"@.len() == 2);
            assert("%(title)s.%(ext)s"@.len() == 17);
            assert("%(playlist)s/%(title)s.%(ext)s"@.len() == 30);
            if opts[i] == "%(playlist)s/%(title)s.%(ext)s"@ {
                if i == 0 {
                    assert("--break-on-reject"@[0] == '-');
                    assert("%(playlist)s/%(title)s.%(ext)s"@[0] == '%');
                } else if i == 6 {
                    assert(false);
                }
            }
        }
        assert(!opts.contains("%(playlist)s/%(title)s.%(ext)s"@));
    }
}

} // verus!
