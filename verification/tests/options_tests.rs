use ytdlp_gui::app::{build_args, history_line, option_summary, DownloadType};
use ytdlp_gui::command::with_fixed_args;
use ytdlp_gui::download_queue::QueueVideo;
use ytdlp_gui::media_options::{
    playlist_options, AudioFormat, AudioQuality, Options, VideoFormat, VideoResolution,
};
use ytdlp_gui::sponsorblock::SponsorBlockOption;

#[test]
fn resolution_options_values() {
    assert_eq!(VideoResolution::FourK.options(), "res:2160");
    assert_eq!(VideoResolution::TwoK.options(), "res:1440");
    assert_eq!(VideoResolution::FullHD.options(), "res:1080");
    assert_eq!(VideoResolution::Hd.options(), "res:720");
    assert_eq!(VideoResolution::Sd.options(), "res:480");
}

#[test]
fn video_format_options_values() {
    assert_eq!(VideoFormat::Mp4.options(), "mp4");
    assert_eq!(VideoFormat::Mkv.options(), "mkv");
    assert_eq!(VideoFormat::Webm.options(), "webm");
}

#[test]
fn audio_format_options_values() {
    assert_eq!(AudioFormat::Mp3.options(), "mp3");
    assert_eq!(AudioFormat::Wav.options(), "wav");
    assert_eq!(AudioFormat::Vorbis.options(), "vorbis");
    assert_eq!(AudioFormat::Opus.options(), "opus");
    assert_eq!(AudioFormat::M4a.options(), "m4a");
}

#[test]
fn audio_quality_options_values() {
    assert_eq!(AudioQuality::Best.options(), "0");
    assert_eq!(AudioQuality::Good.options(), "2");
    assert_eq!(AudioQuality::Medium.options(), "4");
    assert_eq!(AudioQuality::Low.options(), "6");
}

#[test]
fn default_options() {
    let o = Options::default();
    assert_eq!(o.video_resolution, VideoResolution::FullHD);
    assert_eq!(o.video_format, VideoFormat::Mp4);
    assert_eq!(o.audio_quality, AudioQuality::Good);
    assert_eq!(o.audio_format, AudioFormat::Mp3);
}

#[test]
fn playlist_options_with_playlist() {
    let v = playlist_options(true, String::from("/videos"));
    assert_eq!(
        v,
        vec![
            String::from("--yes-playlist"),
            String::from("-P"),
            String::from("/videos"),
            String::from("-o"),
            String::from("%(playlist)s/%(title)s.%(ext)s"),
        ]
    );
    assert!(!v.contains(&String::from("--no-playlist")));
}

#[test]
fn playlist_options_without_playlist() {
    let v = playlist_options(false, String::from("/videos"));
    assert_eq!(
        v,
        vec![
            String::from("--break-on-reject"),
            String::from("--match-filter"),
            String::from("!playlist"),
            String::from("--no-playlist"),
            String::from("-P"),
            String::from("/videos"),
            String::from("-o"),
            String::from("%(title)s.%(ext)s"),
        ]
    );
    assert!(!v.contains(&String::from("%(playlist)s/%(title)s.%(ext)s")));
}

#[test]
fn build_args_video_order() {
    let args = build_args(
        vec![String::from("valid://ok")],
        &DownloadType::Video,
        &Options::default(),
        Some(String::from("/cookies.txt")),
        false,
        String::from("/videos"),
        &Some(SponsorBlockOption::Remove),
    );
    assert_eq!(
        args,
        vec![
            String::from("valid://ok"),
            String::from("-S"),
            String::from("res:1080"),
            String::from("--remux-video"),
            String::from("mp4"),
            String::from("--cookies"),
            String::from("/cookies.txt"),
            String::from("--break-on-reject"),
            String::from("--match-filter"),
            String::from("!playlist"),
            String::from("--no-playlist"),
            String::from("-P"),
            String::from("/videos"),
            String::from("-o"),
            String::from("%(title)s.%(ext)s"),
            String::from("--sponsorblock-remove=default"),
        ]
    );
}

#[test]
fn build_args_audio() {
    let args = build_args(
        vec![String::from("valid://ok")],
        &DownloadType::Audio,
        &Options::default(),
        None,
        true,
        String::from("/music"),
        &Some(SponsorBlockOption::Mark),
    );
    assert_eq!(
        args,
        vec![
            String::from("valid://ok"),
            String::from("-x"),
            String::from("--audio-format"),
            String::from("mp3"),
            String::from("--audio-quality"),
            String::from("2"),
            String::from("--yes-playlist"),
            String::from("-P"),
            String::from("/music"),
            String::from("-o"),
            String::from("%(playlist)s/%(title)s.%(ext)s"),
            String::from("--sponsorblock-mark=default"),
        ]
    );
}

#[test]
fn fixed_args_follow_user_args() {
    let full = with_fixed_args(vec![String::from("valid://ok")]);
    assert_eq!(full[0], "valid://ok");
    assert_eq!(full[1], "--print");
    assert_eq!(
        full[2],
        "before_dl:__{\"type\": \"pre_download\", \"video_id\": \"%(id)s\"}"
    );
    assert_eq!(full[3], "--print");
    assert_eq!(full[4], "playlist:__{\"type\": \"end_of_playlist\"}");
    assert_eq!(full[5], "--print");
    assert_eq!(full[6], "after_video:__{\"type\": \"end_of_video\"}");
    assert_eq!(full[7], "--progress-template");
    assert!(full[8].starts_with("__{\"type\": \"downloading\","));
    assert_eq!(full[9], "--no-quiet");
    assert_eq!(full.len(), 10);
}

#[test]
fn sponsorblock_args() {
    assert_eq!(SponsorBlockOption::Remove.arg(), "--sponsorblock-remove=default");
    assert_eq!(SponsorBlockOption::Mark.arg(), "--sponsorblock-mark=default");
}

#[test]
fn option_summary_text() {
    assert_eq!(
        option_summary(&DownloadType::Video, &Options::default()),
        "FullHD:Mp4"
    );
    assert_eq!(
        option_summary(&DownloadType::Audio, &Options::default()),
        "Good:Mp3"
    );
}

#[test]
fn history_line_layout() {
    let line = history_line("2024-01-01 10:00:00", "valid://ok", "FullHD:Mp4", "/videos");
    assert_eq!(line, "2024-01-01 10:00:00::valid://ok::FullHD:Mp4::/videos");
}

#[test]
fn queue_video_keeps_fields() {
    let q = QueueVideo::new(String::from("valid://ok"), String::from("/videos"));
    assert_eq!(q.url, "valid://ok");
    assert_eq!(q.download_path, "/videos");
}
