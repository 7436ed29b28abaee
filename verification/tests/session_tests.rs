use ytdlp_gui::app::{validate_links, DownloadType, Session};
use ytdlp_gui::error::DownloadError;
use ytdlp_gui::media_options::Options;

fn downloading_session() -> Session {
    let mut s = Session::new(false);
    s.note_spawned(true);
    s
}

#[test]
fn invalid_url_reports_one_based_position() {
    let r = validate_links("bad-url valid://ok");
    assert!(matches!(r, Err(DownloadError::InvalidURL(1))));
}

#[test]
fn later_invalid_url_position() {
    let r = validate_links("valid://ok also-bad");
    assert!(matches!(r, Err(DownloadError::InvalidURL(2))));
}

#[test]
fn empty_input_is_no_download_url() {
    assert!(matches!(validate_links("   "), Err(DownloadError::NoDownloadURL)));
    assert!(matches!(validate_links(""), Err(DownloadError::NoDownloadURL)));
}

#[test]
fn valid_links_pass() {
    let r = validate_links(" valid://ok valid://two ").unwrap();
    assert_eq!(r, vec![String::from("valid://ok"), String::from("valid://two")]);
}

#[test]
fn invalid_url_spawns_nothing() {
    let mut s = Session::new(false);
    let req = s.start_download(
        "bad-url valid://ok",
        &DownloadType::Video,
        &Options::default(),
        None,
        String::from("/tmp"),
        true,
        &None,
    );
    assert!(req.is_none());
    assert!(matches!(s.message, Some(Err(DownloadError::InvalidURL(1)))));
    assert_eq!(s.progress, None);
    assert!(!s.is_running());
}

#[test]
fn missing_folder_spawns_nothing() {
    let mut s = Session::new(false);
    let req = s.start_download(
        "valid://ok",
        &DownloadType::Video,
        &Options::default(),
        None,
        String::from("/nope"),
        false,
        &None,
    );
    assert!(req.is_none());
    assert!(matches!(s.message, Some(Err(DownloadError::DownloadDir(_)))));
}

#[test]
fn stop_kills_once_and_clears() {
    let mut s = downloading_session();
    let fragment = r#"__{"type": "downloading","eta": 10, "downloaded_bytes": 50,"total_bytes": 100, "total_bytes_estimate": NA,"elapsed": 1, "speed": 1048576, "playlist_count": NA,"playlist_index": NA }"#;
    let _ = s.handle_progress_event(fragment);
    assert!(s.progress.is_some());
    assert!(s.message.is_some());

    let kills = s.stop();
    assert_eq!(kills, 1);
    assert!(!s.is_running());
    assert_eq!(s.progress, None);
    assert!(s.message.is_none());
}

#[test]
fn downloading_event_updates_progress_and_message() {
    let mut s = downloading_session();
    let fragment = r#"__{"type": "downloading","eta": 12.3685, "downloaded_bytes": 62444041,"total_bytes": 198896641, "total_bytes_estimate": NA,"elapsed": 3.45, "speed": 12773016.26, "playlist_count": NA,"playlist_index": NA }"#;
    let (kills, logs) = s.handle_progress_event(fragment);
    assert_eq!((kills, logs), (0, 0));
    // 62444041 * 10000 / 198896641 = 3139 hundredths of a percent
    assert_eq!(s.progress, Some(3139));
    // eta 12.3685 truncates toward zero: 00:12, never 00:13
    let msg = match &s.message {
        Some(Ok(m)) => m.clone(),
        other => panic!("unexpected message: {other:?}"),
    };
    assert_eq!(msg, "59.55MB | 12.18MB/s | ETA 00:12");
}

#[test]
fn eta_display_truncates_toward_zero() {
    let mut s = downloading_session();
    let fragment = r#"__{"type": "downloading","eta": 12.3685, "downloaded_bytes": 1,"total_bytes": 1, "total_bytes_estimate": NA,"elapsed": 1, "speed": NA, "playlist_count": NA,"playlist_index": NA }"#;
    let _ = s.handle_progress_event(fragment);
    let msg = match &s.message {
        Some(Ok(m)) => m.clone(),
        other => panic!("unexpected message: {other:?}"),
    };
    assert!(msg.ends_with("ETA 00:12"), "got {msg}");
    assert!(!msg.ends_with("ETA 00:13"));
}

#[test]
fn zero_denominator_leaves_progress_alone() {
    let mut s = downloading_session();
    let fragment = r#"__{"type": "downloading","eta": 1, "downloaded_bytes": 5,"total_bytes": NA, "total_bytes_estimate": NA,"elapsed": 1, "speed": NA, "playlist_count": NA,"playlist_index": NA }"#;
    let _ = s.handle_progress_event(fragment);
    assert_eq!(s.progress, None);
    assert!(s.message.is_some());
}

#[test]
fn playlist_position_is_shown() {
    let mut s = downloading_session();
    let fragment = r#"__{"type": "downloading","eta": 1, "downloaded_bytes": 5,"total_bytes": 10, "total_bytes_estimate": NA,"elapsed": 1, "speed": NA, "playlist_count": 7,"playlist_index": 3 }"#;
    let _ = s.handle_progress_event(fragment);
    assert_eq!(s.playlist_progress, Some(String::from("Downloading 3/7")));
}

#[test]
fn end_of_video_single_link_finishes() {
    let mut s = downloading_session();
    s.videos_num = 1;
    let (kills, logs) = s.handle_progress_event("__{\"type\":\"end_of_video\"}");
    assert_eq!((kills, logs), (1, 1));
    assert!(!s.is_running());
    assert_eq!(s.progress, None);
    assert!(matches!(&s.message, Some(Ok(m)) if m == "Finished!"));
}

#[test]
fn end_of_video_with_queue_decrements() {
    let mut s = downloading_session();
    s.videos_num = 3;
    let (kills, logs) = s.handle_progress_event("__{\"type\":\"end_of_video\"}");
    assert_eq!((kills, logs), (0, 0));
    assert_eq!(s.videos_num, 2);
    assert!(s.is_running());
}

#[test]
fn end_of_video_in_playlist_mode_is_ignored() {
    let mut s = Session::new(true);
    s.note_spawned(true);
    let (kills, logs) = s.handle_progress_event("__{\"type\":\"end_of_video\"}");
    assert_eq!((kills, logs), (0, 0));
    assert!(s.is_running());
}

#[test]
fn end_of_playlist_finishes() {
    let mut s = Session::new(true);
    s.note_spawned(true);
    let (kills, logs) = s.handle_progress_event("__{\"type\":\"end_of_playlist\"}");
    assert_eq!((kills, logs), (1, 1));
    assert!(!s.is_running());
    assert!(matches!(&s.message, Some(Ok(m)) if m == "Finished playlist!"));
}

#[test]
fn parse_failure_fails_session() {
    let mut s = downloading_session();
    let (kills, logs) = s.handle_progress_event("this has already been downloaded");
    assert_eq!((kills, logs), (1, 1));
    assert!(!s.is_running());
    assert!(matches!(
        &s.message,
        Some(Err(DownloadError::Progress(
            ytdlp_gui::progress::ProgressError::AlreadyExists
        )))
    ));
}

#[test]
fn events_ignored_while_idle() {
    let mut s = Session::new(false);
    let (kills, logs) = s.handle_progress_event("__{\"type\":\"end_of_video\"}");
    assert_eq!((kills, logs), (0, 0));
    assert!(s.message.is_none());
}

#[test]
fn spawn_failure_reports_missing_binary() {
    let mut s = Session::new(false);
    s.note_spawned(false);
    assert!(!s.is_running());
    assert!(matches!(s.message, Some(Err(DownloadError::YtDlpMissing))));
}

#[test]
fn download_error_messages() {
    assert_eq!(
        DownloadError::InvalidURL(3).message(),
        "invalid URL on position: 3"
    );
    assert_eq!(
        DownloadError::DownloadDir(String::from("/x")).message(),
        "Directory \"/x\" does not exist, please create it then start the download"
    );
    assert_eq!(DownloadError::NoDownloadURL.message(), "No Download URL was provided!");
    assert_eq!(DownloadError::YtDlpMissing.message(), "yt-dlp binary is missing");
    assert_eq!(
        DownloadError::Other.message(),
        "Something went wrong, logging..."
    );
}

#[test]
fn tabs_and_space_runs_separate_links() {
    let r = validate_links("valid://ok\t\tvalid://two").unwrap();
    assert_eq!(r, vec![String::from("valid://ok"), String::from("valid://two")]);

    let r2 = validate_links("bad-url  valid://ok");
    assert!(matches!(r2, Err(DownloadError::InvalidURL(1))));

    let r3 = validate_links("valid://ok  also-bad");
    assert!(matches!(r3, Err(DownloadError::InvalidURL(2))));

    assert!(matches!(validate_links(" \t \n"), Err(DownloadError::NoDownloadURL)));
}

#[test]
fn pre_events_update_the_message_only() {
    let mut s = downloading_session();
    let (kills, logs) = s.handle_progress_event("__{\"type\":\"pre_processing\"}");
    assert_eq!((kills, logs), (0, 0));
    assert!(matches!(&s.message, Some(Ok(m)) if m == "Pre-processing..."));
    assert_eq!(s.progress, None);

    let _ = s.handle_progress_event("__{\"type\":\"pre_download\",\"video_id\":\"abc123\"}");
    assert!(matches!(&s.message, Some(Ok(m)) if m == "Downloading video abc123"));
    assert_eq!(s.progress, None);
    assert!(s.is_running());
}
