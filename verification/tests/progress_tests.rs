use ytdlp_gui::num::Decimal;
use ytdlp_gui::progress::{parse_progress, Progress, ProgressError};

#[test]
fn test_parsing_progress() {
    let progress = r#"__{"type": "downloading","eta": 10, "downloaded_bytes": 62444041,"total_bytes": 198896641, "total_bytes_estimate": NA,"elapsed": 3.448781967163086, "speed": 12773016.258777222, "playlist_count": NA,"playlist_index": NA }"#;
    let parsed_progress = parse_progress(progress).unwrap();

    assert_eq!(
        parsed_progress,
        vec![Progress::Downloading {
            eta: Some(Decimal::new(10, "")),
            downloaded_bytes: Decimal::new(62444041, ""),
            total_bytes: Some(Decimal::new(198896641, "")),
            total_bytes_estimate: None,
            elapsed: Decimal::new(3, "448781967163086"),
            speed: Some(Decimal::new(12773016, "258777222")),
            playlist_count: None,
            playlist_index: None
        }]
    );
}

#[test]
fn signal_already_downloaded() {
    let r = parse_progress("video has already been downloaded today");
    assert_eq!(r, Err(ProgressError::AlreadyExists));
}

#[test]
fn signal_playlist_not_checked() {
    let r = parse_progress("xx entry does not pass filter (!playlist) yy");
    assert_eq!(r, Err(ProgressError::PlaylistNotChecked));
}

#[test]
fn signal_private_video() {
    let r = parse_progress(
        "ERROR: Private video. Sign in if you've been granted access to this video",
    );
    assert_eq!(r, Err(ProgressError::PrivateVideo));
}

#[test]
fn signal_video_unavailable_both_phrasings() {
    let r = parse_progress("Video unavailable. This video contains content from X");
    assert_eq!(r, Err(ProgressError::VideoUnavailable));
    let r2 = parse_progress("Video unavailable. This video is no longer available because the YouTube account associated with this video has been terminated.");
    assert_eq!(r2, Err(ProgressError::VideoUnavailable));
}

#[test]
fn signal_no_playlist() {
    let r = parse_progress("boo YouTube said: The playlist does not exist. hoo");
    assert_eq!(r, Err(ProgressError::NoPlaylist));
}

#[test]
fn signal_stderr_error_prefix() {
    let r = parse_progress("stderr:ERROR: something broke");
    assert_eq!(r, Err(ProgressError::Other(String::from("something broke"))));
}

#[test]
fn signal_priority_order() {
    // both phrases present: the earlier check wins
    let r = parse_progress(
        "entry does not pass filter (!playlist) and has already been downloaded",
    );
    assert_eq!(r, Err(ProgressError::AlreadyExists));
}

#[test]
fn two_objects_back_to_back() {
    let fragment = r#"__{"type":"end_of_video"}__{"type":"end_of_playlist"}"#;
    let r = parse_progress(fragment).unwrap();
    assert_eq!(r, vec![Progress::EndOfVideo, Progress::EndOfPlaylist]);
}

#[test]
fn malformed_object_is_skipped() {
    let fragment = r#"__{"type":"end_of_video"}__{"type":"downloading","#;
    let r = parse_progress(fragment).unwrap();
    assert_eq!(r, vec![Progress::EndOfVideo]);
}

#[test]
fn parse_is_idempotent() {
    let fragment = r#"__{"type":"pre_download","video_id":"abc123"}"#;
    let first = parse_progress(fragment);
    let second = parse_progress(fragment);
    assert_eq!(first, second);
    assert_eq!(
        first.unwrap(),
        vec![Progress::PreDownload { video_id: String::from("abc123") }]
    );
}

#[test]
fn plain_lines_are_ignored() {
    let fragment = "some human readable chatter\nmore of it\n";
    let r = parse_progress(fragment).unwrap();
    assert_eq!(r, Vec::<Progress>::new());
}

#[test]
fn events_across_lines_keep_order() {
    let fragment = "__{\"type\":\"pre_processing\"}\nnoise\n__{\"type\":\"end_of_video\"}\n";
    let r = parse_progress(fragment).unwrap();
    assert_eq!(r, vec![Progress::PreProcessing, Progress::EndOfVideo]);
}

#[test]
fn post_processing_and_error_tags() {
    let fragment =
        "__{\"type\":\"post_processing\",\"status\":\"merging\"}__{\"type\":\"error\",\"message\":\"oops\"}";
    let r = parse_progress(fragment).unwrap();
    assert_eq!(
        r,
        vec![
            Progress::PostProcessing { status: String::from("merging") },
            Progress::Error { message: String::from("oops") },
        ]
    );
}

#[test]
fn unknown_tag_is_skipped() {
    let fragment = r#"__{"type":"mystery"}"#;
    let r = parse_progress(fragment).unwrap();
    assert_eq!(r, Vec::<Progress>::new());
}

#[test]
fn placeholder_token_means_absent() {
    let fragment = r#"__{"type":"downloading","eta": NA, "downloaded_bytes": 5,"total_bytes": NA, "total_bytes_estimate": 10,"elapsed": 1, "speed": NA, "playlist_count": 3,"playlist_index": 2 }"#;
    let r = parse_progress(fragment).unwrap();
    assert_eq!(
        r,
        vec![Progress::Downloading {
            eta: None,
            downloaded_bytes: Decimal::new(5, ""),
            total_bytes: None,
            total_bytes_estimate: Some(Decimal::new(10, "")),
            elapsed: Decimal::new(1, ""),
            speed: None,
            playlist_count: Some(3),
            playlist_index: Some(2),
        }]
    );
}

#[test]
fn missing_required_field_is_malformed() {
    // downloading without downloaded_bytes decodes to nothing
    let fragment = r#"__{"type":"downloading","elapsed": 1}"#;
    let r = parse_progress(fragment).unwrap();
    assert_eq!(r, Vec::<Progress>::new());
}

#[test]
fn fractional_playlist_index_is_malformed() {
    let fragment = r#"__{"type":"downloading","downloaded_bytes": 5,"elapsed": 1,"playlist_index": 2.5}"#;
    let r = parse_progress(fragment).unwrap();
    assert_eq!(r, Vec::<Progress>::new());
}

#[test]
fn oversized_whole_part_is_malformed() {
    // more than 18 whole digits is not carried
    let fragment =
        r#"__{"type":"downloading","downloaded_bytes": 1234567890123456789012,"elapsed": 1}"#;
    let r = parse_progress(fragment).unwrap();
    assert_eq!(r, Vec::<Progress>::new());
}

#[test]
fn progress_error_messages() {
    assert_eq!(ProgressError::AlreadyExists.message(), "File already exists");
    assert_eq!(
        ProgressError::PlaylistNotChecked.message(),
        "Playlist checkbox not checked"
    );
    assert_eq!(ProgressError::PrivateVideo.message(), "Private video, skipping...");
    assert_eq!(
        ProgressError::VideoUnavailable.message(),
        "Video unavailable, skipping..."
    );
    assert_eq!(ProgressError::NoPlaylist.message(), "Playlist does not exist");
    assert_eq!(
        ProgressError::Other(String::from("boom")).message(),
        "boom"
    );
}

#[test]
fn empty_fragment_yields_no_events() {
    assert_eq!(parse_progress("").unwrap(), Vec::<Progress>::new());
}

#[test]
fn duplicate_field_is_malformed() {
    let fragment = r#"__{"type":"pre_download","video_id":"a","video_id":"b"}"#;
    assert_eq!(parse_progress(fragment).unwrap(), Vec::<Progress>::new());
}

#[test]
fn eighteen_digit_whole_part_is_carried() {
    let fragment = r#"__{"type":"downloading","downloaded_bytes": 999999999999999999,"elapsed": 1}"#;
    let r = parse_progress(fragment).unwrap();
    assert_eq!(
        r,
        vec![Progress::Downloading {
            eta: None,
            downloaded_bytes: Decimal::new(999999999999999999, ""),
            total_bytes: None,
            total_bytes_estimate: None,
            elapsed: Decimal::new(1, ""),
            speed: None,
            playlist_count: None,
            playlist_index: None,
        }]
    );
}

#[test]
fn leading_zero_number_is_malformed() {
    let fragment = r#"__{"type":"downloading","downloaded_bytes": 01,"elapsed": 1}"#;
    assert_eq!(parse_progress(fragment).unwrap(), Vec::<Progress>::new());
}

#[test]
fn carriage_return_lines_are_split() {
    let fragment = "__{\"type\":\"pre_processing\"}\r\n__{\"type\":\"end_of_video\"}\r\n";
    let r = parse_progress(fragment).unwrap();
    assert_eq!(r, vec![Progress::PreProcessing, Progress::EndOfVideo]);
}

#[test]
fn whitespace_inside_object_is_accepted() {
    let fragment = "__{ \"type\" : \"post_processing\" , \"status\" : \"x\" }";
    let r = parse_progress(fragment).unwrap();
    assert_eq!(r, vec![Progress::PostProcessing { status: String::from("x") }]);
}

#[test]
fn string_fields_keep_the_placeholder_letters() {
    // the two letters of the placeholder token inside a string value are
    // data, not a placeholder
    let r = parse_progress(r#"__{"type":"error","message":"NAB"}"#).unwrap();
    assert_eq!(r, vec![Progress::Error { message: String::from("NAB") }]);

    let r2 = parse_progress(r#"__{"type":"pre_download","video_id":"xNAy"}"#).unwrap();
    assert_eq!(r2, vec![Progress::PreDownload { video_id: String::from("xNAy") }]);
}

#[test]
fn bare_placeholder_only_at_value_positions() {
    // NA followed by more text is not the placeholder token
    let r = parse_progress(r#"__{"type":"downloading","downloaded_bytes": 5,"elapsed": 1,"eta": NAB}"#)
        .unwrap();
    assert_eq!(r, Vec::<Progress>::new());
}

#[test]
fn unknown_members_may_hold_other_scalars() {
    let fragment = r#"__{"type":"end_of_video","a":true,"b":false,"c":-5,"d":1.5e3,"e":"q\"z"}"#;
    let r = parse_progress(fragment).unwrap();
    assert_eq!(r, vec![Progress::EndOfVideo]);
}

#[test]
fn unknown_members_may_hold_containers() {
    // arrays and nested objects in ignored members, brackets inside a
    // string body included
    let fragment = r#"__{"a":[1,2,{"b":"]"}],"c":{"d":[true]},"type":"end_of_video"}"#;
    let r = parse_progress(fragment).unwrap();
    assert_eq!(r, vec![Progress::EndOfVideo]);
}

#[test]
fn wrong_typed_known_field_is_malformed() {
    let fragment = r#"__{"type":"downloading","downloaded_bytes": true,"elapsed": 1}"#;
    assert_eq!(parse_progress(fragment).unwrap(), Vec::<Progress>::new());

    let negative = r#"__{"type":"downloading","downloaded_bytes": -5,"elapsed": 1}"#;
    assert_eq!(parse_progress(negative).unwrap(), Vec::<Progress>::new());
}
