use youtube_to_mp3::playlist::{
    format_duration, is_playlist_url, parse_ytdlp_output, playlist_fetch_args,
    validate_youtube_url, PlaylistError,
};

#[test]
fn recognised_urls_are_accepted() {
    assert!(validate_youtube_url("https://www.youtube.com/watch?v=abc"));
    assert!(validate_youtube_url("https://www.youtube.com/playlist?list=PL1"));
    assert!(validate_youtube_url("https://youtu.be/abc"));
    assert!(validate_youtube_url("https://music.youtube.com/watch?v=abc"));
    assert!(validate_youtube_url("https://www.youtube.com/mix?list=RD1"));
}

#[test]
fn other_urls_are_rejected() {
    assert!(!validate_youtube_url("https://vimeo.com/12345"));
    assert!(!validate_youtube_url("not a url"));
    assert!(!validate_youtube_url(""));
}

#[test]
fn playlist_detection() {
    assert!(is_playlist_url("https://www.youtube.com/playlist?list=PL1"));
    assert!(is_playlist_url("https://www.youtube.com/watch?v=a&list=PL1"));
    assert!(is_playlist_url("https://www.youtube.com/mix?x"));
    assert!(!is_playlist_url("https://www.youtube.com/watch?v=a"));
}

#[test]
fn fetch_args_for_a_playlist_are_flat_and_capped() {
    let url = "https://www.youtube.com/playlist?list=PL1";
    let args = playlist_fetch_args(url);
    let strs: Vec<&str> = args.iter().map(|s| s.as_str()).collect();
    assert_eq!(
        strs,
        vec!["--dump-json", "--no-warnings", "--flat-playlist", "--playlist-end", "100", url]
    );
}

#[test]
fn fetch_args_for_a_single_video() {
    let url = "https://www.youtube.com/watch?v=a";
    let args = playlist_fetch_args(url);
    let strs: Vec<&str> = args.iter().map(|s| s.as_str()).collect();
    assert_eq!(strs, vec!["--dump-json", "--no-warnings", url]);
}

#[test]
fn durations_are_rendered_like_clocks() {
    assert_eq!(format_duration(0), "0:00");
    assert_eq!(format_duration(59), "0:59");
    assert_eq!(format_duration(65), "1:05");
    assert_eq!(format_duration(600), "10:00");
    assert_eq!(format_duration(3600), "1:00:00");
    assert_eq!(format_duration(3725), "1:02:05");
    assert_eq!(format_duration(7325), "2:02:05");
}

#[test]
fn single_video_record_round_trip() {
    let line = "{\"id\":\"abc\",\"title\":\"A Song\",\"duration\":65.7,\"webpage_url\":\"https://w/abc\",\"thumbnail\":\"https://t/abc\"}";
    let items = parse_ytdlp_output(line, false).expect("one record parses");
    assert_eq!(items.len(), 1);
    assert_eq!(items[0].id, "abc");
    assert_eq!(items[0].title, "A Song");
    assert_eq!(items[0].duration.as_deref(), Some("1:05"));
    assert_eq!(items[0].url, "https://w/abc");
    assert_eq!(items[0].thumbnail.as_deref(), Some("https://t/abc"));
}

#[test]
fn playlist_records_use_url_field_and_fallbacks() {
    let out = "{\"id\":\"a1\",\"title\":\"One\",\"url\":\"https://u/a1\"}\n\n{\"id\":\"a2\"}\n";
    let items = parse_ytdlp_output(out, true).expect("two records parse");
    assert_eq!(items.len(), 2);
    assert_eq!(items[0].url, "https://u/a1");
    assert_eq!(items[1].title, "Unknown Title");
    assert_eq!(items[1].url, "https://www.youtube.com/watch?v=a2");
    assert_eq!(items[1].duration, None);
    assert_eq!(items[1].thumbnail, None);
}

#[test]
fn duplicate_ids_are_dropped() {
    let out = "{\"id\":\"x\",\"title\":\"first\"}\n{\"id\":\"x\",\"title\":\"second\"}\n";
    let items = parse_ytdlp_output(out, true).unwrap();
    assert_eq!(items.len(), 1);
    assert_eq!(items[0].title, "first");
}

#[test]
fn playlist_thumbnail_takes_the_last_entry_only() {
    let out = "{\"id\":\"x\",\"thumbnails\":[{\"url\":\"u1\"},{\"url\":\"u2\"}]}";
    let items = parse_ytdlp_output(out, true).unwrap();
    assert_eq!(items[0].thumbnail.as_deref(), Some("u2"));

    // the last entry has no url: the playlist rule does not search further
    let out2 = "{\"id\":\"x\",\"thumbnails\":[{\"url\":\"u1\"},{\"id\":0}]}";
    let items2 = parse_ytdlp_output(out2, true).unwrap();
    assert_eq!(items2[0].thumbnail, None);
}

#[test]
fn single_video_thumbnail_searches_backwards() {
    let out = "{\"id\":\"x\",\"thumbnails\":[{\"url\":\"u1\"},{\"id\":0}]}";
    let items = parse_ytdlp_output(out, false).unwrap();
    assert_eq!(items[0].thumbnail.as_deref(), Some("u1"));
}

#[test]
fn single_video_id_falls_back_to_display_id() {
    let out = "{\"display_id\":\"d1\",\"title\":\"T\"}";
    let items = parse_ytdlp_output(out, false).unwrap();
    assert_eq!(items[0].id, "d1");
    assert_eq!(items[0].url, "https://www.youtube.com/watch?v=d1");
}

#[test]
fn missing_id_is_a_parse_error() {
    let out = "{\"title\":\"no id here\"}";
    let err = parse_ytdlp_output(out, true).unwrap_err();
    match err {
        PlaylistError::ParseError(m) => assert_eq!(m, "Missing video ID"),
        _ => panic!("expected a parse error"),
    }
    assert_eq!(
        parse_ytdlp_output(out, true).unwrap_err().message(),
        "Failed to parse playlist data: Missing video ID"
    );
}

#[test]
fn empty_output_is_no_items_found() {
    let err = parse_ytdlp_output("", true).unwrap_err();
    match err {
        PlaylistError::ParseError(m) => assert_eq!(m, "No items found"),
        _ => panic!("expected a parse error"),
    }
    let err2 = parse_ytdlp_output("\n  \n", true).unwrap_err();
    match err2 {
        PlaylistError::ParseError(m) => assert_eq!(m, "No items found"),
        _ => panic!("expected a parse error"),
    }
}

#[test]
fn bad_json_is_reported_with_serde_text() {
    let err = parse_ytdlp_output("{not json", true).unwrap_err();
    match err {
        PlaylistError::ParseError(m) => assert!(m.starts_with("JSON parse error: ")),
        _ => panic!("expected a parse error"),
    }
}

#[test]
fn crlf_output_is_split_cleanly() {
    let out = "{\"id\":\"a\"}\r\n{\"id\":\"b\"}\r\n";
    let items = parse_ytdlp_output(out, true).unwrap();
    assert_eq!(items.len(), 2);
    assert_eq!(items[0].id, "a");
    assert_eq!(items[1].id, "b");
}
