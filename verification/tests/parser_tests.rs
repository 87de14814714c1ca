use youtube_to_mp3::downloader::DownloadStatus;
use youtube_to_mp3::progress::{extract_percentage, parse_progress_line};

#[test]
fn download_line_with_all_fields() {
    let ev = parse_progress_line("[download]  45.0% of 10.23MiB at 1.2MiB/s ETA 00:07", "job1")
        .expect("line should produce an event");
    assert_eq!(ev.id, "job1");
    assert!(matches!(ev.status, DownloadStatus::Downloading));
    assert_eq!(ev.progress, 45_000);
    assert_eq!(ev.total_size.as_deref(), Some("10.23MiB"));
    assert_eq!(ev.speed.as_deref(), Some("1.2MiB/s"));
    assert_eq!(ev.eta.as_deref(), Some("00:07"));
    assert_eq!(ev.downloaded, None);
    assert_eq!(ev.error, None);
}

#[test]
fn ffmpeg_marker_line_is_processing_sentinel() {
    let ev = parse_progress_line("[ffmpeg] Converting", "j").expect("marker line yields event");
    assert!(matches!(ev.status, DownloadStatus::Processing));
    assert_eq!(ev.progress, 95_000);
    assert_eq!(ev.speed, None);
    assert_eq!(ev.eta, None);
    assert_eq!(ev.total_size, None);
    assert_eq!(ev.error, None);
}

#[test]
fn marker_wins_over_numeric_content() {
    let ev = parse_progress_line("[ffmpeg] Converting 45.0% done", "j").unwrap();
    assert!(matches!(ev.status, DownloadStatus::Processing));
    assert_eq!(ev.progress, 95_000);
}

#[test]
fn deleting_marker_line() {
    let ev = parse_progress_line("Deleting original file x.webm", "j").unwrap();
    assert!(matches!(ev.status, DownloadStatus::Processing));
    assert_eq!(ev.progress, 95_000);
}

#[test]
fn unrelated_lines_yield_nothing() {
    assert!(parse_progress_line("", "j").is_none());
    assert!(parse_progress_line("[youtube] Extracting URL", "j").is_none());
    assert!(parse_progress_line("WARNING: unable to fetch", "j").is_none());
    assert!(parse_progress_line("no percent here", "j").is_none());
}

#[test]
fn hundred_percent_switches_to_processing() {
    let ev = parse_progress_line("[download] 100% of 10.23MiB in 00:08", "j").unwrap();
    assert!(matches!(ev.status, DownloadStatus::Processing));
    assert_eq!(ev.progress, 100_000);
    assert_eq!(ev.total_size.as_deref(), Some("10.23MiB"));
    assert_eq!(ev.speed, None);
    assert_eq!(ev.eta, None);
}

#[test]
fn just_below_hundred_is_downloading() {
    let ev = parse_progress_line("[download]  99.9% of ~3.00MiB at 500KiB/s ETA 00:01", "j")
        .unwrap();
    assert!(matches!(ev.status, DownloadStatus::Downloading));
    assert_eq!(ev.progress, 99_900);
}

#[test]
fn slightly_over_hundred_is_processing() {
    let ev = parse_progress_line("100.1%", "j").unwrap();
    assert!(matches!(ev.status, DownloadStatus::Processing));
    assert_eq!(ev.progress, 100_100);
}

#[test]
fn malformed_token_is_skipped_and_scanning_continues() {
    // two dots make the first token ill-formed; the next one wins
    let ev = parse_progress_line("1.2.3% then 45%", "j").unwrap();
    assert!(matches!(ev.status, DownloadStatus::Downloading));
    assert_eq!(ev.progress, 45_000);
}

#[test]
fn token_without_digits_is_skipped() {
    let ev = parse_progress_line(".% and later 7%", "j").unwrap();
    assert_eq!(ev.progress, 7_000);
}

#[test]
fn first_token_wins() {
    let ev = parse_progress_line("12% and then 99%", "j").unwrap();
    assert_eq!(ev.progress, 12_000);
}

#[test]
fn fractional_digits_beyond_the_third_are_ignored() {
    let ev = parse_progress_line("45.6789%", "j").unwrap();
    assert_eq!(ev.progress, 45_678);
}

#[test]
fn bare_percentage_has_no_optional_fields() {
    let ev = parse_progress_line("45%", "j").unwrap();
    assert!(matches!(ev.status, DownloadStatus::Downloading));
    assert_eq!(ev.progress, 45_000);
    assert_eq!(ev.speed, None);
    assert_eq!(ev.eta, None);
    assert_eq!(ev.total_size, None);
}

#[test]
fn eta_skips_extra_blanks() {
    let ev = parse_progress_line("45% ETA   00:07", "j").unwrap();
    assert_eq!(ev.eta.as_deref(), Some("00:07"));
}

#[test]
fn extract_percentage_directly() {
    assert_eq!(extract_percentage("[download] 45.0% of x"), Some(45_000));
    assert_eq!(extract_percentage("100%"), Some(100_000));
    assert_eq!(extract_percentage("no token"), None);
    assert_eq!(extract_percentage("5.%"), Some(5_000));
    assert_eq!(extract_percentage(".5%"), Some(500));
}

#[test]
fn leading_and_trailing_blanks_are_trimmed() {
    let ev = parse_progress_line("   45.0% of 10MiB \n", "j").unwrap();
    assert_eq!(ev.progress, 45_000);
    // after trimming there is no space after the size token, so none is taken
    assert_eq!(ev.total_size, None);
}
