use youtube_to_mp3::binaries::{BinaryManager, Platform};
use youtube_to_mp3::downloader::{download_args, output_template, DownloadError};
use youtube_to_mp3::settings::{validate_parallel_downloads, Settings};

#[test]
fn parallel_downloads_bounds() {
    assert_eq!(
        validate_parallel_downloads(0).unwrap_err(),
        "Parallel downloads must be at least 1"
    );
    assert!(validate_parallel_downloads(1).is_ok());
    assert!(validate_parallel_downloads(5).is_ok());
    assert!(validate_parallel_downloads(10).is_ok());
    assert_eq!(
        validate_parallel_downloads(11).unwrap_err(),
        "Parallel downloads cannot exceed 10"
    );
}

#[test]
fn settings_hold_their_fields() {
    let s = Settings { download_folder: String::from("/tmp/music"), parallel_downloads: 3 };
    assert_eq!(s.download_folder, "/tmp/music");
    assert_eq!(s.parallel_downloads, 3);
}

#[test]
fn extraction_tool_filenames_per_platform() {
    assert_eq!(
        BinaryManager::get_binary_filenames(Platform::Windows, "yt-dlp"),
        (String::from("yt-dlp.exe"), String::from("yt-dlp.exe"))
    );
    assert_eq!(
        BinaryManager::get_binary_filenames(Platform::MacOs, "yt-dlp"),
        (String::from("yt-dlp-macos"), String::from("yt-dlp"))
    );
    assert_eq!(
        BinaryManager::get_binary_filenames(Platform::Linux, "yt-dlp"),
        (String::from("yt-dlp"), String::from("yt-dlp"))
    );
}

#[test]
fn transcoding_tool_filenames_per_platform() {
    assert_eq!(
        BinaryManager::get_binary_filenames(Platform::Linux, "ffmpeg"),
        (String::from("ffmpeg-linux"), String::from("ffmpeg"))
    );
    assert_eq!(
        BinaryManager::get_binary_filenames(Platform::MacOs, "ffmpeg"),
        (String::from("ffmpeg-macos"), String::from("ffmpeg"))
    );
    assert_eq!(
        BinaryManager::get_binary_filenames(Platform::Windows, "ffmpeg"),
        (String::from("ffmpeg.exe"), String::from("ffmpeg.exe"))
    );
}

#[test]
fn other_tools_keep_their_names() {
    assert_eq!(
        BinaryManager::get_binary_filenames(Platform::Windows, "other"),
        (String::from("other.exe"), String::from("other.exe"))
    );
    assert_eq!(
        BinaryManager::get_binary_filenames(Platform::Linux, "other"),
        (String::from("other"), String::from("other"))
    );
}

#[test]
fn download_invocation_arguments() {
    let args = download_args("https://www.youtube.com/watch?v=a", "/tmp/out");
    let strs: Vec<&str> = args.iter().map(|s| s.as_str()).collect();
    assert_eq!(
        strs,
        vec![
            "--extract-audio",
            "--audio-format",
            "mp3",
            "--audio-quality",
            "0",
            "--embed-thumbnail",
            "--add-metadata",
            "--no-warnings",
            "--newline",
            "--progress",
            "-o",
            "/tmp/out/%(title)s.%(ext)s",
            "https://www.youtube.com/watch?v=a",
        ]
    );
}

#[test]
fn output_template_appends_the_tool_pattern() {
    assert_eq!(output_template("/music"), "/music/%(title)s.%(ext)s");
}

#[test]
fn download_error_messages() {
    assert_eq!(DownloadError::InvalidPath.message(), "Invalid download path");
    assert_eq!(DownloadError::YtDlpNotFound.message(), "yt-dlp not found");
    assert_eq!(DownloadError::Cancelled.message(), "Download cancelled");
    assert_eq!(
        DownloadError::DownloadFailed(String::from("boom")).message(),
        "Download failed: boom"
    );
    assert_eq!(
        DownloadError::BinaryError(String::from("gone")).message(),
        "Binary error: gone"
    );
}
