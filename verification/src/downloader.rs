use vstd::prelude::*;

verus! {

/// Lifecycle states reported for one job. `Completed`, `Error` and
/// `Cancelled` are terminal: exactly one of them ends a job's event stream.
#[derive(Clone, Copy, Debug, PartialEq, Eq, Structural)]
pub enum DownloadStatus {
    Pending,
    Downloading,
    Processing,
    Completed,
    Error,
    Cancelled,
}

/// The statuses that end a job's event stream.
pub open spec fn is_terminal(st: DownloadStatus) -> bool {
    st is Completed || st is Error || st is Cancelled
}

/// Cap on a parsed percentage, in thousandths of a percent (45.0% is
/// 45_000); values beyond it saturate here.
pub const MAX_PERCENT_MILLI: u64 = 1_000_000_000;

/// One progress report for one job, as sent on the outward event stream.
#[derive(Clone, Debug)]
pub struct DownloadProgress {
    pub id: String,
    pub status: DownloadStatus,
    /// Thousandths of a percent complete.
    pub progress: u64,
    pub speed: Option<String>,
    pub eta: Option<String>,
    pub downloaded: Option<String>,
    pub total_size: Option<String>,
    pub error: Option<String>,
}

/// Mathematical image of a progress report.
#[verifier::ext_equal]
pub struct ProgressModel {
    pub id: Seq<char>,
    pub status: DownloadStatus,
    pub progress: u64,
    pub speed: Option<Seq<char>>,
    pub eta: Option<Seq<char>>,
    pub downloaded: Option<Seq<char>>,
    pub total_size: Option<Seq<char>>,
    pub error: Option<Seq<char>>,
}

impl View for DownloadProgress {
    type V = ProgressModel;

    open spec fn view(&self) -> ProgressModel {
        ProgressModel {
            id: self.id@,
            status: self.status,
            progress: self.progress,
            speed: self.speed.deep_view(),
            eta: self.eta.deep_view(),
            downloaded: self.downloaded.deep_view(),
            total_size: self.total_size.deep_view(),
            error: self.error.deep_view(),
        }
    }
}

/// Why a job failed before or after its subprocess ran.
#[derive(Debug)]
pub enum DownloadError {
    InvalidPath,
    YtDlpNotFound,
    DownloadFailed(String),
    Cancelled,
    BinaryError(String),
}

impl DownloadError {
    /// The human-readable description of this error.
    pub open spec fn spec_message(&self) -> Seq<char> {
        match self {
            DownloadError::InvalidPath => "Invalid download path"@,
            DownloadError::YtDlpNotFound => "yt-dlp not found"@,
            DownloadError::DownloadFailed(m) => "Download failed: "@ + m@,
            DownloadError::Cancelled => "Download cancelled"@,
            DownloadError::BinaryError(m) => "Binary error: "@ + m@,
        }
    }

    /// Human-readable description, used as the `error` field of a terminal
    /// event.
    pub fn message(&self) -> (r: String)
        ensures
            r@ == self.spec_message(),
    {
        match self {
            DownloadError::InvalidPath => String::from_str("Invalid download path"),
            DownloadError::YtDlpNotFound => String::from_str("yt-dlp not found"),
            DownloadError::DownloadFailed(m) => {
                let mut s = String::from_str("Download failed: ");
                s.append(m.as_str());
                s
            },
            DownloadError::Cancelled => String::from_str("Download cancelled"),
            DownloadError::BinaryError(m) => {
                let mut s = String::from_str("Binary error: ");
                s.append(m.as_str());
                s
            },
        }
    }
}

/// One unit of work: an opaque identifier and the URL handed to the
/// extraction tool.
pub struct DownloadItem {
    pub id: String,
    pub url: String,
}

/// Cooperative cancellation flag. It is owned by the batch coordinator and
/// handed by reference to every job runner, which only reads it; this keeps
/// the "written by one, read by many" protocol without process-global state.
pub struct StopFlag {
    pub requested: bool,
}

/// Sets or clears the shared stop request.
pub fn set_stop_signal(flag: &mut StopFlag, stop: bool)
    ensures
        final(flag).requested == stop,
{
    flag.requested = stop;
}

/// Reads the shared stop request.
pub fn is_stop_requested(flag: &StopFlag) -> (r: bool)
    ensures
        r == flag.requested,
{
    flag.requested
}

/// Output path template handed to the extraction tool: every job writes one
/// file, named by the tool, under the chosen folder.
pub open spec fn spec_output_template(folder: Seq<char>) -> Seq<char> {
    folder + "/%(title)s.%(ext)s"@
}

/// Builds the output path template for a download folder.
pub fn output_template(folder: &str) -> (r: String)
    ensures
        r@ == spec_output_template(folder@),
{
    let mut s = String::new();
    s.append(folder);
    s.append("/%(title)s.%(ext)s");
    s
}

/// The exact argument list for one extraction-tool invocation: audio-only
/// MP3 output at best quality, metadata and thumbnail embedding, and
/// newline-delimited progress reports that the parser understands.
pub open spec fn spec_download_args(url: Seq<char>, template: Seq<char>) -> Seq<Seq<char>> {
    seq![
        "--extract-audio"@,
        "--audio-format"@,
        "mp3"@,
        "--audio-quality"@,
        "0"@,
        "--embed-thumbnail"@,
        "--add-metadata"@,
        "--no-warnings"@,
        "--newline"@,
        "--progress"@,
        "-o"@,
        template,
        url,
    ]
}

/// Builds the extraction-tool argument list for one job.
pub fn download_args(url: &str, folder: &str) -> (r: Vec<String>)
    ensures
        r.deep_view() == spec_download_args(url@, spec_output_template(folder@)),
{
    let mut args: Vec<String> = Vec::new();
    args.push(String::from_str("--extract-audio"));
    args.push(String::from_str("--audio-format"));
    args.push(String::from_str("mp3"));
    args.push(String::from_str("--audio-quality"));
    args.push(String::from_str("0"));
    args.push(String::from_str("--embed-thumbnail"));
    args.push(String::from_str("--add-metadata"));
    args.push(String::from_str("--no-warnings"));
    args.push(String::from_str("--newline"));
    args.push(String::from_str("--progress"));
    args.push(String::from_str("-o"));
    args.push(output_template(folder));
    args.push(String::from_str(url));
    proof {
        assert(args.deep_view() =~= spec_download_args(url@, spec_output_template(folder@)));
    }
    args
}

} // verus!
