use vstd::prelude::*;
use crate::text::str_eq;

verus! {

/// The platforms the bundled tools are shipped for. The choice is a plain
/// input here; the interface layer passes the platform it was built for.
#[derive(Clone, Copy, Debug, PartialEq, Eq, Structural)]
pub enum Platform {
    Windows,
    MacOs,
    Linux,
}

/// Names and locates the bundled external tools.
pub struct BinaryManager;

/// The packaged file name and the installed file name of a tool: the
/// extraction and transcoding tools ship under platform-specific names and
/// are installed under their plain names (with `.exe` on Windows); any
/// other tool keeps its own name.
pub open spec fn spec_binary_filenames(platform: Platform, name: Seq<char>) -> (Seq<char>, Seq<
    char,
>) {
    if name == "yt-dlp"@ {
        match platform {
            Platform::Windows => ("yt-dlp.exe"@, "yt-dlp.exe"@),
            Platform::MacOs => ("yt-dlp-macos"@, "yt-dlp"@),
            Platform::Linux => ("yt-dlp"@, "yt-dlp"@),
        }
    } else if name == "ffmpeg"@ {
        match platform {
            Platform::Windows => ("ffmpeg.exe"@, "ffmpeg.exe"@),
            Platform::MacOs => ("ffmpeg-macos"@, "ffmpeg"@),
            Platform::Linux => ("ffmpeg-linux"@, "ffmpeg"@),
        }
    } else {
        match platform {
            Platform::Windows => (name + ".exe"@, name + ".exe"@),
            Platform::MacOs => (name, name),
            Platform::Linux => (name, name),
        }
    }
}

impl BinaryManager {
    /// The pair (packaged file name, installed file name) for a tool on a
    /// platform.
    pub fn get_binary_filenames(platform: Platform, binary_name: &str) -> (r: (String, String))
        ensures
            r.0@ == spec_binary_filenames(platform, binary_name@).0,
            r.1@ == spec_binary_filenames(platform, binary_name@).1,
    {
        if str_eq(binary_name, "yt-dlp") {
            match platform {
                Platform::Windows => (String::from_str("yt-dlp.exe"), String::from_str(
                    "yt-dlp.exe",
                )),
                Platform::MacOs => (String::from_str("yt-dlp-macos"), String::from_str("yt-dlp")),
                Platform::Linux => (String::from_str("yt-dlp"), String::from_str("yt-dlp")),
            }
        } else if str_eq(binary_name, "ffmpeg") {
            match platform {
                Platform::Windows => (String::from_str("ffmpeg.exe"), String::from_str(
                    "ffmpeg.exe",
                )),
                Platform::MacOs => (String::from_str("ffmpeg-macos"), String::from_str("ffmpeg")),
                Platform::Linux => (String::from_str("ffmpeg-linux"), String::from_str("ffmpeg")),
            }
        } else {
            match platform {
                Platform::Windows => {
                    let mut a = String::from_str(binary_name);
                    a.append(".exe");
                    let mut b = String::from_str(binary_name);
                    b.append(".exe");
                    (a, b)
                },
                Platform::MacOs => (String::from_str(binary_name), String::from_str(binary_name)),
                Platform::Linux => (String::from_str(binary_name), String::from_str(binary_name)),
            }
        }
    }
}

} // verus!
