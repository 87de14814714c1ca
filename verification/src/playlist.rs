use vstd::prelude::*;
use crate::text::{contains_sub, has_sub, spec_lines, spec_trim, split_lines, str_eq, trim_str};

verus! {

// ---------------------------------------------------------------------------
// Playlist metadata.
//
// The external tool, invoked once per fetch, prints one JSON record per
// line. The records are opaque to this crate's logic until their fields are
// read out into `VideoFields`; everything after that point is verified:
// which field wins, what the fallbacks are, how durations are rendered, and
// how duplicates are dropped.
// ---------------------------------------------------------------------------

/// One entry of a fetched playlist, as handed to the interface layer.
#[derive(Clone, Debug)]
pub struct Item {
    pub id: String,
    pub title: String,
    pub duration: Option<String>,
    pub thumbnail: Option<String>,
    pub url: String,
}

/// Mathematical image of an `Item`.
#[verifier::ext_equal]
pub struct ItemModel {
    pub id: Seq<char>,
    pub title: Seq<char>,
    pub duration: Option<Seq<char>>,
    pub thumbnail: Option<Seq<char>>,
    pub url: Seq<char>,
}

impl View for Item {
    type V = ItemModel;

    open spec fn view(&self) -> ItemModel {
        ItemModel {
            id: self.id@,
            title: self.title@,
            duration: self.duration.deep_view(),
            thumbnail: self.thumbnail.deep_view(),
            url: self.url@,
        }
    }
}

/// Why a playlist fetch failed.
#[derive(Debug)]
pub enum PlaylistError {
    InvalidUrl,
    YtDlpNotFound,
    FetchFailed(String),
    ParseError(String),
    BinaryError(String),
}

impl PlaylistError {
    /// The human-readable description of this error.
    pub open spec fn spec_message(&self) -> Seq<char> {
        match self {
            PlaylistError::InvalidUrl => "Invalid YouTube URL"@,
            PlaylistError::YtDlpNotFound => "yt-dlp not found. Please install yt-dlp"@,
            PlaylistError::FetchFailed(m) => "Failed to fetch playlist: "@ + m@,
            PlaylistError::ParseError(m) => "Failed to parse playlist data: "@ + m@,
            PlaylistError::BinaryError(m) => "Binary error: "@ + m@,
        }
    }

    /// Human-readable description of the error.
    pub fn message(&self) -> (r: String)
        ensures
            r@ == self.spec_message(),
    {
        match self {
            PlaylistError::InvalidUrl => String::from_str("Invalid YouTube URL"),
            PlaylistError::YtDlpNotFound => String::from_str(
                "yt-dlp not found. Please install yt-dlp",
            ),
            PlaylistError::FetchFailed(m) => {
                let mut s = String::from_str("Failed to fetch playlist: ");
                s.append(m.as_str());
                s
            },
            PlaylistError::ParseError(m) => {
                let mut s = String::from_str("Failed to parse playlist data: ");
                s.append(m.as_str());
                s
            },
            PlaylistError::BinaryError(m) => {
                let mut s = String::from_str("Binary error: ");
                s.append(m.as_str());
                s
            },
        }
    }
}

/// The URL shapes accepted as fetchable.
pub open spec fn spec_is_youtube_url(url: Seq<char>) -> bool {
    ||| has_sub(url, "youtube.com/watch"@)
    ||| has_sub(url, "youtube.com/playlist"@)
    ||| has_sub(url, "youtu.be/"@)
    ||| has_sub(url, "youtube.com/mix"@)
    ||| has_sub(url, "music.youtube.com"@)
}

/// Accepts exactly the URLs that carry one of the recognised host/path
/// patterns.
pub fn validate_youtube_url(url: &str) -> (r: bool)
    ensures
        r == spec_is_youtube_url(url@),
{
    contains_sub(url, "youtube.com/watch") || contains_sub(url, "youtube.com/playlist")
        || contains_sub(url, "youtu.be/") || contains_sub(url, "youtube.com/mix") || contains_sub(
        url,
        "music.youtube.com",
    )
}

/// A URL is treated as a playlist (fetched flat and capped) when it speaks
/// of a playlist, a mix, or carries a list parameter.
pub open spec fn spec_is_playlist_url(url: Seq<char>) -> bool {
    has_sub(url, "playlist"@) || has_sub(url, "mix"@) || has_sub(url, "&list="@)
}

/// Does this URL name a playlist or mix rather than a single video?
pub fn is_playlist_url(url: &str) -> (r: bool)
    ensures
        r == spec_is_playlist_url(url@),
{
    contains_sub(url, "playlist") || contains_sub(url, "mix") || contains_sub(url, "&list=")
}

/// The exact argument list for one metadata fetch: JSON records, one per
/// line; playlists are fetched flat and capped at 100 entries to keep
/// endless mixes finite.
pub open spec fn spec_playlist_fetch_args(url: Seq<char>) -> Seq<Seq<char>> {
    if spec_is_playlist_url(url) {
        seq![
            "--dump-json"@,
            "--no-warnings"@,
            "--flat-playlist"@,
            "--playlist-end"@,
            "100"@,
            url,
        ]
    } else {
        seq!["--dump-json"@, "--no-warnings"@, url]
    }
}

/// Builds the metadata-fetch argument list for a URL.
pub fn playlist_fetch_args(url: &str) -> (r: Vec<String>)
    ensures
        r.deep_view() == spec_playlist_fetch_args(url@),
{
    let mut args: Vec<String> = Vec::new();
    args.push(String::from_str("--dump-json"));
    args.push(String::from_str("--no-warnings"));
    if is_playlist_url(url) {
        args.push(String::from_str("--flat-playlist"));
        args.push(String::from_str("--playlist-end"));
        args.push(String::from_str("100"));
    }
    args.push(String::from_str(url));
    proof {
        assert(args.deep_view() =~= spec_playlist_fetch_args(url@));
    }
    args
}

// ---------------------------------------------------------------------------
// Durations.
// ---------------------------------------------------------------------------

/// The single character for a decimal digit.
pub open spec fn spec_digit(d: nat) -> Seq<char> {
    if d == 0 {
        "0"@
    } else if d == 1 {
        "1"@
    } else if d == 2 {
        "2"@
    } else if d == 3 {
        "3"@
    } else if d == 4 {
        "4"@
    } else if d == 5 {
        "5"@
    } else if d == 6 {
        "6"@
    } else if d == 7 {
        "7"@
    } else if d == 8 {
        "8"@
    } else {
        "9"@
    }
}

/// Decimal rendering of a number, without padding.
pub open spec fn spec_decimal(n: nat) -> Seq<char>
    decreases n,
{
    if n < 10 {
        spec_digit(n)
    } else {
        spec_decimal(n / 10) + spec_digit(n % 10)
    }
}

/// Two-digit zero-padded rendering of a number under 100.
pub open spec fn spec_two_digits(n: nat) -> Seq<char> {
    spec_digit(n / 10) + spec_digit(n % 10)
}

/// A duration in seconds rendered as `H:MM:SS`, or `M:SS` when there is no
/// whole hour.
pub open spec fn spec_format_duration(seconds: nat) -> Seq<char> {
    let hours = seconds / 3600;
    let minutes = (seconds % 3600) / 60;
    let secs = seconds % 60;
    if hours > 0 {
        spec_decimal(hours) + ":"@ + spec_two_digits(minutes) + ":"@ + spec_two_digits(secs)
    } else {
        spec_decimal(minutes) + ":"@ + spec_two_digits(secs)
    }
}

fn push_digit(out: &mut String, d: u64)
    requires
        d < 10,
    ensures
        final(out)@ == old(out)@ + spec_digit(d as nat),
{
    match d {
        0 => out.append("0"),
        1 => out.append("1"),
        2 => out.append("2"),
        3 => out.append("3"),
        4 => out.append("4"),
        5 => out.append("5"),
        6 => out.append("6"),
        7 => out.append("7"),
        8 => out.append("8"),
        _ => out.append("9"),
    }
}

fn push_decimal(out: &mut String, n: u64)
    ensures
        final(out)@ == old(out)@ + spec_decimal(n as nat),
    decreases n,
{
    if n >= 10 {
        push_decimal(out, n / 10);
        push_digit(out, n % 10);
        proof {
            assert(old(out)@ + spec_decimal((n / 10) as nat) + spec_digit((n % 10) as nat)
                =~= old(out)@ + spec_decimal(n as nat));
        }
    } else {
        push_digit(out, n);
    }
}

fn push_two_digits(out: &mut String, n: u64)
    requires
        n < 100,
    ensures
        final(out)@ == old(out)@ + spec_two_digits(n as nat),
{
    push_digit(out, n / 10);
    push_digit(out, n % 10);
    proof {
        assert(old(out)@ + spec_digit((n / 10) as nat) + spec_digit((n % 10) as nat) =~= old(
            out,
        )@ + spec_two_digits(n as nat));
    }
}

/// Renders a duration in whole seconds as `H:MM:SS` or `M:SS`.
pub fn format_duration(seconds: u64) -> (r: String)
    ensures
        r@ == spec_format_duration(seconds as nat),
{
    let hours = seconds / 3600;
    let minutes = (seconds % 3600) / 60;
    let secs = seconds % 60;
    let mut out = String::new();
    if hours > 0 {
        push_decimal(&mut out, hours);
        out.append(":");
        push_two_digits(&mut out, minutes);
        out.append(":");
        push_two_digits(&mut out, secs);
    } else {
        push_decimal(&mut out, minutes);
        out.append(":");
        push_two_digits(&mut out, secs);
    }
    proof {
        assert(out@ =~= spec_format_duration(seconds as nat));
    }
    out
}

// ---------------------------------------------------------------------------
// Assembling items from plain metadata fields.
// ---------------------------------------------------------------------------

/// The plain fields the playlist logic reads out of one JSON record.
pub struct VideoFields {
    pub id: Option<String>,
    pub display_id: Option<String>,
    pub title: Option<String>,
    /// Whole seconds, already truncated.
    pub duration_secs: Option<u64>,
    pub thumbnail: Option<String>,
    /// The `url` of each thumbnail entry, in order; None without the array.
    pub thumbnail_urls: Option<Vec<Option<String>>>,
    pub url: Option<String>,
    pub webpage_url: Option<String>,
}

/// The watch URL constructed from a bare video id.
pub open spec fn spec_fallback_url(id: Seq<char>) -> Seq<char> {
    "https://www.youtube.com/watch?v="@ + id
}

/// A record without a title gets the fixed placeholder.
pub open spec fn spec_title(t: Option<Seq<char>>) -> Seq<char> {
    match t {
        Some(t) => t,
        None => "Unknown Title"@,
    }
}

/// The rendered duration, when the record carries one.
pub open spec fn spec_duration_field(d: Option<u64>) -> Option<Seq<char>> {
    match d {
        Some(d) => Some(spec_format_duration(d as nat)),
        None => None,
    }
}

/// Playlist entries fall back to the *last* thumbnail entry's url (present
/// or not), never searching further.
pub open spec fn spec_playlist_thumb(
    thumbnail: Option<Seq<char>>,
    urls: Option<Seq<Option<Seq<char>>>>,
) -> Option<Seq<char>> {
    match thumbnail {
        Some(t) => Some(t),
        None => match urls {
            Some(us) => if us.len() > 0 {
                us.last()
            } else {
                None
            },
            None => None,
        },
    }
}

/// The last thumbnail entry that actually has a url.
pub open spec fn spec_rev_find(us: Seq<Option<Seq<char>>>) -> Option<Seq<char>>
    decreases us.len(),
{
    if us.len() == 0 {
        None
    } else {
        match us.last() {
            Some(u) => Some(u),
            None => spec_rev_find(us.drop_last()),
        }
    }
}

/// Single videos search the thumbnail entries from the end for one with a
/// url.
pub open spec fn spec_single_thumb(
    thumbnail: Option<Seq<char>>,
    urls: Option<Seq<Option<Seq<char>>>>,
) -> Option<Seq<char>> {
    match thumbnail {
        Some(t) => Some(t),
        None => match urls {
            Some(us) => spec_rev_find(us),
            None => None,
        },
    }
}

/// A playlist entry's url: the record's own, else constructed from the id.
pub open spec fn spec_url_or_fallback(u: Option<Seq<char>>, id: Seq<char>) -> Seq<char> {
    match u {
        Some(u) => u,
        None => spec_fallback_url(id),
    }
}

/// A single video's url: the page url, else the record url, else
/// constructed from the id.
pub open spec fn spec_single_url(
    webpage: Option<Seq<char>>,
    u: Option<Seq<char>>,
    id: Seq<char>,
) -> Seq<char> {
    match webpage {
        Some(w) => w,
        None => spec_url_or_fallback(u, id),
    }
}

/// Builds the watch URL for a bare id.
fn fallback_url(id: &str) -> (r: String)
    ensures
        r@ == spec_fallback_url(id@),
{
    let mut s = String::from_str("https://www.youtube.com/watch?v=");
    s.append(id);
    s
}

/// The last thumbnail url in the list, searching backwards.
fn rev_find_thumb(us: &Vec<Option<String>>) -> (r: Option<String>)
    ensures
        r.deep_view() == spec_rev_find(us.deep_view()),
{
    let mut k = us.len();
    proof {
        assert(us.deep_view().subrange(0, us@.len() as int) =~= us.deep_view());
    }
    while k > 0
        invariant
            k <= us@.len(),
            spec_rev_find(us.deep_view()) == spec_rev_find(us.deep_view().subrange(0, k as int)),
        decreases k,
    {
        let ghost pre = us.deep_view().subrange(0, k as int);
        proof {
            assert(pre.last() == us.deep_view()[k - 1]);
            assert(us.deep_view()[k - 1] == us@[k - 1].deep_view());
        }
        match &us[k - 1] {
            Some(u) => {
                proof {
                    assert(spec_rev_find(pre) == Some(u@));
                }
                return Some(u.clone());
            },
            None => {
                proof {
                    assert(pre.drop_last() =~= us.deep_view().subrange(0, k - 1));
                }
            },
        }
        k -= 1;
    }
    proof {
        assert(us.deep_view().subrange(0, 0) =~= Seq::<Option<Seq<char>>>::empty());
    }
    None
}

/// Builds a playlist entry from its plain fields: the id is required, the
/// title falls back to a placeholder, the thumbnail to the last list entry,
/// and the url to one constructed from the id.
pub fn assemble_playlist_item(f: &VideoFields) -> (r: Result<Item, PlaylistError>)
    ensures
        f.id is None ==> (r matches Err(e) && e matches PlaylistError::ParseError(m) && m@
            == "Missing video ID"@),
        f.id matches Some(id) ==> (r matches Ok(it) && it@ == (ItemModel {
            id: id@,
            title: spec_title(f.title.deep_view()),
            duration: spec_duration_field(f.duration_secs),
            thumbnail: spec_playlist_thumb(f.thumbnail.deep_view(), f.thumbnail_urls.deep_view()),
            url: spec_url_or_fallback(f.url.deep_view(), id@),
        })),
{
    let id = match &f.id {
        Some(id) => id.clone(),
        None => {
            return Err(PlaylistError::ParseError(String::from_str("Missing video ID")));
        },
    };
    let title = match &f.title {
        Some(t) => t.clone(),
        None => String::from_str("Unknown Title"),
    };
    let duration = match f.duration_secs {
        Some(d) => Some(format_duration(d)),
        None => None,
    };
    let thumbnail = match &f.thumbnail {
        Some(t) => Some(t.clone()),
        None => match &f.thumbnail_urls {
            Some(us) => {
                if us.len() > 0 {
                    proof {
                        assert(us.deep_view().last() == us@[us@.len() - 1].deep_view());
                    }
                    match &us[us.len() - 1] {
                        Some(u) => Some(u.clone()),
                        None => None,
                    }
                } else {
                    None
                }
            },
            None => None,
        },
    };
    let url = match &f.url {
        Some(u) => u.clone(),
        None => fallback_url(id.as_str()),
    };
    let it = Item { id, title, duration, thumbnail, url };
    proof {
        let idv = f.id.deep_view()->Some_0;
        assert(it@ =~= (ItemModel {
            id: idv,
            title: spec_title(f.title.deep_view()),
            duration: spec_duration_field(f.duration_secs),
            thumbnail: spec_playlist_thumb(f.thumbnail.deep_view(), f.thumbnail_urls.deep_view()),
            url: spec_url_or_fallback(f.url.deep_view(), idv),
        }));
    }
    Ok(it)
}

/// Builds a single-video entry from its plain fields: the id may come from
/// the display id, the thumbnail search walks the list backwards, and the
/// url prefers the page url.
pub fn assemble_single_video(f: &VideoFields) -> (r: Result<Item, PlaylistError>)
    ensures
        f.id is None && f.display_id is None ==> (r matches Err(e) && e
            matches PlaylistError::ParseError(m) && m@ == "Missing video ID"@),
        !(f.id is None && f.display_id is None) ==> (r matches Ok(it) && it@ == (ItemModel {
            id: (if f.id is Some {
                f.id.deep_view()->Some_0
            } else {
                f.display_id.deep_view()->Some_0
            }),
            title: spec_title(f.title.deep_view()),
            duration: spec_duration_field(f.duration_secs),
            thumbnail: spec_single_thumb(f.thumbnail.deep_view(), f.thumbnail_urls.deep_view()),
            url: spec_single_url(
                f.webpage_url.deep_view(),
                f.url.deep_view(),
                (if f.id is Some {
                    f.id.deep_view()->Some_0
                } else {
                    f.display_id.deep_view()->Some_0
                }),
            ),
        })),
{
    let id = match &f.id {
        Some(id) => id.clone(),
        None => match &f.display_id {
            Some(id) => id.clone(),
            None => {
                return Err(PlaylistError::ParseError(String::from_str("Missing video ID")));
            },
        },
    };
    let title = match &f.title {
        Some(t) => t.clone(),
        None => String::from_str("Unknown Title"),
    };
    let duration = match f.duration_secs {
        Some(d) => Some(format_duration(d)),
        None => None,
    };
    let thumbnail = match &f.thumbnail {
        Some(t) => Some(t.clone()),
        None => match &f.thumbnail_urls {
            Some(us) => rev_find_thumb(us),
            None => None,
        },
    };
    let url = match &f.webpage_url {
        Some(w) => w.clone(),
        None => match &f.url {
            Some(u) => u.clone(),
            None => fallback_url(id.as_str()),
        },
    };
    let it = Item { id, title, duration, thumbnail, url };
    proof {
        let idv = if f.id is Some {
            f.id.deep_view()->Some_0
        } else {
            f.display_id.deep_view()->Some_0
        };
        assert(it@ =~= (ItemModel {
            id: idv,
            title: spec_title(f.title.deep_view()),
            duration: spec_duration_field(f.duration_secs),
            thumbnail: spec_single_thumb(f.thumbnail.deep_view(), f.thumbnail_urls.deep_view()),
            url: spec_single_url(f.webpage_url.deep_view(), f.url.deep_view(), idv),
        }));
    }
    Ok(it)
}

// ---------------------------------------------------------------------------
// Reading JSON records through serde_json.
// ---------------------------------------------------------------------------

#[verifier::external_type_specification]
#[verifier::external_body]
pub struct ExJsonValue(serde_json::Value);

/// Whether a line of text is one well-formed JSON document: a fact of the
/// line alone, named here so that contracts can speak of it.
pub uninterp spec fn json_line_ok(s: Seq<char>) -> bool;

/// Relies on serde_json::from_str::<Value>: whether a line parses depends
/// on the line alone; on failure, serde_json's own diagnostic text is
/// returned.
#[verifier::external_body]
fn parse_json_value(line: &str) -> (r: Result<serde_json::Value, String>)
    ensures
        r is Ok == json_line_ok(line@),
{
    serde_json::from_str::<serde_json::Value>(line).map_err(|e| e.to_string())
}

/// Relies on serde_json::Value::get and Value::as_str: the string under
/// `key`, when the record is an object holding a string there.
#[verifier::external_body]
fn json_str_field(v: &serde_json::Value, key: &str) -> Option<String> {
    v.get(key).and_then(|f| f.as_str()).map(|s| s.to_string())
}

/// Relies on serde_json::Value::get and Value::as_f64: the number under
/// `key`, truncated to whole seconds.
#[verifier::external_body]
fn json_secs_field(v: &serde_json::Value, key: &str) -> Option<u64> {
    v.get(key).and_then(|f| f.as_f64()).map(|d| d as u64)
}

/// Relies on serde_json::Value::get, Value::as_array, Value::as_str: the
/// `url` string of each `thumbnails` entry, in order, None where an entry
/// has none; None when there is no such array.
#[verifier::external_body]
fn json_thumbnail_urls(v: &serde_json::Value) -> Option<Vec<Option<String>>> {
    let arr = v.get("thumbnails")?.as_array()?;
    Some(
        arr.iter().map(
            |t| t.get("url").and_then(|u| u.as_str()).map(|s| s.to_string()),
        ).collect(),
    )
}

/// Reads out of one JSON record every field the assembly logic looks at.
fn read_video_fields(v: &serde_json::Value) -> VideoFields {
    VideoFields {
        id: json_str_field(v, "id"),
        display_id: json_str_field(v, "display_id"),
        title: json_str_field(v, "title"),
        duration_secs: json_secs_field(v, "duration"),
        thumbnail: json_str_field(v, "thumbnail"),
        thumbnail_urls: json_thumbnail_urls(v),
        url: json_str_field(v, "url"),
        webpage_url: json_str_field(v, "webpage_url"),
    }
}

/// Parses one flat-playlist record. The exact field and fallback rules are
/// the contract of `assemble_playlist_item`, which this call feeds with the
/// record's fields.
pub fn parse_playlist_item(v: &serde_json::Value) -> Result<Item, PlaylistError> {
    let fields = read_video_fields(v);
    assemble_playlist_item(&fields)
}

/// Parses one single-video record. The exact field and fallback rules are
/// the contract of `assemble_single_video`, which this call feeds with the
/// record's fields.
pub fn parse_single_video(v: &serde_json::Value) -> Result<Item, PlaylistError> {
    let fields = read_video_fields(v);
    assemble_single_video(&fields)
}

/// A line that holds nothing but blanks is skipped by the output parser.
pub open spec fn spec_is_blank(line: Seq<char>) -> bool {
    spec_trim(line).len() == 0
}

/// Is `id` already among the seen ids?
fn contains_str(seen: &Vec<String>, id: &str) -> (r: bool)
    ensures
        r == (exists|k: int| 0 <= k < seen@.len() && (#[trigger] seen@[k])@ == id@),
{
    let mut k: usize = 0;
    while k < seen.len()
        invariant
            k <= seen@.len(),
            forall|k2: int| 0 <= k2 < k ==> (#[trigger] seen@[k2])@ != id@,
        decreases seen@.len() - k,
    {
        if str_eq(seen[k].as_str(), id) {
            return true;
        }
        k += 1;
    }
    false
}

/// Parses the tool's metadata output: one JSON record per line, blank lines
/// skipped, entries with an id already seen dropped. Returns at least one
/// item with pairwise distinct ids, or the error of the first line that
/// fails; an output with no records at all is an error of its own.
pub fn parse_ytdlp_output(output: &str, is_playlist: bool) -> (r: Result<Vec<Item>, PlaylistError>)
    ensures
        r matches Ok(items) ==> items@.len() >= 1,
        r matches Ok(items) ==> (forall|a: int, b: int|
            0 <= a < b < items@.len() ==> (#[trigger] items@[a])@.id != (#[trigger] items@[b])@.id),
        r matches Ok(items) ==> (forall|k: int|
            0 <= k < spec_lines(output@).len() && !spec_is_blank(#[trigger] spec_lines(output@)[k])
                ==> json_line_ok(spec_lines(output@)[k])),
        (forall|k: int|
            0 <= k < spec_lines(output@).len() ==> spec_is_blank(
                #[trigger] spec_lines(output@)[k],
            )) ==> (r matches Err(e) && e matches PlaylistError::ParseError(m) && m@
            == "No items found"@),
{
    let lines = split_lines(output);
    let mut items: Vec<Item> = Vec::new();
    let mut seen: Vec<String> = Vec::new();
    let mut li: usize = 0;
    while li < lines.len()
        invariant
            li <= lines@.len(),
            lines.deep_view() == spec_lines(output@),
            items@.len() == seen@.len(),
            forall|k: int|
                0 <= k < items@.len() ==> (#[trigger] seen@[k])@ == items@[k]@.id,
            forall|a: int, b: int|
                0 <= a < b < items@.len() ==> (#[trigger] items@[a])@.id != (
                #[trigger] items@[b])@.id,
            forall|k: int|
                0 <= k < li && !spec_is_blank(#[trigger] lines.deep_view()[k]) ==> json_line_ok(
                    lines.deep_view()[k],
                ),
            (forall|k: int| 0 <= k < li ==> spec_is_blank(#[trigger] lines.deep_view()[k]))
                ==> items@.len() == 0,
        decreases lines@.len() - li,
    {
        let line = &lines[li];
        let t = trim_str(line.as_str());
        if t.unicode_len() == 0 {
            li += 1;
            continue;
        }
        proof {
            assert(lines.deep_view()[li as int] == lines@[li as int]@);
            assert(!spec_is_blank(lines.deep_view()[li as int]));
        }
        let v = match parse_json_value(line.as_str()) {
            Ok(v) => v,
            Err(m) => {
                let mut msg = String::from_str("JSON parse error: ");
                msg.append(m.as_str());
                return Err(PlaylistError::ParseError(msg));
            },
        };
        let parsed = if is_playlist {
            parse_playlist_item(&v)
        } else {
            parse_single_video(&v)
        };
        let item = match parsed {
            Ok(it) => it,
            Err(e) => {
                return Err(e);
            },
        };
        if !contains_str(&seen, item.id.as_str()) {
            let ghost old_items = items@;
            let ghost old_seen = seen@;
            let ghost idv = item.id@;
            seen.push(item.id.clone());
            items.push(item);
            proof {
                assert(items@[old_items.len() as int]@.id == idv);
                assert forall|a: int, b: int|
                    0 <= a < b < items@.len() implies (#[trigger] items@[a])@.id != (
                #[trigger] items@[b])@.id by {
                    assert(items@[a] == old_items[a]);
                    if b < old_items.len() {
                        assert(items@[b] == old_items[b]);
                    } else {
                        assert(old_seen[a]@ == old_items[a]@.id);
                        assert(old_seen[a]@ != idv);
                    }
                }
            }
        }
        li += 1;
    }
    if items.len() == 0 {
        return Err(PlaylistError::ParseError(String::from_str("No items found")));
    }
    Ok(items)
}

} // verus!
