//! Core value types: tracks, sources, formats, download status.
use vstd::prelude::*;

verus! {

broadcast use vstd::string::group_string_axioms;

pub const DRIVEMUSIC_BASE: &'static str = "https://ru.drivemusic.me";

pub const PESNIME_BASE: &'static str = "https://mix.pesni.me";

/// Downloads smaller than this are treated as broken links.
pub const MIN_DOWNLOAD_BYTES: u64 = 51200;

pub const BROWSER_USER_AGENT: &'static str = "Mozilla/5.0 (X11; Linux x86_64) AppleWebKit/537.36 (KHTML, like Gecko) Chrome/131.0.0.0 Safari/537.36";

/// Most log lines kept in memory.
pub const MAX_LOG_LINES: usize = 2000;

pub const YTDLP_SEARCH_TIMEOUT_SECS: u64 = 45;

/// A pending operation that takes longer than this is abandoned.
pub const LOADING_WATCHDOG_SECS: u64 = 90;

/// A track found by search or link parsing.
#[derive(Debug)]
pub struct TrackInfo {
    pub id: String,
    pub artist: String,
    pub title: String,
    pub url: String,
}

/// Model of a [`TrackInfo`].
pub struct TrackModel {
    pub id: Seq<char>,
    pub artist: Seq<char>,
    pub title: Seq<char>,
    pub url: Seq<char>,
}

impl View for TrackInfo {
    type V = TrackModel;

    open spec fn view(&self) -> TrackModel {
        TrackModel { id: self.id@, artist: self.artist@, title: self.title@, url: self.url@ }
    }
}

impl Clone for TrackInfo {
    fn clone(&self) -> (t: Self)
        ensures
            t@ == self@,
    {
        TrackInfo {
            id: self.id.clone(),
            artist: self.artist.clone(),
            title: self.title.clone(),
            url: self.url.clone(),
        }
    }
}

/// Where tracks are searched and downloaded from.
#[derive(Clone, Copy, Debug, PartialEq, Eq, Structural)]
pub enum DownloadSource {
    Mp3Party,
    DriveMusic,
    YtDlp,
    PesniMe,
}

pub open spec fn spec_source_label(s: DownloadSource) -> Seq<char> {
    match s {
        DownloadSource::Mp3Party => "MP3Party"@,
        DownloadSource::DriveMusic => "DriveMusic"@,
        DownloadSource::YtDlp => "YouTube (yt-dlp)"@,
        DownloadSource::PesniMe => "Pesni.me"@,
    }
}

pub open spec fn spec_impe_name(s: DownloadSource) -> Seq<char> {
    match s {
        DownloadSource::Mp3Party => "MP3Party"@,
        DownloadSource::DriveMusic => "DriveMusic"@,
        DownloadSource::YtDlp => "YouTube"@,
        DownloadSource::PesniMe => "PesniMe"@,
    }
}

pub open spec fn spec_from_impe_name(s: Seq<char>) -> Option<DownloadSource> {
    if s == "MP3Party"@ {
        Some(DownloadSource::Mp3Party)
    } else if s == "DriveMusic"@ {
        Some(DownloadSource::DriveMusic)
    } else if s == "YouTube"@ {
        Some(DownloadSource::YtDlp)
    } else if s == "PesniMe"@ {
        Some(DownloadSource::PesniMe)
    } else {
        None
    }
}

/// `a` and `b` hold the same characters.
pub fn str_eq(a: &str, b: &str) -> (r: bool)
    ensures
        r == (a@ == b@),
{
    let x = crate::text::chars_of(a);
    let y = crate::text::chars_of(b);
    if x.len() != y.len() {
        assert(a@.len() != b@.len());
        return false;
    }
    let mut i: usize = 0;
    while i < x.len()
        invariant
            x@ == a@,
            y@ == b@,
            x@.len() == y@.len(),
            i <= x@.len(),
            forall|k: int| 0 <= k < i ==> x@[k] == y@[k],
        decreases x@.len() - i,
    {
        if x[i] != y[i] {
            assert(x@[i as int] != y@[i as int]);
            assert(a@ != b@);
            return false;
        }
        i = i + 1;
    }
    assert(x@ =~= y@);
    true
}

impl DownloadSource {
    /// Name shown in the interface.
    pub fn label(self) -> (r: &'static str)
        ensures
            r@ == spec_source_label(self),
    {
        match self {
            DownloadSource::Mp3Party => "MP3Party",
            DownloadSource::DriveMusic => "DriveMusic",
            DownloadSource::YtDlp => "YouTube (yt-dlp)",
            DownloadSource::PesniMe => "Pesni.me",
        }
    }

    /// Name used when a track is handed between applications.
    pub fn impe_name(self) -> (r: &'static str)
        ensures
            r@ == spec_impe_name(self),
    {
        match self {
            DownloadSource::Mp3Party => "MP3Party",
            DownloadSource::DriveMusic => "DriveMusic",
            DownloadSource::YtDlp => "YouTube",
            DownloadSource::PesniMe => "PesniMe",
        }
    }

    /// The source whose [`Self::impe_name`] is `s`.
    pub fn from_impe_name(s: &str) -> (r: Option<Self>)
        ensures
            r == spec_from_impe_name(s@),
    {
        if str_eq(s, "MP3Party") {
            Some(DownloadSource::Mp3Party)
        } else if str_eq(s, "DriveMusic") {
            Some(DownloadSource::DriveMusic)
        } else if str_eq(s, "YouTube") {
            Some(DownloadSource::YtDlp)
        } else if str_eq(s, "PesniMe") {
            Some(DownloadSource::PesniMe)
        } else {
            None
        }
    }
}

/// Reading a source back from its exchange name gives the same source.
pub proof fn lemma_impe_name_roundtrip(s: DownloadSource)
    ensures
        spec_from_impe_name(spec_impe_name(s)) == Some(s),
{
    reveal_strlit("MP3Party");
    reveal_strlit("DriveMusic");
    reveal_strlit("YouTube");
    reveal_strlit("PesniMe");
    assert("MP3Party"@.len() == 8 && "DriveMusic"@.len() == 10);
    assert("YouTube"@.len() == 7 && "PesniMe"@.len() == 7);
    assert("YouTube"@[0] != "PesniMe"@[0]);
}

/// Output format of a yt-dlp download.
#[derive(Clone, Copy, Debug, PartialEq, Eq, Structural)]
pub enum YtDlpFormat {
    Mp3,
    Mp4,
}

pub open spec fn spec_format_label(f: YtDlpFormat) -> Seq<char> {
    match f {
        YtDlpFormat::Mp3 => "MP3 (аудио)"@,
        YtDlpFormat::Mp4 => "MP4 (видео)"@,
    }
}

pub open spec fn spec_archive_ext(f: YtDlpFormat) -> Seq<char> {
    match f {
        YtDlpFormat::Mp3 => "mp3"@,
        YtDlpFormat::Mp4 => "mp4"@,
    }
}

impl YtDlpFormat {
    pub fn label(self) -> (r: &'static str)
        ensures
            r@ == spec_format_label(self),
    {
        match self {
            YtDlpFormat::Mp3 => "MP3 (аудио)",
            YtDlpFormat::Mp4 => "MP4 (видео)",
        }
    }

    /// Extension of the yt-dlp download archive for this format.
    pub fn archive_ext(self) -> (r: &'static str)
        ensures
            r@ == spec_archive_ext(self),
    {
        match self {
            YtDlpFormat::Mp3 => "mp3",
            YtDlpFormat::Mp4 => "mp4",
        }
    }
}

/// What the results list currently shows.
#[derive(Clone, Copy, Debug, PartialEq, Eq, Structural)]
pub enum OutputMode {
    UrlParsing,
    Search,
}

#[derive(Clone, Copy, Debug, PartialEq, Eq, Structural)]
pub enum MainTab {
    Search,
    Library,
}

/// One answer of a background parse or search job.
pub enum ParseResult {
    Success(TrackInfo),
    SearchResults(Vec<TrackInfo>),
    Error(String, String),
}

/// State of one download: `percent` done, `bytes` received out of `total` (0 when
/// unknown; yt-dlp reports a percentage only).
#[derive(Clone, Debug)]
pub enum DownloadStatus {
    Pending,
    Downloading { percent: u32, bytes: u64, total: u64 },
    Completed(String),
    Failed(String),
    Cancelled,
}

/// Still waiting or transferring.
pub open spec fn spec_status_active(s: DownloadStatus) -> bool {
    s is Pending || s is Downloading
}

impl DownloadStatus {
    pub fn is_active(&self) -> (b: bool)
        ensures
            b == spec_status_active(*self),
    {
        match self {
            DownloadStatus::Pending => true,
            DownloadStatus::Downloading { .. } => true,
            _ => false,
        }
    }
}

} // verus!
