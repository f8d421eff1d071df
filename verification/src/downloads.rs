//! Downloads: file names, the order in which candidate URLs are tried and what a
//! finished, failed or cancelled transfer is reported as.
//!
//! The transfers themselves (HTTP, files, processes) run outside the library; each
//! decision they need is taken here.
use vstd::prelude::*;
use vstd::slice::slice_subrange;
use crate::links::{sanitize_filename, spec_sanitize_filename};
use crate::patterns::{group, regex_captures, spec_regex_captures, RE_YTDLP_PERCENT};
use crate::sources::{cat, cat3, views, is_mp3party_error_body, spec_is_mp3party_error_body};
use crate::text::{
    chars_of, decimal, decimal_string, find, find_in, lemma_find_from_bounds, owned,
    string_from_chars, trim, trim_bounds, is_ascii_digit,
};
use crate::types::{DownloadSource, DownloadStatus, TrackInfo, TrackModel, YtDlpFormat, MIN_DOWNLOAD_BYTES};
use crate::ytdlp::{capped_value, digits_value, spec_line_percent};

verus! {

broadcast use vstd::string::group_string_axioms;

fn trimmed(s: &str) -> (r: String)
    ensures
        r@ == trim(s@),
{
    let cs = chars_of(s);
    let (a, b) = trim_bounds(cs.as_slice());
    string_from_chars(slice_subrange(cs.as_slice(), a, b))
}

// ---------------------------------------------------------------- file names

/// `artist - title.mp3` with reserved characters replaced.
pub open spec fn spec_mp3party_filename(t: TrackModel) -> Seq<char> {
    spec_sanitize_filename(trim(t.artist) + " - "@ + trim(t.title) + ".mp3"@)
}

/// `artist - title_id.mp3` with reserved characters replaced.
pub open spec fn spec_drivemusic_filename(t: TrackModel) -> Seq<char> {
    spec_sanitize_filename(trim(t.artist) + " - "@ + trim(t.title) + "_"@ + t.id + ".mp3"@)
}

pub fn mp3party_filename(t: &TrackInfo) -> (r: String)
    ensures
        r@ == spec_mp3party_filename(t@),
{
    let a = trimmed(t.artist.as_str());
    let ti = trimmed(t.title.as_str());
    let mut s = cat3(a.as_str(), " - ", ti.as_str());
    s.append(".mp3");
    sanitize_filename(s.as_str())
}

pub fn drivemusic_filename(t: &TrackInfo) -> (r: String)
    ensures
        r@ == spec_drivemusic_filename(t@),
{
    let a = trimmed(t.artist.as_str());
    let ti = trimmed(t.title.as_str());
    let mut s = cat3(a.as_str(), " - ", ti.as_str());
    s.append("_");
    s.append(t.id.as_str());
    s.append(".mp3");
    sanitize_filename(s.as_str())
}

// ---------------------------------------------------------------- stopping

/// Status of a download that stopped (a cancel request wins over a failure).
pub fn set_download_stopped(cancelled: bool, failed_msg: Option<String>) -> (s: DownloadStatus)
    ensures
        cancelled ==> s is Cancelled,
        !cancelled ==> match failed_msg {
            Some(m) => s == DownloadStatus::Failed(m),
            None => s is Cancelled,
        },
{
    if cancelled {
        DownloadStatus::Cancelled
    } else if let Some(msg) = failed_msg {
        DownloadStatus::Failed(msg)
    } else {
        DownloadStatus::Cancelled
    }
}

// ---------------------------------------------------------------- candidate runs

/// Sites downloaded over plain HTTP.
#[derive(Clone, Copy, Debug, PartialEq, Eq, Structural)]
pub enum HttpSite {
    Mp3Party,
    DriveMusic,
}

/// How one attempt at a candidate URL ended.
pub enum Attempt {
    /// The server answered with a non-success status (its text, such as `404 Not Found`).
    HttpStatus(String),
    /// The request could not be made.
    RequestFailed(String),
    /// The output file could not be created.
    FileFailed(String),
    /// Writing the file failed.
    WriteFailed(String),
    /// Reading the response failed.
    ReadFailed(String),
    /// The body was read completely: its size, and whether it is an MP3Party error text.
    Finished { downloaded: u64, error_body: bool },
}

/// What the transfer loop does next.
pub enum Step {
    /// Fetch this URL into the file.
    Try(String),
    /// The file is complete.
    Complete,
    /// Give up with this message.
    Fail(String),
}

/// Trying the candidate URLs of one track in order until one yields a real file.
pub struct CandidateRun {
    pub site: HttpSite,
    pub candidates: Vec<String>,
    pub next: usize,
    pub last_err: String,
    pub server_unavailable: bool,
    pub track_id: String,
    pub track_page: String,
}

pub struct RunModel {
    pub site: HttpSite,
    pub candidates: Seq<Seq<char>>,
    pub next: int,
    pub last_err: Seq<char>,
    pub server_unavailable: bool,
    pub track_id: Seq<char>,
    pub track_page: Seq<char>,
}

impl View for CandidateRun {
    type V = RunModel;

    open spec fn view(&self) -> RunModel {
        RunModel {
            site: self.site,
            candidates: views(self.candidates@),
            next: self.next as int,
            last_err: self.last_err@,
            server_unavailable: self.server_unavailable,
            track_id: self.track_id@,
            track_page: self.track_page@,
        }
    }
}

pub enum StepModel {
    Try(Seq<char>),
    Complete,
    Fail(Seq<char>),
}

impl View for Step {
    type V = StepModel;

    open spec fn view(&self) -> StepModel {
        match self {
            Step::Try(u) => StepModel::Try(u@),
            Step::Complete => StepModel::Complete,
            Step::Fail(m) => StepModel::Fail(m@),
        }
    }
}

/// Message when every candidate failed.
pub open spec fn spec_exhausted_message(m: RunModel) -> Seq<char> {
    match m.site {
        HttpSite::Mp3Party => {
            let hint = if m.server_unavailable {
                "Трек ID "@ + m.track_id
                    + " недоступен на CDN MP3Party — выберите другой результат поиска или источник YouTube."@
            } else {
                "MP3Party: "@ + m.last_err
            };
            hint + " Страница: "@ + m.track_page
        },
        HttpSite::DriveMusic => "DriveMusic: "@ + m.last_err + ". Страница: "@ + m.track_page
            + " (ссылки временные)"@,
    }
}

/// The next candidate, or the final failure.
pub open spec fn spec_advance(m: RunModel) -> (RunModel, StepModel) {
    if 0 <= m.next < m.candidates.len() {
        (RunModel { next: m.next + 1, ..m }, StepModel::Try(m.candidates[m.next]))
    } else {
        (m, StepModel::Fail(spec_exhausted_message(m)))
    }
}

/// First step of a run.  A DriveMusic page without MP3 links fails at once.
pub open spec fn spec_run_start(m: RunModel) -> (RunModel, StepModel) {
    if m.site == HttpSite::DriveMusic && m.candidates.len() == 0 {
        (
            m,
            StepModel::Fail(
                "Нет ссылок на MP3 (временные URL могли устареть). Страница: "@ + m.track_page,
            ),
        )
    } else {
        spec_advance(m)
    }
}

/// Size of a too-small file in KB, as reported: `max(1, bytes) / 1024`.
pub open spec fn small_file_kb(downloaded: nat) -> nat {
    (if downloaded == 0 {
        1
    } else {
        downloaded
    }) / 1024
}

/// The step after an attempt.
pub open spec fn spec_after_attempt(m: RunModel, a: AttemptModel) -> (RunModel, StepModel) {
    match a {
        AttemptModel::FileFailed(e) => (m, StepModel::Fail("Файл: "@ + e)),
        AttemptModel::HttpStatus(s) => spec_advance(RunModel { last_err: "HTTP "@ + s, ..m }),
        AttemptModel::RequestFailed(e) => spec_advance(RunModel { last_err: e, ..m }),
        AttemptModel::WriteFailed(e) => spec_advance(RunModel { last_err: "Запись: "@ + e, ..m }),
        AttemptModel::ReadFailed(e) => spec_advance(RunModel { last_err: "Чтение: "@ + e, ..m }),
        AttemptModel::Finished { downloaded, error_body } => if downloaded >= MIN_DOWNLOAD_BYTES {
            (m, StepModel::Complete)
        } else {
            match m.site {
                HttpSite::Mp3Party => if error_body {
                    spec_advance(
                        RunModel {
                            last_err: "сервер mp3party: failed to get file info"@,
                            server_unavailable: true,
                            ..m
                        },
                    )
                } else {
                    spec_advance(
                        RunModel {
                            last_err: "файл "@ + decimal(small_file_kb(downloaded as nat)) + " KB"@,
                            ..m
                        },
                    )
                },
                HttpSite::DriveMusic => spec_advance(
                    RunModel {
                        last_err: "файл "@ + decimal(small_file_kb(downloaded as nat))
                            + " KB — ссылка могла устареть, откройте страницу заново"@,
                        ..m
                    },
                ),
            }
        },
    }
}

pub enum AttemptModel {
    HttpStatus(Seq<char>),
    RequestFailed(Seq<char>),
    FileFailed(Seq<char>),
    WriteFailed(Seq<char>),
    ReadFailed(Seq<char>),
    Finished { downloaded: u64, error_body: bool },
}

impl View for Attempt {
    type V = AttemptModel;

    open spec fn view(&self) -> AttemptModel {
        match self {
            Attempt::HttpStatus(s) => AttemptModel::HttpStatus(s@),
            Attempt::RequestFailed(s) => AttemptModel::RequestFailed(s@),
            Attempt::FileFailed(s) => AttemptModel::FileFailed(s@),
            Attempt::WriteFailed(s) => AttemptModel::WriteFailed(s@),
            Attempt::ReadFailed(s) => AttemptModel::ReadFailed(s@),
            Attempt::Finished { downloaded, error_body } => AttemptModel::Finished {
                downloaded: *downloaded,
                error_body: *error_body,
            },
        }
    }
}

/// Most bytes read from one candidate: 100 MiB for MP3Party, no cap for DriveMusic.
pub open spec fn spec_byte_limit(site: HttpSite) -> Option<u64> {
    match site {
        HttpSite::Mp3Party => Some(104_857_600u64),
        HttpSite::DriveMusic => None,
    }
}

/// A body of `downloaded` bytes is too short to be a track; it is not kept.
pub open spec fn spec_is_short_download(downloaded: u64) -> bool {
    downloaded < MIN_DOWNLOAD_BYTES
}

/// How a completely read body ends an attempt: its size, and whether it is MP3Party's
/// error text (only a short body, checked for it and read back, can be).
pub open spec fn spec_finished_attempt(check_error_body: bool, downloaded: u64, body: Option<Seq<u8>>) -> AttemptModel {
    AttemptModel::Finished {
        downloaded,
        error_body: check_error_body && spec_is_short_download(downloaded) && match body {
            Some(b) => spec_is_mp3party_error_body(b),
            None => false,
        },
    }
}

impl HttpSite {
    /// Most bytes read from one candidate of this site.
    pub fn byte_limit(self) -> (r: Option<u64>)
        ensures
            r == spec_byte_limit(self),
    {
        match self {
            HttpSite::Mp3Party => Some(1024 * 1024 * 100),
            HttpSite::DriveMusic => None,
        }
    }

    /// A short body from this site is read back to look for the site's error text.
    pub fn checks_error_body(self) -> (b: bool)
        ensures
            b == (self == HttpSite::Mp3Party),
    {
        match self {
            HttpSite::Mp3Party => true,
            HttpSite::DriveMusic => false,
        }
    }
}

/// A body of `downloaded` bytes is too short to be a track (it is removed).
pub fn is_short_download(downloaded: u64) -> (b: bool)
    ensures
        b == spec_is_short_download(downloaded),
{
    downloaded < MIN_DOWNLOAD_BYTES
}

/// The attempt a completely read body makes; `body` holds its bytes where they were
/// read back, and `check_error_body` says whether to look for MP3Party's error text.
pub fn finished_attempt(check_error_body: bool, downloaded: u64, body: Option<Vec<u8>>) -> (a: Attempt)
    ensures
        a@ == spec_finished_attempt(
            check_error_body,
            downloaded,
            match body {
                Some(b) => Some(b@),
                None => None,
            },
        ),
{
    let error_body = if check_error_body && is_short_download(downloaded) {
        match &body {
            Some(b) => is_mp3party_error_body(b.as_slice()),
            None => false,
        }
    } else {
        false
    };
    Attempt::Finished { downloaded, error_body }
}

impl CandidateRun {
    /// A run over `candidates` for a track of `site`.
    pub fn new(site: HttpSite, candidates: Vec<String>, track_id: &str, track_page: &str) -> (r: Self)
        ensures
            r@ == (RunModel {
                site,
                candidates: views(candidates@),
                next: 0,
                last_err: "нет доступных URL"@,
                server_unavailable: false,
                track_id: track_id@,
                track_page: track_page@,
            }),
    {
        CandidateRun {
            site,
            candidates,
            next: 0,
            last_err: owned("нет доступных URL"),
            server_unavailable: false,
            track_id: owned(track_id),
            track_page: owned(track_page),
        }
    }

    fn exhausted_message(&self) -> (r: String)
        ensures
            r@ == spec_exhausted_message(self@),
    {
        match self.site {
            HttpSite::Mp3Party => {
                let mut hint = if self.server_unavailable {
                    cat3(
                        "Трек ID ",
                        self.track_id.as_str(),
                        " недоступен на CDN MP3Party — выберите другой результат поиска или источник YouTube.",
                    )
                } else {
                    cat("MP3Party: ", self.last_err.as_str())
                };
                hint.append(" Страница: ");
                hint.append(self.track_page.as_str());
                hint
            },
            HttpSite::DriveMusic => {
                let mut s = cat3("DriveMusic: ", self.last_err.as_str(), ". Страница: ");
                s.append(self.track_page.as_str());
                s.append(" (ссылки временные)");
                s
            },
        }
    }

    fn advance(&mut self) -> (s: Step)
        requires
            old(self).next < usize::MAX,
        ensures
            (final(self)@, s@) == spec_advance(old(self)@),
    {
        if self.next < self.candidates.len() {
            let u = self.candidates[self.next].clone();
            self.next = self.next + 1;
            Step::Try(u)
        } else {
            Step::Fail(self.exhausted_message())
        }
    }

    /// The first step.
    pub fn start(&mut self) -> (s: Step)
        requires
            old(self).next < usize::MAX,
        ensures
            (final(self)@, s@) == spec_run_start(old(self)@),
    {
        if self.site == HttpSite::DriveMusic && self.candidates.len() == 0 {
            return Step::Fail(
                cat(
                    "Нет ссылок на MP3 (временные URL могли устареть). Страница: ",
                    self.track_page.as_str(),
                ),
            );
        }
        self.advance()
    }

    /// The step after an attempt ended.
    pub fn after_attempt(&mut self, a: Attempt) -> (s: Step)
        requires
            old(self).next < usize::MAX,
        ensures
            (final(self)@, s@) == spec_after_attempt(old(self)@, a@),
    {
        match a {
            Attempt::FileFailed(e) => Step::Fail(cat("Файл: ", e.as_str())),
            Attempt::HttpStatus(st) => {
                self.last_err = cat("HTTP ", st.as_str());
                self.advance()
            },
            Attempt::RequestFailed(e) => {
                self.last_err = e;
                self.advance()
            },
            Attempt::WriteFailed(e) => {
                self.last_err = cat("Запись: ", e.as_str());
                self.advance()
            },
            Attempt::ReadFailed(e) => {
                self.last_err = cat("Чтение: ", e.as_str());
                self.advance()
            },
            Attempt::Finished { downloaded, error_body } => {
                if downloaded >= MIN_DOWNLOAD_BYTES {
                    return Step::Complete;
                }
                let kb = decimal_string((if downloaded == 0 {
                    1
                } else {
                    downloaded
                }) / 1024);
                match self.site {
                    HttpSite::Mp3Party => {
                        if error_body {
                            self.server_unavailable = true;
                            self.last_err = owned("сервер mp3party: failed to get file info");
                        } else {
                            self.last_err = cat3("файл ", kb.as_str(), " KB");
                        }
                    },
                    HttpSite::DriveMusic => {
                        self.last_err = cat3(
                            "файл ",
                            kb.as_str(),
                            " KB — ссылка могла устареть, откройте страницу заново",
                        );
                    },
                }
                self.advance()
            },
        }
    }
}

/// Each step of a run tries the next candidate in list order, so no URL is tried
/// twice and a run ends after at most one attempt per candidate.
pub proof fn lemma_run_tries_in_order(m: RunModel, a: AttemptModel)
    requires
        0 <= m.next,
    ensures
        spec_after_attempt(m, a).1 matches StepModel::Try(u) ==> u == m.candidates[m.next]
            && spec_after_attempt(m, a).0.next == m.next + 1,
        !(spec_after_attempt(m, a).1 is Try) ==> spec_after_attempt(m, a).0.next == m.next,
        spec_after_attempt(m, a).0.candidates == m.candidates,
{
}

/// A failed attempt moves on to the next untried candidate, remembering the failure:
/// every failure but a file that could not be created (which gives up at once) and a
/// complete body (which finishes the run) tries `candidates[next]` while one is left,
/// and fails with the run's summary message once none is.
pub proof fn lemma_failure_tries_next(m: RunModel, a: AttemptModel)
    requires
        0 <= m.next,
    ensures
        a matches AttemptModel::FileFailed(e) ==> spec_after_attempt(m, a) == (
            m,
            StepModel::Fail("Файл: "@ + e),
        ),
        a matches AttemptModel::Finished { downloaded, .. } && downloaded >= MIN_DOWNLOAD_BYTES
            ==> spec_after_attempt(m, a) == (m, StepModel::Complete),
        !(a is FileFailed) && !(a matches AttemptModel::Finished { downloaded, .. } && downloaded
            >= MIN_DOWNLOAD_BYTES) ==> {
            &&& m.next < m.candidates.len() ==> spec_after_attempt(m, a).1 == StepModel::Try(
                m.candidates[m.next],
            ) && spec_after_attempt(m, a).0.next == m.next + 1
            &&& m.next >= m.candidates.len() ==> spec_after_attempt(m, a).1 == StepModel::Fail(
                spec_exhausted_message(spec_after_attempt(m, a).0),
            ) && spec_after_attempt(m, a).0.next == m.next
        },
        a matches AttemptModel::RequestFailed(e) ==> spec_after_attempt(m, a).0.last_err == e,
        a matches AttemptModel::HttpStatus(st) ==> spec_after_attempt(m, a).0.last_err == "HTTP "@ + st,
        a matches AttemptModel::WriteFailed(e) ==> spec_after_attempt(m, a).0.last_err == "Запись: "@ + e,
        a matches AttemptModel::ReadFailed(e) ==> spec_after_attempt(m, a).0.last_err == "Чтение: "@ + e,
        spec_after_attempt(m, a).0.server_unavailable == (m.server_unavailable || (m.site
            == HttpSite::Mp3Party && (a matches AttemptModel::Finished { downloaded, error_body }
            && downloaded < MIN_DOWNLOAD_BYTES && error_body))),
        spec_after_attempt(m, a).0.site == m.site,
        spec_after_attempt(m, a).0.track_id == m.track_id,
        spec_after_attempt(m, a).0.track_page == m.track_page,
{
}

/// A run completes only on a body of at least [`MIN_DOWNLOAD_BYTES`].
pub proof fn lemma_complete_needs_full_file(m: RunModel, a: AttemptModel)
    ensures
        spec_after_attempt(m, a).1 is Complete ==> (a matches AttemptModel::Finished {
            downloaded,
            ..
        } && downloaded >= MIN_DOWNLOAD_BYTES),
{
}

// ---------------------------------------------------------------- yt-dlp progress

/// Text after the first `AFTERMOVE:` marker, up to the next one
/// (`split("AFTERMOVE:").nth(1)`).
pub open spec fn after_move_piece(line: Seq<char>) -> Option<Seq<char>> {
    match find(line, "AFTERMOVE:"@) {
        Some(i) => {
            let r = line.subrange(i + 10, line.len() as int);
            Some(
                match find(r, "AFTERMOVE:"@) {
                    Some(j) => r.subrange(0, j),
                    None => r,
                },
            )
        },
        None => None,
    }
}

/// Reading a yt-dlp download's output: the final file path and the progress so far
/// (percent, at most 99 until the file is done).
pub struct YtDlpProgress {
    pub completed_path: Option<String>,
    pub last_percent: u32,
}

pub struct ProgressModel {
    pub completed_path: Option<Seq<char>>,
    pub last_percent: nat,
}

impl View for YtDlpProgress {
    type V = ProgressModel;

    open spec fn view(&self) -> ProgressModel {
        ProgressModel {
            completed_path: crate::text::opt_string_view(self.completed_path),
            last_percent: self.last_percent as nat,
        }
    }
}

/// State after one output line, and the percentage to publish, if any.
pub open spec fn spec_on_line(p: ProgressModel, line: Seq<char>) -> (ProgressModel, Option<nat>) {
    match after_move_piece(line) {
        Some(piece) => if trim(piece).len() > 0 {
            (ProgressModel { completed_path: Some(trim(piece)), ..p }, None)
        } else {
            (p, None)
        },
        None => match spec_line_percent(line) {
            Some(pct) => {
                let prog = if pct > 99 {
                    99
                } else {
                    pct
                };
                if prog >= p.last_percent {
                    (ProgressModel { last_percent: prog, ..p }, Some(prog))
                } else {
                    (p, None)
                }
            },
            None => (p, None),
        },
    }
}

fn find_marker(s: &[char]) -> (r: Option<usize>)
    ensures
        match r {
            Some(i) => find(s@, "AFTERMOVE:"@) == Some(i as int) && i + 10 <= s@.len(),
            None => find(s@, "AFTERMOVE:"@) is None,
        },
{
    let m = chars_of("AFTERMOVE:");
    proof {
        reveal_strlit("AFTERMOVE:");
    }
    assert(m@.len() == 10);
    let r = find_in(s, m.as_slice());
    proof {
        lemma_find_from_bounds(s@, m@, 0);
    }
    r
}

fn line_percent(line: &str) -> (r: Option<u32>)
    ensures
        match r {
            Some(v) => spec_line_percent(line@) == Some(v as nat),
            None => spec_line_percent(line@) is None,
        },
{
    let g = match regex_captures(RE_YTDLP_PERCENT, line) {
        Some(g) => g,
        None => return None,
    };
    if g.len() < 2 {
        return None;
    }
    let d = match &g[1] {
        Some(d) => chars_of(d.as_str()),
        None => return None,
    };
    if d.len() == 0 {
        return None;
    }
    let mut v: u32 = 0;
    let mut k: usize = 0;
    let ghost expected: Option<nat> = if forall|m: int| 0 <= m < d@.len() ==> is_ascii_digit(#[trigger] d@[m]) {
        Some(capped_value(d@))
    } else {
        None
    };
    assert(spec_line_percent(line@) == expected);
    while k < d.len()
        invariant
            spec_line_percent(line@) == expected,
            expected == (if forall|m: int| 0 <= m < d@.len() ==> is_ascii_digit(#[trigger] d@[m]) {
                Some(capped_value(d@))
            } else {
                None::<nat>
            }),
            k <= d@.len(),
            forall|m: int| 0 <= m < k ==> is_ascii_digit(#[trigger] d@[m]),
            v == capped_value(d@.subrange(0, k as int)),
        decreases d@.len() - k,
    {
        let c = d[k];
        if !('0' <= c && c <= '9') {
            return None;
        }
        let ghost p = d@.subrange(0, k as int);
        assert(d@.subrange(0, k + 1).drop_last() =~= p);
        assert(d@.subrange(0, k + 1).last() == c);
        let ghost dv = digits_value(p);
        let ghost cv = ((c as u32) - ('0' as u32)) as nat;
        assert(digits_value(d@.subrange(0, k + 1)) == dv * 10 + cv);
        assert(dv >= 1000 ==> dv * 10 + cv >= 1000) by (nonlinear_arith);
        let nv = v * 10 + ((c as u32) - ('0' as u32));
        v = if nv > 1000 {
            1000
        } else {
            nv
        };
        k = k + 1;
    }
    assert(d@.subrange(0, d@.len() as int) =~= d@);
    Some(v)
}

/// How a yt-dlp download that was not cancelled ended: the file it printed, else a
/// failure explained by the exit code.
pub open spec fn spec_ytdlp_outcome(p: ProgressModel, exit_code: i32) -> Result<Seq<char>, Seq<char>> {
    match p.completed_path {
        Some(path) => Ok(path),
        None => if exit_code == 0 {
            Err("yt-dlp завершился без файла (возможно, трек уже в архиве)"@)
        } else {
            Err("yt-dlp завершился с кодом "@ + crate::ytdlp::int_decimal(exit_code as int))
        },
    }
}

impl YtDlpProgress {
    pub fn new() -> (p: Self)
        ensures
            p@.completed_path is None,
            p@.last_percent == 0,
    {
        YtDlpProgress { completed_path: None, last_percent: 0 }
    }

    /// Read one output line; returns the percentage to show when it advanced.
    pub fn on_line(&mut self, line: &str) -> (r: Option<u32>)
        ensures
            (final(self)@, match r {
                Some(v) => Some(v as nat),
                None => None::<nat>,
            }) == spec_on_line(old(self)@, line@),
    {
        let cs = chars_of(line);
        let n = cs.len();
        if let Some(i) = find_marker(cs.as_slice()) {
            let r = slice_subrange(cs.as_slice(), i + 10, n);
            let piece = match find_marker(r) {
                Some(j) => slice_subrange(r, 0, j),
                None => {
                    assert(r@.subrange(0, r@.len() as int) =~= r@);
                    slice_subrange(r, 0, r.len())
                },
            };
            let (a, b) = trim_bounds(piece);
            if b > a {
                self.completed_path = Some(string_from_chars(slice_subrange(piece, a, b)));
            }
            return None;
        }
        match line_percent(line) {
            Some(pct) => {
                let prog = if pct > 99 {
                    99
                } else {
                    pct
                };
                if prog >= self.last_percent {
                    self.last_percent = prog;
                    Some(prog)
                } else {
                    None
                }
            },
            None => None,
        }
    }

    /// The outcome once yt-dlp exited with `exit_code` (not cancelled).
    pub fn outcome(&self, exit_code: i32) -> (r: Result<String, String>)
        ensures
            match r {
                Ok(p) => spec_ytdlp_outcome(self@, exit_code) == Ok::<Seq<char>, Seq<char>>(p@),
                Err(e) => spec_ytdlp_outcome(self@, exit_code) == Err::<Seq<char>, Seq<char>>(e@),
            },
    {
        match &self.completed_path {
            Some(p) => Ok(p.clone()),
            None => {
                if exit_code == 0 {
                    Err(owned("yt-dlp завершился без файла (возможно, трек уже в архиве)"))
                } else {
                    let digits = if exit_code < 0 {
                        let m: u64 = (-(exit_code as i64)) as u64;
                        cat("-", decimal_string(m).as_str())
                    } else {
                        decimal_string(exit_code as u64)
                    };
                    proof {
                        reveal_strlit("-");
                        assert("-"@ =~= seq!['-']);
                    }
                    assert(digits@ == crate::ytdlp::int_decimal(exit_code as int));
                    Err(cat("yt-dlp завершился с кодом ", digits.as_str()))
                }
            },
        }
    }
}

/// Shown progress never goes back and stays below 100 until the file is done.
pub proof fn lemma_progress_monotone(p: ProgressModel, line: Seq<char>)
    ensures
        spec_on_line(p, line).0.last_percent >= p.last_percent,
        spec_on_line(p, line).1 matches Some(v) ==> v <= 99 && v >= p.last_percent,
{
}

} // verus!
