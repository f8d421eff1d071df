//! State of the search/import view: results, status line, progress counters and
//! the in-memory log, with the rules that update them.
use vstd::prelude::*;
use crate::text::{
    opt_string_view,
    contains, decimal, decimal_pad2, decimal_pad2_string, decimal_string, find_in, chars_of,
    spec_to_lowercase, to_lowercase, trim, trim_bounds, string_from_chars,
};
use crate::sources::{contains_id, has_id};
use crate::types::{
    spec_source_label, DownloadSource, OutputMode, ParseResult, TrackInfo, TrackModel, YtDlpFormat,
    LOADING_WATCHDOG_SECS, MAX_LOG_LINES,
};

verus! {

broadcast use vstd::string::group_string_axioms;

/// The results view and its bookkeeping.
pub struct Session {
    pub tracks: Vec<TrackInfo>,
    pub result_filter: String,
    pub status: String,
    pub loading: bool,
    pub total_urls: usize,
    pub processed: usize,
    pub error_count: usize,
    pub last_error: Option<String>,
    pub log_lines: Vec<String>,
    pub output_mode: OutputMode,
}

pub open spec fn tracks_view(ts: Seq<TrackInfo>) -> Seq<TrackModel> {
    ts.map_values(|t: TrackInfo| t@)
}

pub open spec fn strings_view(ls: Seq<String>) -> Seq<Seq<char>> {
    ls.map_values(|l: String| l@)
}


pub struct SessionModel {
    pub tracks: Seq<TrackModel>,
    pub result_filter: Seq<char>,
    pub status: Seq<char>,
    pub loading: bool,
    pub total_urls: int,
    pub processed: int,
    pub error_count: int,
    pub last_error: Option<Seq<char>>,
    pub log: Seq<Seq<char>>,
    pub output_mode: OutputMode,
}

impl View for Session {
    type V = SessionModel;

    open spec fn view(&self) -> SessionModel {
        SessionModel {
            tracks: tracks_view(self.tracks@),
            result_filter: self.result_filter@,
            status: self.status@,
            loading: self.loading,
            total_urls: self.total_urls as int,
            processed: self.processed as int,
            error_count: self.error_count as int,
            last_error: opt_string_view(self.last_error),
            log: strings_view(self.log_lines@),
            output_mode: self.output_mode,
        }
    }
}

// ---------------------------------------------------------------- log

/// The log after appending `line`: only the newest [`MAX_LOG_LINES`] lines are kept.
pub open spec fn spec_push_log(log: Seq<Seq<char>>, line: Seq<char>) -> Seq<Seq<char>> {
    let p = log.push(line);
    if p.len() > MAX_LOG_LINES {
        p.subrange(p.len() - MAX_LOG_LINES, p.len() as int)
    } else {
        p
    }
}

/// The log never holds more than [`MAX_LOG_LINES`] lines, ends with the newest line,
/// and keeps the lines before it in order.
pub proof fn lemma_push_log_bounded(log: Seq<Seq<char>>, line: Seq<char>)
    ensures
        spec_push_log(log, line).len() <= MAX_LOG_LINES,
        spec_push_log(log, line).last() == line,
        log.len() < MAX_LOG_LINES ==> spec_push_log(log, line) == log.push(line),
        forall|k: int|
            0 <= k < spec_push_log(log, line).len() - 1 ==> #[trigger] spec_push_log(log, line)[k]
                == log[log.len() + 1 - spec_push_log(log, line).len() + k],
{
}

/// `[hh:mm:ss] ` prefix of a log line for a UNIX time in seconds (UTC clock).
pub open spec fn spec_timestamp(secs: nat) -> Seq<char> {
    decimal_pad2((secs / 3600) % 24) + seq![':'] + decimal_pad2((secs / 60) % 60) + seq![':']
        + decimal_pad2(secs % 60)
}

/// `HH:MM:SS` of a UNIX time in seconds.
pub fn log_timestamp_at(secs: u64) -> (s: String)
    ensures
        s@ == spec_timestamp(secs as nat),
{
    let mut s = decimal_pad2_string((secs / 3600) % 24);
    s.append(":");
    let m = decimal_pad2_string((secs / 60) % 60);
    s.append(m.as_str());
    s.append(":");
    let x = decimal_pad2_string(secs % 60);
    s.append(x.as_str());
    proof {
        reveal_strlit(":");
    }
    s
}

/// A log line: `[ts] msg`.
pub open spec fn spec_log_line(ts: Seq<char>, msg: Seq<char>) -> Seq<char> {
    seq!['['] + ts + seq![']', ' '] + msg
}

pub fn log_line(ts: &str, msg: &str) -> (s: String)
    ensures
        s@ == spec_log_line(ts@, msg@),
{
    let mut s = String::new();
    s.append("[");
    s.append(ts);
    s.append("] ");
    s.append(msg);
    proof {
        reveal_strlit("[");
        reveal_strlit("] ");
    }
    s
}

// ---------------------------------------------------------------- messages

/// Russian noun for "track" agreeing with `n`.
pub open spec fn spec_track_word(n: int) -> Seq<char> {
    if n == 1 {
        "трек"@
    } else if 2 <= n <= 4 {
        "трека"@
    } else {
        "треков"@
    }
}

/// Status line when a job ends.
pub open spec fn spec_finish_message(n: nat, errors: nat, last_error: Option<Seq<char>>) -> Seq<char> {
    if n == 0 && errors > 0 {
        "❌ "@ + match last_error {
            Some(e) => e,
            None => "Ошибка"@,
        }
    } else if errors > 0 {
        "✅ "@ + decimal(n) + " "@ + spec_track_word(n as int) + " (ошибок: "@ + decimal(errors)
            + ")"@
    } else {
        "✅ Готово — "@ + decimal(n) + " "@ + spec_track_word(n as int)
    }
}

fn track_word(n: usize) -> (r: &'static str)
    ensures
        r@ == spec_track_word(n as int),
{
    if n == 1 {
        "трек"
    } else if 2 <= n && n <= 4 {
        "трека"
    } else {
        "треков"
    }
}

pub fn finish_message(n: usize, errors: usize, last_error: &Option<String>) -> (s: String)
    ensures
        s@ == spec_finish_message(n as nat, errors as nat, opt_string_view(*last_error)),
{
    if n == 0 && errors > 0 {
        let mut s = String::new();
        s.append("❌ ");
        match last_error {
            Some(e) => s.append(e.as_str()),
            None => s.append("Ошибка"),
        }
        s
    } else if errors > 0 {
        let mut s = String::new();
        s.append("✅ ");
        s.append(decimal_string(n as u64).as_str());
        s.append(" ");
        s.append(track_word(n));
        s.append(" (ошибок: ");
        s.append(decimal_string(errors as u64).as_str());
        s.append(")");
        s
    } else {
        let mut s = String::new();
        s.append("✅ Готово — ");
        s.append(decimal_string(n as u64).as_str());
        s.append(" ");
        s.append(track_word(n));
        s
    }
}

/// Status while a job is running: `⏳ done/total`.
pub open spec fn spec_progress_message(done: nat, total: nat) -> Seq<char> {
    "⏳ "@ + decimal(done) + "/"@ + decimal(total)
}

/// Label of a download's source in the downloads list.
pub open spec fn spec_task_source_label(source: DownloadSource, f: Option<YtDlpFormat>) -> Seq<char> {
    match (source, f) {
        (DownloadSource::YtDlp, Some(YtDlpFormat::Mp3)) => "YouTube MP3"@,
        (DownloadSource::YtDlp, Some(YtDlpFormat::Mp4)) => "YouTube MP4"@,
        (DownloadSource::YtDlp, None) => "YouTube"@,
        (DownloadSource::Mp3Party, _) => "MP3Party"@,
        (DownloadSource::DriveMusic, _) => "DriveMusic"@,
        (DownloadSource::PesniMe, _) => "Pesni.me"@,
    }
}

pub fn task_source_label(source: DownloadSource, ytdlp_format: Option<YtDlpFormat>) -> (r: &'static str)
    ensures
        r@ == spec_task_source_label(source, ytdlp_format),
{
    match (source, ytdlp_format) {
        (DownloadSource::YtDlp, Some(YtDlpFormat::Mp3)) => "YouTube MP3",
        (DownloadSource::YtDlp, Some(YtDlpFormat::Mp4)) => "YouTube MP4",
        (DownloadSource::YtDlp, None) => "YouTube",
        (DownloadSource::Mp3Party, _) => "MP3Party",
        (DownloadSource::DriveMusic, _) => "DriveMusic",
        (DownloadSource::PesniMe, _) => "Pesni.me",
    }
}

// ---------------------------------------------------------------- filter

/// A track is shown under the filter `q` (already lower-cased): `q` is empty, or it
/// occurs in the lower-cased title or artist.
pub open spec fn spec_track_matches(t: TrackModel, q: Seq<char>) -> bool {
    q.len() == 0 || contains(spec_to_lowercase(t.title), q) || contains(
        spec_to_lowercase(t.artist),
        q,
    )
}

/// Positions among the first `n` tracks that the filter `q` shows, in order.
pub open spec fn spec_filtered_upto(ts: Seq<TrackModel>, q: Seq<char>, n: int) -> Seq<usize>
    decreases n,
{
    if n <= 0 {
        seq![]
    } else {
        let rest = spec_filtered_upto(ts, q, n - 1);
        if spec_track_matches(ts[n - 1], q) {
            rest.push((n - 1) as usize)
        } else {
            rest
        }
    }
}

/// The filter text as it is compared: trimmed and lower-cased.
pub open spec fn spec_filter_query(filter: Seq<char>) -> Seq<char> {
    spec_to_lowercase(trim(filter))
}

// ---------------------------------------------------------------- results

/// `added` appended to `base` in order, each track whose id is already listed dropped.
pub open spec fn spec_merge_by_id(base: Seq<TrackModel>, added: Seq<TrackModel>) -> Seq<TrackModel>
    decreases added.len(),
{
    if added.len() == 0 {
        base
    } else {
        let r = spec_merge_by_id(base, added.drop_last());
        if has_id(r, added.last().id) {
            r
        } else {
            r.push(added.last())
        }
    }
}

pub open spec fn distinct_ids(ts: Seq<TrackModel>) -> bool {
    forall|i: int, j: int| 0 <= i < j < ts.len() ==> #[trigger] ts[i].id != #[trigger] ts[j].id
}

/// Merging search results keeps the tracks already listed, in place, adds every id
/// that was missing, and never lists an id twice when the list had no repeats.
pub proof fn lemma_merge_by_id(base: Seq<TrackModel>, added: Seq<TrackModel>)
    ensures
        spec_merge_by_id(base, added).len() >= base.len(),
        spec_merge_by_id(base, added).subrange(0, base.len() as int) == base,
        forall|k: int|
            0 <= k < added.len() ==> has_id(spec_merge_by_id(base, added), #[trigger] added[k].id),
        distinct_ids(base) ==> distinct_ids(spec_merge_by_id(base, added)),
    decreases added.len(),
{
    if added.len() > 0 {
        let t = added.drop_last();
        lemma_merge_by_id(base, t);
        let r = spec_merge_by_id(base, t);
        let u = spec_merge_by_id(base, added);
        if !has_id(r, added.last().id) {
            assert(u.subrange(0, base.len() as int) =~= r.subrange(0, base.len() as int));
            if distinct_ids(r) {
                assert forall|i: int, j: int| 0 <= i < j < u.len() implies #[trigger] u[i].id
                    != #[trigger] u[j].id by {
                    if j == r.len() {
                        assert(u[i] == r[i]);
                    }
                }
            }
        }
        assert forall|k: int| 0 <= k < added.len() implies has_id(u, #[trigger] added[k].id) by {
            if k < added.len() - 1 {
                assert(t[k] == added[k]);
                assert(has_id(r, t[k].id));
                let m = choose|m: int| 0 <= m < r.len() && (#[trigger] r[m]).id == t[k].id;
                if !has_id(r, added.last().id) {
                    assert(u[m] == r[m]);
                }
            } else if !has_id(r, added.last().id) {
                assert(u[r.len() as int] == added.last());
            }
        }
    }
}

// ---------------------------------------------------------------- session

impl Session {
    pub fn new(first_log_line: String) -> (s: Self)
        ensures
            s@.tracks.len() == 0,
            s@.status == "✅ Готов к работе."@,
            !s@.loading,
            s@.total_urls == 0 && s@.processed == 0 && s@.error_count == 0,
            s@.last_error is None,
            s@.log == seq![first_log_line@],
            s@.output_mode == OutputMode::UrlParsing,
            s@.result_filter.len() == 0,
    {
        let mut log_lines: Vec<String> = Vec::new();
        log_lines.push(first_log_line);
        let s = Session {
            tracks: Vec::new(),
            result_filter: String::new(),
            status: crate::text::owned("✅ Готов к работе."),
            loading: false,
            total_urls: 0,
            processed: 0,
            error_count: 0,
            last_error: None,
            log_lines,
            output_mode: OutputMode::UrlParsing,
        };
        assert(strings_view(s.log_lines@) =~= seq![s.log_lines@[0]@]);
        assert(tracks_view(s.tracks@) =~= Seq::<TrackModel>::empty());
        s
    }

    /// Append a line to the log, dropping the oldest lines beyond [`MAX_LOG_LINES`].
    pub fn push_log_line(&mut self, line: String)
        ensures
            final(self)@ == (SessionModel { log: spec_push_log(old(self)@.log, line@), ..old(self)@ }),
    {
        let ghost old_lines = self.log_lines@;
        let ghost l = line;
        self.log_lines.push(line);
        let n = self.log_lines.len();
        if n > MAX_LOG_LINES {
            let drop = n - MAX_LOG_LINES;
            let kept = self.log_lines.split_off(drop);
            self.log_lines = kept;
        }
        proof {
            let p = strings_view(old_lines).push(l@);
            assert(strings_view(old_lines.push(l)) =~= p);
            if n > MAX_LOG_LINES {
                assert(strings_view(self.log_lines@) =~= p.subrange(
                    p.len() - MAX_LOG_LINES,
                    p.len() as int,
                ));
            }
        }
    }

    /// Clear the results and start a job of `total` units.
    pub fn begin_job(&mut self, mode: OutputMode, total: usize, status: String)
        ensures
            final(self)@ == (SessionModel {
                tracks: seq![],
                result_filter: seq![],
                status: status@,
                loading: true,
                total_urls: total as int,
                processed: 0,
                error_count: 0,
                last_error: None,
                output_mode: mode,
                ..old(self)@
            }),
    {
        self.tracks.clear();
        self.result_filter = String::new();
        self.output_mode = mode;
        self.total_urls = total;
        self.processed = 0;
        self.error_count = 0;
        self.last_error = None;
        self.loading = true;
        self.status = status;
        assert(tracks_view(self.tracks@) =~= Seq::<TrackModel>::empty());
    }

    /// The job is over: report how many tracks came and how many units failed.
    pub fn finish_loading(&mut self, ts: &str)
        ensures
            ({
                let m = old(self)@;
                let msg = spec_finish_message(
                    m.tracks.len(),
                    m.error_count as nat,
                    m.last_error,
                );
                final(self)@ == (SessionModel {
                    loading: false,
                    status: msg,
                    log: spec_push_log(m.log, spec_log_line(ts@, msg)),
                    ..m
                })
            }),
    {
        self.loading = false;
        let msg = finish_message(self.tracks.len(), self.error_count, &self.last_error);
        let line = log_line(ts, msg.as_str());
        self.push_log_line(line);
        self.status = msg;
    }

    /// The user cancelled the running job.
    pub fn cancel_loading(&mut self, ts: &str)
        ensures
            final(self)@ == (SessionModel {
                loading: false,
                status: "⏹ Операция отменена."@,
                log: spec_push_log(
                    old(self)@.log,
                    spec_log_line(ts@, "⏹ Операция отменена пользователем."@),
                ),
                ..old(self)@
            }),
    {
        self.loading = false;
        self.status = crate::text::owned("⏹ Операция отменена.");
        let line = log_line(ts, "⏹ Операция отменена пользователем.");
        self.push_log_line(line);
    }

    /// A job that has run for `elapsed_secs` (or has no start time) is abandoned once it
    /// exceeds [`LOADING_WATCHDOG_SECS`]: one more error, every unit counted as done.
    pub fn check_loading_watchdog(&mut self, elapsed_secs: Option<u64>, ts: &str)
        requires
            old(self).error_count < usize::MAX,
        ensures
            ({
                let m = old(self)@;
                if m.loading && (elapsed_secs matches Some(e) && e >= LOADING_WATCHDOG_SECS) {
                    let last = Some(
                        "Слишком долгое ожидание — операция прервана. Проверьте интернет."@,
                    );
                    let msg = spec_finish_message(m.tracks.len(), (m.error_count + 1) as nat, last);
                    final(self)@ == (SessionModel {
                        loading: false,
                        status: msg,
                        error_count: m.error_count + 1,
                        last_error: last,
                        processed: m.total_urls,
                        log: spec_push_log(m.log, spec_log_line(ts@, msg)),
                        ..m
                    })
                } else {
                    final(self)@ == m
                }
            }),
    {
        if !self.loading {
            return;
        }
        let e = match elapsed_secs {
            Some(e) => e,
            None => return,
        };
        if e < LOADING_WATCHDOG_SECS {
            return;
        }
        self.error_count = self.error_count + 1;
        self.last_error = Some(
            crate::text::owned("Слишком долгое ожидание — операция прервана. Проверьте интернет."),
        );
        self.processed = self.total_urls;
        self.finish_loading(ts);
    }

    /// One answer of the running job: a parsed track is appended, search results are
    /// merged in (ids already listed are dropped), errors are counted; the job ends
    /// when every unit has answered.
    pub fn on_parse_result(&mut self, result: ParseResult, ts: &str)
        requires
            old(self).processed < usize::MAX,
            old(self).error_count < usize::MAX,
        ensures
            ({
                let m = old(self)@;
                let m1 = match result {
                    ParseResult::Success(t) => SessionModel {
                        tracks: m.tracks.push(t@),
                        processed: m.processed + 1,
                        ..m
                    },
                    ParseResult::SearchResults(v) => SessionModel {
                        tracks: spec_merge_by_id(m.tracks, tracks_view(v@)),
                        processed: m.processed + 1,
                        ..m
                    },
                    ParseResult::Error(_, e) => SessionModel {
                        error_count: m.error_count + 1,
                        last_error: Some(e@),
                        processed: m.processed + 1,
                        ..m
                    },
                };
                if m1.processed >= m1.total_urls {
                    let msg = spec_finish_message(m1.tracks.len(), m1.error_count as nat, m1.last_error);
                    final(self)@ == (SessionModel {
                        loading: false,
                        status: msg,
                        log: spec_push_log(m1.log, spec_log_line(ts@, msg)),
                        ..m1
                    })
                } else {
                    final(self)@ == (SessionModel {
                        status: spec_progress_message(m1.processed as nat, m1.total_urls as nat),
                        ..m1
                    })
                }
            }),
    {
        self.processed = self.processed + 1;
        match result {
            ParseResult::Success(t) => {
                let ghost before = self.tracks@;
                self.tracks.push(t);
                assert(tracks_view(self.tracks@) =~= tracks_view(before).push(self.tracks@.last()@));
            },
            ParseResult::SearchResults(v) => {
                let ghost base = tracks_view(self.tracks@);
                let ghost s0 = self@;
                let ghost av = tracks_view(v@);
                let mut i: usize = 0;
                while i < v.len()
                    invariant
                        av == tracks_view(v@),
                        i <= v@.len(),
                        tracks_view(self.tracks@) == spec_merge_by_id(base, av.take(i as int)),
                        self@ == (SessionModel { tracks: tracks_view(self.tracks@), ..s0 }),
                    decreases v@.len() - i,
                {
                    assert(av.take(i + 1).drop_last() =~= av.take(i as int));
                    assert(av.take(i + 1).last() == v@[i as int]@);
                    if !contains_id(&self.tracks, &v[i].id) {
                        let ghost before = tracks_view(self.tracks@);
                        self.tracks.push(v[i].clone());
                        assert(tracks_view(self.tracks@) =~= before.push(v@[i as int]@));
                    }
                    i = i + 1;
                }
                assert(av.take(v@.len() as int) =~= av);
            },
            ParseResult::Error(_, e) => {
                self.error_count = self.error_count + 1;
                self.last_error = Some(e);
            },
        }
        if self.processed >= self.total_urls {
            self.finish_loading(ts);
        } else {
            let mut s = String::new();
            s.append("⏳ ");
            s.append(decimal_string(self.processed as u64).as_str());
            s.append("/");
            s.append(decimal_string(self.total_urls as u64).as_str());
            self.status = s;
        }
    }

    /// Positions of the tracks shown under the current filter, in order.
    pub fn filtered_track_indices(&self) -> (r: Vec<usize>)
        ensures
            r@ == spec_filtered_upto(
                self@.tracks,
                spec_filter_query(self@.result_filter),
                self@.tracks.len() as int,
            ),
    {
        let fc = chars_of(self.result_filter.as_str());
        let (a, b) = trim_bounds(fc.as_slice());
        let trimmed = string_from_chars(vstd::slice::slice_subrange(fc.as_slice(), a, b));
        let q = to_lowercase(trimmed.as_str());
        let qc = chars_of(q.as_str());
        let ghost qs = spec_filter_query(self@.result_filter);
        assert(qc@ == qs);
        let mut out: Vec<usize> = Vec::new();
        let n = self.tracks.len();
        let mut i: usize = 0;
        while i < n
            invariant
                n == self.tracks@.len(),
                i <= n,
                qc@ == qs,
                out@ == spec_filtered_upto(self@.tracks, qs, i as int),
            decreases n - i,
        {
            let t = &self.tracks[i];
            let shown = if qc.len() == 0 {
                true
            } else {
                let tl = chars_of(to_lowercase(t.title.as_str()).as_str());
                if find_in(tl.as_slice(), qc.as_slice()).is_some() {
                    true
                } else {
                    let al = chars_of(to_lowercase(t.artist.as_str()).as_str());
                    find_in(al.as_slice(), qc.as_slice()).is_some()
                }
            };
            assert(self@.tracks[i as int] == self.tracks@[i as int]@);
            if shown {
                out.push(i);
            }
            i = i + 1;
        }
        out
    }
}

} // verus!
