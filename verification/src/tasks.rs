//! The downloads list: starting a download (one per track, source and format at a
//! time), which downloads are running, and their combined progress.
use vstd::prelude::*;
use crate::sources::cat3;
use crate::types::{
    spec_format_label, spec_source_label, DownloadSource, DownloadStatus, TrackInfo, TrackModel,
    YtDlpFormat,
};

verus! {

broadcast use vstd::string::group_string_axioms;

/// A download as the list shows it: the track, where it comes from, and how far it is.
#[derive(Debug)]
pub struct DownloadTask {
    pub track: TrackInfo,
    pub source: DownloadSource,
    /// The yt-dlp format, for yt-dlp downloads only.
    pub ytdlp_format: Option<YtDlpFormat>,
    pub status: DownloadStatus,
}

pub struct TaskModel {
    pub track: TrackModel,
    pub source: DownloadSource,
    pub ytdlp_format: Option<YtDlpFormat>,
    pub active: bool,
}

impl View for DownloadTask {
    type V = TaskModel;

    open spec fn view(&self) -> TaskModel {
        TaskModel {
            track: self.track@,
            source: self.source,
            ytdlp_format: self.ytdlp_format,
            active: crate::types::spec_status_active(self.status),
        }
    }
}

pub open spec fn tasks_view(v: Seq<DownloadTask>) -> Seq<TaskModel> {
    v.map_values(|t: DownloadTask| t@)
}

/// The format a download from `source` records: the chosen one for yt-dlp, none else.
pub open spec fn spec_task_format(source: DownloadSource, fmt: YtDlpFormat) -> Option<YtDlpFormat> {
    if source == DownloadSource::YtDlp {
        Some(fmt)
    } else {
        None
    }
}

/// `t` is a running download of the track `id` from `source` (in the format `fmt`
/// when the source is yt-dlp).
pub open spec fn spec_same_download(t: TaskModel, id: Seq<char>, source: DownloadSource, fmt: YtDlpFormat) -> bool {
    &&& t.active
    &&& t.track.id == id
    &&& t.source == source
    &&& (source != DownloadSource::YtDlp || t.ytdlp_format == Some(fmt))
}

pub open spec fn spec_already_downloading(
    ts: Seq<TaskModel>,
    id: Seq<char>,
    source: DownloadSource,
    fmt: YtDlpFormat,
) -> bool {
    exists|k: int| 0 <= k < ts.len() && spec_same_download(#[trigger] ts[k], id, source, fmt)
}

/// Message when a download is refused because it is already running.
pub open spec fn spec_duplicate_message(t: TrackModel) -> Seq<char> {
    "⚠️ «"@ + t.artist + " — "@ + t.title + "» уже скачивается"@
}

/// The new entry for a download of `track`: waiting, with its format recorded.
pub open spec fn spec_new_task(track: TrackModel, source: DownloadSource, fmt: YtDlpFormat) -> TaskModel {
    TaskModel { track, source, ytdlp_format: spec_task_format(source, fmt), active: true }
}

/// Is the download of `track` from `source` (in `fmt`) running already?
pub fn already_downloading(
    tasks: &Vec<DownloadTask>,
    track: &TrackInfo,
    source: DownloadSource,
    fmt: YtDlpFormat,
) -> (b: bool)
    ensures
        b == spec_already_downloading(tasks_view(tasks@), track.id@, source, fmt),
{
    let ghost tv = tasks_view(tasks@);
    let mut k: usize = 0;
    while k < tasks.len()
        invariant
            tv == tasks_view(tasks@),
            k <= tasks@.len(),
            forall|m: int| 0 <= m < k ==> !spec_same_download(#[trigger] tv[m], track.id@, source, fmt),
        decreases tasks@.len() - k,
    {
        let t = &tasks[k];
        assert(tv[k as int] == t@);
        let same_fmt = match t.ytdlp_format {
            Some(f) => f == fmt,
            None => false,
        };
        if t.status.is_active() && t.track.id == track.id && t.source == source && (source
            != DownloadSource::YtDlp || same_fmt) {
            return true;
        }
        k = k + 1;
    }
    false
}

/// Start a download of `track` from `source` in `fmt`: the new entry, waiting
/// (`Pending`), or the message that the same download is already running.
pub fn plan_download(
    tasks: &Vec<DownloadTask>,
    track: &TrackInfo,
    source: DownloadSource,
    fmt: YtDlpFormat,
) -> (r: Result<DownloadTask, String>)
    ensures
        match r {
            Ok(t) => !spec_already_downloading(tasks_view(tasks@), track.id@, source, fmt) && t@
                == spec_new_task(track@, source, fmt) && t.status is Pending,
            Err(m) => spec_already_downloading(tasks_view(tasks@), track.id@, source, fmt) && m@
                == spec_duplicate_message(track@),
        },
{
    if already_downloading(tasks, track, source, fmt) {
        let mut m = cat3("⚠️ «", track.artist.as_str(), " — ");
        m.append(track.title.as_str());
        m.append("» уже скачивается");
        return Err(m);
    }
    let ytdlp_format = if source == DownloadSource::YtDlp {
        Some(fmt)
    } else {
        None
    };
    Ok(DownloadTask { track: track.clone(), source, ytdlp_format, status: DownloadStatus::Pending })
}

/// Once a download is started, starting it again is refused while it runs.
pub proof fn lemma_no_double_start(
    ts: Seq<TaskModel>,
    track: TrackModel,
    source: DownloadSource,
    fmt: YtDlpFormat,
)
    ensures
        spec_already_downloading(ts.push(spec_new_task(track, source, fmt)), track.id, source, fmt),
{
    let t2 = ts.push(spec_new_task(track, source, fmt));
    assert(spec_same_download(t2[ts.len() as int], track.id, source, fmt));
}

/// Status line after a download was started.
pub open spec fn spec_started_message(source: DownloadSource, fmt: YtDlpFormat, t: TrackModel) -> Seq<char> {
    "📥 ["@ + spec_source_label(source) + "]"@ + (if source == DownloadSource::YtDlp {
        " "@ + spec_format_label(fmt)
    } else {
        seq![]
    }) + " "@ + t.artist + " — "@ + t.title
}

pub fn started_message(source: DownloadSource, fmt: YtDlpFormat, track: &TrackInfo) -> (r: String)
    ensures
        r@ == spec_started_message(source, fmt, track@),
{
    let mut s = cat3("📥 [", source.label(), "]");
    if source == DownloadSource::YtDlp {
        s.append(" ");
        s.append(fmt.label());
    }
    s.append(" ");
    s.append(track.artist.as_str());
    s.append(" — ");
    s.append(track.title.as_str());
    proof {
        reveal_strlit("");
    }
    s
}

// ---------------------------------------------------------------- running downloads

pub open spec fn statuses_view(v: Seq<DownloadTask>) -> Seq<DownloadStatus> {
    v.map_values(|t: DownloadTask| t.status)
}

/// Some download is waiting or transferring.
pub fn has_active_downloads(tasks: &Vec<DownloadTask>) -> (b: bool)
    ensures
        b == exists|k: int| 0 <= k < tasks@.len() && (#[trigger] tasks_view(tasks@)[k]).active,
{
    let mut k: usize = 0;
    while k < tasks.len()
        invariant
            k <= tasks@.len(),
            forall|m: int| 0 <= m < k ==> !(#[trigger] tasks_view(tasks@)[m]).active,
        decreases tasks@.len() - k,
    {
        if tasks[k].status.is_active() {
            assert(tasks_view(tasks@)[k as int].active);
            return true;
        }
        assert(!tasks_view(tasks@)[k as int].active);
        k = k + 1;
    }
    false
}

/// How many of the first `n` downloads are transferring.
pub open spec fn downloading_upto(s: Seq<DownloadStatus>, n: int) -> nat
    decreases n,
{
    if n <= 0 {
        0
    } else {
        downloading_upto(s, n - 1) + if s[n - 1] is Downloading {
            1nat
        } else {
            0nat
        }
    }
}

proof fn lemma_downloading_upto_le(s: Seq<DownloadStatus>, n: int)
    requires
        0 <= n,
    ensures
        downloading_upto(s, n) <= n,
    decreases n,
{
    if n > 0 {
        lemma_downloading_upto_le(s, n - 1);
    }
}

/// Number of downloads transferring now.
pub fn count_downloading(tasks: &Vec<DownloadTask>) -> (n: usize)
    ensures
        n == downloading_upto(statuses_view(tasks@), tasks@.len() as int),
{
    let ghost sv = statuses_view(tasks@);
    let mut n: usize = 0;
    let mut k: usize = 0;
    while k < tasks.len()
        invariant
            sv == statuses_view(tasks@),
            k <= tasks@.len(),
            n == downloading_upto(sv, k as int),
        decreases tasks@.len() - k,
    {
        proof {
            lemma_downloading_upto_le(sv, k as int);
        }
        match &tasks[k].status {
            DownloadStatus::Downloading { .. } => {
                n = n + 1;
            },
            _ => {},
        }
        k = k + 1;
    }
    n
}

/// Bytes received over the first `n` transfers, and the sizes of those whose size is
/// known.
pub open spec fn totals_upto(s: Seq<DownloadStatus>, n: int) -> (int, int)
    decreases n,
{
    if n <= 0 {
        (0, 0)
    } else {
        let (b, t) = totals_upto(s, n - 1);
        match s[n - 1] {
            DownloadStatus::Downloading { bytes, total, .. } => (b + bytes, t + total),
            _ => (b, t),
        }
    }
}

proof fn lemma_totals_nonneg(s: Seq<DownloadStatus>, n: int)
    ensures
        0 <= totals_upto(s, n).0,
        0 <= totals_upto(s, n).1,
    decreases n,
{
    if n > 0 {
        lemma_totals_nonneg(s, n - 1);
    }
}

proof fn lemma_totals_monotone(s: Seq<DownloadStatus>, i: int, n: int)
    requires
        0 <= i <= n,
    ensures
        totals_upto(s, i).0 <= totals_upto(s, n).0,
        totals_upto(s, i).1 <= totals_upto(s, n).1,
    decreases n - i,
{
    if i < n {
        lemma_totals_monotone(s, i, n - 1);
    }
}

/// Combined progress of the transfers: bytes received and total size (a transfer of
/// unknown size adds its bytes and nothing to the size).
pub fn download_totals(tasks: &Vec<DownloadTask>) -> (r: (u64, u64))
    requires
        totals_upto(statuses_view(tasks@), tasks@.len() as int).0 <= u64::MAX,
        totals_upto(statuses_view(tasks@), tasks@.len() as int).1 <= u64::MAX,
    ensures
        r.0 == totals_upto(statuses_view(tasks@), tasks@.len() as int).0,
        r.1 == totals_upto(statuses_view(tasks@), tasks@.len() as int).1,
{
    let ghost sv = statuses_view(tasks@);
    let n = tasks.len();
    let mut bytes_sum: u64 = 0;
    let mut size_sum: u64 = 0;
    let mut k: usize = 0;
    while k < n
        invariant
            sv == statuses_view(tasks@),
            n == tasks@.len(),
            k <= n,
            totals_upto(sv, n as int).0 <= u64::MAX,
            totals_upto(sv, n as int).1 <= u64::MAX,
            bytes_sum == totals_upto(sv, k as int).0,
            size_sum == totals_upto(sv, k as int).1,
        decreases n - k,
    {
        proof {
            lemma_totals_monotone(sv, k + 1, n as int);
            lemma_totals_nonneg(sv, k as int);
        }
        match &tasks[k].status {
            DownloadStatus::Downloading { bytes, total, .. } => {
                bytes_sum = bytes_sum + *bytes;
                size_sum = size_sum + *total;
            },
            _ => {},
        }
        k = k + 1;
    }
    (bytes_sum, size_sum)
}

/// Whether [`download_totals`] can add the numbers up in 64 bits.
pub fn totals_fit(tasks: &Vec<DownloadTask>) -> (b: bool)
    ensures
        b == (totals_upto(statuses_view(tasks@), tasks@.len() as int).0 <= u64::MAX && totals_upto(
            statuses_view(tasks@),
            tasks@.len() as int,
        ).1 <= u64::MAX),
{
    let ghost sv = statuses_view(tasks@);
    let n = tasks.len();
    let mut bytes_sum: u128 = 0;
    let mut size_sum: u128 = 0;
    let mut k: usize = 0;
    while k < n
        invariant
            sv == statuses_view(tasks@),
            n == tasks@.len(),
            k <= n,
            bytes_sum == totals_upto(sv, k as int).0,
            size_sum == totals_upto(sv, k as int).1,
            bytes_sum <= u64::MAX,
            size_sum <= u64::MAX,
        decreases n - k,
    {
        proof {
            lemma_totals_nonneg(sv, k as int);
        }
        match &tasks[k].status {
            DownloadStatus::Downloading { bytes, total, .. } => {
                bytes_sum = bytes_sum + (*bytes as u128);
                size_sum = size_sum + (*total as u128);
            },
            _ => {},
        }
        if bytes_sum > 0xffff_ffff_ffff_ffff || size_sum > 0xffff_ffff_ffff_ffff {
            proof {
                lemma_totals_monotone(sv, k + 1, n as int);
            }
            return false;
        }
        k = k + 1;
    }
    true
}

/// Stopping a download: only a waiting or transferring one is stopped, and the log
/// line that records it.
pub open spec fn spec_cancel_message(t: TaskModel) -> Option<Seq<char>> {
    if t.active {
        Some("⏹ Остановлено: "@ + t.track.artist + " — "@ + t.track.title)
    } else {
        None
    }
}

pub fn cancel_message(t: &DownloadTask) -> (r: Option<String>)
    ensures
        crate::text::opt_string_view(r) == spec_cancel_message(t@),
{
    if t.status.is_active() {
        let mut m = cat3("⏹ Остановлено: ", t.track.artist.as_str(), " — ");
        m.append(t.track.title.as_str());
        Some(m)
    } else {
        None
    }
}

} // verus!
