//! Shared texts: a text is stored under a random token and can be read back for a
//! limited time (1 to 60 minutes) and, optionally, a limited number of times.
use vstd::prelude::*;
use crate::sources::cat3;

verus! {

broadcast use vstd::string::group_string_axioms;

/// Public address under which shares are read (`{SHARE_BASE_URL}/{token}`).
pub const SHARE_BASE_URL: &'static str = "https://krasava.xyz/api/share";

/// Latest second that chrono represents (December 31, 262142, 23:59:59 UTC).
pub const MAX_TIMESTAMP: i64 = 8_210_266_876_799;

/// Shortest and longest lifetime of a share, in minutes.
pub const MIN_TTL_MINUTES: u32 = 1;

pub const MAX_TTL_MINUTES: u32 = 60;

/// A UTC instant: seconds since the UNIX epoch and the nanoseconds within that second.
#[derive(Clone, Copy, Debug, PartialEq, Eq, Structural)]
pub struct UtcTime {
    pub secs: i64,
    pub nanos: u32,
}

/// An instant the clock can report and chrono can represent.
pub open spec fn valid_time(t: UtcTime) -> bool {
    0 <= t.secs <= MAX_TIMESTAMP && t.nanos < 1_000_000_000
}

/// `a` is strictly later than `b`.
pub open spec fn is_after(a: UtcTime, b: UtcTime) -> bool {
    a.secs > b.secs || (a.secs == b.secs && a.nanos > b.nanos)
}

fn after(a: UtcTime, b: UtcTime) -> (r: bool)
    ensures
        r == is_after(a, b),
{
    a.secs > b.secs || (a.secs == b.secs && a.nanos > b.nanos)
}

/// RFC 3339 text of an instant, as chrono writes it.
pub uninterp spec fn spec_rfc3339(secs: i64, nanos: u32) -> Seq<char>;

/// `chrono::Utc::now()`, split into its UNIX timestamp and sub-second nanoseconds.
/// Whatever the clock says, chrono only returns an instant from 1970 on that it can
/// represent, taken from `SystemTime`, so the nanoseconds stay below one second (it
/// panics on a clock set before 1970).
#[verifier::external_body]
fn utc_now() -> (t: UtcTime)
    ensures
        valid_time(t),
{
    let now = chrono::Utc::now();
    UtcTime { secs: now.timestamp(), nanos: now.timestamp_subsec_nanos() }
}

/// `chrono::DateTime::from_timestamp(secs, nanos)` (defined on every valid instant)
/// and `DateTime::to_rfc3339`: a text that depends on the instant alone, named
/// [`spec_rfc3339`].
#[verifier::external_body]
fn rfc3339(t: UtcTime) -> (r: String)
    requires
        valid_time(t),
    ensures
        r@ == spec_rfc3339(t.secs, t.nanos),
{
    chrono::DateTime::from_timestamp(t.secs, t.nanos).unwrap().to_rfc3339()
}

pub open spec fn is_lower_hex(c: char) -> bool {
    ('0' <= c && c <= '9') || ('a' <= c && c <= 'f')
}

/// A hyphenated lower-case version-4 UUID: `xxxxxxxx-xxxx-4xxx-xxxx-xxxxxxxxxxxx`.
pub open spec fn is_v4_token(s: Seq<char>) -> bool {
    &&& s.len() == 36
    &&& forall|i: int|
        0 <= i < 36 ==> if i == 8 || i == 13 || i == 18 || i == 23 {
            #[trigger] s[i] == '-'
        } else {
            is_lower_hex(s[i])
        }
    &&& s[14] == '4'
}

/// `uuid::Uuid::new_v4().to_string()`: a random token.  Of every outcome only its
/// shape is stated: 32 lower-case hex digits in groups, version digit `4`.
#[verifier::external_body]
fn new_token() -> (r: String)
    ensures
        is_v4_token(r@),
{
    uuid::Uuid::new_v4().to_string()
}

// ---------------------------------------------------------------- values

/// A stored share.
#[derive(Debug)]
pub struct ShareEntry {
    pub content: String,
    pub created_at: UtcTime,
    pub expires_at: UtcTime,
    /// `0`: unlimited.
    pub max_uses: u32,
    pub use_count: u32,
}

pub struct EntryModel {
    pub content: Seq<char>,
    pub created_at: UtcTime,
    pub expires_at: UtcTime,
    pub max_uses: u32,
    pub use_count: u32,
}

impl View for ShareEntry {
    type V = EntryModel;

    open spec fn view(&self) -> EntryModel {
        EntryModel {
            content: self.content@,
            created_at: self.created_at,
            expires_at: self.expires_at,
            max_uses: self.max_uses,
            use_count: self.use_count,
        }
    }
}

impl Clone for ShareEntry {
    fn clone(&self) -> (r: Self)
        ensures
            r@ == self@,
    {
        ShareEntry {
            content: self.content.clone(),
            created_at: self.created_at,
            expires_at: self.expires_at,
            max_uses: self.max_uses,
            use_count: self.use_count,
        }
    }
}

/// A request to share `content`.
pub struct CreateShare {
    pub content: String,
    pub ttl_minutes: u32,
    pub max_uses: u32,
}

/// Answer to a created share.
pub struct ShareResponse {
    pub token: String,
    pub url: String,
    pub expires_at: String,
}

pub struct ResponseModel {
    pub token: Seq<char>,
    pub url: Seq<char>,
    pub expires_at: Seq<char>,
}

impl View for ShareResponse {
    type V = ResponseModel;

    open spec fn view(&self) -> ResponseModel {
        ResponseModel { token: self.token@, url: self.url@, expires_at: self.expires_at@ }
    }
}

/// What is known of a share without reading it.
pub struct ShareInfo {
    pub token: String,
    pub url: String,
    pub expires_at: String,
    pub use_count: u32,
    pub max_uses: u32,
    pub remaining: u32,
}

pub struct InfoModel {
    pub token: Seq<char>,
    pub url: Seq<char>,
    pub expires_at: Seq<char>,
    pub use_count: u32,
    pub max_uses: u32,
    pub remaining: u32,
}

impl View for ShareInfo {
    type V = InfoModel;

    open spec fn view(&self) -> InfoModel {
        InfoModel {
            token: self.token@,
            url: self.url@,
            expires_at: self.expires_at@,
            use_count: self.use_count,
            max_uses: self.max_uses,
            remaining: self.remaining,
        }
    }
}

/// Why a request on shares was refused.
#[derive(Clone, Copy, Debug, PartialEq, Eq, Structural)]
pub enum ShareError {
    /// Nothing to share.
    EmptyContent,
    /// No share under this token.
    NotFound,
    /// The share outlived its time; it is gone now.
    Expired,
    /// The share was read as often as allowed; it is gone now.
    MaxUsesReached,
    /// The clock is so late that the expiry cannot be represented.
    ClockOutOfRange,
}

pub open spec fn spec_error_status(e: ShareError) -> u16 {
    match e {
        ShareError::EmptyContent => 400,
        ShareError::NotFound => 404,
        ShareError::Expired => 410,
        ShareError::MaxUsesReached => 410,
        ShareError::ClockOutOfRange => 500,
    }
}

pub open spec fn spec_error_message(e: ShareError) -> Seq<char> {
    match e {
        ShareError::EmptyContent => "content is empty"@,
        ShareError::NotFound => "Not found"@,
        ShareError::Expired => "Link expired"@,
        ShareError::MaxUsesReached => "Max uses reached"@,
        ShareError::ClockOutOfRange => "clock out of range"@,
    }
}

impl ShareError {
    /// HTTP status code of the refusal.
    pub fn status(self) -> (r: u16)
        ensures
            r == spec_error_status(self),
    {
        match self {
            ShareError::EmptyContent => 400,
            ShareError::NotFound => 404,
            ShareError::Expired => 410,
            ShareError::MaxUsesReached => 410,
            ShareError::ClockOutOfRange => 500,
        }
    }

    /// Body text of the refusal.
    pub fn message(self) -> (r: &'static str)
        ensures
            r@ == spec_error_message(self),
    {
        match self {
            ShareError::EmptyContent => "content is empty",
            ShareError::NotFound => "Not found",
            ShareError::Expired => "Link expired",
            ShareError::MaxUsesReached => "Max uses reached",
            ShareError::ClockOutOfRange => "clock out of range",
        }
    }
}

// ---------------------------------------------------------------- model

pub type ShareMap = Map<Seq<char>, EntryModel>;

/// Lifetime in minutes: the requested one, at least 1 and at most 60.
pub open spec fn clamp_ttl(ttl: u32) -> int {
    if ttl < MIN_TTL_MINUTES {
        MIN_TTL_MINUTES as int
    } else if ttl > MAX_TTL_MINUTES {
        MAX_TTL_MINUTES as int
    } else {
        ttl as int
    }
}

/// When a share created at `now` with lifetime `ttl` expires.
pub open spec fn expiry(now: UtcTime, ttl: u32) -> UtcTime {
    UtcTime { secs: (now.secs + 60 * clamp_ttl(ttl)) as i64, nanos: now.nanos }
}

pub open spec fn share_url(token: Seq<char>) -> Seq<char> {
    SHARE_BASE_URL@ + "/"@ + token
}

/// Every stored share expires at a representable instant, and a share limited to
/// `n` reads has been read fewer than `n` times.
pub open spec fn store_ok(m: ShareMap) -> bool {
    forall|k: Seq<char>|
        #[trigger] m.contains_key(k) ==> valid_time(m[k].expires_at) && (m[k].max_uses > 0
            ==> m[k].use_count < m[k].max_uses)
}

/// Creating a share of `content` at `now` under `token`.
pub open spec fn spec_create(
    m: ShareMap,
    now: UtcTime,
    token: Seq<char>,
    content: Seq<char>,
    ttl: u32,
    max_uses: u32,
) -> (ShareMap, Result<ResponseModel, ShareError>) {
    if content.len() == 0 {
        (m, Err(ShareError::EmptyContent))
    } else {
        let exp = expiry(now, ttl);
        (
            m.insert(
                token,
                EntryModel { content, created_at: now, expires_at: exp, max_uses, use_count: 0 },
            ),
            Ok(
                ResponseModel {
                    token,
                    url: share_url(token),
                    expires_at: spec_rfc3339(exp.secs, exp.nanos),
                },
            ),
        )
    }
}

/// Creating a share at the instant `now`: as [`spec_create`], except that a non-empty
/// share is refused when its lifetime from `now` would pass the latest instant chrono
/// represents.
pub open spec fn spec_create_at(
    m: ShareMap,
    now: UtcTime,
    token: Seq<char>,
    content: Seq<char>,
    ttl: u32,
    max_uses: u32,
) -> (ShareMap, Result<ResponseModel, ShareError>) {
    if content.len() > 0 && now.secs + 60 * clamp_ttl(ttl) > MAX_TIMESTAMP {
        (m, Err(ShareError::ClockOutOfRange))
    } else {
        spec_create(m, now, token, content, ttl, max_uses)
    }
}

/// Reading the share `token` at `now`: an expired or used-up share is removed and
/// refused; otherwise its text is returned and the read counted, and a share that
/// has now been read as often as allowed is removed.
pub open spec fn spec_get(m: ShareMap, now: UtcTime, token: Seq<char>) -> (ShareMap, Result<Seq<char>, ShareError>) {
    if !m.contains_key(token) {
        (m, Err(ShareError::NotFound))
    } else {
        let e = m[token];
        if is_after(now, e.expires_at) {
            (m.remove(token), Err(ShareError::Expired))
        } else if e.max_uses > 0 && e.use_count >= e.max_uses {
            (m.remove(token), Err(ShareError::MaxUsesReached))
        } else {
            let c = e.use_count + 1;
            if e.max_uses > 0 && c >= e.max_uses {
                (m.remove(token), Ok(e.content))
            } else {
                (m.insert(token, EntryModel { use_count: c as u32, ..e }), Ok(e.content))
            }
        }
    }
}

/// Reads left: `max_uses - use_count` for a limited share, `u32::MAX` otherwise.
pub open spec fn spec_remaining(e: EntryModel) -> u32 {
    if e.max_uses > 0 {
        if e.use_count <= e.max_uses {
            (e.max_uses - e.use_count) as u32
        } else {
            0
        }
    } else {
        u32::MAX
    }
}

pub open spec fn spec_info(m: ShareMap, token: Seq<char>) -> Result<InfoModel, ShareError> {
    if !m.contains_key(token) {
        Err(ShareError::NotFound)
    } else {
        let e = m[token];
        Ok(
            InfoModel {
                token,
                url: share_url(token),
                expires_at: spec_rfc3339(e.expires_at.secs, e.expires_at.nanos),
                use_count: e.use_count,
                max_uses: e.max_uses,
                remaining: spec_remaining(e),
            },
        )
    }
}

/// The read of the share `token` would count one more use of an unlimited share
/// whose counter is already at its maximum.
pub open spec fn count_overflows(m: ShareMap, token: Seq<char>) -> bool {
    m.contains_key(token) && m[token].max_uses == 0 && m[token].use_count == u32::MAX
}

// ---------------------------------------------------------------- laws

/// Creating a share yields a store in which every share is still well-formed, when
/// the expiry is representable.
pub proof fn lemma_create_keeps_store_ok(
    m: ShareMap,
    now: UtcTime,
    token: Seq<char>,
    content: Seq<char>,
    ttl: u32,
    max_uses: u32,
)
    requires
        store_ok(m),
        valid_time(now),
        now.secs + 60 * clamp_ttl(ttl) <= MAX_TIMESTAMP,
    ensures
        store_ok(spec_create(m, now, token, content, ttl, max_uses).0),
{
    let m2 = spec_create(m, now, token, content, ttl, max_uses).0;
    assert forall|k: Seq<char>| #[trigger] m2.contains_key(k) implies valid_time(m2[k].expires_at)
        && (m2[k].max_uses > 0 ==> m2[k].use_count < m2[k].max_uses) by {
        if k != token {
            assert(m.contains_key(k));
        }
    }
}

/// Reading a share keeps every share well-formed.
pub proof fn lemma_get_keeps_store_ok(m: ShareMap, now: UtcTime, token: Seq<char>)
    requires
        store_ok(m),
        !count_overflows(m, token),
    ensures
        store_ok(spec_get(m, now, token).0),
{
    let m2 = spec_get(m, now, token).0;
    assert forall|k: Seq<char>| #[trigger] m2.contains_key(k) implies valid_time(m2[k].expires_at)
        && (m2[k].max_uses > 0 ==> m2[k].use_count < m2[k].max_uses) by {
        assert(m.contains_key(k));
    }
}

/// A share lives between 1 and 60 minutes: its expiry is the creation time plus the
/// requested lifetime clamped to that range.
pub proof fn lemma_lifetime_clamped(now: UtcTime, ttl: u32)
    requires
        valid_time(now),
        now.secs + 60 * clamp_ttl(ttl) <= MAX_TIMESTAMP,
    ensures
        60 * MIN_TTL_MINUTES <= expiry(now, ttl).secs - now.secs <= 60 * MAX_TTL_MINUTES,
        MIN_TTL_MINUTES <= ttl <= MAX_TTL_MINUTES ==> expiry(now, ttl).secs == now.secs + 60 * ttl,
        expiry(now, ttl).nanos == now.nanos,
        valid_time(expiry(now, ttl)),
{
}

/// What is written can be read back: right after a share is created, reading it at
/// any instant up to its expiry returns the shared text.
pub proof fn lemma_read_after_create(
    m: ShareMap,
    now: UtcTime,
    token: Seq<char>,
    content: Seq<char>,
    ttl: u32,
    max_uses: u32,
    later: UtcTime,
)
    requires
        content.len() > 0,
        !is_after(later, expiry(now, ttl)),
    ensures
        spec_get(spec_create(m, now, token, content, ttl, max_uses).0, later, token).1 == Ok::<
            Seq<char>,
            ShareError,
        >(content),
{
}

/// A share read after its expiry is refused as expired and removed, so the next read
/// finds nothing.
pub proof fn lemma_expired_is_removed(m: ShareMap, now: UtcTime, token: Seq<char>, next: UtcTime)
    requires
        m.contains_key(token),
        is_after(now, m[token].expires_at),
    ensures
        spec_get(m, now, token).1 == Err::<Seq<char>, ShareError>(ShareError::Expired),
        !spec_get(m, now, token).0.contains_key(token),
        spec_get(spec_get(m, now, token).0, next, token).1 == Err::<Seq<char>, ShareError>(
            ShareError::NotFound,
        ),
{
}

/// Successful reads of `token` in a run of reads at the instants `times`.
pub open spec fn served(m: ShareMap, token: Seq<char>, times: Seq<UtcTime>) -> nat
    decreases times.len(),
{
    if times.len() == 0 {
        0
    } else {
        let (m2, r) = spec_get(m, times[0], token);
        (if r is Ok {
            1nat
        } else {
            0nat
        }) + served(m2, token, times.drop_first())
    }
}

proof fn lemma_served_absent(m: ShareMap, token: Seq<char>, times: Seq<UtcTime>)
    requires
        !m.contains_key(token),
    ensures
        served(m, token, times) == 0,
    decreases times.len(),
{
    if times.len() > 0 {
        lemma_served_absent(m, token, times.drop_first());
    }
}

/// A share limited to `n` reads is served at most `n` times, whenever and however
/// often it is asked for: never more than the reads it has left.
pub proof fn lemma_served_at_most_remaining(m: ShareMap, token: Seq<char>, times: Seq<UtcTime>)
    requires
        store_ok(m),
        m.contains_key(token),
        m[token].max_uses > 0,
    ensures
        served(m, token, times) <= m[token].max_uses - m[token].use_count,
    decreases times.len(),
{
    if times.len() > 0 {
        let (m2, r) = spec_get(m, times[0], token);
        let e = m[token];
        if m2.contains_key(token) {
            assert(m2[token].max_uses == e.max_uses);
            assert(m2[token].use_count == e.use_count + 1);
            assert(store_ok(m2)) by {
                lemma_get_keeps_store_ok(m, times[0], token);
            }
            lemma_served_at_most_remaining(m2, token, times.drop_first());
        } else {
            lemma_served_absent(m2, token, times.drop_first());
        }
    }
}

/// A fresh limited share can be read exactly as often as it allows: `info` reports
/// every read still to come.
pub proof fn lemma_fresh_info(
    m: ShareMap,
    now: UtcTime,
    token: Seq<char>,
    content: Seq<char>,
    ttl: u32,
    max_uses: u32,
)
    requires
        content.len() > 0,
    ensures
        spec_info(spec_create(m, now, token, content, ttl, max_uses).0, token) matches Ok(i) && i.use_count
            == 0 && i.max_uses == max_uses && i.remaining == (if max_uses > 0 {
            max_uses
        } else {
            u32::MAX
        }),
{
}

// ---------------------------------------------------------------- store

pub open spec fn entries_view(v: Seq<(String, ShareEntry)>) -> Seq<(Seq<char>, EntryModel)> {
    v.map_values(|e: (String, ShareEntry)| (e.0@, e.1@))
}

/// The map that a list of `(token, entry)` pairs stands for.
pub open spec fn map_of(s: Seq<(Seq<char>, EntryModel)>) -> ShareMap
    decreases s.len(),
{
    if s.len() == 0 {
        Map::empty()
    } else {
        map_of(s.drop_last()).insert(s.last().0, s.last().1)
    }
}

pub open spec fn keys_distinct(s: Seq<(Seq<char>, EntryModel)>) -> bool {
    forall|i: int, j: int| 0 <= i < j < s.len() ==> #[trigger] s[i].0 != #[trigger] s[j].0
}

proof fn lemma_map_of(s: Seq<(Seq<char>, EntryModel)>)
    requires
        keys_distinct(s),
    ensures
        forall|k: Seq<char>|
            #[trigger] map_of(s).contains_key(k) <==> exists|i: int| 0 <= i < s.len() && s[i].0 == k,
        forall|i: int| 0 <= i < s.len() ==> #[trigger] map_of(s)[s[i].0] == s[i].1,
    decreases s.len(),
{
    if s.len() > 0 {
        let t = s.drop_last();
        lemma_map_of(t);
        assert forall|k: Seq<char>| #[trigger] map_of(s).contains_key(k) <==> exists|i: int|
            0 <= i < s.len() && s[i].0 == k by {
            if k == s.last().0 {
                assert(s[s.len() - 1].0 == k);
            } else {
                if map_of(t).contains_key(k) {
                    let i = choose|i: int| 0 <= i < t.len() && t[i].0 == k;
                    assert(s[i] == t[i]);
                }
                if exists|i: int| 0 <= i < s.len() && s[i].0 == k {
                    let i = choose|i: int| 0 <= i < s.len() && s[i].0 == k;
                    assert(i < s.len() - 1);
                    assert(t[i] == s[i]);
                    assert(map_of(t).contains_key(k));
                }
            }
        }
        assert forall|i: int| 0 <= i < s.len() implies #[trigger] map_of(s)[s[i].0] == s[i].1 by {
            if i < s.len() - 1 {
                assert(t[i] == s[i]);
                assert(s[i].0 != s[s.len() - 1].0);
                assert(map_of(t)[t[i].0] == t[i].1);
            }
        }
    }
}

proof fn lemma_map_of_remove(s: Seq<(Seq<char>, EntryModel)>, i: int)
    requires
        keys_distinct(s),
        0 <= i < s.len(),
    ensures
        keys_distinct(s.remove(i)),
        map_of(s.remove(i)) == map_of(s).remove(s[i].0),
{
    let r = s.remove(i);
    assert(keys_distinct(r)) by {
        assert forall|a: int, b: int| 0 <= a < b < r.len() implies #[trigger] r[a].0 != #[trigger] r[b].0 by {
            let a2 = if a < i { a } else { a + 1 };
            let b2 = if b < i { b } else { b + 1 };
            assert(r[a] == s[a2]);
            assert(r[b] == s[b2]);
        }
    }
    lemma_map_of(s);
    lemma_map_of(r);
    assert forall|k: Seq<char>| #[trigger] map_of(r).contains_key(k) <==> map_of(s).remove(
        s[i].0,
    ).contains_key(k) by {
        if map_of(r).contains_key(k) {
            let a = choose|a: int| 0 <= a < r.len() && r[a].0 == k;
            let a2 = if a < i { a } else { a + 1 };
            assert(r[a] == s[a2]);
        }
        if map_of(s).remove(s[i].0).contains_key(k) {
            let a = choose|a: int| 0 <= a < s.len() && s[a].0 == k;
            assert(a != i);
            let a2 = if a < i { a } else { a - 1 };
            assert(r[a2] == s[a]);
        }
    }
    assert forall|k: Seq<char>| #[trigger] map_of(r).contains_key(k) implies map_of(r)[k]
        == map_of(s)[k] by {
        let a = choose|a: int| 0 <= a < r.len() && r[a].0 == k;
        let a2 = if a < i { a } else { a + 1 };
        assert(r[a] == s[a2]);
        assert(map_of(r)[r[a].0] == r[a].1);
        assert(map_of(s)[s[a2].0] == s[a2].1);
    }
    assert(map_of(r) =~= map_of(s).remove(s[i].0));
}

proof fn lemma_map_of_update(s: Seq<(Seq<char>, EntryModel)>, i: int, e: EntryModel)
    requires
        keys_distinct(s),
        0 <= i < s.len(),
    ensures
        keys_distinct(s.update(i, (s[i].0, e))),
        map_of(s.update(i, (s[i].0, e))) == map_of(s).insert(s[i].0, e),
{
    let r = s.update(i, (s[i].0, e));
    assert(keys_distinct(r)) by {
        assert forall|a: int, b: int| 0 <= a < b < r.len() implies #[trigger] r[a].0 != #[trigger] r[b].0 by {
            assert(r[a].0 == s[a].0);
            assert(r[b].0 == s[b].0);
        }
    }
    lemma_map_of(s);
    lemma_map_of(r);
    assert forall|k: Seq<char>| #[trigger] map_of(r).contains_key(k) <==> map_of(s).insert(
        s[i].0,
        e,
    ).contains_key(k) by {
        if map_of(r).contains_key(k) {
            let a = choose|a: int| 0 <= a < r.len() && r[a].0 == k;
            assert(r[a].0 == s[a].0);
        }
        if map_of(s).contains_key(k) {
            let a = choose|a: int| 0 <= a < s.len() && s[a].0 == k;
            assert(r[a].0 == s[a].0);
        }
        assert(r[i].0 == s[i].0);
    }
    assert forall|k: Seq<char>| #[trigger] map_of(r).contains_key(k) implies map_of(r)[k]
        == map_of(s).insert(s[i].0, e)[k] by {
        let a = choose|a: int| 0 <= a < r.len() && r[a].0 == k;
        assert(map_of(r)[r[a].0] == r[a].1);
        if a != i {
            assert(r[a] == s[a]);
            assert(map_of(s)[s[a].0] == s[a].1);
        }
    }
    assert(map_of(r) =~= map_of(s).insert(s[i].0, e));
}

proof fn lemma_map_of_push(s: Seq<(Seq<char>, EntryModel)>, x: (Seq<char>, EntryModel))
    requires
        keys_distinct(s),
        !map_of(s).contains_key(x.0),
    ensures
        keys_distinct(s.push(x)),
        map_of(s.push(x)) == map_of(s).insert(x.0, x.1),
{
    lemma_map_of(s);
    assert(s.push(x).drop_last() =~= s);
    let r = s.push(x);
    assert forall|a: int, b: int| 0 <= a < b < r.len() implies #[trigger] r[a].0 != #[trigger] r[b].0 by {
        if b == s.len() {
            assert(r[a] == s[a]);
        } else {
            assert(r[a] == s[a]);
            assert(r[b] == s[b]);
        }
    }
}

/// All shares, by token.
pub struct ShareStore {
    entries: Vec<(String, ShareEntry)>,
}

impl View for ShareStore {
    type V = ShareMap;

    closed spec fn view(&self) -> ShareMap {
        map_of(entries_view(self.entries@))
    }
}

pub open spec fn response_view(r: Result<ShareResponse, ShareError>) -> Result<ResponseModel, ShareError> {
    match r {
        Ok(x) => Ok(x@),
        Err(e) => Err(e),
    }
}

pub open spec fn content_view(r: Result<String, ShareError>) -> Result<Seq<char>, ShareError> {
    match r {
        Ok(x) => Ok(x@),
        Err(e) => Err(e),
    }
}

pub open spec fn info_view(r: Result<ShareInfo, ShareError>) -> Result<InfoModel, ShareError> {
    match r {
        Ok(x) => Ok(x@),
        Err(e) => Err(e),
    }
}

impl ShareStore {
    /// The store's own bookkeeping holds (one entry per token) and every share in it
    /// is well-formed.
    pub closed spec fn wf(&self) -> bool {
        keys_distinct(entries_view(self.entries@)) && store_ok(self@)
    }

    /// An empty store.
    pub fn new() -> (s: Self)
        ensures
            s.wf(),
            s@ == Map::<Seq<char>, EntryModel>::empty(),
    {
        let s = ShareStore { entries: Vec::new() };
        assert(entries_view(s.entries@) =~= Seq::<(Seq<char>, EntryModel)>::empty());
        s
    }

    /// Every share in a well-formed store is well-formed.
    pub proof fn lemma_wf(&self)
        requires
            self.wf(),
        ensures
            store_ok(self@),
    {
    }

    fn find(&self, token: &str) -> (r: Option<usize>)
        requires
            keys_distinct(entries_view(self.entries@)),
        ensures
            match r {
                Some(i) => i < self.entries@.len() && self.entries@[i as int].0@ == token@
                    && self@.contains_key(token@) && self@[token@] == self.entries@[i as int].1@,
                None => !self@.contains_key(token@),
            },
    {
        let ghost ev = entries_view(self.entries@);
        proof {
            lemma_map_of(ev);
        }
        let mut i: usize = 0;
        while i < self.entries.len()
            invariant
                ev == entries_view(self.entries@),
                keys_distinct(ev),
                i <= self.entries@.len(),
                forall|k: int| 0 <= k < i ==> ev[k].0 != token@,
            decreases self.entries@.len() - i,
        {
            if crate::types::str_eq(self.entries[i].0.as_str(), token) {
                proof {
                    lemma_map_of(ev);
                    assert(ev[i as int] == (self.entries@[i as int].0@, self.entries@[i as int].1@));
                    assert(ev[i as int].0 == token@);
                }
                return Some(i);
            }
            i = i + 1;
        }
        None
    }

    /// Can the share `token` be read without its use counter overflowing?  (A share
    /// without a limit that was read `u32::MAX` times cannot be counted once more.)
    pub fn can_count_read(&self, token: &str) -> (b: bool)
        requires
            self.wf(),
        ensures
            b == !count_overflows(self@, token@),
    {
        match self.find(token) {
            Some(i) => !(self.entries[i].1.max_uses == 0 && self.entries[i].1.use_count == u32::MAX),
            None => true,
        }
    }

    fn put(&mut self, token: String, entry: ShareEntry)
        requires
            keys_distinct(entries_view(old(self).entries@)),
        ensures
            keys_distinct(entries_view(final(self).entries@)),
            final(self)@ == old(self)@.insert(token@, entry@),
    {
        let ghost ev = entries_view(self.entries@);
        match self.find(token.as_str()) {
            Some(i) => {
                proof {
                    lemma_map_of_update(ev, i as int, entry@);
                }
                let ghost te = (token@, entry@);
                self.entries.set(i, (token, entry));
                assert(entries_view(self.entries@) =~= ev.update(i as int, (ev[i as int].0, te.1)));
            },
            None => {
                proof {
                    lemma_map_of_push(ev, (token@, entry@));
                }
                let ghost te = (token@, entry@);
                self.entries.push((token, entry));
                assert(entries_view(self.entries@) =~= ev.push(te));
            },
        }
    }

    fn drop_at(&mut self, i: usize)
        requires
            keys_distinct(entries_view(old(self).entries@)),
            i < old(self).entries@.len(),
        ensures
            keys_distinct(entries_view(final(self).entries@)),
            final(self)@ == old(self)@.remove(old(self).entries@[i as int].0@),
    {
        let ghost ev = entries_view(self.entries@);
        proof {
            lemma_map_of_remove(ev, i as int);
        }
        self.entries.remove(i);
        assert(entries_view(self.entries@) =~= ev.remove(i as int));
    }

    /// Store a share created at `now` under `token`.
    pub fn create_share_at(&mut self, now: UtcTime, token: String, body: CreateShare) -> (r: Result<
        ShareResponse,
        ShareError,
    >)
        requires
            old(self).wf(),
            valid_time(now),
        ensures
            final(self).wf(),
            (final(self)@, response_view(r)) == spec_create_at(
                old(self)@,
                now,
                token@,
                body.content@,
                body.ttl_minutes,
                body.max_uses,
            ),
    {
        if body.content.as_str().is_empty() {
            return Err(ShareError::EmptyContent);
        }
        let ttl: u32 = if body.ttl_minutes < MIN_TTL_MINUTES {
            MIN_TTL_MINUTES
        } else if body.ttl_minutes > MAX_TTL_MINUTES {
            MAX_TTL_MINUTES
        } else {
            body.ttl_minutes
        };
        if now.secs > MAX_TIMESTAMP - 60 * (ttl as i64) {
            return Err(ShareError::ClockOutOfRange);
        }
        let secs: i64 = now.secs + 60 * (ttl as i64);
        let expires_at = UtcTime { secs, nanos: now.nanos };
        assert(expires_at == expiry(now, body.ttl_minutes));
        let entry = ShareEntry {
            content: body.content,
            created_at: now,
            expires_at,
            max_uses: body.max_uses,
            use_count: 0,
        };
        let url = cat3(SHARE_BASE_URL, "/", token.as_str());
        let resp = ShareResponse { url, token: token.clone(), expires_at: rfc3339(expires_at) };
        proof {
            lemma_create_keeps_store_ok(
                old(self)@,
                now,
                token@,
                entry.content@,
                body.ttl_minutes,
                body.max_uses,
            );
        }
        self.put(token, entry);
        Ok(resp)
    }

    /// Store `body` under a fresh random token, expiring after its lifetime from now.
    /// Refused when the text is empty, and when the clock is so late that the expiry
    /// could not be represented.
    pub fn create_share(&mut self, body: CreateShare) -> (r: Result<ShareResponse, ShareError>)
        requires
            old(self).wf(),
        ensures
            final(self).wf(),
            body.content@.len() == 0 ==> r == Err::<ShareResponse, ShareError>(
                ShareError::EmptyContent,
            ) && final(self)@ == old(self)@,
            body.content@.len() > 0 ==> exists|now: UtcTime, token: Seq<char>|
                valid_time(now) && is_v4_token(token) && (final(self)@, response_view(r))
                    == spec_create_at(
                    old(self)@,
                    now,
                    token,
                    body.content@,
                    body.ttl_minutes,
                    body.max_uses,
                ),
    {
        if body.content.as_str().is_empty() {
            return Err(ShareError::EmptyContent);
        }
        let now = utc_now();
        let token = new_token();
        let ghost tv = token@;
        let r = self.create_share_at(now, token, body);
        assert(valid_time(now) && is_v4_token(tv));
        r
    }

    /// Read the share `token` at `now`.
    pub fn get_share_at(&mut self, now: UtcTime, token: &str) -> (r: Result<String, ShareError>)
        requires
            old(self).wf(),
            !count_overflows(old(self)@, token@),
        ensures
            final(self).wf(),
            (final(self)@, content_view(r)) == spec_get(old(self)@, now, token@),
    {
        proof {
            lemma_get_keeps_store_ok(self@, now, token@);
        }
        let i = match self.find(token) {
            Some(i) => i,
            None => return Err(ShareError::NotFound),
        };
        let e = self.entries[i].1.clone();
        if after(now, e.expires_at) {
            self.drop_at(i);
            return Err(ShareError::Expired);
        }
        if e.max_uses > 0 && e.use_count >= e.max_uses {
            self.drop_at(i);
            return Err(ShareError::MaxUsesReached);
        }
        let c = e.use_count + 1;
        let content = e.content.clone();
        if e.max_uses > 0 && c >= e.max_uses {
            self.drop_at(i);
        } else {
            let t = self.entries[i].0.clone();
            let updated = ShareEntry { use_count: c, ..e };
            self.put(t, updated);
        }
        Ok(content)
    }

    /// Read the share `token` now.
    pub fn get_share(&mut self, token: &str) -> (r: Result<String, ShareError>)
        requires
            old(self).wf(),
            !count_overflows(old(self)@, token@),
        ensures
            final(self).wf(),
            exists|now: UtcTime|
                valid_time(now) && (final(self)@, content_view(r)) == spec_get(
                    old(self)@,
                    now,
                    token@,
                ),
    {
        let now = utc_now();
        self.get_share_at(now, token)
    }

    /// What is known of the share `token`, without counting a read.
    pub fn share_info(&self, token: &str) -> (r: Result<ShareInfo, ShareError>)
        requires
            self.wf(),
        ensures
            info_view(r) == spec_info(self@, token@),
    {
        let i = match self.find(token) {
            Some(i) => i,
            None => return Err(ShareError::NotFound),
        };
        let e = &self.entries[i].1;
        assert(self@.contains_key(token@));
        let remaining: u32 = if e.max_uses > 0 {
            e.max_uses.saturating_sub(e.use_count)
        } else {
            u32::MAX
        };
        Ok(ShareInfo {
            url: cat3(SHARE_BASE_URL, "/", token),
            token: crate::text::owned(token),
            expires_at: rfc3339(e.expires_at),
            use_count: e.use_count,
            max_uses: e.max_uses,
            remaining,
        })
    }
}

} // verus!
