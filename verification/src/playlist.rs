//! Playlist of the player: order, current position, repeat and shuffle.
//!
//! The player itself (audio output, external processes) lives outside the library;
//! every decision about which item plays next is taken here and returned as a
//! [`PlaylistAction`].
use vstd::prelude::*;
use rand::Rng;
use crate::text::owned;
use crate::types::MIN_DOWNLOAD_BYTES;

verus! {

/// Repeat mode of the player.
#[derive(Clone, Copy, Debug, PartialEq, Eq, Structural)]
pub enum LoopMode {
    NoRepeat,
    RepeatAll,
    RepeatOne,
}

pub open spec fn spec_loop_next(m: LoopMode) -> LoopMode {
    match m {
        LoopMode::NoRepeat => LoopMode::RepeatAll,
        LoopMode::RepeatAll => LoopMode::RepeatOne,
        LoopMode::RepeatOne => LoopMode::NoRepeat,
    }
}

pub open spec fn spec_loop_label(m: LoopMode) -> Seq<char> {
    match m {
        LoopMode::NoRepeat => "🔁 Нет"@,
        LoopMode::RepeatAll => "🔁 Все"@,
        LoopMode::RepeatOne => "🔂 Один"@,
    }
}

impl LoopMode {
    /// The mode the repeat button switches to.
    pub fn next(self) -> (r: Self)
        ensures
            r == spec_loop_next(self),
    {
        match self {
            LoopMode::NoRepeat => LoopMode::RepeatAll,
            LoopMode::RepeatAll => LoopMode::RepeatOne,
            LoopMode::RepeatOne => LoopMode::NoRepeat,
        }
    }

    pub fn label(self) -> (r: &'static str)
        ensures
            r@ == spec_loop_label(self),
    {
        match self {
            LoopMode::NoRepeat => "🔁 Нет",
            LoopMode::RepeatAll => "🔁 Все",
            LoopMode::RepeatOne => "🔂 Один",
        }
    }
}

/// Pressing the repeat button three times comes back to the mode it started from,
/// and the three modes are all visited.
pub proof fn lemma_loop_mode_cycle(m: LoopMode)
    ensures
        spec_loop_next(spec_loop_next(spec_loop_next(m))) == m,
        spec_loop_next(m) != m,
        spec_loop_next(spec_loop_next(m)) != m,
{
}

/// A local file or stream in the playlist.
#[derive(Debug)]
pub struct PlaylistItem {
    pub path_or_url: String,
    pub title: String,
    pub subtitle: String,
    pub is_video: bool,
    pub is_url: bool,
}

impl Clone for PlaylistItem {
    fn clone(&self) -> (r: Self)
        ensures
            r == *self,
    {
        PlaylistItem {
            path_or_url: self.path_or_url.clone(),
            title: self.title.clone(),
            subtitle: self.subtitle.clone(),
            is_video: self.is_video,
            is_url: self.is_url,
        }
    }
}

/// What the player has to do after a playlist step.
#[derive(Clone, Copy, Debug, PartialEq, Eq, Structural)]
pub enum PlaylistAction {
    /// Nothing to play; leave the player as it is.
    Nothing,
    /// The end of the playlist was passed: stop playback.
    Stop,
    /// Play the item at this position (when there is one).
    Play(usize),
}

/// The playlist: items, current position, repeat mode, shuffle and the positions
/// visited while shuffling (for going back).
pub struct Playlist {
    pub items: Vec<PlaylistItem>,
    pub index: usize,
    pub loop_mode: LoopMode,
    pub shuffle: bool,
    pub history: Vec<usize>,
}

pub struct PlaylistModel {
    pub items: Seq<PlaylistItem>,
    pub index: int,
    pub loop_mode: LoopMode,
    pub shuffle: bool,
    pub history: Seq<usize>,
}

impl View for Playlist {
    type V = PlaylistModel;

    open spec fn view(&self) -> PlaylistModel {
        PlaylistModel {
            items: self.items@,
            index: self.index as int,
            loop_mode: self.loop_mode,
            shuffle: self.shuffle,
            history: self.history@,
        }
    }
}

/// The position points at an item (or the playlist is empty and the position is 0).
pub open spec fn spec_points_at_item(m: PlaylistModel) -> bool {
    0 <= m.index && (m.index < m.items.len() || (m.items.len() == 0 && m.index == 0))
}

pub open spec fn spec_add(m: PlaylistModel, item: PlaylistItem) -> PlaylistModel {
    PlaylistModel { items: m.items.push(item), ..m }
}

pub open spec fn spec_clear(m: PlaylistModel) -> PlaylistModel {
    PlaylistModel { items: seq![], index: 0, history: seq![], ..m }
}

pub open spec fn spec_remove(m: PlaylistModel, i: int) -> PlaylistModel {
    if 0 <= i < m.items.len() {
        let items = m.items.remove(i);
        if items.len() == 0 {
            PlaylistModel { items, index: 0, history: seq![], ..m }
        } else if i < m.index {
            PlaylistModel { items, index: m.index - 1, ..m }
        } else if i == m.index && m.index >= items.len() {
            PlaylistModel { items, index: items.len() - 1, ..m }
        } else {
            PlaylistModel { items, ..m }
        }
    } else {
        m
    }
}

pub open spec fn spec_toggle_shuffle(m: PlaylistModel) -> PlaylistModel {
    if !m.shuffle {
        PlaylistModel {
            shuffle: true,
            history: if m.items.len() > 0 {
                seq![m.index as usize]
            } else {
                seq![]
            },
            ..m
        }
    } else {
        PlaylistModel { shuffle: false, history: seq![], ..m }
    }
}

/// How many values the random draw of a shuffled step ranges over: every position
/// but the current one.
pub open spec fn spec_draw_bound(m: PlaylistModel) -> int {
    if m.index < m.items.len() {
        m.items.len() - 1
    } else {
        m.items.len() as int
    }
}

/// The shuffled step needs a random draw: shuffle is on and there is more than one item.
pub open spec fn spec_needs_draw(m: PlaylistModel) -> bool {
    m.shuffle && m.items.len() > 1
}

/// Position chosen by a shuffled step for the draw `r`: the `r`-th position other
/// than the current one.
pub open spec fn spec_shuffle_pick(m: PlaylistModel, r: int) -> int {
    if m.index < m.items.len() && r >= m.index {
        r + 1
    } else {
        r
    }
}

/// The next position and the player's action ("next" button, or end of a track).
/// `r` is the random draw, read only when [`spec_needs_draw`] holds.
pub open spec fn spec_next(m: PlaylistModel, r: int) -> (PlaylistModel, PlaylistAction) {
    if m.items.len() == 0 {
        (m, PlaylistAction::Nothing)
    } else if m.shuffle {
        let next = if m.items.len() == 1 {
            0
        } else {
            spec_shuffle_pick(m, r)
        };
        (
            PlaylistModel { index: next, history: m.history.push(next as usize), ..m },
            PlaylistAction::Play(next as usize),
        )
    } else {
        match m.loop_mode {
            LoopMode::NoRepeat => if m.index + 1 >= m.items.len() {
                (spec_clear(m), PlaylistAction::Stop)
            } else {
                (PlaylistModel { index: m.index + 1, ..m }, PlaylistAction::Play((m.index + 1) as usize))
            },
            LoopMode::RepeatAll => {
                let next = (m.index + 1) % (m.items.len() as int);
                (PlaylistModel { index: next, ..m }, PlaylistAction::Play(next as usize))
            },
            LoopMode::RepeatOne => (m, PlaylistAction::Play(m.index as usize)),
        }
    }
}

/// The previous position and the player's action ("previous" button).
pub open spec fn spec_prev(m: PlaylistModel) -> (PlaylistModel, PlaylistAction) {
    if m.items.len() == 0 {
        (m, PlaylistAction::Nothing)
    } else {
        let m2 = if m.shuffle && m.history.len() > 1 {
            let h = m.history.drop_last();
            PlaylistModel { index: h.last() as int, history: h, ..m }
        } else if !m.shuffle {
            if m.loop_mode == LoopMode::RepeatAll {
                if m.index == 0 {
                    PlaylistModel { index: m.items.len() - 1, ..m }
                } else {
                    PlaylistModel { index: m.index - 1, ..m }
                }
            } else if m.index > 0 {
                PlaylistModel { index: m.index - 1, ..m }
            } else {
                m
            }
        } else {
            m
        };
        (m2, PlaylistAction::Play(m2.index as usize))
    }
}

/// `thread_rng` of the `rand` crate.
#[verifier::external_type_specification]
#[verifier::external_body]
pub struct ExThreadRng(rand::rngs::ThreadRng);

/// `rand::thread_rng`: the thread-local generator; nothing is promised of it.
#[verifier::external_body]
fn thread_rng() -> rand::rngs::ThreadRng {
    rand::thread_rng()
}

/// `Rng::gen_range(0..n)` on a `ThreadRng`: some value below `n` (it panics on an
/// empty range, which `requires` excludes).  Which value is chance.
#[verifier::external_body]
fn gen_below(rng: &mut rand::rngs::ThreadRng, n: usize) -> (r: usize)
    requires
        n > 0,
    ensures
        r < n,
{
    rng.gen_range(0..n)
}

impl Playlist {
    pub fn new() -> (p: Self)
        ensures
            p@.items.len() == 0,
            p@.index == 0,
            p@.loop_mode == LoopMode::NoRepeat,
            !p@.shuffle,
            p@.history.len() == 0,
    {
        Playlist {
            items: Vec::new(),
            index: 0,
            loop_mode: LoopMode::NoRepeat,
            shuffle: false,
            history: Vec::new(),
        }
    }

    pub fn len(&self) -> (n: usize)
        ensures
            n == self@.items.len(),
    {
        self.items.len()
    }

    pub fn add_to_playlist(&mut self, item: PlaylistItem)
        ensures
            final(self)@ == spec_add(old(self)@, item),
    {
        self.items.push(item);
    }

    pub fn remove_from_playlist(&mut self, index: usize)
        ensures
            final(self)@ == spec_remove(old(self)@, index as int),
    {
        if index < self.items.len() {
            self.items.remove(index);
            if self.items.len() == 0 {
                self.index = 0;
                self.history.clear();
            } else if index < self.index {
                self.index = self.index - 1;
            } else if index == self.index && self.index >= self.items.len() {
                self.index = self.items.len() - 1;
            }
        }
    }

    pub fn clear_playlist(&mut self)
        ensures
            final(self)@ == spec_clear(old(self)@),
    {
        self.items.clear();
        self.index = 0;
        self.history.clear();
    }

    pub fn set_loop_mode(&mut self, mode: LoopMode)
        ensures
            final(self)@ == (PlaylistModel { loop_mode: mode, ..old(self)@ }),
    {
        self.loop_mode = mode;
    }

    pub fn toggle_shuffle(&mut self)
        ensures
            final(self)@ == spec_toggle_shuffle(old(self)@),
    {
        self.shuffle = !self.shuffle;
        if self.shuffle {
            self.history.clear();
            if self.items.len() > 0 {
                self.history.push(self.index);
            }
        } else {
            self.history.clear();
        }
    }

    /// Make position `i` current (a click on a playlist row).
    pub fn select(&mut self, i: usize)
        requires
            i < old(self)@.items.len(),
        ensures
            final(self)@ == (PlaylistModel { index: i as int, ..old(self)@ }),
    {
        self.index = i;
    }

    /// The item at the current position, if there is one.
    pub fn current(&self) -> (r: Option<PlaylistItem>)
        ensures
            r == (if self@.index < self@.items.len() {
                Some(self@.items[self@.index])
            } else {
                None::<PlaylistItem>
            }),
    {
        if self.index < self.items.len() {
            Some(self.items[self.index].clone())
        } else {
            None
        }
    }

    /// Step forward with a given random draw `r` (read only when shuffling among
    /// more than one item).
    pub fn play_next_with(&mut self, r: usize) -> (a: PlaylistAction)
        requires
            spec_needs_draw(old(self)@) ==> r < spec_draw_bound(old(self)@),
        ensures
            (final(self)@, a) == spec_next(old(self)@, r as int),
    {
        let n = self.items.len();
        if n == 0 {
            return PlaylistAction::Nothing;
        }
        if self.shuffle {
            let next = if n == 1 {
                0
            } else if self.index < n && r >= self.index {
                r + 1
            } else {
                r
            };
            self.index = next;
            self.history.push(next);
            PlaylistAction::Play(next)
        } else {
            match self.loop_mode {
                LoopMode::NoRepeat => {
                    if self.index >= n - 1 {
                        self.clear_playlist();
                        PlaylistAction::Stop
                    } else {
                        self.index = self.index + 1;
                        PlaylistAction::Play(self.index)
                    }
                },
                LoopMode::RepeatAll => {
                    proof {
                        vstd::arithmetic::div_mod::lemma_add_mod_noop(self.index as int, 1, n as int);
                        if n > 1 {
                            vstd::arithmetic::div_mod::lemma_small_mod(1, n as nat);
                        }
                    }
                    self.index = (self.index % n + 1) % n;
                    PlaylistAction::Play(self.index)
                },
                LoopMode::RepeatOne => PlaylistAction::Play(self.index),
            }
        }
    }

    /// Step forward ("next" button, or the current track ended).  When shuffling, the
    /// next position is drawn at random among the other positions.
    pub fn play_next(&mut self) -> (a: PlaylistAction)
        ensures
            exists|r: int|
                (!spec_needs_draw(old(self)@) || 0 <= r < spec_draw_bound(old(self)@)) && (
                final(self)@,
                a,
            ) == spec_next(old(self)@, r),
    {
        let mut r: usize = 0;
        if self.shuffle && self.items.len() > 1 {
            let bound = if self.index < self.items.len() {
                self.items.len() - 1
            } else {
                self.items.len()
            };
            let mut rng = thread_rng();
            r = gen_below(&mut rng, bound);
        }
        let a = self.play_next_with(r);
        assert((final(self)@, a) == spec_next(old(self)@, r as int));
        a
    }

    /// Step back ("previous" button).
    pub fn play_prev(&mut self) -> (a: PlaylistAction)
        ensures
            (final(self)@, a) == spec_prev(old(self)@),
    {
        let n = self.items.len();
        if n == 0 {
            return PlaylistAction::Nothing;
        }
        if self.shuffle && self.history.len() > 1 {
            self.history.pop();
            let last = self.history[self.history.len() - 1];
            self.index = last;
        } else if !self.shuffle {
            if self.loop_mode == LoopMode::RepeatAll {
                if self.index == 0 {
                    self.index = n - 1;
                } else {
                    self.index = self.index - 1;
                }
            } else if self.index > 0 {
                self.index = self.index - 1;
            }
        }
        PlaylistAction::Play(self.index)
    }
}

// ---------------------------------------------------------------- streams

/// A stream fetched for playback must hold at least as many bytes as a download
/// that is kept; a shorter one is refused with this message.
pub open spec fn spec_check_stream(len: nat) -> Result<(), Seq<char>> {
    if len < MIN_DOWNLOAD_BYTES {
        Err("Поток слишком короткий или недоступен"@)
    } else {
        Ok(())
    }
}

/// Accept or refuse a fetched stream of `len` bytes for playback.
pub fn check_stream(len: usize) -> (r: Result<(), String>)
    ensures
        match r {
            Ok(()) => spec_check_stream(len as nat) == Ok::<(), Seq<char>>(()),
            Err(e) => spec_check_stream(len as nat) == Err::<(), Seq<char>>(e@),
        },
{
    if (len as u64) < MIN_DOWNLOAD_BYTES {
        Err(owned("Поток слишком короткий или недоступен"))
    } else {
        Ok(())
    }
}

// ---------------------------------------------------------------- laws

/// Removing another item keeps the current track current.
pub proof fn lemma_remove_keeps_current(m: PlaylistModel, i: int)
    requires
        0 <= m.index < m.items.len(),
        0 <= i < m.items.len(),
        i != m.index,
    ensures
        spec_points_at_item(spec_remove(m, i)),
        spec_remove(m, i).items[spec_remove(m, i).index] == m.items[m.index],
{
}

/// Removing any item leaves the position pointing at an item.
pub proof fn lemma_remove_points_at_item(m: PlaylistModel, i: int)
    requires
        spec_points_at_item(m),
    ensures
        spec_points_at_item(spec_remove(m, i)),
{
}

/// Adding an item keeps the position and the current track.
pub proof fn lemma_add_keeps_current(m: PlaylistModel, item: PlaylistItem)
    requires
        0 <= m.index < m.items.len(),
    ensures
        spec_add(m, item).index == m.index,
        spec_add(m, item).items[m.index] == m.items[m.index],
        spec_add(m, item).items.len() == m.items.len() + 1,
{
}

/// Adding an item appends it at the end: every item already there stays at its
/// position, and the position, repeat mode, shuffle and history are unchanged.
pub proof fn lemma_add_appends(m: PlaylistModel, item: PlaylistItem)
    ensures
        spec_add(m, item).items.len() == m.items.len() + 1,
        spec_add(m, item).items[m.items.len() as int] == item,
        forall|k: int| 0 <= k < m.items.len() ==> #[trigger] spec_add(m, item).items[k] == m.items[k],
        spec_add(m, item).index == m.index,
        spec_add(m, item).loop_mode == m.loop_mode,
        spec_add(m, item).shuffle == m.shuffle,
        spec_add(m, item).history == m.history,
{
}

/// Without shuffle, "previous" moves one position back and plays it, in every repeat
/// mode; at the first position it wraps to the last one under repeat-all and stays
/// put otherwise.  The items, repeat mode and shuffle are never changed by it, and an
/// empty playlist does nothing.
pub proof fn lemma_prev_steps_back(m: PlaylistModel)
    ensures
        spec_prev(m).0.items == m.items,
        spec_prev(m).0.loop_mode == m.loop_mode,
        spec_prev(m).0.shuffle == m.shuffle,
        m.items.len() == 0 ==> spec_prev(m).1 == PlaylistAction::Nothing && spec_prev(m).0 == m,
        m.items.len() > 0 ==> spec_prev(m).1 == PlaylistAction::Play(spec_prev(m).0.index as usize),
        !m.shuffle && 0 < m.index < m.items.len() ==> spec_prev(m).0.index == m.index - 1,
        !m.shuffle && m.index == 0 && m.items.len() > 0 ==> spec_prev(m).0.index == if m.loop_mode
            == LoopMode::RepeatAll {
            m.items.len() - 1
        } else {
            0
        },
{
}

/// A step forward plays an existing item (or stops, or does nothing on an empty
/// playlist); while shuffling among several items it never repeats the current one.
pub proof fn lemma_next_plays_item(m: PlaylistModel, r: int)
    requires
        m.items.len() <= usize::MAX,
        spec_points_at_item(m),
        spec_needs_draw(m) ==> 0 <= r < spec_draw_bound(m),
    ensures
        spec_next(m, r).1 matches PlaylistAction::Play(i) ==> i < m.items.len() && i
            == spec_next(m, r).0.index,
        spec_points_at_item(spec_next(m, r).0),
        spec_needs_draw(m) ==> spec_next(m, r).0.index != m.index,
        m.items.len() == 0 <==> spec_next(m, r).1 == PlaylistAction::Nothing,
{
    let n = m.items.len() as int;
    if n > 0 && !m.shuffle && m.loop_mode == LoopMode::RepeatAll {
        assert(0 <= (m.index + 1) % n < n) by (nonlinear_arith)
            requires
                n > 0,
                m.index >= 0,
        ;
    }
}

/// Without shuffle and with "repeat all", "previous" undoes "next".
pub proof fn lemma_prev_undoes_next(m: PlaylistModel, r: int)
    requires
        0 <= m.index < m.items.len(),
        !m.shuffle,
        m.loop_mode == LoopMode::RepeatAll,
    ensures
        spec_prev(spec_next(m, r).0).0 == m,
{
    let n = m.items.len() as int;
    if m.index + 1 < n {
        assert((m.index + 1) % n == m.index + 1) by (nonlinear_arith)
            requires
                0 <= m.index + 1 < n,
        ;
    } else {
        assert((m.index + 1) % n == 0) by (nonlinear_arith)
            requires
                m.index + 1 == n,
                n > 0,
        ;
    }
}

/// While shuffling, "previous" goes back to the position played before the last
/// shuffled step.
pub proof fn lemma_prev_returns_after_shuffle(m: PlaylistModel, r: int)
    requires
        m.shuffle,
        m.items.len() > 1,
        m.history.len() > 0,
        m.history.last() as int == m.index,
        0 <= r < spec_draw_bound(m),
    ensures
        spec_prev(spec_next(m, r).0).0.index == m.index,
        spec_prev(spec_next(m, r).0).0.history == m.history,
{
    let m1 = spec_next(m, r).0;
    assert(m1.history.drop_last() =~= m.history);
}

} // verus!
