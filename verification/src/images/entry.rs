//! One stored image: its base, its animation frames and its playback state.

use crate::images::preview::{Preview, PreviewView};
use vstd::prelude::*;

verus! {

/// A place in an image: its base, or one of the frames after it.
#[derive(Copy, Clone, Debug, PartialEq, Eq, Hash, Structural)]
pub enum FrameSlot {
    Base,
    Frame(usize),
}

/// Where the texture of a frame lives on the GPU: the image, and the frame's
/// place in it.
#[derive(Copy, Clone, Debug, PartialEq, Eq, Hash, Structural)]
pub struct TextureKey {
    pub image: u32,
    pub slot: FrameSlot,
}

/// A texture that was ordered for upload.
#[derive(Copy, Clone, Debug, PartialEq, Eq, Structural)]
pub struct GpuImage {
    pub width_px: u32,
    pub height_px: u32,
    pub texture: TextureKey,
}

/// One frame past the base, composed to the full size of its image.
#[derive(Debug)]
pub struct Frame {
    pub image: GpuImage,
    pub rgba: Vec<u8>,
    pub delay_ms: u32,
    pub bytes: usize,
}

/// What a [`Frame`] holds.
#[verifier::ext_equal]
pub struct FrameView {
    pub image: GpuImage,
    pub rgba: Seq<u8>,
    pub delay_ms: u32,
    pub bytes: usize,
}

impl View for Frame {
    type V = FrameView;

    open spec fn view(&self) -> FrameView {
        FrameView {
            image: self.image,
            rgba: self.rgba@,
            delay_ms: self.delay_ms,
            bytes: self.bytes,
        }
    }
}

/// How an animation plays.
#[derive(Clone, Copy, Debug, PartialEq, Eq, Structural)]
pub enum PlayMode {
    /// Hold on the current frame.
    Stopped,
    /// Keep advancing while frames may still arrive.
    RunWhileLoading,
    /// Loop without end.
    LoopForever,
    /// Play the whole sequence this many times, then stop on the last frame.
    LoopFinite { remaining: u32 },
}

/// Playback state. Times are nanoseconds of a monotonic clock.
#[derive(Clone, Copy, Debug, PartialEq, Eq, Structural)]
pub struct AnimationState {
    pub play_mode: PlayMode,
    /// 0 is the base, `n` is the `n`-th frame after it.
    pub current_frame: u32,
    /// When the current frame came on display.
    pub current_frame_started: u64,
}

impl AnimationState {
    /// The state of a new image: stopped on its base.
    pub fn new(now: u64) -> (state: Self)
        ensures
            state == (AnimationState {
                play_mode: PlayMode::Stopped,
                current_frame: 0,
                current_frame_started: now,
            }),
    {
        AnimationState {
            play_mode: PlayMode::Stopped,
            current_frame: 0,
            current_frame_started: now,
        }
    }
}

/// An image in the store.
#[derive(Debug)]
pub struct StoredImage {
    /// `None` while the decode is in flight.
    pub image: Option<GpuImage>,
    /// `None` while the decode is in flight.
    pub preview: Option<Preview>,
    /// Bytes charged to the store's cap for this image.
    pub bytes: usize,
    pub last_used: u64,
    /// The base's pixels, kept where frames may be composed onto them.
    pub base_rgba: Option<Vec<u8>>,
    pub base_dims: Option<(u32, u32)>,
    /// The frames after the base.
    pub frames: Vec<Frame>,
    pub animation: AnimationState,
    pub base_delay_ms: u32,
}

/// What a [`StoredImage`] holds.
#[verifier::ext_equal]
pub struct StoredView {
    pub image: Option<GpuImage>,
    pub preview: Option<PreviewView>,
    pub bytes: usize,
    pub last_used: u64,
    pub base_rgba: Option<Seq<u8>>,
    pub base_dims: Option<(u32, u32)>,
    pub frames: Seq<FrameView>,
    pub animation: AnimationState,
    pub base_delay_ms: u32,
}

/// The contents of a run of frames.
pub open spec fn frame_views(frames: Seq<Frame>) -> Seq<FrameView> {
    Seq::new(frames.len(), |i: int| frames[i]@)
}

impl View for StoredImage {
    type V = StoredView;

    open spec fn view(&self) -> StoredView {
        StoredView {
            image: self.image,
            preview: match self.preview {
                Some(p) => Some(p@),
                None => None,
            },
            bytes: self.bytes,
            last_used: self.last_used,
            base_rgba: match self.base_rgba {
                Some(v) => Some(v@),
                None => None,
            },
            base_dims: self.base_dims,
            frames: frame_views(self.frames@),
            animation: self.animation,
            base_delay_ms: self.base_delay_ms,
        }
    }
}

/// The entry of an image whose decode is still in flight.
pub open spec fn reservation(now: u64) -> StoredView {
    StoredView {
        image: None,
        preview: None,
        bytes: 0,
        last_used: now,
        base_rgba: None,
        base_dims: None,
        frames: Seq::empty(),
        animation: AnimationState {
            play_mode: PlayMode::Stopped,
            current_frame: 0,
            current_frame_started: now,
        },
        base_delay_ms: 0,
    }
}

/// Whether a play mode advances frames over time.
pub open spec fn advancing(mode: PlayMode) -> bool {
    mode != PlayMode::Stopped
}

/// How many frames an image has, its base counted.
pub open spec fn frame_total(entry: StoredView) -> int {
    entry.frames.len() as int + 1
}

/// The gap after frame `i`, in milliseconds, as it was set.
pub open spec fn gap_ms(entry: StoredView, i: int) -> u32 {
    if i == 0 {
        entry.base_delay_ms
    } else if i <= entry.frames.len() {
        entry.frames[i - 1].delay_ms
    } else {
        0
    }
}

/// How long a frame with this gap stays on display, in nanoseconds: at least
/// a millisecond.
pub open spec fn display_time(gap: u32) -> int {
    if gap == 0 {
        1_000_000
    } else {
        gap * 1_000_000
    }
}

/// The frame that playback starts from.
pub open spec fn start_frame(entry: StoredView) -> int {
    let current = entry.animation.current_frame as int;
    if current < frame_total(entry) {
        current
    } else {
        entry.frames.len() as int
    }
}

/// How many rounds a finite animation plays.
pub open spec fn rounds_of(mode: PlayMode) -> int {
    match mode {
        PlayMode::LoopFinite { remaining } => if remaining == 0 {
            1
        } else {
            remaining as int
        },
        _ => 1,
    }
}

/// After how many advances playback stops on the last frame, if ever.
pub open spec fn last_advance(entry: StoredView) -> Option<int> {
    if entry.animation.play_mode is LoopFinite {
        Some(
            frame_total(entry) - 1 - start_frame(entry) + (rounds_of(entry.animation.play_mode) - 1)
                * frame_total(entry),
        )
    } else {
        None
    }
}

/// The frame on display after `n` advances.
pub open spec fn frame_after(entry: StoredView, n: int) -> int {
    let k = match last_advance(entry) {
        Some(last) => if n < last {
            n
        } else {
            last
        },
        None => n,
    };
    (start_frame(entry) + k) % frame_total(entry)
}

/// When the frame after `n` advances comes on display, counted from the start
/// of the current frame, for playback that does not end.
pub open spec fn opens_at(entry: StoredView, n: nat) -> int
    decreases n,
{
    if n == 0 {
        0
    } else {
        opens_at(entry, (n - 1) as nat) + display_time(
            gap_ms(entry, (start_frame(entry) + n - 1) % frame_total(entry)),
        )
    }
}

/// The number of advances by `elapsed`, counted on from `n`: up to the frame
/// that has not yet been on display for its whole time.
pub open spec fn advances(entry: StoredView, elapsed: int, n: nat) -> nat
    decreases elapsed - opens_at(entry, n),
{
    if elapsed < opens_at(entry, n + 1) {
        n
    } else {
        advances(entry, elapsed, n + 1)
    }
}

/// How many advances an animation has made by `now`.
pub open spec fn advances_by(entry: StoredView, now: u64) -> nat {
    advances(entry, now - entry.animation.current_frame_started, 0)
}

/// The frame on display at `now`.
pub open spec fn displayed_frame(entry: StoredView, now: u64) -> int {
    if entry.frames.len() == 0 || !advancing(entry.animation.play_mode) {
        start_frame(entry)
    } else {
        frame_after(entry, advances_by(entry, now) as int)
    }
}

/// Whether a play mode advances frames over time.
pub fn is_advancing(mode: PlayMode) -> (b: bool)
    ensures
        b == advancing(mode),
{
    match mode {
        PlayMode::Stopped => false,
        PlayMode::RunWhileLoading => true,
        PlayMode::LoopForever => true,
        PlayMode::LoopFinite { .. } => true,
    }
}

/// A frame is on display for some time.
proof fn timeline_moves(entry: StoredView, n: nat)
    ensures
        opens_at(entry, n + 1) >= opens_at(entry, n) + 1_000_000,
{
}

/// Later frames come on display later.
proof fn timeline_grows(entry: StoredView, m: nat, n: nat)
    requires
        m <= n,
    ensures
        opens_at(entry, n) >= opens_at(entry, m) + (n - m) * 1_000_000,
    decreases n,
{
    if m < n {
        timeline_grows(entry, m, (n - 1) as nat);
        timeline_moves(entry, (n - 1) as nat);
    }
}

/// The count of advances is the one whose window holds the moment.
proof fn window_decides(entry: StoredView, elapsed: int, n: nat, m: nat)
    requires
        n <= m,
        m == 0 || opens_at(entry, m) <= elapsed,
        elapsed < opens_at(entry, m + 1),
    ensures
        advances(entry, elapsed, n) == m,
    decreases m - n,
{
    if n < m {
        timeline_grows(entry, n + 1, m);
        window_decides(entry, elapsed, n + 1, m);
    }
}

/// After a whole round the timeline repeats.
proof fn round_repeats(entry: StoredView, n: nat)
    ensures
        opens_at(entry, n + frame_total(entry) as nat) == opens_at(
            entry,
            frame_total(entry) as nat,
        ) + opens_at(entry, n),
    decreases n,
{
    let total = frame_total(entry);
    if n > 0 {
        round_repeats(entry, (n - 1) as nat);
        let at = start_frame(entry) + n - 1;
        vstd::arithmetic::div_mod::lemma_mod_add_multiples_vanish(at, total);
        assert((total + at) % total == at % total);
        assert(opens_at(entry, (n + total) as nat) == opens_at(entry, (n + total - 1) as nat)
            + display_time(gap_ms(entry, (start_frame(entry) + (n + total) - 1) % total)));
        assert(start_frame(entry) + (n + total) - 1 == total + at);
        assert((n - 1) as nat + total as nat == (n + total - 1) as nat);
    }
}

/// After whole rounds the timeline repeats.
proof fn rounds_repeat(entry: StoredView, rounds: nat, n: nat)
    ensures
        opens_at(entry, (rounds * frame_total(entry) + n) as nat) == rounds * opens_at(
            entry,
            frame_total(entry) as nat,
        ) + opens_at(entry, n),
    decreases rounds,
{
    let total = frame_total(entry);
    let period = opens_at(entry, total as nat);
    assert(0 <= rounds * total) by (nonlinear_arith)
        requires
            total >= 1,
    ;
    if rounds > 0 {
        rounds_repeat(entry, (rounds - 1) as nat, n);
        assert((rounds - 1) * total + total == rounds * total && (rounds - 1) * period + period
            == rounds * period && 0 <= (rounds - 1) * total) by (nonlinear_arith)
            requires
                rounds >= 1,
                total >= 1,
        ;
        round_repeats(entry, ((rounds - 1) * total + n) as nat);
    } else {
        assert(0 * total == 0 && 0 * period == 0);
    }
}

impl StoredImage {
    /// An entry whose decode is in flight.
    pub fn reserved(now: u64) -> (entry: Self)
        ensures
            entry@ == reservation(now),
    {
        let entry = StoredImage {
            image: None,
            preview: None,
            bytes: 0,
            last_used: now,
            base_rgba: None,
            base_dims: None,
            frames: Vec::new(),
            animation: AnimationState::new(now),
            base_delay_ms: 0,
        };
        assert(entry@ =~= reservation(now));
        entry
    }

    /// The gap after frame `i`, in milliseconds.
    fn gap(&self, i: usize) -> (gap: u32)
        ensures
            gap == gap_ms(self@, i as int),
    {
        if i == 0 {
            self.base_delay_ms
        } else if i <= self.frames.len() {
            self.frames[i - 1].delay_ms
        } else {
            0
        }
    }
}

impl StoredImage {
    /// How long frame `i` stays on display, in nanoseconds.
    fn shown_for(&self, i: usize) -> (time: u128)
        ensures
            time == display_time(gap_ms(self@, i as int)),
            1_000_000 <= time <= 0xffff_ffff * 1_000_000,
    {
        let gap: u32 = self.gap(i);
        if gap == 0 {
            1_000_000
        } else {
            gap as u128 * 1_000_000
        }
    }

    /// The frame that playback starts from.
    fn first_frame(&self) -> (start: usize)
        ensures
            start == start_frame(self@),
            start <= self.frames@.len(),
    {
        let last: usize = self.frames.len();
        let current: usize = self.animation.current_frame as usize;
        if current < last {
            current
        } else {
            last
        }
    }

    /// Follows the timeline for one round at most: the advances made by `rest`,
    /// and when the frame that they lead to goes off display. When `rest` is not
    /// within one round, the whole round and its length.
    fn walk(&self, rest: u128) -> (step: (u128, u128))
        ensures
            step.0 <= frame_total(self@),
            step.0 < frame_total(self@) ==> {
                &&& opens_at(self@, step.0 as nat) <= rest < opens_at(self@, step.0 as nat + 1)
                &&& step.1 == opens_at(self@, step.0 as nat + 1)
            },
            step.0 == frame_total(self@) ==> {
                &&& opens_at(self@, step.0 as nat) <= rest
                &&& step.1 == opens_at(self@, step.0 as nat)
            },
            step.1 <= (frame_total(self@) + 1) * longest_display(),
    {
        let ghost view = self@;
        let ghost total = frame_total(view);
        let last: usize = self.frames.len();
        let mut frame: usize = self.first_frame();
        let mut n: u128 = 0;
        let mut end: u128 = 0;
        proof {
            vstd::arithmetic::div_mod::lemma_small_mod(frame as nat, total as nat);
            assert(0 * longest_display() == 0);
        }
        while n <= last as u128
            invariant
                view == self@,
                total == frame_total(view),
                last == self.frames@.len(),
                n <= last + 1,
                frame == (start_frame(view) + n) % total,
                frame <= last,
                end == opens_at(view, n as nat),
                end <= n * longest_display(),
                end <= rest,
            decreases last + 1 - n,
        {
            let shown: u128 = self.shown_for(frame);
            proof {
                span_bound(n as int, total);
            }
            let next: u128 = end + shown;
            assert(next == opens_at(view, n as nat + 1));
            if rest < next {
                return (n, next);
            }
            end = next;
            proof {
                next_frame(total, start_frame(view) + n);
            }
            frame = if frame == last {
                0
            } else {
                frame + 1
            };
            n = n + 1;
        }
        proof {
            span_bound(n as int - 1, total);
        }
        (n, end)
    }

    /// The advances made by `now`, and when the frame that they lead to goes
    /// off display, counted from the start of the current frame.
    fn progress(&self, now: u64) -> (step: (u128, u128))
        ensures
            step.0 == advances_by(self@, now),
            step.1 == opens_at(self@, step.0 as nat + 1),
            step.1 <= 0xffff_ffff_ffff_ffff + 0x1_0000_0000_0000_0001 * longest_display(),
    {
        let ghost view = self@;
        let ghost total = frame_total(view);
        let ghost since = now - view.animation.current_frame_started;
        let started: u64 = self.animation.current_frame_started;
        let elapsed: u128 = if now <= started {
            0
        } else {
            (now - started) as u128
        };
        let first: (u128, u128) = self.walk(elapsed);
        let count: u128 = self.frames.len() as u128 + 1;
        proof {
            assert((total + 1) * longest_display() <= 0x1_0000_0000_0000_0001 * longest_display())
                by (nonlinear_arith)
                requires
                    total <= 0x1_0000_0000_0000_0000,
                    longest_display() >= 0,
            ;
            timeline_grows(view, 0, first.0 as nat);
        }
        if first.0 < count {
            proof {
                if now <= started {
                    timeline_grows(view, 1, first.0 as nat + 1);
                }
                window_decides(view, since, 0, first.0 as nat);
            }
            return first;
        }
        let period: u128 = first.1;
        let rounds: u128 = elapsed / period;
        let rest: u128 = elapsed % period;
        let step: (u128, u128) = self.walk(rest);
        proof {
            vstd::arithmetic::div_mod::lemma_fundamental_div_mod(elapsed as int, period as int);
            vstd::arithmetic::div_mod::lemma_mod_bound(elapsed as int, period as int);
            assert(step.0 < total);
            assert(period * rounds == rounds * period && rounds * count <= rounds * period
                && rounds * period >= 0 && rounds * count >= 0) by (nonlinear_arith)
                requires
                    count <= period,
                    rounds >= 0,
                    count >= 0,
            ;
            rounds_repeat(view, rounds as nat, step.0 as nat);
            rounds_repeat(view, rounds as nat, step.0 as nat + 1);
            let n = (rounds * total + step.0) as nat;
            assert(n + 1 == (rounds * total + (step.0 as nat + 1)) as nat);
            window_decides(view, since, 0, n);
        }
        (rounds * count + step.0, rounds * period + step.1)
    }

    /// After how many advances playback stops on the last frame, if ever.
    fn end_of_play(&self) -> (last: Option<u128>)
        ensures
            match last {
                Some(n) => last_advance(self@) == Some(n as int),
                None => last_advance(self@) is None,
            },
    {
        match self.animation.play_mode {
            PlayMode::LoopFinite { remaining } => {
                let count: u128 = self.frames.len() as u128 + 1;
                let start: u128 = self.first_frame() as u128;
                let wraps: u128 = if remaining == 0 {
                    0
                } else {
                    remaining as u128 - 1
                };
                assert(0 <= wraps * count <= 0xffff_ffff * 0x1_0000_0000_0000_0000)
                    by (nonlinear_arith)
                    requires
                        0 <= wraps <= 0xffff_ffff,
                        0 <= count <= 0x1_0000_0000_0000_0000,
                ;
                Some(count - 1 - start + wraps * count)
            },
            _ => None,
        }
    }
}

/// The frame of an image to show at `now`: the timeline is followed from the
/// start of the current frame, each frame for its own gap. Rounds that have
/// passed as a whole are skipped.
pub fn resolve_current_frame(entry: &StoredImage, now: u64) -> (frame: usize)
    ensures
        frame == displayed_frame(entry@, now),
        frame <= entry.frames@.len(),
{
    let start: usize = entry.first_frame();
    if entry.frames.len() == 0 || !is_advancing(entry.animation.play_mode) {
        return start;
    }
    let made: u128 = entry.progress(now).0;
    let counted: u128 = match entry.end_of_play() {
        Some(last) => if made < last {
            made
        } else {
            last
        },
        None => made,
    };
    let count: u128 = entry.frames.len() as u128 + 1;
    proof {
        finite_end_is_a_count(entry@);
    }
    proof {
        vstd::arithmetic::div_mod::lemma_add_mod_noop_right(
            start as int,
            counted as int,
            count as int,
        );
    }
    ((start as u128 + counted % count) % count) as usize
}

/// The longest time that a frame can be on display, in nanoseconds.
pub open spec fn longest_display() -> int {
    4_294_967_295_000_000
}

/// A round of a timeline can be measured.
proof fn span_bound(n: int, total: int)
    requires
        0 <= n < total,
        total <= 0x1_0000_0000_0000_0000,
    ensures
        n * longest_display() + longest_display() == (n + 1) * longest_display(),
        (n + 1) * longest_display() <= (total + 1) * longest_display(),
        (n + 1) * longest_display() <= 0x1_0000_0000_0000_0000 * longest_display(),
{
    assert(n * longest_display() + longest_display() == (n + 1) * longest_display()
        && (n + 1) * longest_display() <= (total + 1) * longest_display() && (n + 1)
        * longest_display() <= 0x1_0000_0000_0000_0000 * longest_display()) by (nonlinear_arith)
        requires
            0 <= n < total,
            total <= 0x1_0000_0000_0000_0000,
            longest_display() >= 0,
    ;
}

/// A finite animation ends after some number of advances.
proof fn finite_end_is_a_count(entry: StoredView)
    ensures
        last_advance(entry) matches Some(last) ==> last >= 0,
{
    let wraps = rounds_of(entry.animation.play_mode) - 1;
    assert(wraps * frame_total(entry) >= 0) by (nonlinear_arith)
        requires
            wraps >= 0,
            frame_total(entry) >= 1,
    ;
}

/// The frame after the last one is the base.
proof fn next_frame(total: int, at: int)
    requires
        total >= 1,
        at >= 0,
    ensures
        (at + 1) % total == if at % total == total - 1 {
            0
        } else {
            at % total + 1
        },
{
    let q = at / total;
    let r = at % total;
    vstd::arithmetic::div_mod::lemma_fundamental_div_mod(at, total);
    assert(total * q == q * total && (q + 1) * total == q * total + total) by (nonlinear_arith);
    if r < total - 1 {
        vstd::arithmetic::div_mod::lemma_fundamental_div_mod_converse(at + 1, total, q, r + 1);
    } else {
        vstd::arithmetic::div_mod::lemma_fundamental_div_mod_converse(at + 1, total, q + 1, 0);
    }
}

/// The play mode that a control code selects: 1 stops, 2 runs while loading, 3
/// loops as often as told, and any other code keeps the mode.
pub open spec fn selected_mode(mode: PlayMode, control: u32, loop_count: Option<u32>) -> PlayMode {
    if control == 1 {
        PlayMode::Stopped
    } else if control == 2 {
        PlayMode::RunWhileLoading
    } else if control == 3 {
        match loop_count {
            Some(n) => if n == 0 {
                PlayMode::LoopForever
            } else {
                PlayMode::LoopFinite { remaining: n }
            },
            None => PlayMode::LoopForever,
        }
    } else {
        mode
    }
}

/// An entry with the gap after Kitty frame `n` (1 is the base) set. A frame
/// that does not exist leaves the entry as it is.
pub open spec fn with_gap(entry: StoredView, n: u32, gap: u32) -> StoredView {
    if n == 1 {
        StoredView { base_delay_ms: gap, ..entry }
    } else if n >= 2 && n - 2 < entry.frames.len() {
        StoredView {
            frames: entry.frames.update(
                n - 2,
                FrameView { delay_ms: gap, ..entry.frames[n - 2] },
            ),
            ..entry
        }
    } else {
        entry
    }
}

/// An entry after one animation control. An edit of a gap takes effect beside
/// the rest; making a frame current stops playback on it and wins over a
/// change of the play mode.
pub open spec fn controlled(
    entry: StoredView,
    control: Option<u32>,
    loop_count: Option<u32>,
    make_current: Option<u32>,
    edit_frame: Option<u32>,
    edit_gap_ms: Option<u32>,
    now: u64,
) -> StoredView {
    let edited = match (edit_frame, edit_gap_ms) {
        (Some(n), Some(gap)) => with_gap(entry, n, gap),
        _ => entry,
    };
    match (make_current, control) {
        (Some(n), _) => {
            let wanted = if n == 0 {
                0
            } else {
                n - 1
            };
            let target = if wanted < edited.frames.len() {
                wanted
            } else {
                edited.frames.len() as int
            };
            StoredView {
                animation: AnimationState {
                    play_mode: PlayMode::Stopped,
                    current_frame: target as u32,
                    current_frame_started: now,
                },
                ..edited
            }
        },
        (None, Some(c)) => StoredView {
            animation: AnimationState {
                play_mode: selected_mode(edited.animation.play_mode, c, loop_count),
                current_frame_started: now,
                ..edited.animation
            },
            ..edited
        },
        (None, None) => edited,
    }
}

impl StoredImage {
    /// Applies one animation control.
    pub fn control(
        &mut self,
        control: Option<u32>,
        loop_count: Option<u32>,
        make_current: Option<u32>,
        edit_frame: Option<u32>,
        edit_gap_ms: Option<u32>,
        now: u64,
    )
        ensures
            final(self)@ == controlled(
                old(self)@,
                control,
                loop_count,
                make_current,
                edit_frame,
                edit_gap_ms,
                now,
            ),
            final(self).frames@.len() == old(self).frames@.len(),
    {
        let ghost before = self@;
        if let Some(n) = edit_frame {
            if let Some(gap) = edit_gap_ms {
                if n == 1 {
                    self.base_delay_ms = gap;
                } else if n >= 2 && ((n - 2) as usize) < self.frames.len() {
                    let i: usize = (n - 2) as usize;
                    self.frames[i].delay_ms = gap;
                }
                assert(self@ =~= with_gap(before, n, gap));
            }
        }
        let ghost edited = self@;
        if let Some(n) = make_current {
            let wanted: u32 = if n == 0 {
                0
            } else {
                n - 1
            };
            let target: u32 = if (wanted as usize) < self.frames.len() {
                wanted
            } else {
                self.frames.len() as u32
            };
            self.animation = AnimationState {
                play_mode: PlayMode::Stopped,
                current_frame: target,
                current_frame_started: now,
            };
        } else if let Some(c) = control {
            let mode: PlayMode = if c == 1 {
                PlayMode::Stopped
            } else if c == 2 {
                PlayMode::RunWhileLoading
            } else if c == 3 {
                match loop_count {
                    Some(n) => if n == 0 {
                        PlayMode::LoopForever
                    } else {
                        PlayMode::LoopFinite { remaining: n }
                    },
                    None => PlayMode::LoopForever,
                }
            } else {
                self.animation.play_mode
            };
            self.animation.play_mode = mode;
            self.animation.current_frame_started = now;
        }
    }

    /// When the frame on display at `now` next gives way to another one, if it
    /// does.
    pub fn next_deadline(&self, now: u64) -> (deadline: Option<u128>)
        ensures
            deadline is Some <==> animating(self@, now),
            deadline matches Some(d) ==> d == wake_time(self@, now),
    {
        if self.frames.len() == 0 || !is_advancing(self.animation.play_mode) {
            return None;
        }
        let step: (u128, u128) = self.progress(now);
        match self.end_of_play() {
            Some(last) => if step.0 >= last {
                return None;
            },
            None => {},
        }
        Some(self.animation.current_frame_started as u128 + step.1)
    }
}

/// Whether the frame on display at `now` will give way to another one: there
/// are frames to advance through, and a finite animation has not ended.
pub open spec fn animating(entry: StoredView, now: u64) -> bool {
    &&& entry.frames.len() > 0
    &&& advancing(entry.animation.play_mode)
    &&& last_advance(entry) matches Some(last) ==> advances_by(entry, now) < last
}

/// When the frame on display at `now` gives way to the next one.
pub open spec fn wake_time(entry: StoredView, now: u64) -> int {
    entry.animation.current_frame_started + opens_at(entry, advances_by(entry, now) + 1)
}

/// A lookup always lands on a frame that exists.
pub proof fn displayed_frame_exists(entry: StoredView, now: u64)
    ensures
        0 <= displayed_frame(entry, now) < frame_total(entry),
{
}

/// The frame found is the one whose window holds the moment: it has come on
/// display, and it has not been shown for its whole time.
pub proof fn displayed_window(entry: StoredView, elapsed: int, n: nat)
    requires
        n > 0 ==> opens_at(entry, n) <= elapsed,
    ensures
        ({
            let shown = advances(entry, elapsed, n);
            &&& n <= shown
            &&& shown > 0 ==> opens_at(entry, shown) <= elapsed
            &&& elapsed < opens_at(entry, shown + 1)
        }),
    decreases elapsed - opens_at(entry, n),
{
    if elapsed >= opens_at(entry, n + 1) {
        displayed_window(entry, elapsed, n + 1);
    }
}

/// Playback without end goes on: a whole round later the same frame is on
/// display.
pub proof fn endless_playback_repeats(entry: StoredView, now: u64, later: u64)
    requires
        entry.animation.play_mode == PlayMode::LoopForever || entry.animation.play_mode
            == PlayMode::RunWhileLoading,
        entry.animation.current_frame_started <= now,
        later == now + opens_at(entry, frame_total(entry) as nat),
    ensures
        displayed_frame(entry, later) == displayed_frame(entry, now),
{
    let total = frame_total(entry);
    let since = now - entry.animation.current_frame_started;
    let n = advances_by(entry, now);
    displayed_window(entry, since, 0);
    round_repeats(entry, n);
    round_repeats(entry, n + 1);
    assert(n + total as nat + 1 == n + 1 + total as nat);
    timeline_grows(entry, 0, total as nat);
    if n == 0 {
        assert(opens_at(entry, 0) <= since);
    }
    window_decides(
        entry,
        later - entry.animation.current_frame_started,
        0,
        n + total as nat,
    );
    vstd::arithmetic::div_mod::lemma_mod_add_multiples_vanish(start_frame(entry) + n, total);
    assert(start_frame(entry) + (n + total) == total + (start_frame(entry) + n));
}

/// The wake-up time is when the next advance is made: it lies ahead, until
/// then the count of advances stays, and from then on it has grown.
pub proof fn wake_is_the_next_advance(entry: StoredView, now: u64, at: u64)
    requires
        now <= at,
    ensures
        wake_time(entry, now) > now,
        at < wake_time(entry, now) ==> advances_by(entry, at) == advances_by(entry, now),
        at >= wake_time(entry, now) ==> advances_by(entry, at) > advances_by(entry, now),
{
    let started = entry.animation.current_frame_started;
    let n = advances_by(entry, now);
    displayed_window(entry, now - started, 0);
    displayed_window(entry, at - started, 0);
    if at < wake_time(entry, now) {
        window_decides(entry, at - started, 0, n);
    } else {
        let m = advances_by(entry, at);
        if m <= n {
            timeline_grows(entry, m + 1, n + 1);
        }
    }
}

/// A clock that has not passed the start of the current frame shows that
/// frame.
pub proof fn stale_clock_freezes(entry: StoredView, now: u64)
    requires
        now <= entry.animation.current_frame_started,
    ensures
        displayed_frame(entry, now) == start_frame(entry),
{
    timeline_moves(entry, 0);
    assert(advances_by(entry, now) == 0);
    if entry.frames.len() > 0 && advancing(entry.animation.play_mode) {
        match last_advance(entry) {
            Some(last) => {
                assert(last >= 0) by (nonlinear_arith)
                    requires
                        last == frame_total(entry) - 1 - start_frame(entry) + (
                        rounds_of(entry.animation.play_mode) - 1) * frame_total(entry),
                        rounds_of(entry.animation.play_mode) >= 1,
                        0 <= start_frame(entry) < frame_total(entry),
                ;
            },
            None => {},
        }
        vstd::arithmetic::div_mod::lemma_small_mod(
            start_frame(entry) as nat,
            frame_total(entry) as nat,
        );
    }
}

/// A finite animation ends on its last frame: once it has made its last
/// advance, it shows that frame.
pub proof fn finite_playback_ends_on_last_frame(entry: StoredView, n: int)
    requires
        entry.animation.play_mode is LoopFinite,
        n >= last_advance(entry)->0,
    ensures
        frame_after(entry, n) == frame_total(entry) - 1,
{
    let total = frame_total(entry);
    let rounds = rounds_of(entry.animation.play_mode);
    vstd::arithmetic::div_mod::lemma_mod_multiples_vanish(rounds - 1, total - 1, total);
    vstd::arithmetic::div_mod::lemma_small_mod((total - 1) as nat, total as nat);
    assert((rounds - 1) * total == total * (rounds - 1)) by (nonlinear_arith);
}

/// Playback while frames are still loading is playback without end.
pub proof fn loading_plays_like_forever(entry: StoredView, now: u64)
    requires
        entry.animation.play_mode == PlayMode::RunWhileLoading,
    ensures
        displayed_frame(entry, now) == displayed_frame(looping(entry), now),
{
    same_advances(entry, now - entry.animation.current_frame_started, 0);
}

/// The same entry, playing without end.
pub open spec fn looping(entry: StoredView) -> StoredView {
    StoredView {
        animation: AnimationState { play_mode: PlayMode::LoopForever, ..entry.animation },
        ..entry
    }
}

proof fn same_timeline(entry: StoredView, n: nat)
    ensures
        opens_at(entry, n) == opens_at(looping(entry), n),
    decreases n,
{
    if n > 0 {
        same_timeline(entry, (n - 1) as nat);
    }
}

proof fn same_advances(entry: StoredView, elapsed: int, n: nat)
    ensures
        advances(entry, elapsed, n) == advances(looping(entry), elapsed, n),
    decreases elapsed - opens_at(entry, n),
{
    same_timeline(entry, n + 1);
    if elapsed >= opens_at(entry, n + 1) {
        same_advances(entry, elapsed, n + 1);
    }
}

/// After an advance the timeline goes on from the next frame.
proof fn timeline_shifts(entry: StoredView, next: StoredView, n: nat)
    requires
        next.frames == entry.frames,
        next.base_delay_ms == entry.base_delay_ms,
        start_frame(next) == (start_frame(entry) + 1) % frame_total(entry),
    ensures
        opens_at(next, n) == opens_at(entry, n + 1) - opens_at(entry, 1),
    decreases n,
{
    let total = frame_total(entry);
    if n > 0 {
        timeline_shifts(entry, next, (n - 1) as nat);
        vstd::arithmetic::div_mod::lemma_add_mod_noop(start_frame(entry) + 1, n - 1, total);
        vstd::arithmetic::div_mod::lemma_add_mod_noop(start_frame(next), n - 1, total);
        vstd::arithmetic::div_mod::lemma_mod_twice(start_frame(entry) + 1, total);
        assert((start_frame(next) + n - 1) % total == (start_frame(entry) + n) % total);
        assert((n - 1) as nat + 1 == n);
    } else {
        assert(opens_at(entry, 1) == opens_at(entry, 0 + 1));
    }
}

/// One advance fewer, from the next frame on.
proof fn advances_shift(entry: StoredView, next: StoredView, elapsed: int)
    requires
        next.frames == entry.frames,
        next.base_delay_ms == entry.base_delay_ms,
        start_frame(next) == (start_frame(entry) + 1) % frame_total(entry),
        elapsed >= opens_at(entry, 1),
    ensures
        advances(entry, elapsed, 0) == advances(next, elapsed - opens_at(entry, 1), 0) + 1,
        opens_at(entry, advances(entry, elapsed, 0) + 1) == opens_at(entry, 1) + opens_at(
            next,
            advances(entry, elapsed, 0),
        ),
{
    let rest = elapsed - opens_at(entry, 1);
    let m = advances(next, rest, 0);
    displayed_window(next, rest, 0);
    timeline_shifts(entry, next, m);
    timeline_shifts(entry, next, m + 1);
    assert(opens_at(next, 0) == 0);
    window_decides(entry, elapsed, 0, m + 1);
}

/// The advances that are left after one.
proof fn end_shifts(entry: StoredView, next: StoredView)
    requires
        next.frames == entry.frames,
        start_frame(next) == (start_frame(entry) + 1) % frame_total(entry),
        match entry.animation.play_mode {
            PlayMode::LoopFinite { remaining } => if start_frame(entry) < entry.frames.len() {
                next.animation.play_mode == entry.animation.play_mode
            } else {
                remaining >= 2 && next.animation.play_mode == (PlayMode::LoopFinite {
                    remaining: (remaining - 1) as u32,
                })
            },
            mode => next.animation.play_mode == mode,
        },
    ensures
        match last_advance(entry) {
            Some(last) => last >= 1 && last_advance(next) == Some(last - 1),
            None => last_advance(next) is None,
        },
{
    let total = frame_total(entry);
    let s = start_frame(entry);
    next_frame(total, s);
    vstd::arithmetic::div_mod::lemma_small_mod(s as nat, total as nat);
    let r = rounds_of(entry.animation.play_mode);
    assert(r >= 2 ==> (r - 1) * total == (r - 2) * total + total && (r - 2) * total >= 0)
        by (nonlinear_arith)
        requires
            total >= 1,
    ;
    assert((r - 1) * total >= 0) by (nonlinear_arith)
        requires
            r >= 1,
            total >= 1,
    ;
}

/// A frame stays on display for its own gap, a millisecond at least, and then
/// gives way to the next one, the last one to the base. Only a finite animation
/// in its last round stays on its last frame.
pub proof fn frame_stays_for_its_own_gap(entry: &StoredImage, now: u64, shown: usize)
    requires
        call_ensures(resolve_current_frame, (entry, now), shown),
        entry.frames@.len() > 0,
        entry.animation.play_mode != PlayMode::Stopped,
        entry.animation.current_frame <= entry.frames@.len(),
    ensures
        ({
            let k = entry.animation.current_frame as int;
            let last = entry.frames@.len() as int;
            let gap = if k == 0 {
                entry.base_delay_ms as int
            } else {
                entry.frames@[k - 1].delay_ms as int
            };
            let end = entry.animation.current_frame_started + 1_000_000 * if gap < 1 {
                1
            } else {
                gap
            };
            &&& now < end ==> shown == k
            &&& now == end && k < last ==> shown == k + 1
            &&& now == end && k == last ==> match entry.animation.play_mode {
                PlayMode::LoopFinite { remaining } => if remaining <= 1 {
                    shown == last
                } else {
                    shown == 0
                },
                _ => shown == 0,
            }
        }),
{
    let view = entry@;
    let started = view.animation.current_frame_started as int;
    let total = frame_total(view);
    let s = start_frame(view);
    assert(s == entry.animation.current_frame);
    if s > 0 {
        assert(view.frames[s - 1] == entry.frames@[s - 1]@);
    }
    vstd::arithmetic::div_mod::lemma_small_mod(s as nat, total as nat);
    let first = opens_at(view, 1);
    assert(opens_at(view, 0) == 0);
    assert(first == display_time(gap_ms(view, s)));
    let since = now - started;
    finite_end_is_a_count(view);
    if since < first {
        assert(advances(view, since, 0) == 0);
    } else if since == first {
        timeline_moves(view, 1);
        window_decides(view, since, 0, 1);
        next_frame(total, s);
        let r = rounds_of(view.animation.play_mode);
        assert(r >= 2 ==> (r - 1) * total >= total) by (nonlinear_arith)
            requires
                total >= 1,
        ;
        assert(r == 1 ==> (r - 1) * total == 0) by (nonlinear_arith);
    }
}

/// Once a frame has been on display for its gap, playback is what it is from the
/// next frame on, which came on display right then; a finite animation that
/// starts over has one round less to go.
pub proof fn playback_goes_on_from_the_next_frame(
    entry: &StoredImage,
    next: &StoredImage,
    now: u64,
    shown: usize,
    shown_next: usize,
)
    requires
        call_ensures(resolve_current_frame, (entry, now), shown),
        call_ensures(resolve_current_frame, (next, now), shown_next),
        entry.frames@.len() > 0,
        entry.animation.play_mode != PlayMode::Stopped,
        entry.animation.current_frame <= entry.frames@.len(),
        next.frames@ == entry.frames@,
        next.base_delay_ms == entry.base_delay_ms,
        ({
            let k = entry.animation.current_frame as int;
            let last = entry.frames@.len() as int;
            let gap = if k == 0 {
                entry.base_delay_ms as int
            } else {
                entry.frames@[k - 1].delay_ms as int
            };
            let end = entry.animation.current_frame_started + 1_000_000 * if gap < 1 {
                1
            } else {
                gap
            };
            &&& now >= end
            &&& next.animation.current_frame_started == end
            &&& next.animation.current_frame == if k < last {
                k + 1
            } else {
                0
            }
            &&& match entry.animation.play_mode {
                PlayMode::LoopFinite { remaining } => if k < last {
                    next.animation.play_mode == entry.animation.play_mode
                } else {
                    remaining >= 2 && next.animation.play_mode == (PlayMode::LoopFinite {
                        remaining: (remaining - 1) as u32,
                    })
                },
                mode => next.animation.play_mode == mode,
            }
        }),
    ensures
        shown == shown_next,
{
    let (a, b) = (entry@, next@);
    let total = frame_total(a);
    let s = start_frame(a);
    assert(b.frames =~= a.frames);
    if s > 0 {
        assert(a.frames[s - 1] == entry.frames@[s - 1]@);
    }
    vstd::arithmetic::div_mod::lemma_small_mod(s as nat, total as nat);
    assert(opens_at(a, 0) == 0);
    assert(opens_at(a, 1) == display_time(gap_ms(a, s)));
    next_frame(total, s);
    let since = now - a.animation.current_frame_started;
    advances_shift(a, b, since);
    end_shifts(a, b);
    let m = advances(a, since, 0) as int;
    let k = match last_advance(a) {
        Some(last) => if m < last {
            m
        } else {
            last
        },
        None => m,
    };
    vstd::arithmetic::div_mod::lemma_add_mod_noop(s + 1, k - 1, total);
    vstd::arithmetic::div_mod::lemma_add_mod_noop(start_frame(b), k - 1, total);
    vstd::arithmetic::div_mod::lemma_mod_twice(s + 1, total);
    assert((start_frame(b) + (k - 1)) % total == (s + 1 + (k - 1)) % total);
}

/// An image that does not play shows its current frame, or its last one where the
/// current one does not exist. A finite animation that is on its last frame in its
/// last round stays there.
pub proof fn still_image_shows_its_current_frame(entry: &StoredImage, now: u64, shown: usize)
    requires
        call_ensures(resolve_current_frame, (entry, now), shown),
    ensures
        ({
            let k = entry.animation.current_frame as int;
            let last = entry.frames@.len() as int;
            let kept = if k < last {
                k
            } else {
                last
            };
            &&& last == 0 ==> shown == 0
            &&& entry.animation.play_mode == PlayMode::Stopped ==> shown == kept
            &&& entry.animation.play_mode is LoopFinite && entry.animation.play_mode->remaining
                <= 1 && k >= last ==> shown == last
            &&& now <= entry.animation.current_frame_started ==> shown == kept
        }),
{
    let view = entry@;
    stale_clock_or_not(view, now);
    if view.animation.play_mode is LoopFinite {
        let r = rounds_of(view.animation.play_mode);
        assert(r == 1 ==> (r - 1) * frame_total(view) == 0) by (nonlinear_arith);
        vstd::arithmetic::div_mod::lemma_small_mod(
            start_frame(view) as nat,
            frame_total(view) as nat,
        );
    }
}

proof fn stale_clock_or_not(entry: StoredView, now: u64)
    ensures
        now <= entry.animation.current_frame_started ==> displayed_frame(entry, now)
            == start_frame(entry),
{
    if now <= entry.animation.current_frame_started {
        stale_clock_freezes(entry, now);
    }
}

/// The next deadline is when the frame on display has been there for its gap. An
/// image that does not play has none, and neither has a finite animation on the
/// last frame of its last round.
pub proof fn deadline_is_the_end_of_the_gap(entry: &StoredImage, now: u64, deadline: Option<u128>)
    requires
        call_ensures(StoredImage::next_deadline, (entry, now), deadline),
        entry.animation.current_frame <= entry.frames@.len(),
    ensures
        ({
            let k = entry.animation.current_frame as int;
            let last = entry.frames@.len() as int;
            let gap = if k == 0 {
                entry.base_delay_ms as int
            } else {
                entry.frames@[k - 1].delay_ms as int
            };
            let end = entry.animation.current_frame_started + 1_000_000 * if gap < 1 {
                1
            } else {
                gap
            };
            if last == 0 || entry.animation.play_mode == PlayMode::Stopped || (
            entry.animation.play_mode is LoopFinite && entry.animation.play_mode->remaining <= 1
                && k == last) {
                deadline is None
            } else {
                now < end ==> deadline == Some(end as u128)
            }
        }),
{
    let view = entry@;
    let total = frame_total(view);
    let s = start_frame(view);
    if s > 0 {
        assert(view.frames[s - 1] == entry.frames@[s - 1]@);
    }
    vstd::arithmetic::div_mod::lemma_small_mod(s as nat, total as nat);
    assert(opens_at(view, 0) == 0);
    assert(opens_at(view, 1) == display_time(gap_ms(view, s)));
    let r = rounds_of(view.animation.play_mode);
    assert(r >= 2 ==> (r - 1) * total >= total) by (nonlinear_arith)
        requires
            total >= 1,
    ;
    assert(r == 1 ==> (r - 1) * total == 0) by (nonlinear_arith);
    let since = now - view.animation.current_frame_started;
    if since < opens_at(view, 1) {
        assert(advances(view, since, 0) == 0);
    }
}

/// Once a frame has been on display for its gap, the next deadline is that of
/// playback from the next frame on.
pub proof fn deadline_moves_on_with_playback(
    entry: &StoredImage,
    next: &StoredImage,
    now: u64,
    deadline: Option<u128>,
    deadline_next: Option<u128>,
)
    requires
        call_ensures(StoredImage::next_deadline, (entry, now), deadline),
        call_ensures(StoredImage::next_deadline, (next, now), deadline_next),
        entry.frames@.len() > 0,
        entry.animation.play_mode != PlayMode::Stopped,
        entry.animation.current_frame <= entry.frames@.len(),
        next.frames@ == entry.frames@,
        next.base_delay_ms == entry.base_delay_ms,
        ({
            let k = entry.animation.current_frame as int;
            let last = entry.frames@.len() as int;
            let gap = if k == 0 {
                entry.base_delay_ms as int
            } else {
                entry.frames@[k - 1].delay_ms as int
            };
            let end = entry.animation.current_frame_started + 1_000_000 * if gap < 1 {
                1
            } else {
                gap
            };
            &&& now >= end
            &&& next.animation.current_frame_started == end
            &&& next.animation.current_frame == if k < last {
                k + 1
            } else {
                0
            }
            &&& match entry.animation.play_mode {
                PlayMode::LoopFinite { remaining } => if k < last {
                    next.animation.play_mode == entry.animation.play_mode
                } else {
                    remaining >= 2 && next.animation.play_mode == (PlayMode::LoopFinite {
                        remaining: (remaining - 1) as u32,
                    })
                },
                mode => next.animation.play_mode == mode,
            }
        }),
    ensures
        deadline == deadline_next,
{
    let (a, b) = (entry@, next@);
    let total = frame_total(a);
    let s = start_frame(a);
    assert(b.frames =~= a.frames);
    if s > 0 {
        assert(a.frames[s - 1] == entry.frames@[s - 1]@);
    }
    vstd::arithmetic::div_mod::lemma_small_mod(s as nat, total as nat);
    assert(opens_at(a, 0) == 0);
    assert(opens_at(a, 1) == display_time(gap_ms(a, s)));
    next_frame(total, s);
    let since = now - a.animation.current_frame_started;
    advances_shift(a, b, since);
    end_shifts(a, b);
}

/// A current frame that does not exist stands for the last one.
pub proof fn current_frame_past_the_end_is_the_last(
    entry: &StoredImage,
    held: &StoredImage,
    now: u64,
    shown: usize,
    shown_held: usize,
)
    requires
        call_ensures(resolve_current_frame, (entry, now), shown),
        call_ensures(resolve_current_frame, (held, now), shown_held),
        entry.animation.current_frame > entry.frames@.len(),
        held.frames@ == entry.frames@,
        held.base_delay_ms == entry.base_delay_ms,
        held.animation == (AnimationState {
            current_frame: entry.frames@.len() as u32,
            ..entry.animation
        }),
    ensures
        shown == shown_held,
{
    let (a, b) = (entry@, held@);
    assert(b.frames =~= a.frames);
    same_advances_of(a, b, now - a.animation.current_frame_started, 0);
}

proof fn same_timeline_of(a: StoredView, b: StoredView, n: nat)
    requires
        a.frames == b.frames,
        a.base_delay_ms == b.base_delay_ms,
        start_frame(a) == start_frame(b),
    ensures
        opens_at(a, n) == opens_at(b, n),
    decreases n,
{
    if n > 0 {
        same_timeline_of(a, b, (n - 1) as nat);
    }
}

proof fn same_advances_of(a: StoredView, b: StoredView, elapsed: int, n: nat)
    requires
        a.frames == b.frames,
        a.base_delay_ms == b.base_delay_ms,
        start_frame(a) == start_frame(b),
    ensures
        advances(a, elapsed, n) == advances(b, elapsed, n),
    decreases elapsed - opens_at(a, n),
{
    same_timeline_of(a, b, n + 1);
    if elapsed >= opens_at(a, n + 1) {
        same_advances_of(a, b, elapsed, n + 1);
    }
}

/// Control codes: 1 stops, 2 runs while frames are loading, 3 loops, without end
/// or as often as told. Each restarts the current frame's time and leaves the
/// frame itself; another code only restarts the time.
pub proof fn control_codes_select_the_play_mode(
    image: &mut StoredImage,
    code: u32,
    loop_count: Option<u32>,
    now: u64,
)
    requires
        call_ensures(
            StoredImage::control,
            (image, Some(code), loop_count, None, None, None, now),
            (),
        ),
    ensures
        final(image).animation.current_frame == old(image).animation.current_frame,
        final(image).animation.current_frame_started == now,
        code == 1 ==> final(image).animation.play_mode == PlayMode::Stopped,
        code == 2 ==> final(image).animation.play_mode == PlayMode::RunWhileLoading,
        code == 3 && (loop_count is None || loop_count == Some(0u32))
            ==> final(image).animation.play_mode == PlayMode::LoopForever,
        code == 3 && loop_count is Some && loop_count != Some(0u32)
            ==> final(image).animation.play_mode == (PlayMode::LoopFinite {
            remaining: loop_count->0,
        }),
        code == 0 || code > 3 ==> final(image).animation.play_mode
            == old(image).animation.play_mode,
        forall|i: int|
            0 <= i < old(image).frames@.len() ==> (#[trigger] final(image).frames@[i]).delay_ms
                == old(image).frames@[i].delay_ms,
        final(image).base_delay_ms == old(image).base_delay_ms,
{
    let (a, b) = (old(image)@, final(image)@);
    let (was, after) = (old(image).frames@, final(image).frames@);
    assert forall|i: int| 0 <= i < was.len() implies (#[trigger] after[i]).delay_ms
        == was[i].delay_ms by {
        assert(b.frames[i] == after[i]@);
        assert(a.frames[i] == was[i]@);
    }
}

/// Making a frame current stops playback on it, whatever else is asked for: 1 is
/// the base, and a frame that does not exist stands for the last one.
pub proof fn made_current_frame_is_shown(
    image: &mut StoredImage,
    control: Option<u32>,
    loop_count: Option<u32>,
    n: u32,
    edit_frame: Option<u32>,
    edit_gap_ms: Option<u32>,
    now: u64,
)
    requires
        call_ensures(
            StoredImage::control,
            (image, control, loop_count, Some(n), edit_frame, edit_gap_ms, now),
            (),
        ),
        old(image).frames@.len() <= u32::MAX,
    ensures
        final(image).animation.play_mode == PlayMode::Stopped,
        final(image).animation.current_frame_started == now,
        n == 0 ==> final(image).animation.current_frame == 0,
        1 <= n <= old(image).frames@.len() + 1 ==> final(image).animation.current_frame == n - 1,
        n > old(image).frames@.len() + 1 ==> final(image).animation.current_frame
            == old(image).frames@.len(),
{
    assert(old(image)@.frames.len() == old(image).frames@.len());
}

/// Editing a gap changes the gap of that frame and nothing else: 1 is the base,
/// 2 the first frame after it. An edit without a frame that exists or without a
/// gap changes none.
pub proof fn edited_gap_is_the_frames_own(
    image: &mut StoredImage,
    edit_frame: Option<u32>,
    edit_gap_ms: Option<u32>,
    now: u64,
)
    requires
        call_ensures(
            StoredImage::control,
            (image, None, None, None, edit_frame, edit_gap_ms, now),
            (),
        ),
    ensures
        final(image).animation == old(image).animation,
        final(image).frames@.len() == old(image).frames@.len(),
        final(image).base_delay_ms == if edit_frame == Some(1u32) && edit_gap_ms is Some {
            edit_gap_ms->0
        } else {
            old(image).base_delay_ms
        },
        forall|i: int|
            0 <= i < old(image).frames@.len() ==> (#[trigger] final(image).frames@[i]).delay_ms
                == if edit_frame is Some && edit_frame->0 == i + 2 && edit_gap_ms is Some {
                edit_gap_ms->0
            } else {
                old(image).frames@[i].delay_ms
            },
        forall|i: int|
            0 <= i < old(image).frames@.len() ==> (#[trigger] final(image).frames@[i]).rgba@
                == old(image).frames@[i].rgba@,
        forall|i: int|
            0 <= i < old(image).frames@.len() ==> (#[trigger] final(image).frames@[i]).image
                == old(image).frames@[i].image,
{
    let (a, b) = (old(image)@, final(image)@);
    assert(a.frames.len() == old(image).frames@.len());
    assert(b.frames.len() == final(image).frames@.len());
    let (was, after) = (old(image).frames@, final(image).frames@);
    assert forall|i: int| 0 <= i < was.len() implies b.frames[i] == (#[trigger] after[i])@
        && a.frames[i] == was[i]@ by {}
}

/// An animation advances unless it is stopped; a new image is stopped on its base
/// from now on, and a reserved one is blank and free of charge.
pub proof fn new_image_is_blank_and_stopped(
    now: u64,
    state: AnimationState,
    entry: StoredImage,
    mode: PlayMode,
    advances: bool,
)
    requires
        call_ensures(AnimationState::new, (now,), state),
        call_ensures(StoredImage::reserved, (now,), entry),
        call_ensures(is_advancing, (mode,), advances),
    ensures
        advances <==> !(mode is Stopped),
        state.play_mode is Stopped && state.current_frame == 0,
        state.current_frame_started == now,
        entry@.animation == state,
        entry@.image is None && entry@.preview is None && entry@.base_rgba is None,
        entry@.base_dims is None && entry@.frames.len() == 0,
        entry@.bytes == 0 && entry@.last_used == now && entry@.base_delay_ms == 0,
{
}

/// A control edits the gap first and changes the playback then; each can be done
/// alone with the same outcome. A loop count alone changes nothing.
pub proof fn control_edits_and_then_plays(
    whole: &mut StoredImage,
    edited: &mut StoredImage,
    played: &mut StoredImage,
    counted: &mut StoredImage,
    control: Option<u32>,
    loop_count: Option<u32>,
    make_current: Option<u32>,
    edit_frame: Option<u32>,
    edit_gap_ms: Option<u32>,
    now: u64,
)
    requires
        call_ensures(
            StoredImage::control,
            (whole, control, loop_count, make_current, edit_frame, edit_gap_ms, now),
            (),
        ),
        call_ensures(
            StoredImage::control,
            (edited, None, None, None, edit_frame, edit_gap_ms, now),
            (),
        ),
        call_ensures(
            StoredImage::control,
            (played, control, loop_count, make_current, None, None, now),
            (),
        ),
        call_ensures(StoredImage::control, (counted, None, loop_count, None, None, None, now), ()),
        old(edited)@ == old(whole)@,
        old(played)@ == final(edited)@,
    ensures
        final(whole)@ == final(played)@,
        final(counted)@ == old(counted)@,
{
}

/// A control leaves the picture alone: its texture, its preview, its pixels and size,
/// what it is charged, and the pictures of its frames.
pub proof fn control_leaves_the_picture(
    image: &mut StoredImage,
    control: Option<u32>,
    loop_count: Option<u32>,
    make_current: Option<u32>,
    edit_frame: Option<u32>,
    edit_gap_ms: Option<u32>,
    now: u64,
    i: int,
)
    requires
        call_ensures(
            StoredImage::control,
            (image, control, loop_count, make_current, edit_frame, edit_gap_ms, now),
            (),
        ),
    ensures
        final(image)@.image == old(image)@.image,
        final(image)@.preview == old(image)@.preview,
        final(image)@.bytes == old(image)@.bytes,
        final(image)@.last_used == old(image)@.last_used,
        final(image)@.base_rgba == old(image)@.base_rgba,
        final(image)@.base_dims == old(image)@.base_dims,
        final(image)@.frames.len() == old(image)@.frames.len(),
        0 <= i < old(image)@.frames.len() ==> {
            &&& final(image)@.frames[i].image == old(image)@.frames[i].image
            &&& final(image)@.frames[i].rgba == old(image)@.frames[i].rgba
            &&& final(image)@.frames[i].bytes == old(image)@.frames[i].bytes
        },
{
}

} // verus!
