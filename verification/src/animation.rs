//! Timing of what moves on its own: the blinking cursor and the slide of the
//! alternate screen. Times are nanoseconds of a monotonic clock.

use vstd::prelude::*;

verus! {

/// Half a blink cycle.
pub const BLINK_INTERVAL: u64 = 500_000_000;

/// The phase of a blinking cursor.
#[derive(Clone, Copy, Debug, PartialEq, Eq, Structural)]
pub struct Blink {
    /// Whether the cursor is in its visible phase.
    pub on: bool,
    /// When the phase began.
    pub last: u64,
}

/// Whether the cursor blinks: the program asks for it, and the user has not
/// turned it off.
pub fn cursor_blink_enabled(configured: bool, requested: bool) -> (b: bool)
    ensures
        b == (configured && requested),
{
    configured && requested
}

/// A time minus an earlier one, and zero if it is not earlier.
pub open spec fn elapsed(since: u64, now: u64) -> int {
    if now > since {
        now - since
    } else {
        0
    }
}

/// The phase after a tick: it flips when its half cycle is over, as long as
/// there is a cursor that blinks.
pub open spec fn ticked(blink: Blink, enabled: bool, visible: bool, now: u64) -> Blink {
    if enabled && visible && elapsed(blink.last, now) >= BLINK_INTERVAL {
        Blink { on: !blink.on, last: now }
    } else {
        blink
    }
}

impl Blink {
    /// A cursor in its visible phase.
    pub fn new(now: u64) -> (blink: Blink)
        ensures
            blink == (Blink { on: true, last: now }),
    {
        Blink { on: true, last: now }
    }

    /// Whether the cursor shows: there is one, and it does not blink or is in
    /// its visible phase.
    pub fn currently_visible(&self, enabled: bool, visible: bool) -> (b: bool)
        ensures
            b == (visible && (!enabled || self.on)),
    {
        visible && (!enabled || self.on)
    }

    /// Flips the phase when its half cycle is over, and says whether it did.
    pub fn maybe_blink_tick(&mut self, enabled: bool, visible: bool, now: u64) -> (flipped: bool)
        ensures
            *final(self) == ticked(*old(self), enabled, visible, now),
            flipped == (enabled && visible && elapsed(old(self).last, now) >= BLINK_INTERVAL),
    {
        if !enabled || !visible {
            return false;
        }
        if now <= self.last || now - self.last < BLINK_INTERVAL {
            return false;
        }
        self.on = !self.on;
        self.last = now;
        true
    }

    /// When the phase is to flip next. `None` while nothing blinks.
    pub fn next_blink_wake(&self, enabled: bool, visible: bool) -> (wake: Option<u128>)
        ensures
            wake == if enabled && visible {
                Some((self.last + BLINK_INTERVAL) as u128)
            } else {
                None
            },
    {
        if enabled && visible {
            Some(self.last as u128 + BLINK_INTERVAL as u128)
        } else {
            None
        }
    }

    /// Shows the cursor and starts a new half cycle, so that it does not wink
    /// off under a keystroke.
    pub fn reset_blink(&mut self, now: u64)
        ensures
            *final(self) == (Blink { on: true, last: now }),
    {
        self.on = true;
        self.last = now;
    }
}

/// Whether the event loop keeps ticking for the cursor: it moves, or glyphs
/// fade out behind it.
pub fn is_cursor_animating(moving: bool, ghosts: usize) -> (b: bool)
    ensures
        b == (moving || ghosts > 0),
{
    moving || ghosts > 0
}

/// A scroll of the alternate screen that a program asked for.
#[derive(Clone, Copy, Debug, PartialEq, Eq, Structural)]
pub struct AltScroll {
    pub up: bool,
    pub rows: usize,
    pub region_top: usize,
    pub region_bottom: usize,
}

/// A slide of the alternate screen under way.
#[derive(Clone, Copy, Debug, PartialEq, Eq, Structural)]
pub struct AltSlide {
    pub scroll: AltScroll,
    pub started: u64,
}

/// What a captured scroll leads to.
#[derive(Clone, Copy, Debug, PartialEq, Eq, Structural)]
pub enum AltStart {
    /// Nothing.
    Ignored,
    /// The rows that the terminal kept are released, and the scroll snaps.
    Snapped,
    /// The slide starts with the screen as it was before the scroll.
    Started(AltSlide),
}

/// Starts the slide for a captured scroll. A region that does not begin at the
/// top of the screen snaps instead: its rows would slide out over others.
pub fn maybe_start_alt_scroll(
    slide: &mut Option<AltSlide>,
    enabled: bool,
    captured: Option<AltScroll>,
    now: u64,
) -> (start: AltStart)
    ensures
        start == match captured {
            Some(scroll) => if !enabled {
                AltStart::Ignored
            } else if scroll.region_top != 0 {
                AltStart::Snapped
            } else {
                AltStart::Started(AltSlide { scroll, started: now })
            },
            None => AltStart::Ignored,
        },
        *final(slide) == match start {
            AltStart::Started(s) => Some(s),
            _ => *old(slide),
        },
{
    if !enabled {
        return AltStart::Ignored;
    }
    match captured {
        None => AltStart::Ignored,
        Some(scroll) => {
            if scroll.region_top != 0 {
                AltStart::Snapped
            } else {
                let s = AltSlide { scroll, started: now };
                *slide = Some(s);
                AltStart::Started(s)
            }
        },
    }
}

/// Ends a slide, and says whether the rows that the terminal kept are to be
/// released.
pub fn finish_alt_scroll(slide: &mut Option<AltSlide>) -> (release: bool)
    ensures
        *final(slide) is None,
        release == (*old(slide) is Some),
{
    let release: bool = slide.is_some();
    *slide = None;
    release
}

/// Ends a slide that has settled, or whose screen is gone. Otherwise it goes
/// on. Says whether it ended.
pub fn update_alt_scroll(
    slide: &mut Option<AltSlide>,
    on_alt_screen: bool,
    settled: bool,
) -> (ended: bool)
    ensures
        ended == (*old(slide) is Some && (!on_alt_screen || settled)),
        *final(slide) == if ended {
            None
        } else {
            *old(slide)
        },
{
    if slide.is_some() && (!on_alt_screen || settled) {
        finish_alt_scroll(slide)
    } else {
        false
    }
}

/// Whether a slide is under way.
pub fn is_alt_scroll_animating(slide: &Option<AltSlide>) -> (b: bool)
    ensures
        b == (*slide is Some),
{
    slide.is_some()
}

/// The wake-up time is when a tick flips the phase: no earlier tick does, and
/// one from then on does.
pub proof fn wake_is_when_the_phase_flips(blink: Blink, now: u64)
    ensures
        (ticked(blink, true, true, now) != blink) == (now >= blink.last + BLINK_INTERVAL),
{
}

/// Two half cycles bring the phase back.
pub proof fn two_ticks_restore_the_phase(blink: Blink, first: u64, second: u64)
    requires
        first >= blink.last + BLINK_INTERVAL,
        second >= first + BLINK_INTERVAL,
    ensures
        ticked(ticked(blink, true, true, first), true, true, second) == (Blink {
            on: blink.on,
            last: second,
        }),
{
}

/// After a keystroke the cursor stays visible for a half cycle.
pub proof fn typing_keeps_the_cursor_visible(typed: u64, now: u64, enabled: bool, visible: bool)
    requires
        now < typed + BLINK_INTERVAL,
    ensures
        ticked(Blink { on: true, last: typed }, enabled, visible, now).on,
{
}

/// A cursor blinks where it is asked to and the user allows it; it shows unless it
/// is hidden or blinks and is in its other phase.
pub proof fn blinking_takes_both(
    configured: bool,
    requested: bool,
    blinks: bool,
    blink: &Blink,
    enabled: bool,
    visible: bool,
    shows: bool,
)
    requires
        call_ensures(cursor_blink_enabled, (configured, requested), blinks),
        call_ensures(Blink::currently_visible, (blink, enabled, visible), shows),
    ensures
        blinks ==> configured && requested,
        configured && requested ==> blinks,
        shows ==> visible,
        visible && !enabled ==> shows,
        visible && enabled ==> shows == blink.on,
{
}

/// The phase flips exactly when it has lasted half a second or more and there is a
/// cursor that blinks; then a new phase begins. This is when the wake-up is due.
pub proof fn phase_lasts_half_a_second(
    blink: &mut Blink,
    before: &Blink,
    enabled: bool,
    visible: bool,
    now: u64,
    flipped: bool,
    wake: Option<u128>,
)
    requires
        *before == *old(blink),
        call_ensures(Blink::maybe_blink_tick, (blink, enabled, visible, now), flipped),
        call_ensures(Blink::next_blink_wake, (before, enabled, visible), wake),
    ensures
        wake is Some <==> enabled && visible,
        wake is Some ==> wake->0 == before.last + 500_000_000,
        flipped <==> wake is Some && now >= wake->0,
        flipped ==> final(blink).on == !before.on && final(blink).last == now,
        !flipped ==> *final(blink) == *before,
{
}

/// A key shows the cursor and starts a phase, as a new cursor does.
pub proof fn key_starts_a_phase(blink: &mut Blink, now: u64, fresh: Blink)
    requires
        call_ensures(Blink::reset_blink, (blink, now), ()),
        call_ensures(Blink::new, (now,), fresh),
    ensures
        final(blink).on && final(blink).last == now,
        fresh.on && fresh.last == now,
{
}

/// The cursor is animated while it moves or a glyph fades behind it.
pub proof fn ghosts_animate_the_cursor(moving: bool, ghosts: usize, b: bool)
    requires
        call_ensures(is_cursor_animating, (moving, ghosts), b),
    ensures
        b == false <==> !moving && ghosts == 0,
{
}

/// A captured scroll starts a slide at once, unless slides are off; one in a region
/// below the top snaps. Only a start changes the slide.
pub proof fn scroll_starts_a_slide(
    slide: &mut Option<AltSlide>,
    enabled: bool,
    captured: Option<AltScroll>,
    now: u64,
    start: AltStart,
)
    requires
        call_ensures(maybe_start_alt_scroll, (slide, enabled, captured, now), start),
    ensures
        start is Ignored <==> !enabled || captured is None,
        start is Snapped <==> enabled && captured is Some && (captured->0).region_top > 0,
        start is Started ==> *final(slide) == Some(
            (AltSlide { scroll: captured->0, started: now }),
        ) && *final(slide) == Some(start->Started_0),
        !(start is Started) ==> *final(slide) == *old(slide),
{
}

/// A slide ends when it settles or its screen is gone, and a finished one releases
/// the rows that were kept for it.
pub proof fn slide_ends_when_settled(
    slide: &mut Option<AltSlide>,
    on_alt_screen: bool,
    settled: bool,
    ended: bool,
    other: &mut Option<AltSlide>,
    release: bool,
    animating: bool,
)
    requires
        call_ensures(update_alt_scroll, (slide, on_alt_screen, settled), ended),
        call_ensures(finish_alt_scroll, (other,), release),
        call_ensures(is_alt_scroll_animating, (&*old(slide),), animating),
    ensures
        animating <==> *old(slide) is Some,
        ended <==> animating && (settled || !on_alt_screen),
        ended ==> *final(slide) is None,
        !ended ==> *final(slide) == *old(slide),
        *final(other) is None,
        release <==> *old(other) is Some,
{
}

} // verus!
