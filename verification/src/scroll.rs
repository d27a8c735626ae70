//! Scroll smoothing and the scrollbar's visibility.
//!
//! The logical scroll position is where the user has asked the conversation to
//! sit. [`Smooth`] holds how far the drawn view lags behind it, and how opaque
//! the scrollbar is. A scroll is eased over the time between frames, and the
//! scrollbar stays lit for a while after the last scroll. Both follow from the
//! state and the present moment alone, so a frame stays a pure function of the
//! model.
//!
//! The lag and the opacity are numbers of whatever type the view draws with, and
//! the caller says how they decay over a time. Decided here is over which time,
//! when, and when not. Moments are nanoseconds on one clock that never runs
//! backwards.
use vstd::prelude::*;

verus! {

/// How long the scrollbar stays at full strength after the last scroll.
pub const HOLD: u64 = 650_000_000;

/// Frame interval requested while a scroll ease or a bar fade is running.
pub const FRAME: u64 = 8_000_000;

/// The most time that one frame eases over. A stall or a wake from sleep must
/// not teleport the ease.
pub const LONGEST_STEP: u64 = 100_000_000;

/// When the last frame was, and until when the bar is held.
#[derive(Clone, Copy, Debug, PartialEq, Eq, Structural)]
pub struct Pace {
    /// When the bar may start fading.
    pub hold_until: Option<u64>,
    /// The last moment that was eased up to.
    pub last: Option<u64>,
}

/// What a frame does: how long it eases over, and whether the bar fades too.
#[derive(Clone, Copy, Debug, PartialEq, Eq, Structural)]
pub struct Step {
    pub elapsed: u64,
    pub fading: bool,
}

impl Default for Pace {
    fn default() -> (pace: Self)
        ensures
            pace == (Pace { hold_until: None, last: None }),
    {
        Pace { hold_until: None, last: None }
    }
}

/// The time from `last` to `now`: none where there was no last frame or it lies
/// ahead, and never more than the longest step.
pub open spec fn elapsed(last: Option<u64>, now: u64) -> int {
    match last {
        Some(last) => if now <= last {
            0
        } else if now - last > LONGEST_STEP {
            LONGEST_STEP as int
        } else {
            now - last
        },
        None => 0,
    }
}

/// Whether the bar is held at `now`.
pub open spec fn holds(pace: Pace, now: u64) -> bool {
    match pace.hold_until {
        Some(until) => now < until,
        None => false,
    }
}

/// The pace after the bar was lit at `now`.
pub open spec fn shown(pace: Pace, now: u64) -> Pace {
    Pace { hold_until: Some((now + HOLD) as u64), ..pace }
}

/// The pace after a scroll at `now`. One that moved the view starts the clock
/// where it was not running.
pub open spec fn nudged(pace: Pace, moved: bool, now: u64) -> Pace {
    shown(
        if moved && pace.last is None {
            Pace { last: Some(now), ..pace }
        } else {
            pace
        },
        now,
    )
}

/// The pace after a frame at `now`.
pub open spec fn advanced(pace: Pace, now: u64) -> Pace {
    Pace { last: Some(now), ..pace }
}

/// What a frame at `now` does.
pub open spec fn step(pace: Pace, now: u64) -> Step {
    Step {
        elapsed: elapsed(pace.last, now) as u64,
        fading: elapsed(pace.last, now) > 0 && !holds(pace, now),
    }
}

impl Pace {
    /// Note a scroll: one that moved the view starts the clock, and any scroll
    /// lights the scrollbar.
    pub fn nudge(&mut self, moved: bool, now: u64)
        requires
            now + HOLD <= u64::MAX,
        ensures
            *final(self) == nudged(*old(self), moved, now),
    {
        if moved && self.last.is_none() {
            self.last = Some(now);
        }
        self.show(now);
    }

    /// Light the scrollbar without moving anything.
    pub fn show(&mut self, now: u64)
        requires
            now + HOLD <= u64::MAX,
        ensures
            *final(self) == shown(*old(self), now),
    {
        self.hold_until = Some(now + HOLD);
    }

    /// Move the clock to `now`, and say what the frame does.
    pub fn advance(&mut self, now: u64) -> (done: Step)
        ensures
            *final(self) == advanced(*old(self), now),
            done == step(*old(self), now),
            done.elapsed == elapsed(old(self).last, now),
    {
        let elapsed: u64 = match self.last {
            Some(last) => if now <= last {
                0
            } else if now - last > LONGEST_STEP {
                LONGEST_STEP
            } else {
                now - last
            },
            None => 0,
        };
        let holding = match self.hold_until {
            Some(until) => now < until,
            None => false,
        };
        self.last = Some(now);
        Step { elapsed, fading: elapsed > 0 && !holding }
    }
}

/// Smoothing state for the transcript scroll, over the numbers `L`.
#[derive(Clone, Copy, Debug, PartialEq, Eq)]
pub struct Smooth<L> {
    /// How far the drawn view is behind the logical position.
    pub lag: L,
    /// Scrollbar opacity.
    pub alpha: L,
    pub pace: Pace,
}

/// A frame at `now` takes the lag to `lag`: it is what `ease` makes of the lag
/// before over the time that the frame takes, and the lag before where it takes
/// none.
pub open spec fn lag_after<L, E: Fn(L, u64) -> L>(
    smooth: Smooth<L>,
    now: u64,
    ease: E,
    lag: L,
) -> bool {
    let frame = step(smooth.pace, now);
    if frame.elapsed == 0 {
        lag == smooth.lag
    } else {
        call_ensures(ease, (smooth.lag, frame.elapsed), lag)
    }
}

/// A frame at `now` takes the opacity to `alpha`: it is what `fade` makes of the
/// opacity before where the bar fades, and the opacity before where it does not.
pub open spec fn alpha_after<L, F: Fn(L, u64) -> L>(
    smooth: Smooth<L>,
    now: u64,
    fade: F,
    alpha: L,
) -> bool {
    let frame = step(smooth.pace, now);
    if frame.fading {
        call_ensures(fade, (smooth.alpha, frame.elapsed), alpha)
    } else {
        alpha == smooth.alpha
    }
}

/// The state after a scroll at `now` that left the view behind by `moved`, or
/// that did not move it.
pub open spec fn scrolled<L>(smooth: Smooth<L>, moved: Option<L>, full: L, now: u64) -> Smooth<L> {
    Smooth {
        lag: match moved {
            Some(lag) => lag,
            None => smooth.lag,
        },
        alpha: full,
        pace: nudged(smooth.pace, moved is Some, now),
    }
}

impl<L: Copy> Smooth<L> {
    /// A settled view with the scrollbar gone.
    pub fn at_rest(zero: L) -> (smooth: Self)
        ensures
            smooth.lag == zero,
            smooth.alpha == zero,
            smooth.pace == (Pace { hold_until: None, last: None }),
    {
        Smooth { lag: zero, alpha: zero, pace: Pace::default() }
    }

    /// A settled view with the scrollbar at full strength.
    pub fn lit(zero: L, full: L) -> (smooth: Self)
        ensures
            smooth.lag == zero,
            smooth.alpha == full,
            smooth.pace == (Pace { hold_until: None, last: None }),
    {
        Smooth { lag: zero, alpha: full, pace: Pace::default() }
    }

    /// Note a scroll: the view keeps its old position and is `moved` behind the
    /// logical one, where it moved at all, and the scrollbar lights up.
    pub fn nudge(&mut self, moved: Option<L>, full: L, now: u64)
        requires
            now + HOLD <= u64::MAX,
        ensures
            *final(self) == scrolled(*old(self), moved, full, now),
    {
        self.pace.nudge(moved.is_some(), now);
        if let Some(lag) = moved {
            self.lag = lag;
        }
        self.alpha = full;
    }

    /// Light the scrollbar without moving anything.
    pub fn show(&mut self, full: L, now: u64)
        requires
            now + HOLD <= u64::MAX,
        ensures
            *final(self) == (Smooth {
                alpha: full,
                pace: shown(old(self).pace, now),
                ..*old(self)
            }),
    {
        self.pace.show(now);
        self.alpha = full;
    }

    /// Land immediately: used where a jump is the point and easing would replay
    /// history.
    pub fn settle(&mut self, zero: L)
        ensures
            *final(self) == (Smooth { lag: zero, ..*old(self) }),
    {
        self.lag = zero;
    }

    /// Offset to subtract from the logical scroll when drawing.
    pub fn lag(&self) -> (lag: L)
        ensures
            lag == self.lag,
    {
        self.lag
    }

    /// Scrollbar opacity.
    pub fn alpha(&self) -> (alpha: L)
        ensures
            alpha == self.alpha,
    {
        self.alpha
    }

    /// Decay the lag and the bar to `now`, each as the caller says that it decays
    /// over a time.
    pub fn advance<E: Fn(L, u64) -> L, F: Fn(L, u64) -> L>(&mut self, now: u64, ease: E, fade: F)
        requires
            forall|elapsed: u64| #[trigger] call_requires(ease, (old(self).lag, elapsed)),
            forall|elapsed: u64| #[trigger] call_requires(fade, (old(self).alpha, elapsed)),
        ensures
            final(self).pace == advanced(old(self).pace, now),
            lag_after(*old(self), now, ease, final(self).lag),
            alpha_after(*old(self), now, fade, final(self).alpha),
    {
        let frame = self.pace.advance(now);
        if frame.elapsed > 0 {
            self.lag = ease(self.lag, frame.elapsed);
        }
        if frame.fading {
            self.alpha = fade(self.alpha, frame.elapsed);
        }
    }
}

/// The moment of the next frame, if there is to be one.
pub open spec fn wakes_at(animating: bool, now: u64) -> Option<u64> {
    if animating {
        Some((now + FRAME) as u64)
    } else {
        None
    }
}

/// When the loop must next wake: a frame from now while anything moves, and
/// never at rest.
pub fn next_frame_at(animating: bool, now: u64) -> (at: Option<u64>)
    requires
        animating ==> now + FRAME <= u64::MAX,
    ensures
        at == (if animating {
            Some((now + FRAME) as u64)
        } else {
            None
        }),
        at == wakes_at(animating, now),
{
    if animating {
        Some(now + FRAME)
    } else {
        None
    }
}

/// Once lit, the bar does not fade before its hold is over, however many frames
/// are drawn, and fades with the first one behind it that takes any time.
pub proof fn law_the_bar_holds_then_fades(pace: Pace, moved: bool, lit: u64, frame: u64, now: u64)
    requires
        lit + HOLD <= u64::MAX,
    ensures
        now < lit + HOLD ==> !step(nudged(pace, moved, lit), now).fading,
        now < lit + HOLD ==> !step(advanced(nudged(pace, moved, lit), frame), now).fading,
        lit + HOLD <= now && frame < now ==> step(
            advanced(nudged(pace, moved, lit), frame),
            now,
        ).fading,
{
}

/// No frame eases over more than the longest step, and none over any time where
/// the clock stood still.
pub proof fn law_a_stall_is_one_step(pace: Pace, now: u64)
    ensures
        0 <= elapsed(pace.last, now) <= LONGEST_STEP,
        elapsed(advanced(pace, now).last, now) == 0,
        step(advanced(pace, now), now) == (Step { elapsed: 0, fading: false }),
{
}

/// Two frames ease over as much time as one at the later moment would, where no
/// stall is cut short.
pub proof fn law_steps_add_up(pace: Pace, first: u64, second: u64)
    requires
        pace.last is Some,
        pace.last->0 <= first <= second,
        second - pace.last->0 <= LONGEST_STEP,
    ensures
        elapsed(pace.last, first) + elapsed(advanced(pace, first).last, second) == elapsed(
            pace.last,
            second,
        ),
{
}

/// A stall decays the lag no further than one longest step does: after a scroll
/// on a view at rest, a frame at any later moment leaves the lags that a frame
/// one longest step later can leave, and where `ease` is a function that is one
/// and the same lag.
pub proof fn law_a_stall_decays_the_lag_no_further<L, E: Fn(L, u64) -> L>(
    smooth: Smooth<L>,
    moved: L,
    full: L,
    start: u64,
    now: u64,
    ease: E,
    lag: L,
    other: L,
)
    requires
        smooth.pace.last is None,
        start + LONGEST_STEP <= now,
    ensures
        ({
            let view = scrolled(smooth, Some(moved), full, start);
            let soon = (start + LONGEST_STEP) as u64;
            &&& view.lag == moved
            &&& lag_after(view, now, ease, lag) <==> call_ensures(ease, (moved, LONGEST_STEP), lag)
            &&& lag_after(view, now, ease, lag) <==> lag_after(view, soon, ease, lag)
            &&& lag_after(view, now, ease, lag) && lag_after(view, soon, ease, other) && (forall|
                a: L,
                b: L,
            |
                #[trigger] call_ensures(ease, (moved, LONGEST_STEP), a) && #[trigger] call_ensures(
                    ease,
                    (moved, LONGEST_STEP),
                    b,
                ) ==> a == b) ==> lag == other
        }),
{
}

/// While the bar is held, a frame leaves it at full strength, and a frame that
/// takes no time leaves the view where it is.
pub proof fn law_the_bar_stays_lit_while_held<L, E: Fn(L, u64) -> L, F: Fn(L, u64) -> L>(
    smooth: Smooth<L>,
    moved: Option<L>,
    full: L,
    lit: u64,
    now: u64,
    ease: E,
    fade: F,
    lag: L,
    alpha: L,
)
    requires
        lit + HOLD <= u64::MAX,
    ensures
        ({
            let view = scrolled(smooth, moved, full, lit);
            &&& now < lit + HOLD && alpha_after(view, now, fade, alpha) ==> alpha == full
            &&& elapsed(view.pace.last, now) == 0 && lag_after(view, now, ease, lag) ==> lag
                == view.lag
        }),
{
}

/// A frame takes the time since the last one, up to a tenth of a second; the first
/// one, and one that lies behind the last, takes none. The bar is held for 650
/// milliseconds after it was lit, and it fades in a frame that takes time and lies
/// behind that.
pub proof fn law_the_time_of_a_frame(pace: Pace, last: u64, now: u64, until: u64)
    ensures
        last <= now <= last + 100_000_000 ==> elapsed(Some(last), now) == now - last,
        now > last + 100_000_000 ==> elapsed(Some(last), now) == 100_000_000,
        now < last ==> elapsed(Some(last), now) == 0,
        elapsed(None, now) == 0,
        step(pace, now).elapsed == elapsed(pace.last, now),
        pace.hold_until == Some(until) ==> (step(pace, now).fading <==> elapsed(pace.last, now) > 0
            && until <= now),
        pace.hold_until is None ==> (step(pace, now).fading <==> elapsed(pace.last, now) > 0),
        now + 650_000_000 <= u64::MAX ==> shown(pace, now).hold_until == Some(
            (now + 650_000_000) as u64,
        ),
        shown(pace, now).last == pace.last,
        advanced(pace, now) == (Pace { hold_until: pace.hold_until, last: Some(now) }),
        nudged(pace, false, now) == shown(pace, now),
        nudged(pace, true, now).hold_until == shown(pace, now).hold_until,
        pace.last is None ==> nudged(pace, true, now).last == Some(now),
        pace.last is Some ==> nudged(pace, true, now).last == pace.last,
{
}

/// A scroll that moves the view sets its lag, one that does not leaves it, and
/// both light the bar.
pub proof fn law_a_scroll_lights_the_bar<L>(smooth: Smooth<L>, lag: L, full: L, now: u64)
    ensures
        scrolled(smooth, Some(lag), full, now).lag == lag,
        scrolled(smooth, None, full, now).lag == smooth.lag,
        scrolled(smooth, Some(lag), full, now).alpha == full,
        scrolled(smooth, None, full, now).alpha == full,
        scrolled(smooth, Some(lag), full, now).pace == nudged(smooth.pace, true, now),
        scrolled(smooth, None, full, now).pace == nudged(smooth.pace, false, now),
{
}

/// While anything moves the next frame is eight milliseconds away; at rest there is
/// none.
pub proof fn law_the_next_frame(now: u64)
    requires
        now + 8_000_000 <= u64::MAX,
    ensures
        wakes_at(true, now) matches Some(at) && at == now + 8_000_000,
        wakes_at(false, now) is None,
{
}

} // verus!
