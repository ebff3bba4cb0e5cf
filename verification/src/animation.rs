//! Animations.
//!
//! An [`Animation`] only knows how far along it is. What that moves on
//! screen is up to its owner: a [`TagSlideAnimation`] slides two tags across
//! an output together, a [`WindowMorph`] changes the box of one window.
//!
//! Easing is floating-point arithmetic and happens where frames are drawn.
//! What it yields is handed back through `sample`, so that the decisions made
//! here rest on the values that were last computed.
use vstd::prelude::*;

use crate::layout::{in_i32, quotient, Rect, Tile};
use crate::output::{OutputId, TagId};
use crate::scalar::{Scalar, ONE, ZERO};
use crate::window::{SurfaceId, Window};

verus! {

/// Nanoseconds in a millisecond.
pub const MILLISECOND: u64 = 1_000_000;

/// How long a tag switch slides.
pub const SLIDE_DURATION: u64 = 250_000_000;

/// How long a window takes to its new box.
pub const MORPH_DURATION: u64 = 180_000_000;

/// The bit pattern of one half.
pub const ONE_HALF: u64 = 0x3FE0_0000_0000_0000;

/// A point in the compositor's global (layout) coordinate space.
#[derive(Debug, Clone, Copy, PartialEq, Eq, Structural)]
pub struct Point {
    pub x: i32,
    pub y: i32,
}

impl View for Point {
    type V = Point;

    open spec fn view(&self) -> Point {
        *self
    }
}

/// What drives an [`Animation`]: the clock or a finger. Times are in
/// nanoseconds since the compositor started.
#[derive(Debug, Clone, Copy, PartialEq, Eq, Structural)]
pub enum AnimationKind {
    Timed {
        start: u64,
        duration: u64,
        /// The progress that this animation eases from.
        from: Scalar,
        /// The progress that this animation eases to.
        to: Scalar,
    },
    Manual { progress: Scalar },
}

/// A single progress value from zero to one, driven by the clock or set
/// directly.
#[derive(Debug, Clone, Copy, PartialEq, Eq, Structural)]
pub struct Animation(pub AnimationKind);

/// A part of a whole: `part / whole`.
#[derive(Debug, Clone, Copy, PartialEq, Eq, Structural)]
pub struct Fraction {
    pub part: u64,
    pub whole: u64,
}

impl Animation {
    /// The time from `start` to `now`; none if `now` comes first.
    pub open spec fn elapsed(start: u64, now: u64) -> int {
        if now >= start {
            now - start
        } else {
            0
        }
    }

    /// A timed animation from zero to one that starts at `now`.
    pub open spec fn started(now: u64, duration: u64) -> Animation {
        Animation(
            AnimationKind::Timed {
                start: now,
                duration,
                from: Scalar { bits: ZERO },
                to: Scalar { bits: ONE },
            },
        )
    }

    /// An animation that a finger holds at `progress`.
    pub open spec fn held(progress: Scalar) -> Animation {
        Animation(AnimationKind::Manual { progress: progress.clamped() })
    }

    /// The eased progress, given what easing last yielded: a held animation
    /// is exactly where it is held.
    pub open spec fn eased(self, sampled: Scalar) -> Scalar {
        match self.0 {
            AnimationKind::Timed { .. } => sampled,
            AnimationKind::Manual { progress } => progress,
        }
    }

    /// Handed over to the clock: from where it is now to `target`.
    pub open spec fn released(
        self,
        now: u64,
        target: Scalar,
        duration: u64,
        sampled: Scalar,
    ) -> Animation {
        Animation(
            AnimationKind::Timed { start: now, duration, from: self.eased(sampled), to: target },
        )
    }

    /// Where the animation ends: what a timed one eases to, or where a held
    /// one is held.
    pub open spec fn destination(self) -> Scalar {
        match self.0 {
            AnimationKind::Timed { to, .. } => to,
            AnimationKind::Manual { progress } => progress,
        }
    }

    /// The linear progress: the part of its time that a timed animation has
    /// run, and all of it for a held one.
    pub open spec fn progressed(self, now: u64) -> Fraction {
        match self.0 {
            AnimationKind::Timed { start, duration, .. } => if duration == 0 {
                Fraction { part: 1, whole: 1 }
            } else if Animation::elapsed(start, now) >= duration {
                Fraction { part: duration, whole: duration }
            } else {
                Fraction { part: Animation::elapsed(start, now) as u64, whole: duration }
            },
            AnimationKind::Manual { .. } => Fraction { part: 1, whole: 1 },
        }
    }

    /// The animation has run its time. One that is held never has.
    pub open spec fn finished(self, now: u64) -> bool {
        match self.0 {
            AnimationKind::Timed { start, duration, .. } => Animation::elapsed(start, now)
                >= duration,
            AnimationKind::Manual { .. } => false,
        }
    }

    pub fn new(now: u64, duration: u64) -> (animation: Self)
        ensures
            animation == Animation::started(now, duration),
    {
        Animation(
            AnimationKind::Timed {
                start: now,
                duration,
                from: Scalar { bits: ZERO },
                to: Scalar { bits: ONE },
            },
        )
    }

    /// A gesture-driven animation: its progress is whatever it is set to.
    pub fn manual(progress: Scalar) -> (animation: Self)
        ensures
            animation == Animation::held(progress),
    {
        Animation(AnimationKind::Manual { progress: progress.clamp_unit() })
    }

    /// Overwrites the progress of a held animation; a timed one is left
    /// alone.
    pub fn set_manual_progress(&mut self, progress: Scalar)
        ensures
            *final(self) == match old(self).0 {
                AnimationKind::Manual { .. } => Animation::held(progress),
                AnimationKind::Timed { .. } => *old(self),
            },
    {
        if let AnimationKind::Manual { .. } = self.0 {
            self.0 = AnimationKind::Manual { progress: progress.clamp_unit() };
        }
    }

    /// Hands the animation over to the clock: it eases from wherever it sits
    /// to `target` over `duration`.
    pub fn release_to(&self, now: u64, target: Scalar, duration: u64, sampled: Scalar) -> (r:
        Animation)
        ensures
            r == self.released(now, target, duration, sampled),
    {
        Animation(
            AnimationKind::Timed {
                start: now,
                duration,
                from: self.eased_progress(sampled),
                to: target,
            },
        )
    }

    /// Linear progress from zero (just started) to one (finished), as an
    /// exact fraction. For a held animation it is always one.
    pub fn progress(&self, now: u64) -> (r: Fraction)
        ensures
            r == self.progressed(now),
            0 < r.whole,
            r.part <= r.whole,
            self.finished(now) ==> r.part == r.whole,
    {
        match self.0 {
            AnimationKind::Timed { start, duration, .. } => {
                if duration == 0 {
                    return Fraction { part: 1, whole: 1 };
                }
                let elapsed = now.saturating_sub(start);
                if elapsed >= duration {
                    Fraction { part: duration, whole: duration }
                } else {
                    Fraction { part: elapsed, whole: duration }
                }
            },
            AnimationKind::Manual { .. } => Fraction { part: 1, whole: 1 },
        }
    }

    /// The eased progress: where a held animation is held, or what easing
    /// last yielded for a timed one.
    pub fn eased_progress(&self, sampled: Scalar) -> (r: Scalar)
        ensures
            r == self.eased(sampled),
    {
        match self.0 {
            AnimationKind::Timed { .. } => sampled,
            AnimationKind::Manual { progress } => progress,
        }
    }

    pub fn is_finished(&self, now: u64) -> (r: bool)
        ensures
            r == self.finished(now),
    {
        match self.0 {
            AnimationKind::Timed { start, duration, .. } => now.saturating_sub(start) >= duration,
            AnimationKind::Manual { .. } => false,
        }
    }
}

/// An animation that was handed over eases from where it was to its target:
/// none of its time has run at the moment of the handover, all of it has once
/// the time has passed, and exactly then it is finished.
pub proof fn lemma_release(
    animation: Animation,
    now: u64,
    target: Scalar,
    duration: u64,
    sampled: Scalar,
    later: u64,
)
    requires
        now + duration <= u64::MAX,
    ensures
        ({
            let settling = animation.released(now, target, duration, sampled);
            &&& settling.0 matches AnimationKind::Timed { from, to, .. } && from
                == animation.eased(sampled) && to == target
            &&& settling.finished(later) <==> later >= now + duration || duration == 0
            &&& duration > 0 ==> settling.progressed(now).part == 0
            &&& settling.finished(later) ==> settling.progressed(later).part
                == settling.progressed(later).whole
        }),
{
}

/// `v` brought back into the `i32` range by one turn.
pub open spec fn wrapped(v: int) -> i32 {
    if v > i32::MAX {
        (v - 0x1_0000_0000) as i32
    } else if v < i32::MIN {
        (v + 0x1_0000_0000) as i32
    } else {
        v as i32
    }
}

/// A tag switch under way: the windows of the tag that leaves slide off one
/// edge of the output while those of the tag that comes slide in from the
/// other. Both lists are snapshots taken when the switch began.
pub struct TagSlideAnimation {
    /// `1` if the new tag slides in from the right, `-1` if from the left.
    pub direction: i32,
    /// How far a window travels: the width of the output.
    pub distance: i32,
    pub animation: Animation,
    /// The tag that the switch started on.
    pub old_tag: TagId,
    /// The tag that the switch is headed to.
    pub new_tag: TagId,
    /// The windows of the old tag, where they were when the switch began.
    pub outgoing: Vec<(SurfaceId, Point)>,
    /// The windows of the new tag, where they end up.
    pub incoming: Vec<(SurfaceId, Point)>,
    /// The eased progress that was last computed.
    pub eased: Scalar,
    /// The offset of the seam between both tags that was last computed.
    pub offset: i32,
}

/// What a [`TagSlideAnimation`] stands for.
#[verifier::ext_equal]
pub struct Slide {
    pub direction: i32,
    pub distance: i32,
    pub animation: Animation,
    pub old_tag: TagId,
    pub new_tag: TagId,
    pub outgoing: Seq<(SurfaceId, Point)>,
    pub incoming: Seq<(SurfaceId, Point)>,
    pub eased: Scalar,
    pub offset: i32,
}

impl View for TagSlideAnimation {
    type V = Slide;

    open spec fn view(&self) -> Slide {
        Slide {
            direction: self.direction,
            distance: self.distance,
            animation: self.animation,
            old_tag: self.old_tag,
            new_tag: self.new_tag,
            outgoing: self.outgoing@,
            incoming: self.incoming@,
            eased: self.eased,
            offset: self.offset,
        }
    }
}

impl Slide {
    /// The switch has arrived at the new tag rather than fallen back to the
    /// old one.
    pub open spec fn arrived(self) -> bool {
        (Scalar { bits: ONE_HALF }).at_most(self.animation.eased(self.eased))
    }

    /// The switch is headed to the new tag rather than back to the old one.
    /// A switch that eases has its mind made up, however far it has come.
    pub open spec fn headed(self) -> bool {
        (Scalar { bits: ONE_HALF }).at_most(self.animation.destination())
    }

    /// The offset at the very start: one output width, on the side that the
    /// new tag comes from.
    pub open spec fn full_offset(self) -> int {
        self.direction * self.distance
    }

    /// Where a window of the old tag is drawn.
    pub open spec fn outgoing_at(self, base: Point) -> Point {
        Point {
            x: wrapped(wrapped(base.x + self.offset) - self.full_offset()),
            y: base.y,
        }
    }

    /// Where a window of the new tag is drawn.
    pub open spec fn incoming_at(self, rest: Point) -> Point {
        Point { x: wrapped(rest.x + self.offset), y: rest.y }
    }
}

/// The two tags move as one strip: at the start the old tag is in place and
/// the new one a full output width away; at the end the new one is in place
/// and the old one a full output width away.
pub proof fn lemma_slide_is_one_strip(slide: Slide, base: Point, rest: Point)
    requires
        slide.direction == 1 || slide.direction == -1,
        0 <= slide.distance,
        in_i32(base.x - slide.full_offset()),
        in_i32(base.x + slide.full_offset()),
        in_i32(rest.x + slide.full_offset()),
    ensures
        slide.offset == slide.full_offset() ==> {
            &&& slide.outgoing_at(base) == base
            &&& slide.incoming_at(rest).x == rest.x + slide.full_offset()
        },
        slide.offset == 0 ==> {
            &&& slide.outgoing_at(base).x == base.x - slide.full_offset()
            &&& slide.incoming_at(rest) == rest
        },
{
}

impl TagSlideAnimation {
    /// Whether the switch, where it is now, has arrived at the new tag.
    pub fn completed(&self) -> (r: bool)
        ensures
            r == self@.arrived(),
    {
        (Scalar { bits: ONE_HALF }).le(&self.animation.eased_progress(self.eased))
    }

    /// Whether the switch is headed to the new tag.
    pub fn is_headed(&self) -> (r: bool)
        ensures
            r == self@.headed(),
    {
        let end = match self.animation.0 {
            AnimationKind::Timed { to, .. } => to,
            AnimationKind::Manual { progress } => progress,
        };
        (Scalar { bits: ONE_HALF }).le(&end)
    }

    pub fn is_finished(&self, now: u64) -> (r: bool)
        ensures
            r == self.animation.finished(now),
    {
        self.animation.is_finished(now)
    }

    /// Records what easing yields at this moment.
    pub fn sample(&mut self, eased: Scalar, offset: i32)
        ensures
            final(self)@ == (Slide { eased, offset, ..old(self)@ }),
    {
        self.eased = eased;
        self.offset = offset;
    }

    /// Where a window of the old tag is drawn.
    pub fn place_outgoing(&self, base: Point) -> (p: Point)
        requires
            in_i32(self@.full_offset()),
        ensures
            p == self@.outgoing_at(base),
    {
        let shift = self.direction * self.distance;
        Point { x: base.x.wrapping_add(self.offset).wrapping_sub(shift), y: base.y }
    }

    /// Where a window of the new tag is drawn.
    pub fn place_incoming(&self, rest: Point) -> (p: Point)
        ensures
            p == self@.incoming_at(rest),
    {
        Point { x: rest.x.wrapping_add(self.offset), y: rest.y }
    }
}

/// What to do with a window once its box has arrived.
#[derive(Debug, Clone, Copy, PartialEq, Eq, Structural)]
pub enum MorphFinish {
    /// Put the window back on the plane, at its resting position.
    Remap,
    /// The window is gone: take it off the plane for good.
    Unmap,
}

/// A window whose on-screen box changes: it opens, closes, or makes room.
/// The window is off the plane meanwhile, and what it last drew is stretched
/// to the current box.
#[derive(Debug, Clone, Copy)]
pub struct WindowMorph {
    pub window: Window,
    pub output: OutputId,
    pub animation: Animation,
    pub from: Rect,
    pub to: Rect,
    pub on_finish: MorphFinish,
    /// The size that the window had when the box began to change: what each
    /// frame is stretched from.
    pub base: (i32, i32),
    /// The box that was last computed.
    pub current: Rect,
    /// The eased progress that was last computed.
    pub eased: Scalar,
}

impl View for WindowMorph {
    type V = WindowMorph;

    open spec fn view(&self) -> WindowMorph {
        *self
    }
}

impl WindowMorph {
    /// The box at this moment.
    pub fn current_rect(&self) -> (r: Rect)
        ensures
            r == self.current,
    {
        self.current
    }

    pub fn is_finished(&self, now: u64) -> (r: bool)
        ensures
            r == self.animation.finished(now),
    {
        self.animation.is_finished(now)
    }

    /// Records what easing yields at this moment.
    pub fn sample(&mut self, eased: Scalar, current: Rect)
        ensures
            *final(self) == (WindowMorph { eased, current, ..*old(self) }),
    {
        self.eased = eased;
        self.current = current;
    }
}

/// The largest power of two that is at most `v` (one, if there is none).
pub open spec fn floor_power(v: nat) -> nat
    decreases v,
{
    if v < 2 {
        1
    } else {
        2 * floor_power(v / 2)
    }
}

/// The integer nearest to 0.35 times `length`, but at least one.
///
/// The double called 0.35 lies just below 7/20. Where the exact product ends
/// in one half, the double product still does, and is rounded up, as long as
/// doubles are coarse enough there; beyond that it falls short, and is
/// rounded down.
pub open spec fn placeholder_length(length: int) -> int {
    if length <= 0 {
        1
    } else {
        let whole = 7 * length / 20;
        let rest = 7 * length % 20;
        let rounded = if rest > 10 || (rest == 10 && length <= 5 * floor_power(whole as nat)) {
            whole + 1
        } else {
            whole
        };
        if rounded < 1 {
            1
        } else {
            rounded
        }
    }
}

fn power_below(v: i64) -> (p: i64)
    requires
        0 <= v <= 0x4000_0000,
    ensures
        p == floor_power(v as nat),
        1 <= p <= 0x4000_0000,
    decreases v,
{
    if v < 2 {
        1
    } else {
        proof {
            lemma_floor_power(v as nat);
        }
        2 * power_below(v / 2)
    }
}

proof fn lemma_floor_power(v: nat)
    ensures
        1 <= floor_power(v),
        v >= 1 ==> floor_power(v) <= v < 2 * floor_power(v),
    decreases v,
{
    if v >= 2 {
        lemma_floor_power(v / 2);
    }
}

fn placeholder(length: i32) -> (r: i32)
    ensures
        r == placeholder_length(length as int),
        1 <= r <= 0x3000_0000,
{
    if length <= 0 {
        return 1;
    }
    let seven: i64 = 7 * (length as i64);
    let whole: i64 = seven / 20;
    let rest: i64 = seven % 20;
    let rounded: i64 = if rest > 10 || (rest == 10 && length as i64 <= 5 * power_below(whole)) {
        whole + 1
    } else {
        whole
    };
    if rounded < 1 {
        1
    } else {
        rounded as i32
    }
}

/// What a window grows out of and shrinks into: a box of 35% of `rect` on
/// each axis, in the middle of it.
pub open spec fn shrunk(rect: Tile) -> Tile {
    let width = placeholder_length(rect.width);
    let height = placeholder_length(rect.height);
    Tile {
        x: rect.x + quotient(rect.width - width, 2),
        y: rect.y + quotient(rect.height - height, 2),
        width,
        height,
    }
}

/// The small, centered placeholder that a window grows out of when it opens,
/// and shrinks into when it closes.
pub fn shrink_target(rect: Rect) -> (r: Rect)
    requires
        in_i32(rect.width - placeholder_length(rect.width as int)),
        in_i32(rect.height - placeholder_length(rect.height as int)),
        shrunk(rect@).fits(),
    ensures
        r@ == shrunk(rect@),
{
    let w = placeholder(rect.width);
    let h = placeholder(rect.height);
    Rect { x: rect.x + (rect.width - w) / 2, y: rect.y + (rect.height - h) / 2, width: w, height: h }
}

/// The placeholder lies in the middle of the box that it stands for: inside
/// it, with margins that differ by at most one, and never empty.
pub proof fn lemma_placeholder_is_centered(rect: Tile)
    requires
        rect.width > 0,
        rect.height > 0,
    ensures
        shrunk(rect).inside(rect),
        shrunk(rect).width >= 1,
        shrunk(rect).height >= 1,
        ({
            let left = shrunk(rect).x - rect.x;
            let right = rect.x + rect.width - (shrunk(rect).x + shrunk(rect).width);
            left == right || left + 1 == right
        }),
        ({
            let above = shrunk(rect).y - rect.y;
            let under = rect.y + rect.height - (shrunk(rect).y + shrunk(rect).height);
            above == under || above + 1 == under
        }),
{
}

/// The part of its time that a timed animation has run is the time since its
/// start, none of it before that and all of it once it is over.
pub proof fn lemma_time_run(start: u64, duration: u64, from: Scalar, to: Scalar, now: u64)
    requires
        duration > 0,
    ensures
        ({
            let animation = Animation(AnimationKind::Timed { start, duration, from, to });
            let run = animation.progressed(now);
            &&& run.whole == duration
            &&& now <= start ==> run.part == 0
            &&& start <= now < start + duration ==> run.part == now - start
            &&& start + duration <= now ==> run.part == duration
            &&& animation.finished(now) <==> start + duration <= now
            &&& animation.destination() == to
        }),
{
}

/// A held animation is where it is held, brought between zero and one, and
/// never over.
pub proof fn lemma_held(progress: Scalar, sampled: Scalar, now: u64)
    ensures
        ({
            let animation = Animation::held(progress);
            let zero = Scalar { bits: 0 };
            let one = Scalar { bits: 0x3FF0_0000_0000_0000 };
            &&& !animation.finished(now)
            &&& animation.eased(sampled) == animation.destination()
            &&& progress.below(zero) ==> animation.destination() == zero
            &&& one.below(progress) ==> animation.destination() == one
            &&& zero.at_most(progress) && progress.at_most(one) ==> animation.destination()
                == progress
        }),
{
}

/// The placeholder is as long, to the nearest pixel, as 35 hundredths of what
/// it stands for, and never empty.
pub proof fn lemma_placeholder_length(length: int)
    ensures
        placeholder_length(length) >= 1,
        placeholder_length(length) == 1 || -50 <= 100 * placeholder_length(length) - 35 * length
            <= 50,
        length >= 2 ==> -50 <= 100 * placeholder_length(length) - 35 * length <= 50,
        length <= 1 ==> placeholder_length(length) == 1,
{
}

} // verus!
