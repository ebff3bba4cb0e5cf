//! Touchpad swipe gestures.
//!
//! A gesture is bound to the same [`Action`] that a key press can trigger.
//! Most actions fire once, when the swipe is released. Those that animate a
//! switch of tags or a move of windows are driven by the finger instead: the
//! swipe is the animation's progress until it is released, and then the
//! animation settles one way or the other.
use vstd::prelude::*;

use crate::config::Action;
use crate::output::OutputId;
use crate::scalar::{Scalar, ZERO};
use crate::table::Key;
use crate::window::SurfaceId;

verus! {

/// One of the four directions that a swipe can take. A diagonal swipe takes
/// that of the axis along which it has gone further.
#[derive(Debug, Clone, Copy, PartialEq, Eq, Hash, Structural)]
pub enum GestureDirection {
    Up,
    Down,
    Left,
    Right,
}

/// How far a swipe has to go, along either axis, before it takes a
/// direction: the bit pattern of 12.0.
pub const DEAD_ZONE: u64 = 0x4028_0000_0000_0000;

/// How far a swipe has to go to complete what it drives: the bit pattern of
/// 220.0.
pub const GESTURE_DISTANCE: u64 = 0x406B_8000_0000_0000;

/// The progress from which on a released swipe is carried through: the bit
/// pattern of 0.5.
pub const COMMIT_THRESHOLD: u64 = 0x3FE0_0000_0000_0000;

/// How long a released swipe takes to settle.
pub const RELEASE_DURATION_MS: u64 = 200;

/// What a gesture is bound by: how many fingers swipe, and which way.
#[derive(Debug, Clone, Copy, PartialEq, Eq, Hash, Structural)]
pub struct Swipe {
    pub fingers: u32,
    pub direction: GestureDirection,
}

impl Key for Swipe {
    open spec fn packed(self) -> u64 {
        (self.fingers * 4 + match self.direction {
            GestureDirection::Up => 0int,
            GestureDirection::Down => 1int,
            GestureDirection::Left => 2int,
            GestureDirection::Right => 3int,
        }) as u64
    }

    proof fn lemma_packed_injective(a: Self, b: Self) {
    }

    fn pack(&self) -> (code: u64) {
        let low: u64 = match self.direction {
            GestureDirection::Up => 0,
            GestureDirection::Down => 1,
            GestureDirection::Left => 2,
            GestureDirection::Right => 3,
        };
        self.fingers as u64 * 4 + low
    }
}

/// What a swipe that has taken a direction is doing.
pub enum ResolvedKind {
    /// It drives the tag switch on `output`.
    Tag { output: OutputId },
    /// It drives the boxes of these windows, which an action that reorders a
    /// stack has set in motion; `undo` reverts that action.
    Stack { keys: Vec<SurfaceId>, undo: Action },
    /// The same, for an action that moves a window to another output.
    Output { keys: Vec<SurfaceId>, undo: Action },
    /// There is nothing to drive; `action`, if any, fires on release.
    Discrete { action: Option<Action> },
}

/// What a [`ResolvedKind`] stands for.
pub enum Driven {
    Tag { output: OutputId },
    Stack { keys: Seq<SurfaceId>, undo: Action },
    Output { keys: Seq<SurfaceId>, undo: Action },
    Discrete { action: Option<Action> },
}

impl View for ResolvedKind {
    type V = Driven;

    open spec fn view(&self) -> Driven {
        match self {
            ResolvedKind::Tag { output } => Driven::Tag { output: *output },
            ResolvedKind::Stack { keys, undo } => Driven::Stack { keys: keys@, undo: *undo },
            ResolvedKind::Output { keys, undo } => Driven::Output { keys: keys@, undo: *undo },
            ResolvedKind::Discrete { action } => Driven::Discrete { action: *action },
        }
    }
}

/// A swipe that has taken a direction.
pub struct Resolved {
    pub direction: GestureDirection,
    pub kind: ResolvedKind,
    /// How far it has got, from zero to one.
    pub progress: Scalar,
}

/// What a [`Resolved`] stands for.
pub struct Course {
    pub direction: GestureDirection,
    pub kind: Driven,
    pub progress: Scalar,
}

impl View for Resolved {
    type V = Course;

    open spec fn view(&self) -> Course {
        Course { direction: self.direction, kind: self.kind@, progress: self.progress }
    }
}

/// A swipe in progress.
pub struct ActiveGesture {
    pub fingers: u32,
    /// How far it has gone in all, along each axis.
    pub total: (Scalar, Scalar),
    /// `None` until it has taken a direction.
    pub resolved: Option<Resolved>,
}

/// What an [`ActiveGesture`] stands for.
pub struct Gesture {
    pub fingers: u32,
    pub total: (Scalar, Scalar),
    pub resolved: Option<Course>,
}

impl View for ActiveGesture {
    type V = Gesture;

    open spec fn view(&self) -> Gesture {
        Gesture {
            fingers: self.fingers,
            total: self.total,
            resolved: match self.resolved {
                Some(resolved) => Some(resolved@),
                None => None,
            },
        }
    }
}

impl ActiveGesture {
    pub fn new(fingers: u32) -> (gesture: Self)
        ensures
            gesture@ == (Gesture {
                fingers,
                total: (Scalar { bits: ZERO }, Scalar { bits: ZERO }),
                resolved: None,
            }),
    {
        ActiveGesture {
            fingers,
            total: (Scalar { bits: ZERO }, Scalar { bits: ZERO }),
            resolved: None,
        }
    }
}

/// The swipe has not left the dead zone.
pub open spec fn undecided(total: (Scalar, Scalar)) -> bool {
    let edge = Scalar { bits: DEAD_ZONE };
    total.0.absolute().below(edge) && total.1.absolute().below(edge)
}

/// The direction of a swipe: along the axis on which it has gone further,
/// and vertical if neither is ahead.
pub open spec fn heading(total: (Scalar, Scalar)) -> GestureDirection {
    let zero = Scalar { bits: ZERO };
    if total.1.absolute().below(total.0.absolute()) {
        if total.0.below(zero) {
            GestureDirection::Left
        } else {
            GestureDirection::Right
        }
    } else if total.1.below(zero) {
        GestureDirection::Up
    } else {
        GestureDirection::Down
    }
}

pub fn is_undecided(total: (Scalar, Scalar)) -> (r: bool)
    ensures
        r == undecided(total),
{
    let edge = Scalar { bits: DEAD_ZONE };
    total.0.abs().lt(&edge) && total.1.abs().lt(&edge)
}

pub fn direction_of(total: (Scalar, Scalar)) -> (r: GestureDirection)
    ensures
        r == heading(total),
{
    let zero = Scalar { bits: ZERO };
    if total.1.abs().lt(&total.0.abs()) {
        if total.0.lt(&zero) {
            GestureDirection::Left
        } else {
            GestureDirection::Right
        }
    } else if total.1.lt(&zero) {
        GestureDirection::Up
    } else {
        GestureDirection::Down
    }
}

/// The share of the gesture's distance that counts: the one along the axis
/// of its direction.
pub open spec fn along<A>(direction: GestureDirection, across: A, down: A) -> A {
    match direction {
        GestureDirection::Up | GestureDirection::Down => down,
        GestureDirection::Left | GestureDirection::Right => across,
    }
}

/// The action that reverts `action`, for the actions that a finger can
/// drive window by window.
pub open spec fn inverse(action: Action) -> Option<Action> {
    match action {
        Action::MoveUpStack => Some(Action::MoveDownStack),
        Action::MoveDownStack => Some(Action::MoveUpStack),
        Action::MoveOutputLeft => Some(Action::MoveOutputRight),
        Action::MoveOutputRight => Some(Action::MoveOutputLeft),
        Action::MoveOutputUp => Some(Action::MoveOutputDown),
        Action::MoveOutputDown => Some(Action::MoveOutputUp),
        _ => None,
    }
}

pub fn undo_of(action: &Action) -> (r: Option<Action>)
    ensures
        r == inverse(*action),
{
    match action {
        Action::MoveUpStack => Some(Action::MoveDownStack),
        Action::MoveDownStack => Some(Action::MoveUpStack),
        Action::MoveOutputLeft => Some(Action::MoveOutputRight),
        Action::MoveOutputRight => Some(Action::MoveOutputLeft),
        Action::MoveOutputUp => Some(Action::MoveOutputDown),
        Action::MoveOutputDown => Some(Action::MoveOutputUp),
        _ => None,
    }
}

/// Undoing is mutual.
pub proof fn lemma_inverse_is_mutual(action: Action)
    ensures
        inverse(action) matches Some(undo) ==> inverse(undo) == Some(action),
{
}

} // verus!
