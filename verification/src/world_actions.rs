//! What actions, key presses, gestures and the session lock make of the
//! compositor's state.
use vstd::prelude::*;

use crate::animation::{Animation, Slide, WindowMorph, MILLISECOND};
use crate::config::{bound, Action, KeyPress, ModMask, ModifiersState, Settings, TilingConfig};
use crate::config::{VT_SWITCH_1, VT_SWITCH_12};
use crate::effect::Effect;
use crate::gesture::{
    along, heading, inverse, undecided, Course, Driven, Gesture, Swipe, COMMIT_THRESHOLD,
    RELEASE_DURATION_MS,
};
use crate::output::{Direction, OutputId, TagId};
use crate::scalar::{Scalar, ONE, ZERO};
use crate::table::{filed, lookup};
use crate::window::{SurfaceId, WindowId};
use crate::world::{doable, World};

verus! {

/// The master ratio stays below this: the bit pattern of 0.95.
pub const RATIO_CEILING: u64 = 0x3FEE_6666_6666_6666;

/// The master ratio stays above this: the bit pattern of 0.05.
pub const RATIO_FLOOR: u64 = 0x3FA9_9999_9999_999A;

/// The way that a switch to a tag slides that is asked for by its number: a
/// lower one as if it came next, and a higher one as if it came before.
pub open spec fn slide_direction(from: Option<TagId>, to: TagId) -> i32 {
    match from {
        Some(from) => if to.0 > from.0 {
            (-1int) as i32
        } else {
            1
        },
        None => 1,
    }
}

/// `action` refers to the focused output.
pub open spec fn needs_output(action: Action) -> bool {
    match action {
        Action::SetLayout(_)
        | Action::FocusOutputLeft
        | Action::FocusOutputRight
        | Action::FocusOutputUp
        | Action::FocusOutputDown
        | Action::MoveOutputLeft
        | Action::MoveOutputRight
        | Action::MoveOutputUp
        | Action::MoveOutputDown => true,
        _ => false,
    }
}

/// `action` steps to the tag after the one shown.
pub open spec fn steps_on(action: Action) -> bool {
    action is FocusNextTag || action is MoveNextTag
}

/// `action` switches to a neighbouring tag.
pub open spec fn steps(action: Action) -> bool {
    action is FocusNextTag || action is FocusPreviousTag
}

/// The direction of an action that sends a window to another output.
pub open spec fn sends(action: Action) -> Option<Direction> {
    match action {
        Action::MoveOutputLeft => Some(Direction::Left),
        Action::MoveOutputRight => Some(Direction::Right),
        Action::MoveOutputUp => Some(Direction::Up),
        Action::MoveOutputDown => Some(Direction::Down),
        _ => None,
    }
}

impl World {
    /// `action` can be carried out in this state.
    pub open spec fn ready(self, action: Action) -> bool {
        &&& doable(action)
        &&& needs_output(action) ==> self.outputs.has(self.outputs.focused)
        &&& steps_on(action) ==> self.can_step()
    }

    /// A swipe can start `action` in this state.
    pub open spec fn swipe_ready(self, action: Action) -> bool {
        &&& self.ready(action)
        &&& steps(action) ==> self.outputs.has(self.outputs.focused)
    }

    /// The first of `ids` that is not focused.
    pub open spec fn first_unfocused(self, ids: Seq<WindowId>) -> Option<WindowId>
        decreases ids.len(),
    {
        if ids.len() == 0 {
            None
        } else if self.windows.focused != Some(ids[0]) {
            Some(ids[0])
        } else {
            self.first_unfocused(ids.skip(1))
        }
    }

    /// With the focused window asked to close, and another of its scope, if
    /// there is one, marked as focused.
    pub open spec fn closed(self) -> World {
        match self.windows.focused_info() {
            None => self,
            Some(info) => {
                let asked = self.emit(Effect::Close(info.window.surface));
                match self.first_unfocused(self.windows.rendered(info.home())) {
                    Some(id) => World { windows: self.windows.focused_on(Some(id)), ..asked },
                    None => asked,
                }
            },
        }
    }

    pub open spec fn output_focused_towards(self, direction: Direction) -> World {
        match self.nearest(direction) {
            Some(id) => self.output_focused(id),
            None => self,
        }
    }

    /// With other tiling settings, and every active output laid out.
    pub open spec fn tiling_changed(self, tiling: TilingConfig) -> World {
        World { config: Settings { tiling, ..self.config }, ..self }.relaid(None, true)
    }

    /// What `action` makes of this state.
    #[verifier::opaque]
    pub open spec fn acted(self, action: Action) -> World {
        let tiling = self.config.tiling;
        match action {
            Action::Quit => self.emit(Effect::Quit),
            Action::ReloadConfig => self.emit(Effect::ReloadConfig),
            Action::Close => self.closed(),
            Action::FullScreen => match self.windows.focused {
                Some(id) => self.toggled(id),
                None => self,
            },
            Action::Spawn(command) => self.emit(Effect::Spawn(command)),
            Action::FocusTag(tag) => self.slid(
                tag,
                slide_direction(self.outputs.current_tag(), tag),
                None,
            ),
            Action::MoveToTag(tag) => self.moved_to_tag(
                tag,
                slide_direction(self.outputs.current_tag(), tag),
            ),
            Action::FocusNextTag => self.next_tag_focused(),
            Action::FocusPreviousTag => self.previous_tag_focused(),
            Action::MoveNextTag => self.moved_to_next_tag(),
            Action::MovePreviousTag => self.moved_to_previous_tag(),
            Action::SetLayout(name) => self.layout_changed(name@),
            Action::FocusDownStack => self.focus_shifted(false),
            Action::FocusUpStack => self.focus_shifted(true),
            Action::MoveDownStack => self.window_shifted(false),
            Action::MoveUpStack => self.window_shifted(true),
            Action::FocusOutputLeft => self.output_focused_towards(Direction::Left),
            Action::FocusOutputRight => self.output_focused_towards(Direction::Right),
            Action::FocusOutputUp => self.output_focused_towards(Direction::Up),
            Action::FocusOutputDown => self.output_focused_towards(Direction::Down),
            Action::MoveOutputLeft => self.moved_to_output(Direction::Left),
            Action::MoveOutputRight => self.moved_to_output(Direction::Right),
            Action::MoveOutputUp => self.moved_to_output(Direction::Up),
            Action::MoveOutputDown => self.moved_to_output(Direction::Down),
            Action::IncrementMasterRatio(amount) => self.emit(Effect::RaiseMasterRatio(amount)),
            Action::DecrementMasterRatio(amount) => self.emit(Effect::LowerMasterRatio(amount)),
            Action::HideTabletWindows => self.tiling_changed(
                TilingConfig { tablet_hide_minimized: true, ..tiling },
            ),
            Action::ShowTabletWindows => self.tiling_changed(
                TilingConfig { tablet_hide_minimized: false, ..tiling },
            ),
            Action::ToggleTabletWindows => self.tiling_changed(
                TilingConfig { tablet_hide_minimized: !tiling.tablet_hide_minimized, ..tiling },
            ),
            Action::MakeRightHanded => self.tiling_changed(
                TilingConfig { right_handed: true, ..tiling },
            ),
            Action::MakeLeftHanded => self.tiling_changed(
                TilingConfig { right_handed: false, ..tiling },
            ),
            Action::FlipHandedness => self.tiling_changed(
                TilingConfig { right_handed: !tiling.right_handed, ..tiling },
            ),
        }
    }

    /// With the master ratio raised to `ratio`, if that is below the ceiling.
    pub open spec fn ratio_raised(self, ratio: Scalar) -> World {
        self.tiling_changed(
            if ratio.below(Scalar { bits: RATIO_CEILING }) {
                TilingConfig { master_ratio: ratio, ..self.config.tiling }
            } else {
                self.config.tiling
            },
        )
    }

    /// With the master ratio lowered to `ratio`, if that is above the floor.
    pub open spec fn ratio_lowered(self, ratio: Scalar) -> World {
        self.tiling_changed(
            if (Scalar { bits: RATIO_FLOOR }).below(ratio) {
                TilingConfig { master_ratio: ratio, ..self.config.tiling }
            } else {
                self.config.tiling
            },
        )
    }

    /// The press of `sym` while `mods` are in effect.
    pub open spec fn press(mods: ModifiersState, sym: u32) -> KeyPress {
        KeyPress {
            modifiers: ModMask {
                logo: mods.logo,
                ctrl: mods.ctrl,
                alt: mods.alt,
                shift: mods.shift,
            },
            keysym: sym,
        }
    }

    /// `sym` switches virtual terminals.
    pub open spec fn switches_vt(sym: u32) -> bool {
        VT_SWITCH_1 <= sym <= VT_SWITCH_12
    }

    /// The action that a key is bound to: while the session is locked only
    /// the bindings made for that count, and otherwise only the others.
    pub open spec fn key_action(self, mods: ModifiersState, sym: u32) -> Option<Action> {
        if self.locked {
            bound(self.config.lock_keys, World::press(mods, sym))
        } else {
            bound(self.config.keys, World::press(mods, sym))
        }
    }

    pub open spec fn key_handled(self, mods: ModifiersState, sym: u32) -> World {
        if World::switches_vt(sym) {
            self.emit(Effect::ChangeVt((sym - VT_SWITCH_1 + 1) as i32))
        } else {
            match self.key_action(mods, sym) {
                Some(action) => self.acted(action),
                None => self,
            }
        }
    }

    /// With the configured commands first among those to be carried out.
    pub open spec fn commands_queued(self) -> World {
        World { backlog: self.config.commands + self.backlog, ..self }
    }

    pub open spec fn spawned_all(self, commands: Seq<String>) -> World
        decreases commands.len(),
    {
        if commands.len() == 0 {
            self
        } else {
            self.spawned_all(commands.drop_last()).emit(Effect::Spawn(commands.last()))
        }
    }

    /// With the autostart commands run, if they were not yet.
    pub open spec fn autostarted(self) -> World {
        if self.done_autostart {
            self
        } else {
            World {
                done_autostart: true,
                ..self.spawned_all(self.config.autostarts)
            }.commands_queued()
        }
    }

    pub open spec fn reconfigured(self, config: Settings) -> World {
        World { config, ..self }.emit(Effect::ApplyKeyboardLayout).commands_queued()
    }

    // Gestures.

    /// With the tag switch on `output`, if there is one, driven by
    /// `animation`.
    pub open spec fn slide_driven(self, output: OutputId, animation: Animation) -> World {
        match lookup(self.slides, output) {
            Some(slide) => World {
                slides: filed(self.slides, output, Slide { animation, ..slide }),
                ..self
            },
            None => self,
        }
    }

    /// With the boxes of `keys`, those that are in motion, held at
    /// `progress`.
    pub open spec fn morphs_held(self, keys: Seq<SurfaceId>, progress: Scalar) -> World
        decreases keys.len(),
    {
        if keys.len() == 0 {
            self
        } else {
            let before = self.morphs_held(keys.drop_last(), progress);
            match lookup(before.morphs, keys.last()) {
                Some(morph) => World {
                    morphs: filed(
                        before.morphs,
                        keys.last(),
                        WindowMorph { animation: Animation::held(progress), ..morph },
                    ),
                    ..before
                },
                None => before,
            }
        }
    }

    /// With the boxes of `keys`, those that are in motion, let go to their
    /// end.
    pub open spec fn morphs_released(self, keys: Seq<SurfaceId>) -> World
        decreases keys.len(),
    {
        if keys.len() == 0 {
            self
        } else {
            let before = self.morphs_released(keys.drop_last());
            match lookup(before.morphs, keys.last()) {
                Some(morph) => World {
                    morphs: filed(
                        before.morphs,
                        keys.last(),
                        WindowMorph {
                            animation: morph.animation.released(
                                self.now,
                                Scalar { bits: ONE },
                                World::release_time(),
                                morph.eased,
                            ),
                            ..morph
                        },
                    ),
                    ..before
                },
                None => before,
            }
        }
    }

    pub open spec fn release_time() -> u64 {
        (RELEASE_DURATION_MS * MILLISECOND) as u64
    }

    /// The boxes of `after` that are new or headed elsewhere than in
    /// `before`.
    pub open spec fn redirected(
        before: Seq<(SurfaceId, WindowMorph)>,
        after: Seq<(SurfaceId, WindowMorph)>,
    ) -> Seq<SurfaceId> {
        after.filter(
            |entry: (SurfaceId, WindowMorph)| World::is_redirected(before, entry.0, entry.1),
        ).map_values(|entry: (SurfaceId, WindowMorph)| entry.0)
    }

    pub open spec fn is_redirected(
        before: Seq<(SurfaceId, WindowMorph)>,
        key: SurfaceId,
        morph: WindowMorph,
    ) -> bool {
        match lookup(before, key) {
            Some(old) => old.to != morph.to,
            None => true,
        }
    }

    /// The boxes that `action` sets in motion or redirects.
    pub open spec fn set_in_motion(self, action: Action) -> Seq<SurfaceId> {
        World::redirected(self.morphs, self.acted(action).morphs)
    }

    /// What a swipe that takes a direction bound to `action` starts, and what
    /// it drives from there on.
    pub open spec fn swipe_started(self, action: Action) -> (World, Driven) {
        let zero = Scalar { bits: ZERO };
        match inverse(action) {
            Some(undo) => {
                let keys = self.set_in_motion(action);
                let held = self.acted(action).morphs_held(keys, zero);
                if keys.len() == 0 {
                    (held, Driven::Discrete { action: None })
                } else if sends(action) is Some {
                    (held, Driven::Output { keys, undo })
                } else {
                    (held, Driven::Stack { keys, undo })
                }
            },
            None => if steps(action) {
                let output = self.outputs.focused;
                let after = self.acted(action);
                if after.outputs.tag_of(output) == self.outputs.tag_of(output) {
                    (after, Driven::Discrete { action: None })
                } else {
                    (
                        after.slide_driven(output, Animation::held(zero)),
                        Driven::Tag { output },
                    )
                }
            } else {
                (self, Driven::Discrete { action: Some(action) })
            },
        }
    }

    /// With what a swipe drives at `progress`.
    pub open spec fn swipe_driven(self, kind: Driven, progress: Scalar) -> World {
        match kind {
            Driven::Tag { output } => self.slide_driven(output, Animation::held(progress)),
            Driven::Stack { keys, .. } => self.morphs_held(keys, progress),
            Driven::Output { keys, .. } => self.morphs_held(keys, progress),
            Driven::Discrete { .. } => self,
        }
    }

    /// The action that a swipe is bound to.
    pub open spec fn swipe_action(self, fingers: u32, total: (Scalar, Scalar)) -> Option<Action> {
        bound(self.config.gestures, Swipe { fingers, direction: heading(total) })
    }

    /// With the swipe in progress, if there is one, gone as far as `total`;
    /// `across` and `down` are the shares of the gesture's distance that it
    /// has gone along either axis.
    pub open spec fn swiped(
        self,
        total: (Scalar, Scalar),
        across: Scalar,
        down: Scalar,
    ) -> World {
        match self.gesture {
            None => self,
            Some(gesture) => if gesture.resolved is None && undecided(total) {
                World { gesture: Some(Gesture { total, ..gesture }), ..self }
            } else {
                let taken = World { gesture: None, ..self };
                let (started, direction, kind) = match gesture.resolved {
                    Some(course) => (taken, course.direction, course.kind),
                    None => match self.swipe_action(gesture.fingers, total) {
                        Some(action) => (
                            taken.swipe_started(action).0,
                            heading(total),
                            taken.swipe_started(action).1,
                        ),
                        None => (taken, heading(total), Driven::Discrete { action: None }),
                    },
                };
                let progress = along(direction, across, down).clamped();
                World {
                    gesture: Some(
                        Gesture {
                            total,
                            resolved: Some(Course { direction, kind, progress }),
                            ..gesture
                        },
                    ),
                    ..started.swipe_driven(kind, progress)
                }.emit(Effect::Render)
            },
        }
    }

    /// What the end of a swipe has to carry out: its action if it is carried
    /// through, or what reverts its start if it is not.
    pub open spec fn release_action(course: Course, cancelled: bool) -> Option<Action> {
        let commit = World::commits(course, cancelled);
        match course.kind {
            Driven::Tag { .. } => None,
            Driven::Stack { undo, .. } => if commit {
                None
            } else {
                Some(undo)
            },
            Driven::Output { undo, .. } => if commit {
                None
            } else {
                Some(undo)
            },
            Driven::Discrete { action } => if commit {
                action
            } else {
                None
            },
        }
    }

    /// The swipe is carried through: it was not cancelled and has gone far
    /// enough.
    pub open spec fn commits(course: Course, cancelled: bool) -> bool {
        !cancelled && (Scalar { bits: COMMIT_THRESHOLD }).at_most(course.progress)
    }

    /// With the swipe in progress, if there is one, released.
    pub open spec fn swipe_ended(self, cancelled: bool) -> World {
        match self.gesture {
            None => self,
            Some(gesture) => {
                let taken = World { gesture: None, ..self };
                match gesture.resolved {
                    None => taken,
                    Some(course) => {
                        let commit = World::commits(course, cancelled);
                        let settled = match course.kind {
                            Driven::Tag { output } => match lookup(taken.slides, output) {
                                Some(slide) => taken.slide_driven(
                                    output,
                                    slide.animation.released(
                                        self.now,
                                        Scalar {
                                            bits: if commit {
                                                ONE
                                            } else {
                                                ZERO
                                            },
                                        },
                                        World::release_time(),
                                        slide.eased,
                                    ),
                                ),
                                None => taken,
                            },
                            Driven::Stack { keys, undo } => if commit {
                                taken.morphs_released(keys)
                            } else {
                                taken.acted(undo)
                            },
                            Driven::Output { keys, undo } => if commit {
                                taken.morphs_released(keys)
                            } else {
                                taken.acted(undo)
                            },
                            Driven::Discrete { action } => match action {
                                Some(action) => if commit {
                                    taken.acted(action)
                                } else {
                                    taken
                                },
                                None => taken,
                            },
                        };
                        settled.emit(Effect::Render)
                    },
                }
            },
        }
    }

    // The session lock.

    /// Every mapped output shows nothing but the lock.
    pub open spec fn all_blanked(self) -> bool {
        forall|i: int|
            0 <= i < self.screens.len() ==> self.blanked.contains((#[trigger] self.screens[i]).0)
    }

    /// With the lock confirmed, if it is wanted and every mapped output is
    /// blanked.
    pub open spec fn lock_tried(self) -> World {
        if self.locked && self.all_blanked() && self.pending_locker {
            World { pending_locker: false, ..self }.emit(Effect::ConfirmLock)
        } else {
            self
        }
    }

    pub open spec fn locked_session(self) -> World {
        World { locked: true, pending_locker: true, ..self }.lock_tried()
    }

    /// With output `id` blanked, if the session is locked.
    pub open spec fn blanked_output(self, id: OutputId) -> World {
        if self.locked {
            World {
                blanked: if self.blanked.contains(id) {
                    self.blanked
                } else {
                    self.blanked.push(id)
                },
                ..self
            }.lock_tried()
        } else {
            self
        }
    }

    /// With the session unlocked and the keyboard back at the focused window.
    pub open spec fn unlocked_session(self) -> World {
        if self.locked {
            World {
                locked: false,
                blanked: Seq::empty(),
                lock_surfaces: Map::empty(),
                lock_focus: None,
                ..self
            }.emit(
                Effect::Focus(
                    match self.windows.focused_info() {
                        Some(info) => Some(info.window.surface),
                        None => None,
                    },
                ),
            ).emit(Effect::Render)
        } else {
            self
        }
    }
}

} // verus!
