//! Touchpad swipes.
use vstd::prelude::*;

use crate::animation::{Animation, Slide, WindowMorph, MILLISECOND};
use crate::config::Action;
use crate::effect::Effect;
use crate::gesture::{
    along, direction_of, inverse, is_undecided, undecided, undo_of, ActiveGesture, Course, Gesture,
    GestureDirection, Resolved, ResolvedKind, COMMIT_THRESHOLD, RELEASE_DURATION_MS,
};
use crate::output::OutputId;
use crate::scalar::{Scalar, ONE, ZERO};
use crate::state::actions::lemma_acted_wf;
use crate::state::Alice;
use crate::table::{files_at, index_of_key, lemma_files_at, lemma_no_key, lookup};
use crate::window::SurfaceId;
use crate::world::{sound_slide, World};
use crate::world_actions::steps;
use crate::world_laws::lemma_slide_filed_wf;

verus! {

broadcast use crate::table::group_keys_distinct;

pub proof fn lemma_slide_driven_wf(w: World, output: OutputId, animation: Animation)
    requires
        w.wf(),
    ensures
        w.slide_driven(output, animation).wf(),
        w.slide_driven(output, animation) == (World {
            slides: w.slide_driven(output, animation).slides,
            ..w
        }),
{
    match lookup(w.slides, output) {
        Some(slide) => {
            let i = index_of_key(w.slides, output);
            assert(files_at(w.slides, output, i));
            assert(w.outputs.has(w.slides[i].0) && sound_slide(w.slides[i].1));
            lemma_slide_filed_wf(w, output, Slide { animation, ..slide });
        },
        None => {},
    }
}

pub proof fn lemma_morphs_held(w: World, keys: Seq<SurfaceId>, progress: Scalar)
    ensures
        w.morphs_held(keys, progress) == (World {
            morphs: w.morphs_held(keys, progress).morphs,
            ..w
        }),
        w.morphs_released(keys) == (World { morphs: w.morphs_released(keys).morphs, ..w }),
        w.wf() ==> w.morphs_held(keys, progress).wf(),
        w.wf() ==> w.morphs_released(keys).wf(),
    decreases keys.len(),
{
    if keys.len() > 0 {
        lemma_morphs_held(w, keys.drop_last(), progress);
    }
}

/// What a swipe starts keeps the state sound.
pub proof fn lemma_swipe_started_wf(w: World, action: Action)
    requires
        w.wf(),
        w.swipe_ready(action),
    ensures
        w.swipe_started(action).0.wf(),
        w.swipe_started(action).0.outputs.infos.len() == w.outputs.infos.len(),
{
    let zero = Scalar { bits: ZERO };
    if inverse(action) is Some {
        lemma_acted_wf(w, action);
        lemma_morphs_held(w.acted(action), w.set_in_motion(action), zero);
    } else if steps(action) {
        lemma_acted_wf(w, action);
        lemma_slide_driven_wf(w.acted(action), w.outputs.focused, Animation::held(zero));
    }
}

/// What `entries` hold under `key`.
fn entry_of(entries: &Vec<(SurfaceId, WindowMorph)>, key: SurfaceId) -> (r: Option<WindowMorph>)
    ensures
        r == lookup(entries@, key),
{
    let mut i: usize = 0;
    while i < entries.len()
        invariant
            i <= entries.len(),
            forall|j: int| 0 <= j < i ==> (#[trigger] entries@[j]).0 != key,
        decreases entries.len() - i,
    {
        if entries[i].0 == key {
            proof {
                lemma_files_at(entries@, key, i as int);
            }
            return Some(entries[i].1);
        }
        i += 1;
    }
    proof {
        lemma_no_key(entries@, key);
    }
    None
}

impl Alice {
    /// Starts tracking a swipe.
    pub fn gesture_begin(&mut self, fingers: u32)
        requires
            old(self)@.wf(),
        ensures
            final(self)@ == (World {
                gesture: Some(
                    Gesture {
                        fingers,
                        total: (Scalar { bits: ZERO }, Scalar { bits: ZERO }),
                        resolved: None,
                    },
                ),
                ..old(self)@
            }),
            final(self)@.wf(),
    {
        self.gesture = Some(ActiveGesture::new(fingers));
    }

    fn drive_slide(&mut self, output: OutputId, animation: Animation)
        requires
            old(self)@.wf(),
        ensures
            final(self)@ == old(self)@.slide_driven(output, animation),
            final(self)@.wf(),
    {
        proof {
            lemma_slide_driven_wf(self@, output, animation);
        }
        if let Some(slide) = self.tag_animations.get_mut(output) {
            slide.animation = animation;
        }
    }

    fn hold_morphs(&mut self, keys: &Vec<SurfaceId>, progress: Scalar)
        ensures
            final(self)@ == old(self)@.morphs_held(keys@, progress),
    {
        let mut i: usize = 0;
        assert(keys@.take(0) =~= Seq::<SurfaceId>::empty());
        while i < keys.len()
            invariant
                i <= keys.len(),
                self@ == old(self)@.morphs_held(keys@.take(i as int), progress),
            decreases keys.len() - i,
        {
            assert(keys@.take(i + 1).drop_last() =~= keys@.take(i as int));
            if let Some(morph) = self.window_morphs.get_mut(keys[i]) {
                morph.animation = Animation::manual(progress);
            }
            i += 1;
        }
        assert(keys@.take(i as int) =~= keys@);
    }

    fn release_morphs(&mut self, keys: &Vec<SurfaceId>)
        ensures
            final(self)@ == old(self)@.morphs_released(keys@),
    {
        let now = self.now;
        let release_time: u64 = RELEASE_DURATION_MS * MILLISECOND;
        let mut i: usize = 0;
        assert(keys@.take(0) =~= Seq::<SurfaceId>::empty());
        while i < keys.len()
            invariant
                i <= keys.len(),
                now == old(self)@.now,
                release_time == World::release_time(),
                self@ == old(self)@.morphs_released(keys@.take(i as int)),
            decreases keys.len() - i,
        {
            assert(keys@.take(i + 1).drop_last() =~= keys@.take(i as int));
            if let Some(morph) = self.window_morphs.get_mut(keys[i]) {
                morph.animation =
                morph.animation.release_to(
                    now,
                    Scalar { bits: ONE },
                    release_time,
                    morph.eased,
                );
            }
            i += 1;
        }
        assert(keys@.take(i as int) =~= keys@);
    }

    /// The boxes in motion, in order.
    fn morphs_now(&self) -> (morphs: Vec<(SurfaceId, WindowMorph)>)
        ensures
            morphs@ == self@.morphs,
    {
        let ghost all = self@.morphs;
        let mut morphs: Vec<(SurfaceId, WindowMorph)> = Vec::new();
        let n = self.window_morphs.len();
        let mut i: usize = 0;
        while i < n
            invariant
                i <= n,
                n == all.len(),
                self@.morphs == all,
                morphs@ == all.take(i as int),
            decreases n - i,
        {
            let (key, morph) = self.window_morphs.at(i);
            assert(all.take(i + 1) =~= all.take(i as int).push(all[i as int]));
            morphs.push((key, *morph));
            i += 1;
        }
        assert(all.take(i as int) =~= all);
        morphs
    }

    /// The boxes in motion that are new or headed elsewhere than in
    /// `targets`.
    fn redirected_since(&self, targets: &Vec<(SurfaceId, WindowMorph)>) -> (keys: Vec<SurfaceId>)
        ensures
            keys@ == World::redirected(targets@, self@.morphs),
    {
        let ghost before = targets@;
        let ghost after = self@.morphs;
        let ghost changed = |entry: (SurfaceId, WindowMorph)|
            World::is_redirected(before, entry.0, entry.1);
        let ghost name = |entry: (SurfaceId, WindowMorph)| entry.0;
        let mut keys: Vec<SurfaceId> = Vec::new();
        let m = self.window_morphs.len();
        let mut i: usize = 0;
        proof {
            reveal(Seq::filter);
            assert(after.take(0) =~= Seq::<(SurfaceId, WindowMorph)>::empty());
            assert(keys@ =~= after.take(0).filter(changed).map_values(name));
        }
        while i < m
            invariant
                i <= m,
                m == after.len(),
                self@.morphs == after,
                targets@ == before,
                changed == (|entry: (SurfaceId, WindowMorph)|
                    World::is_redirected(before, entry.0, entry.1)),
                name == (|entry: (SurfaceId, WindowMorph)| entry.0),
                keys@ == after.take(i as int).filter(changed).map_values(name),
            decreases m - i,
        {
            let (key, morph) = self.window_morphs.at(i);
            let moved = match entry_of(targets, key) {
                Some(old_morph) => old_morph.to != morph.to,
                None => true,
            };
            proof {
                reveal(Seq::filter);
                assert(after.take(i + 1).drop_last() =~= after.take(i as int));
            }
            let ghost known = after.take(i as int).filter(changed);
            if moved {
                keys.push(key);
                assert(after.take(i + 1).filter(changed) =~= known.push(after[i as int]));
            } else {
                assert(after.take(i + 1).filter(changed) =~= known);
            }
            i += 1;
            assert(keys@ =~= after.take(i as int).filter(changed).map_values(name));
        }
        assert(after.take(i as int) =~= after);
        keys
    }

    /// Carries out `action` and returns the boxes that it set in motion or
    /// redirected, held where they start.
    fn start_diffing_gesture(&mut self, action: Action) -> (keys: Vec<SurfaceId>)
        requires
            old(self)@.wf(),
            old(self)@.ready(action),
        ensures
            keys@ == old(self)@.set_in_motion(action),
            final(self)@ == old(self)@.acted(action).morphs_held(
                keys@,
                Scalar { bits: ZERO },
            ),
            final(self)@.wf(),
    {
        let targets = self.morphs_now();
        proof {
            lemma_acted_wf(self@, action);
        }
        self.handle_action(action);
        let keys = self.redirected_since(&targets);
        proof {
            lemma_morphs_held(self@, keys@, Scalar { bits: ZERO });
        }
        self.hold_morphs(&keys, Scalar { bits: ZERO });
        keys
    }

    /// Carries out `action` as if a key had triggered it and, if it set
    /// something in motion that a finger can drive, takes hold of that.
    fn start_resolved_gesture(&mut self, action: Action) -> (kind: ResolvedKind)
        requires
            old(self)@.wf(),
            old(self)@.swipe_ready(action),
        ensures
            (final(self)@, kind@) == old(self)@.swipe_started(action),
            final(self)@.wf(),
    {
        proof {
            lemma_swipe_started_wf(self@, action);
        }
        match action {
            Action::MoveUpStack | Action::MoveDownStack => {
                let undo = undo_of(&action);
                let keys = self.start_diffing_gesture(action);
                if keys.len() == 0 {
                    return ResolvedKind::Discrete { action: None };
                }
                match undo {
                    Some(undo) => ResolvedKind::Stack { keys, undo },
                    None => ResolvedKind::Discrete { action: None },
                }
            },
            Action::MoveOutputLeft
            | Action::MoveOutputRight
            | Action::MoveOutputUp
            | Action::MoveOutputDown => {
                let undo = undo_of(&action);
                let keys = self.start_diffing_gesture(action);
                if keys.len() == 0 {
                    return ResolvedKind::Discrete { action: None };
                }
                match undo {
                    Some(undo) => ResolvedKind::Output { keys, undo },
                    None => ResolvedKind::Discrete { action: None },
                }
            },
            Action::FocusNextTag | Action::FocusPreviousTag => {
                let output = self.outputs.get_focused().id;
                let tag_before = self.outputs.get_focused_tag(output);
                self.handle_action(action);
                let tag_after = self.outputs.get_focused_tag(output);
                if tag_before == tag_after {
                    return ResolvedKind::Discrete { action: None };
                }
                self.drive_slide(output, Animation::manual(Scalar { bits: ZERO }));
                ResolvedKind::Tag { output }
            },
            other => ResolvedKind::Discrete { action: Some(other) },
        }
    }

    /// The action that the swipe in progress starts once it has gone as far
    /// as `total`.
    pub fn swipe_action(&self, total: (Scalar, Scalar)) -> (action: Option<Action>)
        ensures
            action == match self@.gesture {
                Some(gesture) => if gesture.resolved is None && !undecided(total) {
                    self@.swipe_action(gesture.fingers, total)
                } else {
                    None
                },
                None => None,
            },
    {
        let Some(gesture) = &self.gesture else {
            return None;
        };
        if gesture.resolved.is_some() || is_undecided(total) {
            return None;
        }
        match self.config.get_gesture(gesture.fingers, direction_of(total)) {
            Some(action) => Some(action.clone()),
            None => None,
        }
    }

    /// Whether a swipe can start `action` now.
    pub fn is_swipe_ready(&self, action: &Action) -> (r: bool)
        ensures
            r == self@.swipe_ready(*action),
    {
        match action {
            Action::FocusNextTag | Action::FocusPreviousTag => self.is_ready(action)
                && self.has_focused_output(),
            _ => self.is_ready(action),
        }
    }

    /// Takes the swipe in progress as far as `total`. Once it leaves the dead
    /// zone it takes a direction and starts what that is bound to; from there
    /// on it drives what it started. `across` and `down` are the shares of
    /// the gesture's distance that it has gone along either axis.
    pub fn gesture_update(&mut self, total: (Scalar, Scalar), across: Scalar, down: Scalar)
        requires
            old(self)@.wf(),
            match old(self)@.gesture {
                Some(gesture) => gesture.resolved is None && !undecided(total)
                    && old(self)@.swipe_action(gesture.fingers, total) is Some
                    ==> old(self)@.swipe_ready(
                    old(self)@.swipe_action(gesture.fingers, total)->0,
                ),
                None => true,
            },
        ensures
            final(self)@ == old(self)@.swiped(total, across, down),
            final(self)@.wf(),
    {
        let pending = self.swipe_action(total);
        let Some(mut gesture) = self.gesture.take() else {
            return;
        };
        gesture.total = total;
        let resolved = match gesture.resolved {
            Some(resolved) => resolved,
            None => {
                if is_undecided(total) {
                    self.gesture = Some(ActiveGesture { fingers: gesture.fingers, total, resolved: None });
                    return;
                }
                let direction = direction_of(total);
                let kind = match pending {
                    Some(action) => self.start_resolved_gesture(action),
                    None => ResolvedKind::Discrete { action: None },
                };
                Resolved { direction, kind, progress: Scalar { bits: ZERO } }
            },
        };
        self.carry_swipe(gesture.fingers, total, resolved, across, down);
    }

    /// Brings what a swipe drives to `progress`.
    fn drive_swipe(&mut self, kind: &ResolvedKind, progress: Scalar)
        requires
            old(self)@.wf(),
        ensures
            final(self)@ == old(self)@.swipe_driven(kind@, progress),
            final(self)@.wf(),
    {
        match kind {
            ResolvedKind::Tag { output } => {
                self.drive_slide(*output, Animation::manual(progress));
            },
            ResolvedKind::Stack { keys, .. } => {
                proof {
                    lemma_morphs_held(self@, keys@, progress);
                }
                self.hold_morphs(keys, progress);
            },
            ResolvedKind::Output { keys, .. } => {
                proof {
                    lemma_morphs_held(self@, keys@, progress);
                }
                self.hold_morphs(keys, progress);
            },
            ResolvedKind::Discrete { .. } => {},
        }
    }

    /// Carries a swipe that has taken a direction on to `total`.
    fn carry_swipe(
        &mut self,
        fingers: u32,
        total: (Scalar, Scalar),
        resolved: Resolved,
        across: Scalar,
        down: Scalar,
    )
        requires
            old(self)@.wf(),
        ensures
            final(self)@ == ({
                let progress = along(resolved.direction, across, down).clamped();
                (World {
                    gesture: Some(
                        Gesture {
                            fingers,
                            total,
                            resolved: Some(
                                Course {
                                    direction: resolved.direction,
                                    kind: resolved.kind@,
                                    progress,
                                },
                            ),
                        },
                    ),
                    ..old(self)@.swipe_driven(resolved.kind@, progress)
                }).emit(Effect::Render)
            }),
            final(self)@.wf(),
    {
        let share = match resolved.direction {
            GestureDirection::Up | GestureDirection::Down => down,
            GestureDirection::Left | GestureDirection::Right => across,
        };
        let progress = share.clamp_unit();
        self.drive_swipe(&resolved.kind, progress);
        self.gesture =
        Some(
            ActiveGesture {
                fingers,
                total,
                resolved: Some(
                    Resolved { direction: resolved.direction, kind: resolved.kind, progress },
                ),
            },
        );
        self.emit(Effect::Render);
    }

    /// The action that releasing the swipe in progress carries out.
    pub fn release_action(&self, cancelled: bool) -> (action: Option<Action>)
        ensures
            action == match self@.gesture {
                Some(gesture) => match gesture.resolved {
                    Some(course) => World::release_action(course, cancelled),
                    None => None,
                },
                None => None,
            },
    {
        let Some(gesture) = &self.gesture else {
            return None;
        };
        let Some(resolved) = &gesture.resolved else {
            return None;
        };
        let commit = !cancelled && (Scalar { bits: COMMIT_THRESHOLD }).le(&resolved.progress);
        match &resolved.kind {
            ResolvedKind::Tag { .. } => None,
            ResolvedKind::Stack { undo, .. } => if commit {
                None
            } else {
                Some(undo.clone())
            },
            ResolvedKind::Output { undo, .. } => if commit {
                None
            } else {
                Some(undo.clone())
            },
            ResolvedKind::Discrete { action } => match action {
                Some(action) => if commit {
                    Some(action.clone())
                } else {
                    None
                },
                None => None,
            },
        }
    }

    fn release_slide(&mut self, output: OutputId, commit: bool)
        requires
            old(self)@.wf(),
        ensures
            final(self)@ == match lookup(old(self)@.slides, output) {
                Some(slide) => old(self)@.slide_driven(
                    output,
                    slide.animation.released(
                        old(self)@.now,
                        Scalar {
                            bits: if commit {
                                ONE
                            } else {
                                ZERO
                            },
                        },
                        World::release_time(),
                        slide.eased,
                    ),
                ),
                None => old(self)@,
            },
            final(self)@.wf(),
    {
        let target = Scalar {
            bits: if commit {
                ONE
            } else {
                ZERO
            },
        };
        let released = match self.tag_animations.get(output) {
            Some(slide) => slide.animation.release_to(
                self.now,
                target,
                RELEASE_DURATION_MS * MILLISECOND,
                slide.eased,
            ),
            None => return,
        };
        self.drive_slide(output, released);
    }

    /// Ends the swipe in progress: what it drives settles at its end if it
    /// was not `cancelled` and has gone far enough, and otherwise where it
    /// started.
    pub fn gesture_end(&mut self, cancelled: bool)
        requires
            old(self)@.wf(),
            match old(self)@.gesture {
                Some(gesture) => match gesture.resolved {
                    Some(course) => World::release_action(course, cancelled) is Some
                        ==> old(self)@.ready(World::release_action(course, cancelled)->0),
                    None => true,
                },
                None => true,
            },
        ensures
            final(self)@ == old(self)@.swipe_ended(cancelled),
            final(self)@.wf(),
    {
        let Some(gesture) = self.gesture.take() else {
            return;
        };
        let Some(resolved) = gesture.resolved else {
            return;
        };
        let commit = !cancelled && (Scalar { bits: COMMIT_THRESHOLD }).le(&resolved.progress);
        match resolved.kind {
            ResolvedKind::Tag { output } => {
                self.release_slide(output, commit);
            },
            ResolvedKind::Stack { keys, undo } => {
                if commit {
                    proof {
                        lemma_morphs_held(self@, keys@, Scalar { bits: ZERO });
                    }
                    self.release_morphs(&keys);
                } else {
                    self.handle_action(undo);
                }
            },
            ResolvedKind::Output { keys, undo } => {
                if commit {
                    proof {
                        lemma_morphs_held(self@, keys@, Scalar { bits: ZERO });
                    }
                    self.release_morphs(&keys);
                } else {
                    self.handle_action(undo);
                }
            },
            ResolvedKind::Discrete { action } => {
                if commit {
                    if let Some(action) = action {
                        self.handle_action(action);
                    }
                }
            },
        }
        self.emit(Effect::Render);
    }
}

} // verus!
