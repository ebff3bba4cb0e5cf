//! What a swipe sets in motion, and what becomes of that.
use vstd::prelude::*;

use crate::animation::{Animation, AnimationKind, Slide, WindowMorph};
use crate::config::Action;
use crate::gesture::Driven;
use crate::scalar::Scalar;
use crate::session_laws::lemma_filtered;
use crate::table::{
    files_at, has_key, index_of_key, keys_distinct, lemma_files_at, lemma_lookup_filed, lookup,
};
use crate::window::SurfaceId;
use crate::world::World;

verus! {

/// Boxes that a finger holds are where it holds them, brought between zero and
/// one; every other box goes on as it was.
pub proof fn lemma_boxes_held(w: World, keys: Seq<SurfaceId>, progress: Scalar, key: SurfaceId)
    ensures
        ({
            let t = w.morphs_held(keys, progress);
            &&& t == (World { morphs: t.morphs, ..w })
            &&& lookup(t.morphs, key) == match lookup(w.morphs, key) {
                Some(morph) => if keys.contains(key) {
                    Some(
                        WindowMorph {
                            animation: Animation(
                                AnimationKind::Manual { progress: progress.clamped() },
                            ),
                            ..morph
                        },
                    )
                } else {
                    Some(morph)
                },
                None => None,
            }
        }),
    decreases keys.len(),
{
    if keys.len() > 0 {
        let front = keys.drop_last();
        let last = keys[keys.len() - 1];
        let before = w.morphs_held(front, progress);
        lemma_boxes_held(w, front, progress, key);
        lemma_boxes_held(w, front, progress, last);
        lemma_listed(keys, key);
        match lookup(before.morphs, last) {
            Some(morph) => {
                let held = WindowMorph { animation: Animation::held(progress), ..morph };
                lemma_lookup_filed(before.morphs, last, held, key);
            },
            None => {},
        }
    }
}

proof fn lemma_listed(keys: Seq<SurfaceId>, key: SurfaceId)
    requires
        keys.len() > 0,
    ensures
        keys.contains(key) <==> keys.drop_last().contains(key) || key == keys[keys.len() - 1],
{
    let front = keys.drop_last();
    if keys.contains(key) && key != keys[keys.len() - 1] {
        let k = choose|k: int| 0 <= k < keys.len() && keys[k] == key;
        assert(front[k] == key);
    }
    if front.contains(key) {
        let k = choose|k: int| 0 <= k < front.len() && front[k] == key;
        assert(keys[k] == key);
    }
}

/// Boxes that are let go ease from where they are to their end, in a fifth of
/// a second; every other box goes on as it was.
pub proof fn lemma_boxes_released(w: World, keys: Seq<SurfaceId>, key: SurfaceId)
    requires
        keys.no_duplicates(),
    ensures
        ({
            let t = w.morphs_released(keys);
            &&& t == (World { morphs: t.morphs, ..w })
            &&& lookup(t.morphs, key) == match lookup(w.morphs, key) {
                Some(morph) => if keys.contains(key) {
                    Some(
                        WindowMorph {
                            animation: Animation(
                                AnimationKind::Timed {
                                    start: w.now,
                                    duration: 200_000_000,
                                    from: match morph.animation.0 {
                                        AnimationKind::Manual { progress } => progress,
                                        AnimationKind::Timed { .. } => morph.eased,
                                    },
                                    to: Scalar { bits: 0x3FF0_0000_0000_0000 },
                                },
                            ),
                            ..morph
                        },
                    )
                } else {
                    Some(morph)
                },
                None => None,
            }
        }),
    decreases keys.len(),
{
    if keys.len() > 0 {
        let front = keys.drop_last();
        let last = keys[keys.len() - 1];
        let before = w.morphs_released(front);
        lemma_boxes_released(w, front, key);
        lemma_boxes_released(w, front, last);
        lemma_listed(keys, key);
        assert(!front.contains(last)) by {
            if front.contains(last) {
                let k = choose|k: int| 0 <= k < front.len() && front[k] == last;
                assert(keys[k] == keys[keys.len() - 1]);
            }
        }
        match lookup(before.morphs, last) {
            Some(morph) => {
                let animation = morph.animation.released(
                    w.now,
                    Scalar { bits: crate::scalar::ONE },
                    World::release_time(),
                    morph.eased,
                );
                lemma_lookup_filed(
                    before.morphs,
                    last,
                    WindowMorph { animation, ..morph },
                    key,
                );
            },
            None => {},
        }
    }
}

/// What an action sets in motion are the boxes that were not on their way
/// before, or to somewhere else.
pub proof fn lemma_set_in_motion(
    before: Seq<(SurfaceId, WindowMorph)>,
    after: Seq<(SurfaceId, WindowMorph)>,
    key: SurfaceId,
)
    requires
        keys_distinct(after),
    ensures
        World::redirected(before, after).contains(key) <==> (lookup(after, key) matches Some(now)
            && (lookup(before, key) matches Some(was) ==> was.to != now.to)),
{
    let pred = |entry: (SurfaceId, WindowMorph)| World::is_redirected(before, entry.0, entry.1);
    let kept = after.filter(pred);
    let keys = World::redirected(before, after);
    if keys.contains(key) {
        let k = choose|k: int| 0 <= k < keys.len() && keys[k] == key;
        assert(kept[k].0 == key);
        assert(kept.contains(kept[k]));
        lemma_filtered(after, pred, kept[k]);
        let j = choose|j: int| 0 <= j < after.len() && after[j] == kept[k];
        assert(files_at(after, key, j));
        lemma_files_at(after, key, j);
    }
    if has_key(after, key) {
        let j = index_of_key(after, key);
        assert(files_at(after, key, j));
        assert(after.contains(after[j]));
        lemma_filtered(after, pred, after[j]);
        if kept.contains(after[j]) {
            let k = choose|k: int| 0 <= k < kept.len() && kept[k] == after[j];
            assert(keys[k] == key);
        }
    }
}

/// A swipe bound to a step of the tags takes that step at once and drives the
/// switch from its start; where there is no such tag it drives nothing. One
/// bound to a move of windows makes the move at once, with the boxes that it
/// sets in motion held at their start, and remembers the opposite move; where
/// nothing moves it drives nothing. Any other action waits for the end of the
/// swipe.
pub proof fn lemma_swipe_starts(w: World, action: Action)
    ensures
        ({
            let (t, kind) = w.swipe_started(action);
            let done = w.acted(action);
            let output = w.outputs.focused;
            let turned = done.outputs.tag_of(output) != w.outputs.tag_of(output);
            &&& action is FocusNextTag || action is FocusPreviousTag ==> {
                &&& t.outputs == done.outputs
                &&& t.windows == done.windows
                &&& turned ==> kind == Driven::Tag { output }
                &&& turned ==> (lookup(done.slides, output) matches Some(was) ==> lookup(
                    t.slides,
                    output,
                ) == Some(
                    Slide {
                        animation: Animation(
                            AnimationKind::Manual { progress: Scalar { bits: 0 } },
                        ),
                        ..was
                    },
                ))
                &&& !turned ==> t == done && kind == (Driven::Discrete { action: None })
            }
            &&& action is MoveUpStack ==> moves(w, action, Action::MoveDownStack, false)
            &&& action is MoveDownStack ==> moves(w, action, Action::MoveUpStack, false)
            &&& action is MoveOutputLeft ==> moves(w, action, Action::MoveOutputRight, true)
            &&& action is MoveOutputRight ==> moves(w, action, Action::MoveOutputLeft, true)
            &&& action is MoveOutputUp ==> moves(w, action, Action::MoveOutputDown, true)
            &&& action is MoveOutputDown ==> moves(w, action, Action::MoveOutputUp, true)
            &&& !(action is FocusNextTag || action is FocusPreviousTag || action is MoveUpStack
                || action is MoveDownStack || action is MoveOutputLeft || action is MoveOutputRight
                || action is MoveOutputUp || action is MoveOutputDown) ==> t == w && kind == (
            Driven::Discrete { action: Some(action) })
        }),
{
    let done = w.acted(action);
    let output = w.outputs.focused;
    let keys = World::redirected(w.morphs, done.morphs);
    lemma_boxes_held(done, keys, Scalar { bits: 0 }, SurfaceId(0));
    match lookup(done.slides, output) {
        Some(was) => lemma_lookup_filed(
            done.slides,
            output,
            Slide { animation: Animation::held(Scalar { bits: 0 }), ..was },
            output,
        ),
        None => {},
    }
}

/// A swipe that makes the move `action` remembers `undo`, and whether that
/// goes to another output.
pub open spec fn moves(w: World, action: Action, undo: Action, sent: bool) -> bool {
    let (t, kind) = w.swipe_started(action);
    let done = w.acted(action);
    let keys = World::redirected(w.morphs, done.morphs);
    &&& t.windows == done.windows
    &&& t.outputs == done.outputs
    &&& t.elements == done.elements
    &&& t.morphs == done.morphs_held(keys, Scalar { bits: 0 }).morphs
    &&& kind == if keys.len() == 0 {
        Driven::Discrete { action: None }
    } else if sent {
        Driven::Output { keys, undo }
    } else {
        Driven::Stack { keys, undo }
    }
}

/// A swipe that moves windows holds their boxes as far as it has come, and
/// carried through lets them run to their end.
pub proof fn lemma_swipe_moves_boxes(
    w: World,
    kind: Driven,
    keys: Seq<SurfaceId>,
    undo: Action,
    progress: Scalar,
)
    requires
        kind == (Driven::Stack { keys, undo }) || kind == (Driven::Output { keys, undo }),
    ensures
        w.swipe_driven(kind, progress) == w.morphs_held(keys, progress),
        (w.gesture matches Some(gesture) && gesture.resolved matches Some(course) && course.kind
            == kind && (Scalar { bits: 0x3FE0_0000_0000_0000 }).at_most(course.progress))
            ==> w.swipe_ended(false).morphs == w.morphs_released(keys).morphs,
{
    let taken = World { gesture: None, ..w };
    lemma_released_alike(w, taken, keys);
}

proof fn lemma_released_alike(a: World, b: World, keys: Seq<SurfaceId>)
    requires
        a.morphs == b.morphs,
        a.now == b.now,
    ensures
        a.morphs_released(keys).morphs == b.morphs_released(keys).morphs,
    decreases keys.len(),
{
    if keys.len() > 0 {
        lemma_released_alike(a, b, keys.drop_last());
    }
}

} // verus!
