//! What each action, each key and each swipe comes to.
use vstd::prelude::*;

use crate::animation::AnimationKind;
use crate::config::{Action, KeyPress, ModMask, ModifiersState, Settings, TilingConfig};
use crate::effect::Effect;
use crate::gesture::{heading, inverse, undecided, Driven, GestureDirection, Swipe};
use crate::laws::{
    lemma_moved_window_follows, lemma_output_gets_focus, lemma_plain_focus,
    lemma_sent_window_arrives, lemma_shifted_once, lemma_switch_turns_output, lemma_toggled_flag,
};
use crate::layout::{Rect, Tile};
use crate::output::{lemma_active_ids, Direction, LayoutKind, LayoutScope, OutputId, TagId};
use crate::scalar::{double, lemma_double, lemma_double_size, lemma_small_doubles, Scalar};
use crate::state::gestures::lemma_morphs_held;
use crate::table::{lemma_lookup_filed, lookup};
use crate::window::{lemma_index_of_first, SurfaceId, WindowId};
use crate::world::{comes_first, World};
use crate::world_laws::{
    lemma_focus_changed_wf, lemma_focused_found, lemma_nearest, lemma_relaid_wf,
    lemma_restacked_calm, lemma_slid_wf,
};

verus! {

// Tags.

/// The focused output shows tag `t`.
pub open spec fn shows(w: World, t: int) -> bool {
    &&& w.outputs.focused.0 < w.outputs.infos.len()
    &&& w.outputs.infos[w.outputs.focused.0 as int].current_tag.0 == t
}

/// `b` differs from `a` in no output but the focused one, and in which is
/// focused in none.
pub open spec fn only_focused_turned(a: World, b: World) -> bool {
    &&& b.outputs.focused == a.outputs.focused
    &&& b.outputs.infos.len() == a.outputs.infos.len()
    &&& forall|i: int|
        0 <= i < a.outputs.infos.len() && i != a.outputs.focused.0 ==> b.outputs.infos[i]
            == #[trigger] a.outputs.infos[i]
}

/// Stepping on shows the tag after the one shown, and stepping back the one
/// before it; there is none after the ninth, and none before the first. A step
/// on and a step back, or the other way round, show the same tag again.
pub proof fn lemma_steps(w: World, t: int)
    requires
        w.wf(),
        shows(w, t),
    ensures
        0 <= t < 8 ==> shows(w.acted(Action::FocusNextTag), t + 1),
        t == 8 ==> w.acted(Action::FocusNextTag) == w,
        t > 0 ==> shows(w.acted(Action::FocusPreviousTag), t - 1),
        t == 0 ==> w.acted(Action::FocusPreviousTag) == w,
        t != 8 && t < u32::MAX ==> only_focused_turned(w, w.acted(Action::FocusNextTag)),
        only_focused_turned(w, w.acted(Action::FocusPreviousTag)),
        0 <= t < 8 ==> shows(w.acted(Action::FocusNextTag).acted(Action::FocusPreviousTag), t),
        0 < t <= 8 ==> shows(w.acted(Action::FocusPreviousTag).acted(Action::FocusNextTag), t),
{
    lemma_step(w, t);
    reveal(World::acted);
    if 0 <= t < 8 {
        lemma_slid_wf(w, TagId((t + 1) as u32), 1, None);
        lemma_step(w.acted(Action::FocusNextTag), t + 1);
    }
    if t > 0 {
        lemma_slid_wf(w, TagId((t - 1) as u32), (-1int) as i32, None);
        lemma_step(w.acted(Action::FocusPreviousTag), t - 1);
    }
}

proof fn lemma_step(w: World, t: int)
    requires
        w.wf(),
        shows(w, t),
    ensures
        0 <= t < 8 ==> shows(w.acted(Action::FocusNextTag), t + 1),
        t == 8 ==> w.acted(Action::FocusNextTag) == w,
        t > 0 ==> shows(w.acted(Action::FocusPreviousTag), t - 1),
        t == 0 ==> w.acted(Action::FocusPreviousTag) == w,
        t != 8 && t < u32::MAX ==> only_focused_turned(w, w.acted(Action::FocusNextTag)),
        only_focused_turned(w, w.acted(Action::FocusPreviousTag)),
{
    reveal(World::acted);
    let tag = w.outputs.current_tag()->0;
    if t < u32::MAX && t != 8 {
        lemma_switch_turns_output(w, TagId((t + 1) as u32), 1, None);
    }
    if t > 0 {
        lemma_switch_turns_output(w, TagId((t - 1) as u32), (-1int) as i32, None);
    }
}

/// The next tag slides in from the right and the one before from the left,
/// over the width of the output and in a quarter of a second.
pub proof fn lemma_steps_slide(w: World, t: int)
    requires
        w.wf(),
        shows(w, t),
        lookup(w.screens, w.outputs.focused) matches Some(screen) && screen.width > 0,
    ensures
        ({
            let width = (lookup(w.screens, w.outputs.focused)->0).width;
            &&& 0 <= t < 8 ==> (lookup(
                w.acted(Action::FocusNextTag).slides,
                w.outputs.focused,
            ) matches Some(slide) && slide.direction == 1 && slide.distance == width
                && slide.offset == width && slide.old_tag.0 == t && slide.new_tag.0 == t + 1
                && (slide.animation.0 matches AnimationKind::Timed { start, duration, .. }
                && start == w.now && duration == 250_000_000))
            &&& t > 0 ==> (lookup(
                w.acted(Action::FocusPreviousTag).slides,
                w.outputs.focused,
            ) matches Some(slide) && slide.direction == -1 && slide.distance == width
                && slide.offset == -width && slide.old_tag.0 == t && slide.new_tag.0 == t - 1
                && (slide.animation.0 matches AnimationKind::Timed { start, duration, .. }
                && start == w.now && duration == 250_000_000))
        }),
{
    reveal(World::acted);
    let tag = w.outputs.current_tag()->0;
    if 0 <= t < 8 {
        lemma_switch_turns_output(w, TagId((t + 1) as u32), 1, None);
    }
    if t > 0 {
        lemma_switch_turns_output(w, TagId((t - 1) as u32), (-1int) as i32, None);
    }
}

/// Asking for a tag by its number shows that tag on the focused output and
/// turns no other. A lower tag slides in as the next does, a higher one as the
/// one before.
pub proof fn lemma_tag_by_number(w: World, t: int, tag: TagId)
    requires
        w.wf(),
        shows(w, t),
    ensures
        shows(w.acted(Action::FocusTag(tag)), tag.0 as int),
        only_focused_turned(w, w.acted(Action::FocusTag(tag))),
        tag.0 == t ==> w.acted(Action::FocusTag(tag)) == w,
        (lookup(w.screens, w.outputs.focused) matches Some(screen) && screen.width > 0 && tag.0
            != t) ==> (lookup(
            w.acted(Action::FocusTag(tag)).slides,
            w.outputs.focused,
        ) matches Some(slide) && slide.old_tag.0 == t && slide.new_tag == tag && (tag.0 < t
            ==> slide.direction == 1) && (tag.0 > t ==> slide.direction == -1)),
{
    reveal(World::acted);
    let shown = w.outputs.current_tag()->0;
    if tag.0 != t {
        lemma_switch_turns_output(
            w,
            tag,
            if tag.0 > t {
                (-1int) as i32
            } else {
                1
            },
            None,
        );
    }
}

/// The focused window takes itself and what is shown along: to the tag after
/// the one shown, the one before it, or the one of a number.
pub proof fn lemma_window_takes_tag(w: World, t: int, tag: TagId)
    requires
        w.wf(),
        shows(w, t),
        w.windows.focused_info() matches Some(info) && info.output == w.outputs.focused
            && info.tag.0 == t,
    ensures
        ({
            let id = w.windows.focused->0;
            let output = w.outputs.focused;
            &&& 0 <= t < 8 ==> {
                let after = w.acted(Action::MoveNextTag);
                &&& shows(after, t + 1)
                &&& after.windows.infos.contains_key(id)
                &&& after.windows.infos[id].tag.0 == t + 1
                &&& after.windows.infos[id].output == output
            }
            &&& t > 0 ==> {
                let after = w.acted(Action::MovePreviousTag);
                &&& shows(after, t - 1)
                &&& after.windows.infos.contains_key(id)
                &&& after.windows.infos[id].tag.0 == t - 1
                &&& after.windows.infos[id].output == output
            }
            &&& tag.0 != t ==> {
                let after = w.acted(Action::MoveToTag(tag));
                &&& shows(after, tag.0 as int)
                &&& after.windows.infos.contains_key(id)
                &&& after.windows.infos[id].tag == tag
                &&& after.windows.infos[id].output == output
            }
            &&& t == 8 ==> w.acted(Action::MoveNextTag) == w
            &&& t == 0 ==> w.acted(Action::MovePreviousTag) == w
            &&& tag.0 == t ==> w.acted(Action::MoveToTag(tag)) == w
        }),
{
    lemma_moves_unfold(w, tag);
    let shown = w.outputs.current_tag()->0;
    assert(shown.0 == t);
    if 0 <= t < 8 {
        lemma_takes_tag(w, TagId((t + 1) as u32), 1);
    }
    if t > 0 {
        lemma_takes_tag(w, TagId((t - 1) as u32), (-1int) as i32);
    }
    let direction = if tag.0 > t {
        (-1int) as i32
    } else {
        1
    };
    lemma_takes_tag(w, tag, direction);
}

/// The moves from tag to tag, each by the tag that it is to.
proof fn lemma_moves_unfold(w: World, tag: TagId)
    requires
        w.outputs.current_tag() is Some,
    ensures
        ({
            let t = (w.outputs.current_tag()->0).0;
            &&& w.acted(Action::MoveNextTag) == if t == 8 {
                w
            } else {
                w.moved_to_tag(TagId((t + 1) as u32), 1)
            }
            &&& w.acted(Action::MovePreviousTag) == if t == 0 {
                w
            } else {
                w.moved_to_tag(TagId((t - 1) as u32), (-1int) as i32)
            }
            &&& w.acted(Action::MoveToTag(tag)) == w.moved_to_tag(
                tag,
                if tag.0 > t {
                    (-1int) as i32
                } else {
                    1
                },
            )
        }),
{
    reveal(World::acted);
}

proof fn lemma_takes_tag(w: World, tag: TagId, direction: i32)
    requires
        w.wf(),
        w.outputs.has(w.outputs.focused),
        direction == 1 || direction == -1,
        w.windows.focused_info() matches Some(info) && info.output == w.outputs.focused
            && Some(info.tag) == w.outputs.current_tag(),
    ensures
        ({
            let id = w.windows.focused->0;
            let after = w.moved_to_tag(tag, direction);
            if Some(tag) == w.outputs.current_tag() {
                after == w
            } else {
                &&& shows(after, tag.0 as int)
                &&& after.windows.infos.contains_key(id)
                &&& after.windows.infos[id].tag == tag
                &&& after.windows.infos[id].output == w.outputs.focused
            }
        }),
{
    if Some(tag) != w.outputs.current_tag() {
        lemma_moved_window_follows(w, tag, direction);
        crate::world_laws::lemma_moved_to_tag_wf(w, tag, direction);
        lemma_move_keeps_focused_output(w, tag, direction);
    }
}

proof fn lemma_move_keeps_focused_output(w: World, tag: TagId, direction: i32)
    requires
        w.wf(),
        direction == 1 || direction == -1,
        w.outputs.has(w.outputs.focused),
        w.windows.focused_info() is Some,
        w.outputs.current_tag() != Some(tag),
    ensures
        w.moved_to_tag(tag, direction).outputs.focused == w.outputs.focused,
{
    let info = w.windows.focused_info()->0;
    let id = w.windows.focused->0;
    let scope = LayoutScope { output: info.output, tag };
    lemma_focused_found(w);
    crate::world_laws::lemma_relocated_sound(w, id, scope);
    let placed = World { windows: crate::window_laws::relocated(w.windows, id, scope), ..w };
    lemma_switch_turns_output(placed, tag, direction, Some(id));
}

// Outputs.

/// `to` lies wholly to the left of `from`, to its right, above or under it.
pub open spec fn beyond(direction: Direction, from: Tile, to: Tile) -> bool {
    match direction {
        Direction::Left => to.x + to.width <= from.x,
        Direction::Right => from.x + from.width <= to.x,
        Direction::Up => to.y + to.height <= from.y,
        Direction::Down => from.y + from.height <= to.y,
    }
}

/// How far `to` lies from `from` in `direction`.
pub open spec fn how_far(direction: Direction, from: Tile, to: Tile) -> int {
    match direction {
        Direction::Left => from.x - (to.x + to.width),
        Direction::Right => to.x - (from.x + from.width),
        Direction::Up => from.y - (to.y + to.height),
        Direction::Down => to.y - (from.y + from.height),
    }
}

/// Output `id` is active and mapped, and lies in `direction` from the focused
/// one, of which it is another.
pub open spec fn stands(w: World, direction: Direction, id: OutputId) -> bool {
    &&& id.0 < w.outputs.infos.len()
    &&& id != w.outputs.focused
    &&& w.outputs.infos[id.0 as int].active
    &&& lookup(w.screens, id) is Some
    &&& lookup(w.screens, w.outputs.focused) is Some
    &&& beyond(
        direction,
        lookup(w.screens, w.outputs.focused)->0,
        lookup(w.screens, id)->0,
    )
}

/// Of outputs that lie in a direction one is the nearest.
proof fn lemma_some_nearest(w: World, direction: Direction, ids: Seq<OutputId>, n: int, j: int)
    requires
        0 <= j < n <= ids.len(),
        w.lies(direction, ids[j]),
    ensures
        exists|i: int| w.is_nearest(direction, ids.take(n), i),
    decreases n,
{
    let some = ids.take(n);
    if exists|k: int| 0 <= k < n - 1 && w.lies(direction, #[trigger] ids[k]) {
        let k = choose|k: int| 0 <= k < n - 1 && w.lies(direction, #[trigger] ids[k]);
        lemma_some_nearest(w, direction, ids, n - 1, k);
        let fewer = ids.take(n - 1);
        let i = choose|i: int| w.is_nearest(direction, fewer, i);
        assert(w.is_nearest(direction, fewer, i));
        assert(fewer[i] == ids[i] && some[i] == ids[i]);
        let last = ids[n - 1];
        let nearer = w.lies(direction, last) && comes_first(
            w.distance(direction, last),
            w.distance(direction, ids[i]),
        );
        let best = if nearer {
            n - 1
        } else {
            i
        };
        assert forall|m: int|
            0 <= m < some.len() && w.lies(direction, #[trigger] some[m]) implies {
            let there = w.distance(direction, some[m]);
            let here = w.distance(direction, some[best]);
            if m < best {
                comes_first(here, there)
            } else {
                !comes_first(there, here)
            }
        } by {
            if m < n - 1 {
                assert(fewer[m] == some[m]);
            }
        }
        assert(w.is_nearest(direction, some, best));
    } else {
        assert forall|m: int| 0 <= m < some.len() && w.lies(direction, #[trigger] some[m]) implies m
            == n - 1 by {
            if m < n - 1 {
                assert(ids[m] == some[m]);
            }
        }
        assert(some[j] == ids[j]);
        assert(w.is_nearest(direction, some, n - 1));
    }
}

/// The nearest output lies in the direction that was asked for, none that
/// lies there is nearer, and there is one if any output lies there.
pub proof fn lemma_nearest_stands(w: World, direction: Direction, other: OutputId)
    requires
        w.wf(),
        w.outputs.has(w.outputs.focused),
    ensures
        w.nearest(direction) matches Some(id) ==> stands(w, direction, id),
        stands(w, direction, other) ==> (w.nearest(direction) matches Some(id) && how_far(
            direction,
            lookup(w.screens, w.outputs.focused)->0,
            lookup(w.screens, id)->0,
        ) <= how_far(
            direction,
            lookup(w.screens, w.outputs.focused)->0,
            lookup(w.screens, other)->0,
        )),
{
    let ids = w.outputs.active_ids(w.outputs.infos.len());
    assert(w.outputs.infos[w.outputs.focused.0 as int].id == w.outputs.focused);
    if w.nearest(direction) is Some {
        lemma_nearest(w, direction);
    }
    if stands(w, direction, other) {
        lemma_active_ids(w.outputs, w.outputs.infos.len(), other.0 as int);
        assert(ids.contains(other));
        let j = choose|j: int| 0 <= j < ids.len() && ids[j] == other;
        assert(w.lies(direction, ids[j]));
        lemma_some_nearest(w, direction, ids, ids.len() as int, j);
        assert(ids.take(ids.len() as int) =~= ids);
        let i = choose|i: int| w.is_nearest(direction, ids, i);
        assert(w.is_nearest(direction, ids, i));
        assert(w.nearest(direction) == Some(ids[i]));
        assert(w.lies(direction, ids[j]));
    }
}

/// The way that an action looks for an output to focus.
pub open spec fn looks(action: Action) -> Option<Direction> {
    match action {
        Action::FocusOutputLeft => Some(Direction::Left),
        Action::FocusOutputRight => Some(Direction::Right),
        Action::FocusOutputUp => Some(Direction::Up),
        Action::FocusOutputDown => Some(Direction::Down),
        _ => None,
    }
}

/// The way that an action sends the focused window.
pub open spec fn throws(action: Action) -> Option<Direction> {
    match action {
        Action::MoveOutputLeft => Some(Direction::Left),
        Action::MoveOutputRight => Some(Direction::Right),
        Action::MoveOutputUp => Some(Direction::Up),
        Action::MoveOutputDown => Some(Direction::Down),
        _ => None,
    }
}

/// Focusing the output to the left focuses an active one whose right edge is
/// at or left of the left edge of the one focused before, and the nearest of
/// those; likewise to the right, up and down. If there is one the focus does
/// change, and if there is none nothing does. No output is turned.
pub proof fn lemma_focus_by_direction(w: World, action: Action, other: OutputId)
    requires
        w.wf(),
        w.outputs.has(w.outputs.focused),
        looks(action) is Some,
    ensures
        ({
            let direction = looks(action)->0;
            let before = w.outputs.focused;
            let after = w.acted(action);
            let from = lookup(w.screens, before)->0;
            &&& after.outputs.infos == w.outputs.infos
            &&& after.outputs.focused != before ==> stands(w, direction, after.outputs.focused)
            &&& after.outputs.focused == before ==> after == w
            &&& stands(w, direction, other) ==> {
                &&& after.outputs.focused != before
                &&& how_far(direction, from, lookup(w.screens, after.outputs.focused)->0)
                    <= how_far(direction, from, lookup(w.screens, other)->0)
            }
        }),
        action is FocusOutputLeft && w.acted(action).outputs.focused != w.outputs.focused ==> {
            let from = lookup(w.screens, w.outputs.focused)->0;
            let to = lookup(w.screens, w.acted(action).outputs.focused)->0;
            to.x + to.width <= from.x
        },
        action is FocusOutputRight && w.acted(action).outputs.focused != w.outputs.focused ==> {
            let from = lookup(w.screens, w.outputs.focused)->0;
            let to = lookup(w.screens, w.acted(action).outputs.focused)->0;
            from.x + from.width <= to.x
        },
        action is FocusOutputUp && w.acted(action).outputs.focused != w.outputs.focused ==> {
            let from = lookup(w.screens, w.outputs.focused)->0;
            let to = lookup(w.screens, w.acted(action).outputs.focused)->0;
            to.y + to.height <= from.y
        },
        action is FocusOutputDown && w.acted(action).outputs.focused != w.outputs.focused ==> {
            let from = lookup(w.screens, w.outputs.focused)->0;
            let to = lookup(w.screens, w.acted(action).outputs.focused)->0;
            from.y + from.height <= to.y
        },
{
    reveal(World::acted);
    let direction = looks(action)->0;
    lemma_nearest_stands(w, direction, other);
    match w.nearest(direction) {
        Some(id) => {
            lemma_output_gets_focus(w, id);
        },
        None => {},
    }
}

/// Sending the focused window to the left puts it on the nearest active output
/// whose right edge is at or left of the left edge of the focused one, on the
/// tag that it shows, and focuses that output; likewise to the right, up and
/// down. Without such an output, or without a focused window, nothing changes.
pub proof fn lemma_send_by_direction(w: World, action: Action, other: OutputId)
    requires
        w.wf(),
        w.outputs.has(w.outputs.focused),
        throws(action) is Some,
    ensures
        ({
            let direction = throws(action)->0;
            let before = w.outputs.focused;
            let after = w.acted(action);
            let from = lookup(w.screens, before)->0;
            &&& after.outputs.infos == w.outputs.infos
            &&& after.outputs.focused == before ==> after == w
            &&& after.outputs.focused != before ==> {
                let id = w.windows.focused->0;
                let output = after.outputs.focused;
                &&& stands(w, direction, output)
                &&& w.windows.focused is Some
                &&& after.windows.infos.contains_key(id)
                &&& after.windows.infos[id].output == output
                &&& after.windows.infos[id].tag == w.outputs.infos[output.0 as int].current_tag
            }
            &&& stands(w, direction, other) && w.windows.focused_info() is Some ==> {
                &&& after.outputs.focused != before
                &&& how_far(direction, from, lookup(w.screens, after.outputs.focused)->0)
                    <= how_far(direction, from, lookup(w.screens, other)->0)
            }
        }),
{
    reveal(World::acted);
    let direction = throws(action)->0;
    lemma_nearest_stands(w, direction, other);
    if w.nearest(direction) is Some && w.windows.focused_info() is Some {
        lemma_sent_window_arrives(w, direction);
        lemma_focused_found(w);
    }
}

/// Whoever focuses an output finds the pointer in the middle of it, and the
/// keyboard with a window of the tag that it shows, if it shows any.
pub proof fn lemma_pointer_and_keyboard_follow(w: World, id: OutputId)
    requires
        w.wf(),
        w.outputs.has(id),
        w.outputs.has(w.outputs.focused),
        id != w.outputs.focused,
        lookup(w.screens, id) matches Some(screen) && screen.width >= 0 && screen.height >= 0,
    ensures
        ({
            let scope = LayoutScope { output: id, tag: w.outputs.infos[id.0 as int].current_tag };
            let screen = lookup(w.screens, id)->0;
            let after = w.output_focused(id);
            &&& after.outputs.focused == id
            &&& exists|i: int|
                w.effects.len() <= i < after.effects.len() && #[trigger] after.effects[i]
                    == Effect::Warp(
                    crate::animation::Point {
                        x: (screen.x + screen.width / 2) as i32,
                        y: (screen.y + screen.height / 2) as i32,
                    },
                )
            &&& (w.windows.stacks.contains_key(scope) && w.windows.stacks[scope].ids.len() > 0)
                ==> (after.windows.focused matches Some(x) && after.windows.infos.contains_key(x)
                && after.windows.infos[x].home() == scope)
        }),
{
    lemma_output_gets_focus(w, id);
    let scope = LayoutScope { output: id, tag: w.outputs.infos[id.0 as int].current_tag };
    let screen = lookup(w.screens, id)->0;
    let centre = crate::animation::Point {
        x: (screen.x + crate::layout::quotient(screen.width, 2)) as i32,
        y: (screen.y + crate::layout::quotient(screen.height, 2)) as i32,
    };
    let outputs = crate::output::OutputsModel { focused: id, ..w.outputs };
    crate::world_laws::lemma_outputs_wf(w, outputs);
    let turned = World { outputs, ..w };
    let aimed = turned.emit(Effect::Aim(centre));
    let candidates = if w.hits.contains_key(id) {
        w.hits[id]
    } else {
        Seq::empty()
    };
    let met = match crate::world::first_mapped(candidates, w.elements) {
        Some(surface) => {
            crate::world_laws::lemma_window_focused_wf(aimed, surface);
            lemma_focus_only_asks(aimed, surface);
            aimed.window_focused(surface)
        },
        None => aimed,
    };
    let pointed = met.emit(Effect::Warp(centre));
    let at = met.effects.len() as int;
    assert(pointed.effects[at] == Effect::Warp(centre));
    assert(pointed.shown(id) == scope);
    assert(pointed.wf());
    let after = w.output_focused(id);
    match pointed.scope_focus(scope) {
        Some((x, info)) => {
            lemma_focus_changed_wf(pointed, x, info.window.surface);
            lemma_focus_asks(pointed, x, info.window.surface);
            assert(after.effects[at] == Effect::Warp(centre));
            lemma_focus_lands(pointed, x, info.window.surface);
            assert(pointed.windows.infos.contains_key(x));
            assert(pointed.windows.stacks[scope].ids.contains(x));
            assert(after.windows.infos.dom().contains(x));
        },
        None => {
            assert(after.effects[at] == Effect::Warp(centre));
            if w.windows.stacks.contains_key(scope) && w.windows.stacks[scope].ids.len() > 0 {
                let y = w.windows.stacks[scope].ids[0];
                assert(w.windows.stacks[scope].ids.contains(y));
                assert(w.windows.infos.contains_key(y));
                assert(pointed.windows.infos.dom().contains(y));
                assert(pointed.windows.stacks[scope].ids.contains(y));
                let z = pointed.windows.stacks[scope].focused()->0;
                assert(pointed.windows.stacks[scope].ids.contains(z));
            }
        },
    }
}

/// `after` begins with `before`.
pub open spec fn continues(before: Seq<Effect>, after: Seq<Effect>) -> bool {
    &&& before.len() <= after.len()
    &&& forall|i: int| 0 <= i < before.len() ==> after[i] == #[trigger] before[i]
}

proof fn lemma_mapping_asks(w: World, ids: Seq<WindowId>, boxes: Seq<Tile>, animate: bool)
    ensures
        continues(w.effects, w.tiled_all(ids, boxes, animate).effects),
    decreases ids.len(),
{
    if ids.len() > 0 {
        lemma_mapping_asks(w, ids.drop_last(), boxes, animate);
        let before = w.tiled_all(ids.drop_last(), boxes, animate);
        let rect = boxes[ids.len() - 1].rect();
        assert(continues(before.effects, before.tiled(ids.last(), rect, animate).effects));
    }
}

proof fn lemma_covering_asks(w: World, chosen: WindowId, area: Rect, ids: Seq<WindowId>)
    ensures
        continues(w.effects, w.covered_by(chosen, area, ids).effects),
    decreases ids.len(),
{
    if ids.len() > 0 {
        lemma_covering_asks(w, chosen, area, ids.drop_last());
        let before = w.covered_by(chosen, area, ids.drop_last());
        assert(continues(before.effects, before.tiled(chosen, area, false).effects));
    }
}

proof fn lemma_floating_asks(w: World, ids: Seq<WindowId>, area: Tile)
    ensures
        continues(w.effects, w.floated_all(ids, area).effects),
    decreases ids.len(),
{
    if ids.len() > 0 {
        lemma_floating_asks(w, ids.drop_last(), area);
        let before = w.floated_all(ids.drop_last(), area);
        assert(continues(before.effects, before.floated(ids.last(), area).effects));
    }
}

/// Laying out only adds to what was asked for.
pub proof fn lemma_layout_asks(w: World, id: OutputId, animate: bool)
    ensures
        continues(w.effects, w.laid_out(id, animate).effects),
{
    let scope = w.shown(id);
    let ids = w.tiled_ids(scope);
    let placed = match (w.last_covering(ids), lookup(w.screens, id)) {
        (Some(chosen), Some(geo)) => {
            lemma_covering_asks(w, chosen, geo.rect(), ids);
            w.covered_by(chosen, geo.rect(), ids)
        },
        _ => {
            lemma_mapping_asks(w, ids, w.arrangement(id, ids.len()), animate);
            w.tiled_all(ids, w.arrangement(id, ids.len()), animate)
        },
    };
    lemma_floating_asks(placed, w.floating_ids(scope), w.usable(id));
}

proof fn lemma_focus_asks(w: World, id: WindowId, surface: SurfaceId)
    ensures
        continues(w.effects, w.focus_changed(id, surface).effects),
{
    match w.windows.info(id) {
        Some(info) => match w.windows.stack(info.home()) {
            Some(stack) => {
                let raised = if info.fullscreen {
                    stack.moved_down()
                } else {
                    stack
                };
                let focused = World {
                    windows: w.windows.restacked(
                        info.home(),
                        raised.focused_on(id),
                    ).focused_on(Some(id)),
                    ..w
                }.emit(Effect::Focus(Some(surface)));
                assert(continues(w.effects, focused.effects));
                lemma_layout_asks(focused, info.home().output, true);
            },
            None => {},
        },
        None => {},
    }
}

proof fn lemma_focus_only_asks(w: World, surface: SurfaceId)
    ensures
        continues(w.effects, w.window_focused(surface).effects),
{
    match w.windows.found(surface) {
        Some(id) => lemma_focus_asks(w, id, surface),
        None => {},
    }
}

/// A registered window that is focused has the focus.
proof fn lemma_focus_lands(w: World, id: WindowId, surface: SurfaceId)
    requires
        w.wf(),
        w.windows.infos.contains_key(id),
    ensures
        w.focus_changed(id, surface).windows.focused == Some(id),
{
    lemma_focus_changed_wf(w, id, surface);
    let info = w.windows.infos[id];
    let stack = w.windows.stacks[info.home()];
    let raised = if info.fullscreen {
        stack.moved_down()
    } else {
        stack
    };
    crate::window_laws::lemma_reordering(stack, id, id);
    let focused = World {
        windows: w.windows.restacked(info.home(), raised.focused_on(id)).focused_on(Some(id)),
        ..w
    }.emit(Effect::Focus(Some(surface)));
    assert(raised.ids.contains(id));
    raised.ids.index_of_first_ensures(id);
    lemma_restacked_calm(w, info.home(), raised.focused_on(id));
    assert(focused.wf());
    lemma_relaid_wf(focused, Some(info.home()), true);
}

// Stacks.

/// The place after `i` among `n`, round the end.
pub open spec fn after_round(i: int, n: int) -> int {
    if i + 1 == n {
        0
    } else {
        i + 1
    }
}

/// Focusing up focuses the window next after the focused one of the stack,
/// round its end, and focusing down the one that it is next after. The order
/// of the stack stays.
pub proof fn lemma_focus_in_stack(w: World, up: bool, i: int, j: int)
    requires
        w.wf(),
        w.windows.focused_info() is Some,
        ({
            let stack = w.windows.stacks[w.windows.focused_info()->0.home()];
            &&& i == stack.focus
            &&& 0 <= j < stack.ids.len()
            &&& if up {
                j == after_round(i, stack.ids.len() as int)
            } else {
                i == after_round(j, stack.ids.len() as int)
            }
            &&& !w.windows.infos[stack.ids[j]].fullscreen
        }),
    ensures
        ({
            let home = w.windows.focused_info()->0.home();
            let stack = w.windows.stacks[home];
            let after = w.acted(
                if up {
                    Action::FocusUpStack
                } else {
                    Action::FocusDownStack
                },
            ).windows;
            &&& after.focused == Some(stack.ids[j])
            &&& after.stacks[home].ids == stack.ids
            &&& after.stacks[home].focus == j
        }),
        w.acted(
            if up {
                Action::FocusUpStack
            } else {
                Action::FocusDownStack
            },
        ).effects == w.effects.push(
            Effect::Focus(Some(w.windows.focused_info()->0.window.surface)),
        ),
{
    reveal(World::acted);
    lemma_focused_found(w);
    let info = w.windows.focused_info()->0;
    let home = info.home();
    let stack = w.windows.stacks[home];
    let shifted = if up {
        stack.focused_up()
    } else {
        stack.focused_down()
    };
    assert(shifted.focus == j);
    lemma_restacked_calm(w, home, shifted);
    let turned = World { windows: w.windows.restacked(home, shifted), ..w };
    let id = stack.ids[j];
    assert(stack.ids.contains(id));
    assert(w.windows.infos.contains_key(id));
    lemma_plain_focus(turned, id, info.window.surface);
    assert forall|k: int| 0 <= k < j implies stack.ids[k] != id by {
        assert(stack.ids.no_duplicates());
    }
    lemma_index_of_first(stack.ids, id, j);
}

/// Moving a window up exchanges it with the one next after it in its stack,
/// round the end, and moving it down with the one that it is next after. No
/// other window changes its place, and the moved one keeps the focus.
pub proof fn lemma_move_in_stack(w: World, up: bool, i: int, j: int, k: int)
    requires
        w.wf(),
        w.windows.focused_info() is Some,
        ({
            let stack = w.windows.stacks[w.windows.focused_info()->0.home()];
            &&& i == stack.focus
            &&& 0 <= j < stack.ids.len()
            &&& 0 <= k < stack.ids.len()
            &&& if up {
                j == after_round(i, stack.ids.len() as int)
            } else {
                i == after_round(j, stack.ids.len() as int)
            }
            &&& !w.windows.infos[stack.ids[i]].fullscreen
        }),
    ensures
        ({
            let home = w.windows.focused_info()->0.home();
            let stack = w.windows.stacks[home];
            let after = w.acted(
                if up {
                    Action::MoveUpStack
                } else {
                    Action::MoveDownStack
                },
            ).windows;
            &&& after.focused == Some(stack.ids[i])
            &&& after.stacks[home].ids.len() == stack.ids.len()
            &&& after.stacks[home].ids[j] == stack.ids[i]
            &&& after.stacks[home].ids[i] == stack.ids[j]
            &&& k != i && k != j ==> after.stacks[home].ids[k] == stack.ids[k]
            &&& after.stacks[home].focus == j
        }),
{
    reveal(World::acted);
    lemma_focused_found(w);
    lemma_shifted_once(w, up);
    let home = w.windows.focused_info()->0.home();
    let stack = w.windows.stacks[home];
    assert(stack.focused() == Some(stack.ids[i]));
}

// The rest of the actions.

/// `b` is `a` with one more request.
pub open spec fn just_asks(a: World, b: World, effect: Effect) -> bool {
    b == (World { effects: a.effects.push(effect), ..a })
}

/// Quitting, reloading, running a command and changing the share of the first
/// tile ask for just that.
pub proof fn lemma_asking_actions(w: World, command: String, amount: Scalar)
    ensures
        just_asks(w, w.acted(Action::Quit), Effect::Quit),
        just_asks(w, w.acted(Action::ReloadConfig), Effect::ReloadConfig),
        just_asks(w, w.acted(Action::Spawn(command)), Effect::Spawn(command)),
        just_asks(
            w,
            w.acted(Action::IncrementMasterRatio(amount)),
            Effect::RaiseMasterRatio(amount),
        ),
        just_asks(
            w,
            w.acted(Action::DecrementMasterRatio(amount)),
            Effect::LowerMasterRatio(amount),
        ),
{
    reveal(World::acted);
}

/// Closing asks the focused window to close, and no other; it stays until it
/// does. The focus goes to another window of its tag, if there is one.
pub proof fn lemma_close_asks(w: World)
    requires
        w.wf(),
    ensures
        ({
            let after = w.acted(Action::Close);
            &&& w.windows.focused_info() is None ==> after == w
            &&& w.windows.focused_info() matches Some(info) ==> {
                &&& after.effects == w.effects.push(Effect::Close(info.window.surface))
                &&& after.windows.infos == w.windows.infos
                &&& after.windows.stacks == w.windows.stacks
                &&& after.elements == w.elements
                &&& after.windows.focused != w.windows.focused ==> (
                after.windows.focused matches Some(next) && w.windows.infos.contains_key(next)
                    && w.windows.infos[next].home() == info.home())
                &&& w.windows.stacks[info.home()].ids.len() > 1 ==> after.windows.focused
                    != w.windows.focused
            }
        }),
{
    reveal(World::acted);
    if w.windows.focused_info() is Some {
        lemma_focused_found(w);
        let info = w.windows.focused_info()->0;
        let ids = w.windows.rendered(info.home());
        lemma_unfocused(w, ids);
        match w.first_unfocused(ids) {
            Some(next) => {
                crate::world_laws::lemma_rendered_registered(w, info.home(), next);
            },
            None => {
                let stack = w.windows.stacks[info.home()].ids;
                if stack.len() > 1 {
                    assert(ids[0] == stack[stack.len() - 1]);
                    assert(ids[1] == stack[stack.len() - 2]);
                    assert(stack.no_duplicates());
                }
            },
        }
    }
}

proof fn lemma_unfocused(w: World, ids: Seq<WindowId>)
    ensures
        match w.first_unfocused(ids) {
            Some(id) => ids.contains(id) && w.windows.focused != Some(id),
            None => forall|i: int|
                0 <= i < ids.len() ==> w.windows.focused == Some(#[trigger] ids[i]),
        },
    decreases ids.len(),
{
    if ids.len() > 0 {
        if w.windows.focused != Some(ids[0]) {
            assert(ids.contains(ids[0]));
        } else {
            let rest = ids.skip(1);
            lemma_unfocused(w, rest);
            match w.first_unfocused(rest) {
                Some(id) => {
                    let k = choose|k: int| 0 <= k < rest.len() && rest[k] == id;
                    assert(ids[k + 1] == id);
                },
                None => {
                    assert forall|i: int| 0 <= i < ids.len() implies w.windows.focused == Some(
                        #[trigger] ids[i],
                    ) by {
                        if i > 0 {
                            assert(rest[i - 1] == ids[i]);
                        }
                    }
                },
            }
        }
    }
}

/// The fullscreen action turns the focused window fullscreen if it is not, and
/// back if it is, and changes that of no other window.
pub proof fn lemma_fullscreen_toggles(w: World, other: WindowId)
    requires
        w.wf(),
        w.windows.focused_info() is Some,
        w.windows.infos.contains_key(other),
    ensures
        ({
            let id = w.windows.focused->0;
            let after = w.acted(Action::FullScreen).windows;
            &&& after.infos.contains_key(other)
            &&& after.infos[id].fullscreen != w.windows.infos[id].fullscreen
            &&& other != id ==> after.infos[other].fullscreen == w.windows.infos[other].fullscreen
        }),
{
    reveal(World::acted);
    let id = w.windows.focused->0;
    let info = w.windows.infos[id];
    lemma_toggled_flag(w, id);
    let changed = crate::window::WindowInfo { fullscreen: !info.fullscreen, ..info };
    crate::world_laws::lemma_info_wf(w, id, changed);
    let turned = w.with_info(id, changed);
    lemma_relaid_wf(turned, Some(info.home()), true);
    assert(turned.windows.infos.contains_key(other));
    assert(w.toggled(id).windows.infos.dom().contains(other));
}

/// A layout is chosen by its name, for the tag that the focused output shows
/// and for no other.
pub proof fn lemma_layout_by_name(w: World, name: String, other: LayoutScope)
    requires
        w.wf(),
        w.outputs.has(w.outputs.focused),
        name@ == "MasterStack"@ || name@ == "Tablet"@ || name@ == "Fibonacci"@,
    ensures
        ({
            let scope = LayoutScope {
                output: w.outputs.focused,
                tag: w.outputs.infos[w.outputs.focused.0 as int].current_tag,
            };
            let after = w.acted(Action::SetLayout(name));
            &&& after == (World { layouts: after.layouts, ..w })
            &&& after.layouts.contains_key(scope)
            &&& name@ == "MasterStack"@ ==> after.layouts[scope] == LayoutKind::MasterStack
            &&& name@ == "Tablet"@ ==> after.layouts[scope] == LayoutKind::Tablet
            &&& name@ == "Fibonacci"@ ==> after.layouts[scope] == LayoutKind::Fibonacci
            &&& other != scope ==> after.layouts.contains_key(other) == w.layouts.contains_key(
                other,
            )
                && after.layouts[other] == w.layouts[other]
        }),
{
    reveal(World::acted);
    reveal_strlit("MasterStack");
    reveal_strlit("Fibonacci");
    reveal_strlit("Tablet");
    assert("MasterStack"@[0] == 'M');
    assert("Fibonacci"@[0] == 'F');
    assert("Tablet"@[0] == 'T');
}

/// The settings of the tablet layout and the handedness are set, cleared and
/// flipped one by one.
pub proof fn lemma_tiling_actions(w: World)
    requires
        w.wf(),
    ensures
        ({
            let t = w.config.tiling;
            &&& w.acted(Action::HideTabletWindows).config.tiling == (TilingConfig {
                tablet_hide_minimized: true,
                ..t
            })
            &&& w.acted(Action::ShowTabletWindows).config.tiling == (TilingConfig {
                tablet_hide_minimized: false,
                ..t
            })
            &&& w.acted(Action::ToggleTabletWindows).config.tiling == (TilingConfig {
                tablet_hide_minimized: !t.tablet_hide_minimized,
                ..t
            })
            &&& w.acted(Action::MakeRightHanded).config.tiling == (TilingConfig {
                right_handed: true,
                ..t
            })
            &&& w.acted(Action::MakeLeftHanded).config.tiling == (TilingConfig {
                right_handed: false,
                ..t
            })
            &&& w.acted(Action::FlipHandedness).config.tiling == (TilingConfig {
                right_handed: !t.right_handed,
                ..t
            })
        }),
{
    reveal(World::acted);
    let t = w.config.tiling;
    lemma_tiling_lands(w, TilingConfig { tablet_hide_minimized: true, ..t });
    lemma_tiling_lands(w, TilingConfig { tablet_hide_minimized: false, ..t });
    lemma_tiling_lands(w, TilingConfig { tablet_hide_minimized: !t.tablet_hide_minimized, ..t });
    lemma_tiling_lands(w, TilingConfig { right_handed: true, ..t });
    lemma_tiling_lands(w, TilingConfig { right_handed: false, ..t });
    lemma_tiling_lands(w, TilingConfig { right_handed: !t.right_handed, ..t });
}

proof fn lemma_tiling_lands(w: World, tiling: TilingConfig)
    requires
        w.wf(),
    ensures
        w.tiling_changed(tiling).config == (Settings { tiling, ..w.config }),
{
    let set = World { config: Settings { tiling, ..w.config }, ..w };
    lemma_relaid_wf(set, None, true);
}

/// The share of the first tile is raised while it stays below 0.95, and
/// lowered while it stays above 0.05; beyond that it stays as it is.
pub proof fn lemma_ratio_in_bounds(w: World, ratio: Scalar)
    requires
        w.wf(),
    ensures
        ({
            let old = w.config.tiling.master_ratio;
            let raised = w.ratio_raised(ratio).config.tiling.master_ratio;
            let lowered = w.ratio_lowered(ratio).config.tiling.master_ratio;
            let top = Scalar { bits: 0x3FEE_6666_6666_6666 };
            let floor = Scalar { bits: 0x3FA9_9999_9999_999A };
            &&& ratio.below(top) ==> raised == ratio
            &&& !ratio.below(top) ==> raised == old
            &&& floor.below(ratio) ==> lowered == ratio
            &&& !floor.below(ratio) ==> lowered == old
        }),
{
    lemma_tiling_lands(w, TilingConfig { master_ratio: ratio, ..w.config.tiling });
    lemma_tiling_lands(w, w.config.tiling);
}

// Keys.

/// A key does what it is bound to under the modifiers that are held, and
/// nothing if it is not bound; while the session is locked the bindings for
/// that count, and otherwise only the others. The keys for virtual terminals
/// come before both, and each asks for the terminal of its own number.
pub proof fn lemma_key_does(w: World, mods: ModifiersState, sym: u32, n: int)
    ensures
        ({
            let press = KeyPress {
                modifiers: ModMask {
                    logo: mods.logo,
                    ctrl: mods.ctrl,
                    alt: mods.alt,
                    shift: mods.shift,
                },
                keysym: sym,
            };
            let after = w.key_handled(mods, sym);
            let plain = sym < 0x1008_FE01 || sym > 0x1008_FE0C;
            &&& 1 <= n <= 12 && sym == 0x1008_FE00 + n ==> just_asks(
                w,
                after,
                Effect::ChangeVt(n as i32),
            )
            &&& plain && !w.locked && w.config.keys.contains_key(press) ==> after == w.acted(
                w.config.keys[press],
            )
            &&& plain && !w.locked && !w.config.keys.contains_key(press) ==> after == w
            &&& plain && w.locked && w.config.lock_keys.contains_key(press) ==> after == w.acted(
                w.config.lock_keys[press],
            )
            &&& plain && w.locked && !w.config.lock_keys.contains_key(press) ==> after == w
        }),
{
}

/// Autostart runs the configured commands in their order and then queues the
/// configured actions before what was queued; the second time it does neither.
pub proof fn lemma_autostart_runs(w: World, i: int)
    ensures
        w.done_autostart ==> w.autostarted() == w,
        !w.done_autostart ==> {
            let after = w.autostarted();
            &&& after.done_autostart
            &&& after.effects.len() == w.effects.len() + w.config.autostarts.len()
            &&& 0 <= i < w.config.autostarts.len() ==> after.effects[w.effects.len() + i]
                == Effect::Spawn(w.config.autostarts[i])
            &&& after.backlog == w.config.commands + w.backlog
            &&& after == (World {
                done_autostart: true,
                effects: after.effects,
                backlog: after.backlog,
                ..w
            })
        },
{
    lemma_spawned(w, w.config.autostarts, i);
}

proof fn lemma_spawned(w: World, commands: Seq<String>, i: int)
    ensures
        ({
            let after = w.spawned_all(commands);
            &&& after == (World { effects: after.effects, ..w })
            &&& after.effects.len() == w.effects.len() + commands.len()
            &&& 0 <= i < commands.len() ==> after.effects[w.effects.len() + i] == Effect::Spawn(
                commands[i],
            )
        }),
    decreases commands.len(),
{
    if commands.len() > 0 {
        lemma_spawned(w, commands.drop_last(), i);
    }
}

// Swipes.

/// A swipe to the left, to the right, up or down goes there, whichever way it
/// strays by less; one that strays as much as it goes counts as up or down.
pub proof fn lemma_swipe_heads(x: int, y: int)
    requires
        -0x7FFF_FFFF <= x <= 0x7FFF_FFFF,
        -0x7FFF_FFFF <= y <= 0x7FFF_FFFF,
    ensures
        ({
            let far = if x < 0 {
                -x
            } else {
                x
            };
            let deep = if y < 0 {
                -y
            } else {
                y
            };
            let way = heading((double(x), double(y)));
            &&& x < 0 && far > deep ==> way == GestureDirection::Left
            &&& x > 0 && far > deep ==> way == GestureDirection::Right
            &&& y < 0 && far <= deep ==> way == GestureDirection::Up
            &&& y > 0 && far <= deep ==> way == GestureDirection::Down
            &&& undecided((double(x), double(y))) <==> far < 12 && deep < 12
        }),
{
    let far = if x < 0 {
        -x
    } else {
        x
    };
    let deep = if y < 0 {
        -y
    } else {
        y
    };
    lemma_double_size(x);
    lemma_double_size(y);
    lemma_double(deep, far);
    lemma_double(x, 0);
    lemma_double(y, 0);
    lemma_double(far, 12);
    lemma_double(deep, 12);
    lemma_small_doubles();
}

/// What undoes a move is the move the other way.
pub proof fn lemma_undo_is_opposite(action: Action)
    ensures
        inverse(Action::MoveUpStack) == Some(Action::MoveDownStack),
        inverse(Action::MoveDownStack) == Some(Action::MoveUpStack),
        inverse(Action::MoveOutputLeft) == Some(Action::MoveOutputRight),
        inverse(Action::MoveOutputRight) == Some(Action::MoveOutputLeft),
        inverse(Action::MoveOutputUp) == Some(Action::MoveOutputDown),
        inverse(Action::MoveOutputDown) == Some(Action::MoveOutputUp),
        inverse(action) is Some ==> action is MoveUpStack || action is MoveDownStack
            || throws(action) is Some,
{
}

/// The swipe was let go, not cancelled, and at least half way.
pub open spec fn carried_through(progress: Scalar, cancelled: bool) -> bool {
    !cancelled && (Scalar { bits: 0x3FE0_0000_0000_0000 }).at_most(progress)
}

/// After a tag swipe ends, the switch on its output is headed to the new tag
/// exactly if the swipe was not cancelled and had come at least half way: it
/// eases from where it was to its end, or else back to its start, in a fifth of
/// a second. No output is turned by that, and no swipe is in progress.
pub proof fn lemma_tag_swipe_released(w: World, output: OutputId, cancelled: bool)
    requires
        w.gesture matches Some(gesture) && gesture.resolved matches Some(course)
            && course.kind == (Driven::Tag { output }),
        lookup(w.slides, output) is Some,
    ensures
        ({
            let progress = ((w.gesture->0).resolved->0).progress;
            let through = carried_through(progress, cancelled);
            let before = lookup(w.slides, output)->0;
            let after = w.swipe_ended(cancelled);
            &&& after.gesture is None
            &&& after.outputs == w.outputs
            &&& after.windows == w.windows
            &&& lookup(after.slides, output) matches Some(slide) && {
                &&& slide.headed() == through
                &&& slide.old_tag == before.old_tag
                &&& slide.new_tag == before.new_tag
                &&& slide.outgoing == before.outgoing
                &&& slide.incoming == before.incoming
                &&& slide.animation.0 matches AnimationKind::Timed { start, duration, from, to }
                    && start == w.now && duration == 200_000_000 && from == (
                match before.animation.0 {
                    AnimationKind::Manual { progress } => progress,
                    AnimationKind::Timed { .. } => before.eased,
                }) && to.bits == (if through {
                    0x3FF0_0000_0000_0000u64
                } else {
                    0u64
                })
            }
        }),
{
    let slide = lookup(w.slides, output)->0;
    let progress = ((w.gesture->0).resolved->0).progress;
    let bits = if carried_through(progress, cancelled) {
        crate::scalar::ONE
    } else {
        crate::scalar::ZERO
    };
    let animation = slide.animation.released(
        w.now,
        Scalar { bits },
        World::release_time(),
        slide.eased,
    );
    lemma_lookup_filed(
        w.slides,
        output,
        crate::animation::Slide { animation, ..slide },
        output,
    );
}

/// A swipe that moves windows and is carried through lets their boxes run to
/// their end; one that is not carries out what undoes it.
pub proof fn lemma_move_swipe_released(
    w: World,
    keys: Seq<SurfaceId>,
    undo: Action,
    cancelled: bool,
)
    requires
        w.gesture matches Some(gesture) && gesture.resolved matches Some(course) && (course.kind
            == (Driven::Stack { keys, undo }) || course.kind == (Driven::Output { keys, undo })),
    ensures
        ({
            let progress = ((w.gesture->0).resolved->0).progress;
            let after = w.swipe_ended(cancelled);
            let taken = World { gesture: None, ..w };
            &&& carried_through(progress, cancelled) ==> after.windows == w.windows
                && after.outputs == w.outputs && after.gesture is None
            &&& !carried_through(progress, cancelled) ==> just_asks(
                taken.acted(undo),
                after,
                Effect::Render,
            )
        }),
{
    let taken = World { gesture: None, ..w };
    lemma_morphs_held(taken, keys, Scalar { bits: 0 });
}

/// A swipe that drives nothing carries out its action, if it has one, when it
/// is let go at least half way, and otherwise nothing.
pub proof fn lemma_plain_swipe_released(w: World, action: Option<Action>, cancelled: bool)
    requires
        w.gesture matches Some(gesture) && gesture.resolved matches Some(course) && course.kind
            == (Driven::Discrete { action }),
    ensures
        ({
            let progress = ((w.gesture->0).resolved->0).progress;
            let after = w.swipe_ended(cancelled);
            let taken = World { gesture: None, ..w };
            if carried_through(progress, cancelled) && action is Some {
                just_asks(taken.acted(action->0), after, Effect::Render)
            } else {
                just_asks(taken, after, Effect::Render)
            }
        }),
{
}

/// A swipe that has left the dead zone does what its fingers and its direction
/// are bound to, and how far it has come is measured along that direction. While
/// it drives a tag switch that is held exactly there.
pub proof fn lemma_swipe_follows(w: World, total: (Scalar, Scalar), across: Scalar, down: Scalar)
    requires
        w.gesture is Some,
    ensures
        ({
            let gesture = w.gesture->0;
            let after = w.swiped(total, across, down);
            let bound = Swipe { fingers: gesture.fingers, direction: heading(total) };
            &&& after.gesture matches Some(now) && now.fingers == gesture.fingers && now.total
                == total
            &&& gesture.resolved is None && undecided(total) ==> after == (World {
                gesture: after.gesture,
                ..w
            }) && (after.gesture->0).resolved is None
            &&& gesture.resolved is Some || !undecided(total) ==> ((
            after.gesture->0).resolved matches Some(course) && {
                let direction = match gesture.resolved {
                    Some(course) => course.direction,
                    None => heading(total),
                };
                let share = if direction == GestureDirection::Left || direction
                    == GestureDirection::Right {
                    across
                } else {
                    down
                };
                &&& course.direction == direction
                &&& course.progress == share.clamped()
                &&& gesture.resolved matches Some(known) ==> course.kind == known.kind
                &&& gesture.resolved is None && !w.config.gestures.contains_key(bound)
                    ==> course.kind == (Driven::Discrete { action: None })
                &&& gesture.resolved is None && w.config.gestures.contains_key(bound)
                    ==> course.kind == (World { gesture: None, ..w }).swipe_started(
                    w.config.gestures[bound],
                ).1
            })
            &&& (gesture.resolved matches Some(known) && known.kind matches Driven::Tag { output }
                && lookup(w.slides, output) is Some) ==> (lookup(
                after.slides,
                ((gesture.resolved->0).kind)->Tag_output,
            ) matches Some(slide) && slide.animation.0 == (AnimationKind::Manual {
                progress: ((after.gesture->0).resolved->0).progress.clamped(),
            }))
        }),
{
    match w.gesture->0.resolved {
        Some(known) => match known.kind {
            Driven::Tag { output } => {
                if lookup(w.slides, output) is Some {
                    let slide = lookup(w.slides, output)->0;
                    let share = crate::gesture::along(known.direction, across, down).clamped();
                    lemma_lookup_filed(
                        w.slides,
                        output,
                        crate::animation::Slide {
                            animation: crate::animation::Animation::held(share),
                            ..slide
                        },
                        output,
                    );
                }
            },
            _ => {},
        },
        None => {},
    }
}

} // verus!
