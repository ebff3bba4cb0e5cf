//! What holds of the compositor as a whole.
use vstd::prelude::*;

use crate::animation::{Animation, AnimationKind, Point, Slide, WindowMorph, SLIDE_DURATION};
use crate::config::{Action, ModifiersState};
use crate::effect::Effect;
use crate::gesture::inverse;
use crate::layout::{Rect, Tile};
use crate::output::{Direction, LayoutKind, LayoutScope, OutputId, OutputsModel, TagId};
use crate::scalar::{Scalar, ZERO};
use crate::state::gestures::lemma_morphs_held;
use crate::table::{
    files_at, has_key, index_of_key, keys_distinct, lemma_keys_stay_distinct, lemma_lookup_filed,
    lemma_lookup_unfiled, lemma_some_key, lookup, unfiled,
};
use crate::window::{exchanged, lemma_index_of_first, Registry, SurfaceId, WindowId};
use crate::window_laws::{
    lemma_first_tiled, lemma_found_is_indexed, lemma_move_round_trip, lemma_reordering,
    relocated,
};
use crate::world::{World, LAST_TAG};
use crate::world_actions::{sends, steps};
use crate::world_laws::{
    lemma_broadcast, lemma_focus_changed_wf, lemma_focused_found, lemma_info_wf,
    lemma_laid_out_wf, lemma_mapped_all, lemma_mapped_ids, lemma_moved_to_output_wf, lemma_nearest,
    lemma_output_focused_wf, lemma_outputs_wf, lemma_promoted_wf, lemma_relaid_wf,
    lemma_relocated_sound, lemma_rendered_registered, lemma_restacked_calm, lemma_screen,
    lemma_slid_wf, lemma_slide_finished_wf, lemma_tag_focused_wf, lemma_toggled_wf,
    lemma_turned_to_wf, lemma_window_shifted_wf, same_but_told, steady,
};

verus! {

/// `after` is `before` with more requests behind, and none of those sends a
/// window a size.
pub open spec fn quiet(before: Seq<Effect>, after: Seq<Effect>) -> bool {
    &&& before.len() <= after.len()
    &&& forall|i: int| 0 <= i < before.len() ==> after[i] == #[trigger] before[i]
    &&& forall|i: int|
        before.len() <= i < after.len() ==> !((#[trigger] after[i]) is Configure)
}

proof fn lemma_quiet_trans(a: Seq<Effect>, b: Seq<Effect>, c: Seq<Effect>)
    requires
        quiet(a, b),
        quiet(b, c),
    ensures
        quiet(a, c),
{
    assert forall|i: int| 0 <= i < a.len() implies c[i] == #[trigger] a[i] by {
        assert(b[i] == a[i]);
    }
    assert forall|i: int| a.len() <= i < c.len() implies !((#[trigger] c[i]) is Configure) by {
        if i < b.len() {
            assert(c[i] == b[i]);
        }
    }
}

/// Window `id`, if it exists, was last told about `rect`.
pub open spec fn told(w: World, id: WindowId, rect: Rect) -> bool {
    match w.windows.info(id) {
        Some(info) => info.last_configured == Some((rect, info.fullscreen)),
        None => true,
    }
}

/// Window `id`, if it exists, was last told to choose its own size.
pub open spec fn let_float(w: World, id: WindowId) -> bool {
    match w.windows.info(id) {
        Some(info) => info.last_configured == Some(
            (Rect { x: 0, y: 0, width: 0, height: 0 }, false),
        ),
        None => true,
    }
}

/// What is kept about window `id` is the same in both.
pub open spec fn untouched(a: World, b: World, id: WindowId) -> bool {
    b.windows.info(id) == a.windows.info(id)
}

proof fn lemma_tiled_tells(w: World, id: WindowId, rect: Rect, animate: bool, other: WindowId)
    ensures
        told(w.tiled(id, rect, animate), id, rect),
        other != id ==> untouched(w, w.tiled(id, rect, animate), other),
        told(w, id, rect) ==> quiet(w.effects, w.tiled(id, rect, animate).effects)
            && w.tiled(id, rect, animate).windows == w.windows,
{
}

/// `after` is `before` with more requests behind, one of which sends
/// `surface` a size and the rest none.
pub open spec fn sized_once(
    before: Seq<Effect>,
    after: Seq<Effect>,
    surface: SurfaceId,
    size: (i32, i32),
    fullscreen: bool,
) -> bool {
    let sent = before.push(Effect::Configure { surface, size: Some(size), fullscreen });
    quiet(sent, after)
}

/// Window `id` was sent the size of `rect` exactly if that, with whether it is
/// fullscreen, is not what it was told the last time; in any case it now is.
pub open spec fn told_if_news(before: World, after: World, id: WindowId, rect: Rect) -> bool {
    let info = before.windows.info(id)->0;
    &&& if info.last_configured == Some((rect, info.fullscreen)) {
        quiet(before.effects, after.effects)
    } else {
        sized_once(
            before.effects,
            after.effects,
            info.window.surface,
            (rect.width, rect.height),
            info.fullscreen,
        )
    }
    &&& after.windows.info(id) matches Some(now) && now.last_configured == Some(
        (rect, info.fullscreen),
    ) && now.fullscreen == info.fullscreen
}

/// Tiling a window sends it a size exactly if that is not what it was told
/// the last time, and makes it what it was told the last time: tiling it the
/// same way again sends it nothing.
pub proof fn lemma_size_sent_once(
    w: World,
    id: WindowId,
    rect: Rect,
    first: bool,
    second: bool,
)
    requires
        w.windows.info(id) is Some,
    ensures
        ({
            let once = w.tiled(id, rect, first);
            let twice = once.tiled(id, rect, second);
            &&& told_if_news(w, once, id, rect)
            &&& quiet(once.effects, twice.effects)
            &&& twice.windows == once.windows
        }),
{
    lemma_tiled_tells(w, id, rect, first, id);
    lemma_tiled_tells(w.tiled(id, rect, first), id, rect, second, id);
}

proof fn lemma_floated_tells(w: World, id: WindowId, area: Tile, other: WindowId)
    ensures
        let_float(w.floated(id, area), id),
        other != id ==> untouched(w, w.floated(id, area), other),
        let_float(w, id) ==> quiet(w.effects, w.floated(id, area).effects) && w.floated(
            id,
            area,
        ).windows == w.windows,
{
}

/// After windows were tiled each is told about its own tile, and no other
/// window hears of it.
pub(crate) proof fn lemma_tiled_all_tells(
    w: World,
    ids: Seq<WindowId>,
    boxes: Seq<Tile>,
    animate: bool,
    other: WindowId,
)
    requires
        ids.no_duplicates(),
    ensures
        forall|k: int|
            0 <= k < ids.len() ==> told(
                w.tiled_all(ids, boxes, animate),
                #[trigger] ids[k],
                boxes[k].rect(),
            ),
        !ids.contains(other) ==> untouched(w, w.tiled_all(ids, boxes, animate), other),
    decreases ids.len(),
{
    if ids.len() > 0 {
        let before = w.tiled_all(ids.drop_last(), boxes, animate);
        let last = ids.last();
        let rect = boxes[ids.len() - 1].rect();
        lemma_tiled_all_tells(w, ids.drop_last(), boxes, animate, other);
        assert forall|k: int| 0 <= k < ids.len() implies told(
            w.tiled_all(ids, boxes, animate),
            #[trigger] ids[k],
            boxes[k].rect(),
        ) by {
            lemma_tiled_tells(before, last, rect, animate, ids[k]);
            if k < ids.len() - 1 {
                assert(ids.drop_last()[k] == ids[k]);
            }
        }
        if !ids.contains(other) {
            assert(ids[ids.len() - 1] != other);
            if ids.drop_last().contains(other) {
                let k = choose|k: int| 0 <= k < ids.len() - 1 && ids.drop_last()[k] == other;
                assert(ids[k] == other);
            }
            lemma_tiled_tells(before, last, rect, animate, other);
        }
    }
}

pub(crate) proof fn lemma_floated_all_tells(
    w: World,
    ids: Seq<WindowId>,
    area: Tile,
    other: WindowId,
)
    ensures
        forall|k: int|
            0 <= k < ids.len() ==> let_float(w.floated_all(ids, area), #[trigger] ids[k]),
        !ids.contains(other) ==> untouched(w, w.floated_all(ids, area), other),
    decreases ids.len(),
{
    if ids.len() > 0 {
        let before = w.floated_all(ids.drop_last(), area);
        lemma_floated_all_tells(w, ids.drop_last(), area, other);
        assert forall|k: int| 0 <= k < ids.len() implies let_float(
            w.floated_all(ids, area),
            #[trigger] ids[k],
        ) by {
            lemma_floated_tells(before, ids.last(), area, ids[k]);
            if k < ids.len() - 1 {
                assert(ids.drop_last()[k] == ids[k]);
            }
        }
        if !ids.contains(other) {
            assert(ids[ids.len() - 1] != other);
            if ids.drop_last().contains(other) {
                let k = choose|k: int| 0 <= k < ids.len() - 1 && ids.drop_last()[k] == other;
                assert(ids[k] == other);
            }
            lemma_floated_tells(before, ids.last(), area, other);
        }
    }
}

pub(crate) proof fn lemma_covered_by_tells(
    w: World,
    chosen: WindowId,
    area: Rect,
    ids: Seq<WindowId>,
    other: WindowId,
)
    ensures
        ids.contains(chosen) ==> told(w.covered_by(chosen, area, ids), chosen, area),
        other != chosen ==> untouched(w, w.covered_by(chosen, area, ids), other),
        !ids.contains(chosen) ==> untouched(w, w.covered_by(chosen, area, ids), chosen),
    decreases ids.len(),
{
    if ids.len() > 0 {
        let before = w.covered_by(chosen, area, ids.drop_last());
        lemma_covered_by_tells(w, chosen, area, ids.drop_last(), other);
        lemma_tiled_tells(before, chosen, area, false, other);
        if ids.contains(chosen) && ids.last() != chosen {
            let k = choose|k: int| 0 <= k < ids.len() && ids[k] == chosen;
            assert(ids.drop_last()[k] == chosen);
        }
        if !ids.contains(chosen) {
            assert(ids[ids.len() - 1] != chosen);
            if ids.drop_last().contains(chosen) {
                let k = choose|k: int| 0 <= k < ids.len() - 1 && ids.drop_last()[k] == chosen;
                assert(ids[k] == chosen);
            }
        }
    }
}

/// Tiling windows that know their tiles sends no sizes.
proof fn lemma_tiled_all_quiet(w: World, ids: Seq<WindowId>, boxes: Seq<Tile>, animate: bool)
    requires
        forall|k: int| 0 <= k < ids.len() ==> told(w, #[trigger] ids[k], boxes[k].rect()),
    ensures
        quiet(w.effects, w.tiled_all(ids, boxes, animate).effects),
        w.tiled_all(ids, boxes, animate).windows == w.windows,
    decreases ids.len(),
{
    if ids.len() > 0 {
        let before = w.tiled_all(ids.drop_last(), boxes, animate);
        assert forall|k: int| 0 <= k < ids.len() - 1 implies told(
            w,
            #[trigger] ids.drop_last()[k],
            boxes[k].rect(),
        ) by {
            assert(ids.drop_last()[k] == ids[k]);
        }
        lemma_tiled_all_quiet(w, ids.drop_last(), boxes, animate);
        let last = ids[ids.len() - 1];
        assert(told(w, last, boxes[ids.len() - 1].rect()));
        lemma_tiled_tells(before, last, boxes[ids.len() - 1].rect(), animate, last);
        lemma_quiet_trans(w.effects, before.effects, w.tiled_all(ids, boxes, animate).effects);
    }
}

proof fn lemma_floated_all_quiet(w: World, ids: Seq<WindowId>, area: Tile)
    requires
        forall|k: int| 0 <= k < ids.len() ==> let_float(w, #[trigger] ids[k]),
    ensures
        quiet(w.effects, w.floated_all(ids, area).effects),
        w.floated_all(ids, area).windows == w.windows,
    decreases ids.len(),
{
    if ids.len() > 0 {
        let before = w.floated_all(ids.drop_last(), area);
        assert forall|k: int| 0 <= k < ids.len() - 1 implies let_float(
            w,
            #[trigger] ids.drop_last()[k],
        ) by {
            assert(ids.drop_last()[k] == ids[k]);
        }
        lemma_floated_all_quiet(w, ids.drop_last(), area);
        let last = ids[ids.len() - 1];
        assert(let_float(w, last));
        lemma_floated_tells(before, last, area, last);
        lemma_quiet_trans(w.effects, before.effects, w.floated_all(ids, area).effects);
    }
}

proof fn lemma_covered_by_quiet(w: World, chosen: WindowId, area: Rect, ids: Seq<WindowId>)
    requires
        told(w, chosen, area),
    ensures
        quiet(w.effects, w.covered_by(chosen, area, ids).effects),
        w.covered_by(chosen, area, ids).windows == w.windows,
    decreases ids.len(),
{
    if ids.len() > 0 {
        let before = w.covered_by(chosen, area, ids.drop_last());
        lemma_covered_by_quiet(w, chosen, area, ids.drop_last());
        lemma_tiled_tells(before, chosen, area, false, chosen);
        lemma_quiet_trans(w.effects, before.effects, w.covered_by(chosen, area, ids).effects);
    }
}

/// A list of the windows of a scope names none twice, floating and tiled ones
/// apart.
pub(crate) proof fn lemma_apart(w: World, scope: LayoutScope)
    requires
        w.wf(),
    ensures
        w.tiled_ids(scope).no_duplicates(),
        w.floating_ids(scope).no_duplicates(),
        forall|id: WindowId| #[trigger]
            w.tiled_ids(scope).contains(id) ==> !w.windows.floats(id) && w.windows.rendered(
                scope,
            ).contains(id),
        forall|id: WindowId| #[trigger]
            w.floating_ids(scope).contains(id) ==> w.windows.floats(id) && w.windows.rendered(
                scope,
            ).contains(id),
{
    let ids = w.windows.rendered(scope);
    if w.windows.stacks.contains_key(scope) {
        let stack = w.windows.stacks[scope].ids;
        assert forall|i: int, j: int| 0 <= i < j < ids.len() implies ids[i] != ids[j] by {
            assert(ids[i] == stack[stack.len() - 1 - i]);
            assert(ids[j] == stack[stack.len() - 1 - j]);
        }
    }
    let stays = |id: WindowId| !w.windows.floats(id);
    let drifts = |id: WindowId| w.windows.floats(id);
    assert(w.tiled_ids(scope) == ids.filter(stays));
    assert(w.floating_ids(scope) == ids.filter(drifts));
    lemma_filter_once(ids, stays);
    lemma_filter_once(ids, drifts);
    assert forall|id: WindowId| #[trigger]
        w.tiled_ids(scope).contains(id) implies !w.windows.floats(id) && ids.contains(id) by {
        let k = choose|k: int| 0 <= k < ids.filter(stays).len() && ids.filter(stays)[k] == id;
        ids.lemma_filter_pred(stays, k);
        ids.lemma_filter_contains_rev(stays, id);
    }
    assert forall|id: WindowId| #[trigger]
        w.floating_ids(scope).contains(id) implies w.windows.floats(id) && ids.contains(id) by {
        let k = choose|k: int| 0 <= k < ids.filter(drifts).len() && ids.filter(drifts)[k] == id;
        ids.lemma_filter_pred(drifts, k);
        ids.lemma_filter_contains_rev(drifts, id);
    }
}

proof fn lemma_filter_once(ids: Seq<WindowId>, keep: spec_fn(WindowId) -> bool)
    requires
        ids.no_duplicates(),
    ensures
        ids.filter(keep).no_duplicates(),
    decreases ids.len(),
{
    reveal(Seq::filter);
    if ids.len() > 0 {
        lemma_filter_once(ids.drop_last(), keep);
        if ids.drop_last().filter(keep).contains(ids.last()) {
            ids.drop_last().lemma_filter_contains_rev(keep, ids.last());
        }
    }
}

/// What laying an output out depends on is the same after it was laid out.
proof fn lemma_same_plan(w: World, a: World, id: OutputId)
    requires
        steady(w, a),
    ensures
        a.shown(id) == w.shown(id),
        a.usable(id) == w.usable(id),
        a.tiled_ids(w.shown(id)) == w.tiled_ids(w.shown(id)),
        a.floating_ids(w.shown(id)) == w.floating_ids(w.shown(id)),
        forall|n: nat| a.arrangement(id, n) == w.arrangement(id, n),
        forall|ids: Seq<WindowId>| a.last_covering(ids) == w.last_covering(ids),
{
    assert forall|x: WindowId| a.windows.floats(x) == w.windows.floats(x) by {
        assert(a.windows.infos.dom().contains(x) == w.windows.infos.dom().contains(x));
        if w.windows.infos.contains_key(x) {
        }
    }
    let scope = w.shown(id);
    let p = |x: WindowId| !w.windows.floats(x);
    let q = |x: WindowId| !a.windows.floats(x);
    assert(p =~= q);
    let r = |x: WindowId| w.windows.floats(x);
    let s = |x: WindowId| a.windows.floats(x);
    assert(r =~= s);
    assert(w.tiled_ids(scope) == w.windows.rendered(scope).filter(p));
    assert(a.tiled_ids(scope) == a.windows.rendered(scope).filter(q));
    assert(w.floating_ids(scope) == w.windows.rendered(scope).filter(r));
    assert(a.floating_ids(scope) == a.windows.rendered(scope).filter(s));
    assert forall|ids: Seq<WindowId>| a.last_covering(ids) == w.last_covering(ids) by {
        lemma_same_covering(w, a, ids);
    }
}

proof fn lemma_same_covering(w: World, a: World, ids: Seq<WindowId>)
    requires
        same_but_told(w.windows, a.windows),
    ensures
        a.last_covering(ids) == w.last_covering(ids),
    decreases ids.len(),
{
    if ids.len() > 0 {
        let x = ids.last();
        assert(a.windows.infos.dom().contains(x) == w.windows.infos.dom().contains(x));
        if w.windows.infos.contains_key(x) {
        }
        lemma_same_covering(w, a, ids.drop_last());
    }
}

/// The last fullscreen window of a list is on it.
pub(crate) proof fn lemma_last_covering(w: World, ids: Seq<WindowId>)
    ensures
        w.last_covering(ids) matches Some(id) ==> ids.contains(id) && w.windows.covers(id),
    decreases ids.len(),
{
    if ids.len() > 0 {
        lemma_last_covering(w, ids.drop_last());
        if w.windows.covers(ids.last()) {
            assert(ids[ids.len() - 1] == ids.last());
        } else {
            match w.last_covering(ids.drop_last()) {
                Some(id) => {
                    let k = choose|k: int| 0 <= k < ids.len() - 1 && ids.drop_last()[k] == id;
                    assert(ids[k] == id);
                },
                None => {},
            }
        }
    }
}

/// Laying an output out a second time sends no window a size: each was told
/// its own the first time. What is kept about the windows stays as it is.
pub proof fn lemma_second_layout_is_quiet(w: World, id: OutputId, first: bool, second: bool)
    requires
        w.wf(),
    ensures
        ({
            let once = w.laid_out(id, first);
            let twice = once.laid_out(id, second);
            &&& quiet(once.effects, twice.effects)
            &&& twice.windows == once.windows
        }),
{
    let scope = w.shown(id);
    let area = w.usable(id);
    let ids = w.tiled_ids(scope);
    let floating = w.floating_ids(scope);
    let boxes = w.arrangement(id, ids.len());
    let once = w.laid_out(id, first);
    lemma_laid_out_wf(w, id, first);
    lemma_same_plan(w, once, id);
    lemma_apart(w, scope);
    lemma_last_covering(w, ids);
    let placed = match (w.last_covering(ids), lookup(w.screens, id)) {
        (Some(chosen), Some(geo)) => w.covered_by(chosen, geo.rect(), ids),
        _ => w.tiled_all(ids, boxes, first),
    };
    let floated = placed.floated_all(floating, area);
    assert(once == floated.emit(Effect::Render));
    lemma_floated_all_tells(placed, floating, area, WindowId(0));
    match (w.last_covering(ids), lookup(w.screens, id)) {
        (Some(chosen), Some(geo)) => {
            lemma_covered_by_tells(w, chosen, geo.rect(), ids, chosen);
            lemma_floated_all_tells(placed, floating, area, chosen);
            assert(ids.contains(chosen));
            assert(!floating.contains(chosen));
            assert(told(once, chosen, geo.rect()));
            lemma_covered_by_quiet(once, chosen, geo.rect(), ids);
            let again = once.covered_by(chosen, geo.rect(), ids);
            assert forall|k: int| 0 <= k < floating.len() implies let_float(
                again,
                #[trigger] floating[k],
            ) by {
                assert(let_float(floated, floating[k]));
            }
            lemma_floated_all_quiet(again, floating, area);
            let done = again.floated_all(floating, area);
            lemma_quiet_trans(once.effects, again.effects, done.effects);
            lemma_quiet_trans(once.effects, done.effects, done.emit(Effect::Render).effects);
        },
        _ => {
            lemma_tiled_all_tells(w, ids, boxes, first, WindowId(0));
            assert forall|k: int| 0 <= k < ids.len() implies told(
                once,
                #[trigger] ids[k],
                boxes[k].rect(),
            ) by {
                assert(ids.contains(ids[k]));
                assert(!floating.contains(ids[k]));
                lemma_floated_all_tells(placed, floating, area, ids[k]);
                assert(told(placed, ids[k], boxes[k].rect()));
            }
            lemma_tiled_all_quiet(once, ids, boxes, second);
            let again = once.tiled_all(ids, boxes, second);
            assert forall|k: int| 0 <= k < floating.len() implies let_float(
                again,
                #[trigger] floating[k],
            ) by {
                assert(let_float(floated, floating[k]));
            }
            lemma_floated_all_quiet(again, floating, area);
            let done = again.floated_all(floating, area);
            lemma_quiet_trans(once.effects, again.effects, done.effects);
            lemma_quiet_trans(once.effects, done.effects, done.emit(Effect::Render).effects);
        },
    }
}

/// Laying an output out leaves what is kept about every window alone that is
/// not on the tag that it shows.
pub proof fn lemma_layout_stays_on_its_output(
    w: World,
    id: OutputId,
    animate: bool,
    other: WindowId,
)
    requires
        w.wf(),
        w.windows.infos.contains_key(other) ==> w.windows.infos[other].home() != w.shown(id),
    ensures
        w.laid_out(id, animate).windows.info(other) == w.windows.info(other),
{
    let scope = w.shown(id);
    let area = w.usable(id);
    let ids = w.tiled_ids(scope);
    let floating = w.floating_ids(scope);
    lemma_apart(w, scope);
    if w.windows.rendered(scope).contains(other) {
        lemma_rendered_registered(w, scope, other);
    }
    assert(!ids.contains(other));
    assert(!floating.contains(other));
    lemma_last_covering(w, ids);
    match (w.last_covering(ids), lookup(w.screens, id)) {
        (Some(chosen), Some(geo)) => {
            lemma_covered_by_tells(w, chosen, geo.rect(), ids, other);
            lemma_floated_all_tells(w.covered_by(chosen, geo.rect(), ids), floating, area, other);
        },
        _ => {
            let boxes = w.arrangement(id, ids.len());
            lemma_tiled_all_tells(w, ids, boxes, animate, other);
            lemma_floated_all_tells(w.tiled_all(ids, boxes, animate), floating, area, other);
        },
    }
}

/// The window in the first tile of a scope is the one that counts as its
/// master.
pub proof fn lemma_master_has_first_tile(w: World, scope: LayoutScope)
    ensures
        w.windows.master(scope) == if w.tiled_ids(scope).len() > 0 {
            Some(w.tiled_ids(scope)[0])
        } else {
            None
        },
{
    let ids = w.windows.rendered(scope);
    let stays = |id: WindowId| !w.windows.floats(id);
    assert(w.tiled_ids(scope) == ids.filter(stays));
    lemma_first_tiled(w.windows, ids);
    match w.windows.first_tiled(ids) {
        Some(id) => {
            let i = choose|i: int|
                0 <= i < ids.len() && ids[i] == id && !w.windows.floats(id) && forall|j: int|
                    0 <= j < i ==> w.windows.floats(#[trigger] ids[j]);
            let head = ids.take(i);
            let tail = ids.skip(i + 1);
            assert(ids =~= head + (seq![id] + tail));
            Seq::filter_distributes_over_add(head, seq![id] + tail, stays);
            Seq::filter_distributes_over_add(seq![id], tail, stays);
            if head.filter(stays).len() > 0 {
                head.lemma_filter_pred(stays, 0);
                head.lemma_filter_contains_rev(stays, head.filter(stays)[0]);
                let k = choose|k: int| 0 <= k < i && head[k] == head.filter(stays)[0];
                assert(w.windows.floats(ids[k]));
            }
            assert(seq![id].filter(stays) =~= seq![id]) by {
                reveal(Seq::filter);
                assert(seq![id].drop_last() =~= Seq::<WindowId>::empty());
            }
            assert(ids.filter(stays)[0] == id);
        },
        None => {
            if ids.filter(stays).len() > 0 {
                ids.lemma_filter_pred(stays, 0);
                ids.lemma_filter_contains_rev(stays, ids.filter(stays)[0]);
                let k = choose|k: int| 0 <= k < ids.len() && ids[k] == ids.filter(stays)[0];
                assert(w.windows.floats(ids[k]));
            }
        },
    }
}

/// Focusing a window that is not fullscreen changes nothing but the focus.
pub(crate) proof fn lemma_plain_focus(w: World, id: WindowId, surface: SurfaceId)
    requires
        w.wf(),
        w.windows.infos.contains_key(id),
        !w.windows.infos[id].fullscreen,
    ensures
        ({
            let home = w.windows.infos[id].home();
            w.focus_changed(id, surface).windows == w.windows.restacked(
                home,
                w.windows.stacks[home].focused_on(id),
            ).focused_on(Some(id))
        }),
        w.windows.stacks.contains_key(w.windows.infos[id].home()),
{
}

/// The first window of a list that is not floating is the one that comes
/// after floating ones only.
proof fn lemma_is_first_tiled(r: Registry, ids: Seq<WindowId>, m: int)
    requires
        0 <= m < ids.len(),
        !r.floats(ids[m]),
        forall|j: int| 0 <= j < m ==> r.floats(#[trigger] ids[j]),
    ensures
        r.first_tiled(ids) == Some(ids[m]),
{
    lemma_first_tiled(r, ids);
    match r.first_tiled(ids) {
        Some(id) => {
            let i = choose|i: int|
                0 <= i < ids.len() && ids[i] == id && !r.floats(id) && forall|j: int|
                    0 <= j < i ==> r.floats(#[trigger] ids[j]);
            if i < m {
                assert(r.floats(ids[i]));
            } else if m < i {
                assert(r.floats(ids[m]));
            }
        },
        None => {
            assert(r.floats(ids[m]));
        },
    }
}

/// A window can be promoted if it is tiled, its tag uses the layout made for
/// that, and it does not lead there already.
pub proof fn lemma_promotable(w: World, id: WindowId)
    requires
        w.wf(),
        w.windows.infos.contains_key(id),
    ensures
        ({
            let info = w.windows.infos[id];
            let scope = LayoutScope { output: info.output, tag: info.tag };
            let ids = w.tiled_ids(scope);
            w.promotable(info.window.surface) <==> !info.floating && w.layouts.contains_key(scope)
                && w.layouts[scope] == LayoutKind::Tablet && ids.len() > 0 && ids[0] != id
        }),
{
    let info = w.windows.infos[id];
    assert(info.home() == LayoutScope { output: info.output, tag: info.tag });
    lemma_found_is_indexed(w.windows, info.window.surface);
    assert(w.windows.index[info.window.surface] == id);
    lemma_master_has_first_tile(w, info.home());
}

/// A window that is promoted takes the first tile and the focus, and the
/// window that was there takes the place that the other has left. (A
/// fullscreen window is moved down its stack when it is focused.)
pub proof fn lemma_promotion(w: World, surface: SurfaceId)
    requires
        w.wf(),
        w.promotable(surface),
        !w.windows.infos[w.windows.found(surface)->0].fullscreen,
    ensures
        ({
            let id = w.windows.found(surface)->0;
            let home = w.windows.infos[id].home();
            let master = w.windows.master(home)->0;
            let before = w.windows.stacks[home].ids;
            let after = w.promoted(surface).windows;
            &&& after.master(home) == Some(id)
            &&& after.focused == Some(id)
            &&& after.stacks[home].ids == exchanged(
                before,
                before.index_of_first(id)->0,
                before.index_of_first(master)->0,
            )
        }),
{
    let id = w.windows.found(surface)->0;
    let home = w.windows.infos[id].home();
    let master = w.windows.master(home)->0;
    let stack = w.windows.stacks[home];
    let before = stack.ids;
    assert(w.windows.infos.contains_key(id));
    assert(before.contains(id));
    before.index_of_first_ensures(id);
    let i = before.index_of_first(id)->0;
    lemma_promoted_wf(w, surface);
    lemma_reordering(stack, id, master);
    let ids = w.windows.rendered(home);
    lemma_first_tiled(w.windows, ids);
    let m = choose|m: int|
        0 <= m < ids.len() && ids[m] == master && !w.windows.floats(master) && forall|j: int|
            0 <= j < m ==> w.windows.floats(#[trigger] ids[j]);
    let n = before.len();
    assert(ids[m] == before[n - 1 - m]);
    lemma_index_of_first(before, master, n - 1 - m);
    let j = n - 1 - m;
    let swapped = stack.swapped(id, master);
    lemma_restacked_calm(w, home, swapped);
    let turned = World { windows: w.windows.restacked(home, swapped), ..w };
    lemma_plain_focus(turned, id, surface);
    let focused = turned.focus_changed(id, surface);
    lemma_focus_changed_wf(turned, id, surface);
    lemma_relaid_wf(focused, Some(home), true);
    let t = w.promoted(surface);
    let after = exchanged(before, i, j);
    assert(swapped.ids == after);
    assert(swapped.focused_on(id).ids == after);
    assert(t.windows.stacks[home].ids == after);
    let shown = t.windows.rendered(home);
    assert(shown == after.reverse());
    assert forall|x: WindowId| t.windows.floats(x) == w.windows.floats(x) by {
        assert(t.windows.infos.dom().contains(x) == w.windows.infos.dom().contains(x));
        if w.windows.infos.contains_key(x) {
        }
    }
    assert(ids[n - 1 - i] == id);
    if n - 1 - i < m {
        assert(w.windows.floats(ids[n - 1 - i]));
    }
    assert(shown[m] == id);
    assert forall|k: int| 0 <= k < m implies t.windows.floats(#[trigger] shown[k]) by {
        assert(shown[k] == after[n - 1 - k]);
        assert(after[n - 1 - k] == before[n - 1 - k]);
        assert(ids[k] == before[n - 1 - k]);
        assert(w.windows.floats(ids[k]));
    }
    lemma_is_first_tiled(t.windows, shown, m);
}

/// Moving a window one place up its stack and then down again, or the other
/// way round, brings the stack back. (A fullscreen window is moved once more
/// when it is focused.)
pub proof fn lemma_shift_reverts(w: World, up: bool)
    requires
        w.wf(),
        w.windows.focused_info() is Some,
        ({
            let home = w.windows.focused_info()->0.home();
            !w.windows.infos[w.windows.stacks[home].focused()->0].fullscreen
        }),
    ensures
        ({
            let home = w.windows.focused_info()->0.home();
            w.window_shifted(up).window_shifted(!up).windows.stacks[home]
                == w.windows.stacks[home]
        }),
{
    lemma_focused_found(w);
    let info = w.windows.focused_info()->0;
    let home = info.home();
    let stack = w.windows.stacks[home];
    assert(stack.ids.contains(w.windows.focused->0));
    let id = stack.focused()->0;
    assert(stack.ids.contains(id));
    assert(w.windows.infos.contains_key(id));
    assert(w.windows.infos[id].home() == home);
    lemma_move_round_trip(stack);
    lemma_reordering(stack, id, id);
    let moved = if up {
        stack.moved_up()
    } else {
        stack.moved_down()
    };
    lemma_shifted_once(w, up);
    let once = w.window_shifted(up);
    lemma_window_shifted_wf(w, up);
    assert(once.windows.stacks[home] == moved);
    assert(once.windows.focused == Some(id));
    assert(once.windows.infos.dom().contains(id));
    assert(once.windows.infos[id].home() == home);
    assert(once.windows.focused_info()->0.home() == home);
    lemma_shifted_once(once, !up);
}

/// One shift moves the window that has the focus of its stack, and leaves the
/// focus on it.
pub(crate) proof fn lemma_shifted_once(w: World, up: bool)
    requires
        w.wf(),
        w.windows.focused_info() is Some,
        ({
            let home = w.windows.focused_info()->0.home();
            !w.windows.infos[w.windows.stacks[home].focused()->0].fullscreen
        }),
    ensures
        ({
            let home = w.windows.focused_info()->0.home();
            let stack = w.windows.stacks[home];
            let after = w.window_shifted(up).windows;
            &&& after.stacks[home] == if up {
                stack.moved_up()
            } else {
                stack.moved_down()
            }
            &&& after.focused == stack.focused()
        }),
{
    lemma_focused_found(w);
    let info = w.windows.focused_info()->0;
    let home = info.home();
    let stack = w.windows.stacks[home];
    assert(stack.ids.contains(w.windows.focused->0));
    let id = stack.focused()->0;
    assert(stack.ids.contains(id));
    assert(w.windows.infos.contains_key(id));
    assert(w.windows.infos[id].home() == home);
    lemma_reordering(stack, id, id);
    let moved = if up {
        stack.moved_up()
    } else {
        stack.moved_down()
    };
    lemma_restacked_calm(w, home, moved);
    let turned = World { windows: w.windows.restacked(home, moved), ..w };
    assert(moved.focused() == Some(id));
    lemma_plain_focus(turned, id, info.window.surface);
    lemma_focus_changed_wf(turned, id, info.window.surface);
    let focused = turned.focus_changed(id, info.window.surface);
    assert(moved.ids[moved.focus as int] == id);
    assert forall|k: int| 0 <= k < moved.focus implies moved.ids[k] != id by {
        assert(moved.ids.no_duplicates());
    }
    lemma_index_of_first(moved.ids, id, moved.focus as int);
    assert(moved.focused_on(id) == moved);
    lemma_relaid_wf(focused, Some(home), true);
}

/// A swipe that moves a window in its stack and is not carried through brings
/// the stack back.
pub proof fn lemma_dropped_stack_swipe_reverts(w: World, action: Action)
    requires
        w.wf(),
        action is MoveUpStack || action is MoveDownStack,
        w.windows.focused_info() is Some,
        ({
            let home = w.windows.focused_info()->0.home();
            !w.windows.infos[w.windows.stacks[home].focused()->0].fullscreen
        }),
    ensures
        ({
            let home = w.windows.focused_info()->0.home();
            let started = w.swipe_started(action).0;
            &&& inverse(action) is Some
            &&& started.acted(inverse(action)->0).windows.stacks[home]
                == w.windows.stacks[home]
        }),
{
    reveal(World::acted);
    let up = action is MoveUpStack;
    let keys = w.set_in_motion(action);
    lemma_morphs_held(w.acted(action), keys, Scalar { bits: ZERO });
    let started = w.swipe_started(action).0;
    assert(w.acted(action) == w.window_shifted(up));
    lemma_shift_reverts(w, up);
    lemma_window_shifted_wf(w, up);
    lemma_focused_found(w);
    let home = w.windows.focused_info()->0.home();
    let stack = w.windows.stacks[home];
    assert(stack.ids.contains(w.windows.focused->0));
    let id = stack.focused()->0;
    assert(stack.ids.contains(id));
    assert(w.windows.infos.contains_key(id));
    lemma_shifted_once(w, up);
    lemma_move_round_trip(stack);
    lemma_reordering(stack, id, id);
    let once = w.window_shifted(up);
    assert(once.windows.infos.dom().contains(id));
    assert(started.windows == once.windows);
    assert(started.wf());
    assert(started.windows.focused_info()->0.home() == home);
    lemma_shifted_once(started, !up);
}

/// A swipe that takes no direction leaves nothing behind.
pub proof fn lemma_undecided_swipe_is_dropped(w: World, cancelled: bool)
    requires
        w.gesture matches Some(gesture) && gesture.resolved is None,
    ensures
        w.swipe_ended(cancelled) == (World { gesture: None, ..w }),
{
}

/// Ending the tag switch on the focused output and turning to a tag comes to
/// the same as turning to that tag.
proof fn lemma_finished_then_turned(w: World, tag: TagId)
    requires
        w.wf(),
        w.outputs.has(w.outputs.focused),
    ensures
        w.slide_finished(w.outputs.focused).outputs.turned_to(tag) == w.outputs.turned_to(tag),
{
    let output = w.outputs.focused;
    match lookup(w.slides, output) {
        None => {},
        Some(slide) => {
            let without = World { slides: unfiled(w.slides, output), ..w };
            lemma_finalized_outputs(without, output, slide, slide.headed());
            assert(w.outputs.turned_to(slide.old_tag).turned_to(tag).infos
                =~= w.outputs.turned_to(tag).infos);
        },
    }
}

/// A tag switch turns the focused output to the tag that it is to, and no
/// other output. The switch remembers the tag that it started on.
pub proof fn lemma_switch_turns_output(
    w: World,
    tag: TagId,
    direction: i32,
    excluded: Option<WindowId>,
)
    requires
        w.wf(),
        direction == 1 || direction == -1,
        w.outputs.has(w.outputs.focused),
        w.outputs.current_tag() != Some(tag),
    ensures
        w.slid(tag, direction, excluded).outputs == w.outputs.turned_to(tag),
        (lookup(w.screens, w.outputs.focused) matches Some(geo) && geo.width != 0) ==> (lookup(
            w.slid(tag, direction, excluded).slides,
            w.outputs.focused,
        ) matches Some(slide) && {
            let width = (lookup(w.screens, w.outputs.focused)->0).width;
            &&& Some(slide.old_tag) == w.outputs.current_tag()
            &&& slide.new_tag == tag
            &&& slide.direction == direction
            &&& slide.distance == width
            &&& slide.offset == direction * width
            &&& slide.animation.0 == AnimationKind::Timed {
                start: w.now,
                duration: 250_000_000,
                from: Scalar { bits: 0 },
                to: Scalar { bits: 0x3FF0_0000_0000_0000 },
            }
            &&& lookup(w.slides, w.outputs.focused) is None ==> slide.outgoing == w.snapshot(
                w.windows.rendered(w.shown(w.outputs.focused)),
                excluded,
            )
        }),
{
    let output = w.outputs.focused;
    let scope = LayoutScope { output, tag };
    let old_tag = w.outputs.current_tag()->0;
    let settled = w.slide_finished(output);
    lemma_slide_finished_wf(w, output);
    lemma_finished_then_turned(w, tag);
    lemma_turned_to_wf(settled.outputs, tag);
    lemma_outputs_wf(settled, settled.outputs.turned_to(tag));
    let turned = World { outputs: settled.outputs.turned_to(tag), ..settled };
    let ids = settled.windows.rendered(scope);
    lemma_mapped_ids(turned, ids);
    let placed = turned.mapped_ids(ids);
    lemma_relaid_wf(placed, Some(scope), false);
    let shown = placed.relaid(Some(scope), false);
    lemma_tag_focused_wf(shown, scope);
    let told = shown.tag_focused(scope).broadcast();
    lemma_broadcast(shown.tag_focused(scope));
    let outgoing = settled.snapshot(
        settled.windows.rendered(LayoutScope { output, tag: old_tag }),
        excluded,
    );
    let incoming = shown.snapshot(shown.windows.rendered(scope), excluded);
    lemma_mapped_all(told, outgoing);
    let distance = match lookup(told.screens, output) {
        Some(geo) => geo.width,
        None => 0,
    };
    let places = World::offset_places(incoming, direction * distance);
    lemma_mapped_all(told, places);
    if lookup(w.screens, output) is Some {
        lemma_screen(w, output);
    }
    if distance != 0 {
        let slide = Slide {
            direction,
            distance: distance as i32,
            animation: Animation::started(w.now, SLIDE_DURATION),
            old_tag,
            new_tag: tag,
            outgoing,
            incoming,
            eased: Scalar { bits: ZERO },
            offset: (direction * distance) as i32,
        };
        lemma_lookup_filed(told.mapped_all(places).slides, output, slide, output);
    }
}

/// A tag change, sliding or not, shows the tag that it is to.
pub proof fn lemma_switch_shows_tag(w: World, tag: TagId, direction: i32)
    requires
        w.wf(),
        direction == 1 || direction == -1,
        w.outputs.has(w.outputs.focused),
    ensures
        w.slid(tag, direction, None).outputs.tag_of(w.outputs.focused) == Some(tag),
        w.tag_changed(tag).outputs.tag_of(w.outputs.focused) == Some(tag),
{
    let output = w.outputs.focused;
    let scope = LayoutScope { output, tag };
    let old_tag = w.outputs.current_tag()->0;
    if old_tag != tag {
        lemma_switch_turns_output(w, tag, direction, None);
    }
    let off = w.windows.rendered(LayoutScope { output, tag: old_tag });
    let on = w.windows.rendered(scope);
    lemma_mapped_ids(w, off);
    lemma_mapped_ids(w.unmapped_ids(off), on);
    let bare = w.unmapped_ids(off).mapped_ids(on);
    lemma_turned_to_wf(w.outputs, tag);
    lemma_outputs_wf(bare, w.outputs.turned_to(tag));
    let turned = World { outputs: w.outputs.turned_to(tag), ..bare };
    lemma_tag_focused_wf(turned, scope);
    let focused = turned.tag_focused(scope);
    lemma_relaid_wf(focused, Some(scope), true);
    lemma_broadcast(focused.relaid(Some(scope), true));
}

/// Taking windows off the plane leaves none of them on it, and every other
/// window as it was.
proof fn lemma_unmapped_all_gone(w: World, places: Seq<(SurfaceId, Point)>, surface: SurfaceId)
    requires
        keys_distinct(w.elements),
    ensures
        keys_distinct(w.unmapped_all(places).elements),
        has_key(places, surface) ==> !has_key(w.unmapped_all(places).elements, surface),
        !has_key(places, surface) ==> lookup(w.unmapped_all(places).elements, surface) == lookup(
            w.elements,
            surface,
        ),
    decreases places.len(),
{
    if places.len() > 0 {
        let before = w.unmapped_all(places.drop_last());
        let last = places.last().0;
        lemma_unmapped_all_gone(w, places.drop_last(), surface);
        lemma_keys_stay_distinct(before.elements, last, Point { x: 0, y: 0 });
        lemma_lookup_unfiled(before.elements, last, surface);
        lemma_key_of_last(places, surface);
    }
}

/// Placing windows puts no other on the plane.
proof fn lemma_mapped_all_adds(w: World, places: Seq<(SurfaceId, Point)>, surface: SurfaceId)
    requires
        keys_distinct(w.elements),
        !has_key(places, surface),
    ensures
        keys_distinct(w.mapped_all(places).elements),
        has_key(w.mapped_all(places).elements, surface) ==> has_key(w.elements, surface),
    decreases places.len(),
{
    if places.len() > 0 {
        let before = w.mapped_all(places.drop_last());
        let last = places.last().0;
        lemma_key_of_last(places, surface);
        lemma_mapped_all_adds(w, places.drop_last(), surface);
        lemma_keys_stay_distinct(before.elements, last, places.last().1);
        lemma_lookup_unfiled(before.elements, last, surface);
        let after = w.mapped_all(places).elements;
        assert(after == unfiled(before.elements, last).push((last, places.last().1)));
        if has_key(after, surface) {
            let k = index_of_key(after, surface);
            assert(files_at(after, surface, k));
            assert(unfiled(before.elements, last)[k] == after[k]);
            lemma_some_key(unfiled(before.elements, last), surface, k);
        }
    }
}

/// A list files a key last or before that.
pub(crate) proof fn lemma_key_of_last(places: Seq<(SurfaceId, Point)>, surface: SurfaceId)
    requires
        places.len() > 0,
    ensures
        has_key(places, surface) <==> has_key(places.drop_last(), surface) || places.last().0
            == surface,
{
    let front = places.drop_last();
    if has_key(places, surface) && places.last().0 != surface {
        let k = index_of_key(places, surface);
        assert(files_at(places, surface, k));
        assert(front[k] == places[k]);
        lemma_some_key(front, surface, k);
    }
    if has_key(front, surface) {
        let k = index_of_key(front, surface);
        assert(files_at(front, surface, k));
        assert(front[k] == places[k]);
        lemma_some_key(places, surface, k);
    }
    if places.last().0 == surface {
        lemma_some_key(places, surface, places.len() - 1);
    }
}

/// A tag switch that the clock carries to its end, as every one does that no
/// swipe drives, arrives when another one interrupts it, however early: no
/// output is turned back, and no window that was leaving stays on the plane.
pub proof fn lemma_interrupted_switch_arrives(
    w: World,
    output: OutputId,
    slide: Slide,
    start: u64,
    surface: SurfaceId,
)
    requires
        w.wf(),
        lookup(w.slides, output) == Some(slide),
        slide.animation == Animation::started(start, SLIDE_DURATION),
    ensures
        w.slide_finished(output).outputs == w.outputs,
        has_key(slide.outgoing, surface) && !has_key(slide.incoming, surface) ==> !has_key(
            w.slide_finished(output).elements,
            surface,
        ),
{
    let without = World { slides: unfiled(w.slides, output), ..w };
    assert(slide.headed());
    lemma_finalized_outputs(without, output, slide, true);
    lemma_unmapped_all_gone(without, slide.outgoing, surface);
    if !has_key(slide.incoming, surface) {
        lemma_mapped_all_adds(without.unmapped_all(slide.outgoing), slide.incoming, surface);
    }
}

/// A swipe from tag to tag that is let go before it has arrived brings the
/// old tag back: once its switch has run out, or is interrupted on its way
/// back, every output shows what it showed.
pub proof fn lemma_dropped_tag_swipe_reverts(w: World, action: Action, slide: Slide)
    requires
        w.wf(),
        steps(action),
        w.outputs.has(w.outputs.focused),
        lookup(w.screens, w.outputs.focused) matches Some(geo) && geo.width != 0,
        w.swipe_started(action).1 is Tag,
        lookup(w.swipe_started(action).0.slides, w.outputs.focused) matches Some(begun)
            && slide.old_tag == begun.old_tag,
    ensures
        !slide.arrived() ==> w.swipe_started(action).0.slide_finalized(
            w.outputs.focused,
            slide,
            slide.arrived(),
        ).outputs == w.outputs,
        !slide.headed() ==> w.swipe_started(action).0.slide_finalized(
            w.outputs.focused,
            slide,
            slide.headed(),
        ).outputs == w.outputs,
{
    reveal(World::acted);
    let output = w.outputs.focused;
    let tag = w.outputs.current_tag()->0;
    let (next, direction) = if action is FocusNextTag {
        (TagId((tag.0 + 1) as u32), 1i32)
    } else {
        (TagId((tag.0 - 1) as u32), (-1int) as i32)
    };
    let after = w.acted(action);
    if after != w {
        assert(after == w.slid(next, direction, None));
        if next != tag {
            lemma_switch_turns_output(w, next, direction, None);
            let begun = lookup(after.slides, output)->0;
            let held = Slide { animation: Animation::held(Scalar { bits: ZERO }), ..begun };
            lemma_lookup_filed(after.slides, output, held, output);
            let started = w.swipe_started(action).0;
            lemma_finalized_outputs(started, output, slide, false);
            assert(w.outputs.turned_to(next).turned_to(tag).infos =~= w.outputs.infos);
        }
    }
}

/// A window that is moved to another tag follows there: it is on that tag of
/// its output, and that tag is shown. (The output that is turned is the
/// focused one.)
pub proof fn lemma_moved_window_follows(w: World, tag: TagId, direction: i32)
    requires
        w.wf(),
        direction == 1 || direction == -1,
        w.outputs.has(w.outputs.focused),
        w.windows.focused_info() is Some,
        w.windows.focused_info()->0.output == w.outputs.focused,
        w.windows.focused_info()->0.tag != tag,
    ensures
        ({
            let id = w.windows.focused->0;
            let after = w.moved_to_tag(tag, direction);
            &&& after.windows.infos.contains_key(id)
            &&& after.windows.infos[id].home() == (LayoutScope { output: w.outputs.focused, tag })
            &&& after.outputs.tag_of(w.outputs.focused) == Some(tag)
        }),
{
    let info = w.windows.focused_info()->0;
    let id = w.windows.focused->0;
    let scope = LayoutScope { output: info.output, tag };
    lemma_focused_found(w);
    lemma_relocated_sound(w, id, scope);
    let placed = World { windows: relocated(w.windows, id, scope), ..w };
    assert(placed.windows.infos.contains_key(id));
    lemma_slid_wf(placed, tag, direction, Some(id));
    if w.outputs.current_tag() != Some(tag) {
        lemma_switch_turns_output(placed, tag, direction, Some(id));
    }
    assert(placed.slid(tag, direction, Some(id)).windows.infos.dom().contains(id));
}

/// A tag switch that has arrived leaves the tags as they are; one that has
/// not brings the old tag back to its own output, whichever is focused.
pub proof fn lemma_finalized_outputs(w: World, output: OutputId, slide: Slide, arrived: bool)
    ensures
        w.slide_finalized(output, slide, arrived).outputs == if arrived {
            w.outputs
        } else {
            w.outputs.turned(output, slide.old_tag)
        },
{
    if arrived {
        lemma_mapped_all(w, slide.outgoing);
        lemma_mapped_all(w.unmapped_all(slide.outgoing), slide.incoming);
    } else {
        lemma_mapped_all(w, slide.incoming);
        lemma_mapped_all(w.unmapped_all(slide.incoming), slide.outgoing);
        let back = w.unmapped_all(slide.incoming).mapped_all(slide.outgoing);
        let turned = World { outputs: w.outputs.turned(output, slide.old_tag), ..back };
        let scope = LayoutScope { output, tag: slide.old_tag };
        lemma_focus_keeps_outputs(turned, scope);
        lemma_broadcast(turned.tag_focused(scope));
    }
}

proof fn lemma_focus_keeps_outputs(w: World, scope: LayoutScope)
    ensures
        w.tag_focused(scope).outputs == w.outputs,
{
    match w.scope_focus(scope) {
        Some((id, info)) => {
            lemma_changed_focus_keeps_outputs(w, id, info.window.surface);
        },
        None => {},
    }
}

proof fn lemma_changed_focus_keeps_outputs(w: World, id: WindowId, surface: SurfaceId)
    ensures
        w.focus_changed(id, surface).outputs == w.outputs,
{
    match w.windows.info(id) {
        None => {},
        Some(info) => match w.windows.stack(info.home()) {
            None => {},
            Some(stack) => {
                let raised = if info.fullscreen {
                    stack.moved_down()
                } else {
                    stack
                };
                let focused = World {
                    windows: w.windows.restacked(
                        info.home(),
                        raised.focused_on(id),
                    ).focused_on(Some(id)),
                    ..w
                }.emit(Effect::Focus(Some(surface)));
                lemma_layout_keeps_outputs(focused, info.home().output, true);
            },
        },
    }
}

proof fn lemma_layout_keeps_outputs(w: World, id: OutputId, animate: bool)
    ensures
        w.laid_out(id, animate).outputs == w.outputs,
{
    let scope = w.shown(id);
    let ids = w.tiled_ids(scope);
    let placed = match (w.last_covering(ids), lookup(w.screens, id)) {
        (Some(chosen), Some(geo)) => {
            lemma_covering_keeps_outputs(w, chosen, geo.rect(), ids);
            w.covered_by(chosen, geo.rect(), ids)
        },
        _ => {
            lemma_tiling_keeps_outputs(w, ids, w.arrangement(id, ids.len()), animate);
            w.tiled_all(ids, w.arrangement(id, ids.len()), animate)
        },
    };
    lemma_floating_keeps_outputs(placed, w.floating_ids(scope), w.usable(id));
}

proof fn lemma_tiling_keeps_outputs(
    w: World,
    ids: Seq<WindowId>,
    boxes: Seq<Tile>,
    animate: bool,
)
    ensures
        w.tiled_all(ids, boxes, animate).outputs == w.outputs,
    decreases ids.len(),
{
    if ids.len() > 0 {
        lemma_tiling_keeps_outputs(w, ids.drop_last(), boxes, animate);
    }
}

proof fn lemma_covering_keeps_outputs(w: World, chosen: WindowId, area: Rect, ids: Seq<WindowId>)
    ensures
        w.covered_by(chosen, area, ids).outputs == w.outputs,
    decreases ids.len(),
{
    if ids.len() > 0 {
        lemma_covering_keeps_outputs(w, chosen, area, ids.drop_last());
    }
}

proof fn lemma_floating_keeps_outputs(w: World, ids: Seq<WindowId>, area: Tile)
    ensures
        w.floated_all(ids, area).outputs == w.outputs,
    decreases ids.len(),
{
    if ids.len() > 0 {
        lemma_floating_keeps_outputs(w, ids.drop_last(), area);
    }
}

/// Stepping never leaves the tags from the first to the last.
pub proof fn lemma_steps_stay_in_range(w: World)
    requires
        w.wf(),
        w.outputs.current_tag() matches Some(tag) && tag.0 <= LAST_TAG,
    ensures
        w.next_tag_focused().outputs.tag_of(w.outputs.focused) matches Some(tag) && tag.0
            <= LAST_TAG,
        w.previous_tag_focused().outputs.tag_of(w.outputs.focused) matches Some(tag) && tag.0
            <= LAST_TAG,
        w.outputs.current_tag() == Some(TagId(LAST_TAG)) ==> w.next_tag_focused() == w,
        w.outputs.current_tag() == Some(TagId(0)) ==> w.previous_tag_focused() == w,
{
    let tag = w.outputs.current_tag()->0;
    if tag.0 != LAST_TAG {
        lemma_switch_shows_tag(w, TagId((tag.0 + 1) as u32), 1);
    }
    if tag.0 != 0 {
        lemma_switch_shows_tag(w, TagId((tag.0 - 1) as u32), (-1int) as i32);
    }
}

/// Toggling fullscreen twice brings it back.
pub proof fn lemma_toggle_twice(w: World, id: WindowId)
    requires
        w.wf(),
        w.windows.infos.contains_key(id),
    ensures
        w.toggled(id).windows.infos[id].fullscreen == !w.windows.infos[id].fullscreen,
        w.toggled(id).toggled(id).windows.infos[id].fullscreen == w.windows.infos[id].fullscreen,
{
    lemma_toggled_flag(w, id);
    lemma_toggled_wf(w, id);
    lemma_toggled_flag(w.toggled(id), id);
}

pub(crate) proof fn lemma_toggled_flag(w: World, id: WindowId)
    requires
        w.wf(),
        w.windows.infos.contains_key(id),
    ensures
        w.toggled(id).windows.infos.contains_key(id),
        w.toggled(id).windows.infos[id].fullscreen == !w.windows.infos[id].fullscreen,
{
    let info = w.windows.infos[id];
    let changed = crate::window::WindowInfo { fullscreen: !info.fullscreen, ..info };
    lemma_info_wf(w, id, changed);
    let turned = w.with_info(id, changed);
    lemma_relaid_wf(turned, Some(info.home()), true);
    assert(turned.windows.infos.contains_key(id));
    assert(w.toggled(id).windows.infos.dom().contains(id));
}

/// Focusing an output focuses that one and turns no tag.
pub proof fn lemma_output_gets_focus(w: World, id: OutputId)
    requires
        w.wf(),
        w.outputs.has(id),
        w.outputs.has(w.outputs.focused),
    ensures
        w.output_focused(id).outputs == (OutputsModel { focused: id, ..w.outputs }),
{
    if w.outputs.at(w.outputs.focused).id != id {
        let turned = World { outputs: OutputsModel { focused: id, ..w.outputs }, ..w };
        let pointed = match lookup(w.screens, id) {
            None => turned,
            Some(geo) => {
                let centre = crate::animation::Point {
                    x: (geo.x + crate::layout::quotient(geo.width, 2)) as i32,
                    y: (geo.y + crate::layout::quotient(geo.height, 2)) as i32,
                };
                let aimed = turned.emit(Effect::Aim(centre));
                let candidates = if w.hits.contains_key(id) {
                    w.hits[id]
                } else {
                    Seq::empty()
                };
                let met = match crate::world::first_mapped(candidates, w.elements) {
                    Some(surface) => {
                        match aimed.windows.found(surface) {
                            Some(wid) => {
                                lemma_changed_focus_keeps_outputs(aimed, wid, surface);
                            },
                            None => {},
                        }
                        aimed.window_focused(surface)
                    },
                    None => aimed,
                };
                met.emit(Effect::Warp(centre))
            },
        };
        assert(pointed.outputs == turned.outputs);
        match pointed.scope_focus(pointed.shown(id)) {
            Some((wid, info)) => lemma_changed_focus_keeps_outputs(
                pointed,
                wid,
                info.window.surface,
            ),
            None => {},
        }
    } else {
        assert(w.outputs =~= (OutputsModel { focused: id, ..w.outputs }));
    }
}

/// A window that is sent to another output comes to the tag which that shows,
/// and that output is focused; no output is turned.
pub proof fn lemma_sent_window_arrives(w: World, direction: Direction)
    requires
        w.wf(),
        w.outputs.has(w.outputs.focused),
        w.nearest(direction) is Some,
        w.windows.focused_info() is Some,
    ensures
        ({
            let target = w.nearest(direction)->0;
            let id = w.windows.focused->0;
            let after = w.moved_to_output(direction);
            &&& after.outputs == (OutputsModel { focused: target, ..w.outputs })
            &&& after.windows.infos.contains_key(id)
            &&& after.windows.infos[id].home() == w.shown(target)
        }),
{
    let target = w.nearest(direction)->0;
    let info = w.windows.focused_info()->0;
    let id = w.windows.focused->0;
    lemma_nearest(w, direction);
    lemma_focused_found(w);
    let gone = w.unmapped(info.window.surface);
    let scope = w.shown(target);
    lemma_relocated_sound(gone, id, scope);
    let placed = World { windows: relocated(w.windows, id, scope), ..gone };
    lemma_output_focused_wf(placed, target);
    lemma_output_gets_focus(placed, target);
    let focused = placed.output_focused(target);
    assert(placed.windows.infos.contains_key(id));
    assert(focused.windows.infos.dom().contains(id));
    lemma_relaid_wf(focused, Some(info.home()), true);
    let first = focused.relaid(Some(info.home()), true);
    assert(first.windows.infos.dom().contains(id));
    lemma_relaid_wf(first, Some(scope), true);
    assert(w.moved_to_output(direction).windows.infos.dom().contains(id));
}

/// A window that is sent to another output and, still focused, back to the
/// one that it came from is at home again, and so is the focus.
pub proof fn lemma_sent_there_and_back(w: World, direction: Direction, back: Direction)
    requires
        w.wf(),
        w.outputs.has(w.outputs.focused),
        w.nearest(direction) is Some,
        w.windows.focused_info() is Some,
        w.windows.focused_info()->0.home() == w.shown(w.outputs.focused),
        w.moved_to_output(direction).windows.focused == w.windows.focused,
        w.moved_to_output(direction).nearest(back) == Some(w.outputs.focused),
    ensures
        ({
            let id = w.windows.focused->0;
            let after = w.moved_to_output(direction).moved_to_output(back);
            &&& after.outputs == w.outputs
            &&& after.windows.infos.contains_key(id)
            &&& after.windows.infos[id].home() == w.windows.infos[id].home()
        }),
{
    let there = w.moved_to_output(direction);
    lemma_sent_window_arrives(w, direction);
    lemma_moved_to_output_wf(w, direction);
    lemma_nearest(w, direction);
    lemma_sent_window_arrives(there, back);
}

/// A swipe that sends a window to another output and is not carried through
/// brings the window back, provided that it is still focused and that the
/// output it came from is the nearest the other way.
pub proof fn lemma_dropped_output_swipe_reverts(w: World, action: Action)
    requires
        w.wf(),
        w.outputs.has(w.outputs.focused),
        sends(action) matches Some(direction) && w.nearest(direction) is Some,
        w.windows.focused_info() is Some,
        w.windows.focused_info()->0.home() == w.shown(w.outputs.focused),
        inverse(action) matches Some(undo) && sends(undo) matches Some(back)
            && w.swipe_started(action).0.nearest(back) == Some(w.outputs.focused),
        w.swipe_started(action).0.windows.focused == w.windows.focused,
    ensures
        ({
            let id = w.windows.focused->0;
            let after = w.swipe_started(action).0.acted(inverse(action)->0);
            &&& after.outputs == w.outputs
            &&& after.windows.infos.contains_key(id)
            &&& after.windows.infos[id].home() == w.windows.infos[id].home()
        }),
{
    let direction = sends(action)->0;
    let back = sends(inverse(action)->0)->0;
    let there = w.moved_to_output(direction);
    lemma_acted_sends(w, action);
    lemma_morphs_held(there, w.set_in_motion(action), Scalar { bits: ZERO });
    let started = w.swipe_started(action).0;
    assert(started == (World { morphs: started.morphs, ..there }));
    lemma_sent_window_arrives(w, direction);
    lemma_moved_to_output_wf(w, direction);
    lemma_nearest(w, direction);
    assert(started.wf());
    lemma_sent_window_arrives(started, back);
    lemma_acted_sends(started, inverse(action)->0);
}

proof fn lemma_acted_sends(w: World, action: Action)
    requires
        sends(action) is Some,
    ensures
        w.acted(action) == w.moved_to_output(sends(action)->0),
{
    reveal(World::acted);
}

proof fn lemma_morphs_advance_quietly(
    w: World,
    id: OutputId,
    dead: Seq<SurfaceId>,
    morphs: Seq<(SurfaceId, WindowMorph)>,
)
    ensures
        quiet(w.effects, w.morphs_advanced_all(id, dead, morphs).effects),
    decreases morphs.len(),
{
    if morphs.len() > 0 {
        lemma_morphs_advance_quietly(w, id, dead, morphs.drop_last());
        let before = w.morphs_advanced_all(id, dead, morphs.drop_last());
        lemma_quiet_trans(
            w.effects,
            before.effects,
            w.morphs_advanced_all(id, dead, morphs).effects,
        );
    }
}

/// A box in motion is stretched from frame to frame: no frame sends its
/// window, or any other, a size.
pub proof fn lemma_motion_sends_no_size(w: World, id: OutputId, dead: Seq<SurfaceId>)
    ensures
        quiet(w.effects, w.morphs_advanced(id, dead).effects),
{
    lemma_morphs_advance_quietly(
        World { morphs: Seq::empty(), ..w },
        id,
        dead,
        w.morphs,
    );
}

/// The autostart commands are run once.
pub proof fn lemma_autostart_once(w: World)
    ensures
        w.autostarted().autostarted() == w.autostarted(),
{
}

/// While the session is locked no key does anything but switch terminals or
/// what is bound for that.
pub proof fn lemma_locked_keys(w: World, mods: ModifiersState, sym: u32)
    requires
        w.locked,
        !World::switches_vt(sym),
        !w.config.lock_keys.contains_key(World::press(mods, sym)),
    ensures
        w.key_handled(mods, sym) == w,
{
}

/// Following the pointer from output to output asks for nothing: the pointer
/// stays where it is, and so does the keyboard.
pub proof fn lemma_pointer_is_only_followed(w: World, x: Scalar, y: Scalar)
    ensures
        w.pointer_followed(x, y) == (World {
            outputs: OutputsModel {
                focused: w.pointer_followed(x, y).outputs.focused,
                ..w.outputs
            },
            ..w
        }),
{
}

} // verus!
