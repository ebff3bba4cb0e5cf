//! What the operations on the compositor's state keep.
use vstd::prelude::*;

use crate::animation::{
    shrunk, Animation, MorphFinish, Point, Slide, WindowMorph, SLIDE_DURATION,
};
use crate::effect::Effect;
use crate::layout::{quotient, Rect, Tile};
use crate::layout_laws::{
    lemma_fewer_fit, lemma_layout_limits, lemma_tile_count, roomy, within, AREA_LIMIT, TILE_LIMIT,
};
use crate::output::{
    layout_of, lemma_active_ids, Direction, LayoutScope, OutputId, OutputsModel, TagId,
};
use crate::scalar::{Scalar, ZERO};
use crate::table::{filed, files_at, has_key, index_of_key, keys_distinct, lookup, unfiled};
use crate::window::{Registry, Stack, SurfaceId, WindowId, WindowInfo};
use crate::window_laws::{
    lemma_found_is_indexed, lemma_rendered, lemma_relocated_wf, lemma_removed_wf, lemma_reordering, lemma_restacked_wf,
    lemma_stack_len, lemma_updated_wf, relocated,
};
use crate::world::{
    first_mapped, moderate, sound_info, sound_slide, sound_slides, BarModel, World,
};

verus! {

broadcast use crate::table::group_keys_distinct;

/// `b` holds what `a` holds about every window, but for what the window was
/// last told.
pub open spec fn same_but_told(a: Registry, b: Registry) -> bool {
    &&& b.roll == a.roll
    &&& b.free == a.free
    &&& b.next == a.next
    &&& b.stacks == a.stacks
    &&& b.focused == a.focused
    &&& b.index == a.index
    &&& b.infos.dom() == a.infos.dom()
    &&& forall|id: WindowId| #[trigger]
        a.infos.contains_key(id) ==> b.infos[id] == (WindowInfo {
            last_configured: b.infos[id].last_configured,
            ..a.infos[id]
        })
}

/// `b` differs from `a` at most in what is on the plane, which boxes are in
/// motion, what windows were last told, and what was requested.
pub open spec fn steady(a: World, b: World) -> bool {
    &&& b == (World {
        elements: b.elements,
        windows: b.windows,
        morphs: b.morphs,
        effects: b.effects,
        ..a
    })
    &&& same_but_told(a.windows, b.windows)
}

pub proof fn lemma_steady_trans(a: World, b: World, c: World)
    requires
        steady(a, b),
        steady(b, c),
    ensures
        steady(a, c),
{
    assert forall|id: WindowId| #[trigger] a.windows.infos.contains_key(id) implies c.windows.infos[id]
        == (WindowInfo {
        last_configured: c.windows.infos[id].last_configured,
        ..a.windows.infos[id]
    }) by {
        assert(a.windows.infos.dom().contains(id));
        assert(b.windows.infos.contains_key(id));
    }
}

/// Telling a window about a rectangle within the limits keeps the state
/// sound.
pub proof fn lemma_told_wf(w: World, id: WindowId, told: Option<(Rect, bool)>)
    requires
        w.wf(),
        w.windows.infos.contains_key(id),
        told matches Some((r, _)) ==> within(r@, TILE_LIMIT as int),
    ensures
        w.with_info(id, WindowInfo { last_configured: told, ..w.windows.infos[id] }).wf(),
        steady(w, w.with_info(id, WindowInfo { last_configured: told, ..w.windows.infos[id] })),
{
    let info = WindowInfo { last_configured: told, ..w.windows.infos[id] };
    lemma_updated_wf(w.windows, id, info);
    let t = w.with_info(id, info);
    assert(t.windows.infos.dom() =~= w.windows.infos.dom());
    assert forall|other: WindowId| #[trigger] t.windows.infos.contains_key(other) implies sound_info(
        t.windows.infos[other],
        t.outputs,
    ) by {
        assert(w.windows.infos.contains_key(other));
    }
}

pub proof fn lemma_tiled_wf(w: World, id: WindowId, rect: Rect, animate: bool)
    requires
        w.wf(),
        within(rect@, TILE_LIMIT as int),
    ensures
        w.tiled(id, rect, animate).wf(),
        steady(w, w.tiled(id, rect, animate)),
{
    match w.windows.info(id) {
        None => {},
        Some(info) => {
            lemma_told_wf(w, id, Some((rect, info.fullscreen)));
        },
    }
}

pub proof fn lemma_floated_wf(w: World, id: WindowId, area: Tile)
    requires
        w.wf(),
    ensures
        w.floated(id, area).wf(),
        steady(w, w.floated(id, area)),
{
    match w.windows.info(id) {
        None => {},
        Some(info) => {
            lemma_told_wf(w, id, Some((Rect { x: 0, y: 0, width: 0, height: 0 }, false)));
        },
    }
}

pub proof fn lemma_tiled_all_wf(w: World, ids: Seq<WindowId>, boxes: Seq<Tile>, animate: bool)
    requires
        w.wf(),
        ids.len() <= boxes.len(),
        forall|i: int| 0 <= i < ids.len() ==> within(#[trigger] boxes[i], TILE_LIMIT as int),
    ensures
        w.tiled_all(ids, boxes, animate).wf(),
        steady(w, w.tiled_all(ids, boxes, animate)),
    decreases ids.len(),
{
    if ids.len() > 0 {
        let before = w.tiled_all(ids.drop_last(), boxes, animate);
        lemma_tiled_all_wf(w, ids.drop_last(), boxes, animate);
        assert(within(boxes[ids.len() - 1], TILE_LIMIT as int));
        lemma_tiled_wf(before, ids.last(), boxes[ids.len() - 1].rect(), animate);
        lemma_steady_trans(w, before, w.tiled_all(ids, boxes, animate));
    }
}

pub proof fn lemma_floated_all_wf(w: World, ids: Seq<WindowId>, area: Tile)
    requires
        w.wf(),
    ensures
        w.floated_all(ids, area).wf(),
        steady(w, w.floated_all(ids, area)),
    decreases ids.len(),
{
    if ids.len() > 0 {
        let before = w.floated_all(ids.drop_last(), area);
        lemma_floated_all_wf(w, ids.drop_last(), area);
        lemma_floated_wf(before, ids.last(), area);
        lemma_steady_trans(w, before, w.floated_all(ids, area));
    }
}

pub proof fn lemma_covered_by_wf(w: World, chosen: WindowId, area: Rect, ids: Seq<WindowId>)
    requires
        w.wf(),
        within(area@, TILE_LIMIT as int),
    ensures
        w.covered_by(chosen, area, ids).wf(),
        steady(w, w.covered_by(chosen, area, ids)),
    decreases ids.len(),
{
    if ids.len() > 0 {
        let before = w.covered_by(chosen, area, ids.drop_last());
        lemma_covered_by_wf(w, chosen, area, ids.drop_last());
        lemma_tiled_wf(before, chosen, area, false);
        lemma_steady_trans(w, before, w.covered_by(chosen, area, ids));
    }
}

/// The usable area of an output lies within the limits for areas.
pub proof fn lemma_usable(w: World, id: OutputId)
    requires
        w.wf(),
    ensures
        within(w.usable(id), AREA_LIMIT as int),
{
    if lookup(w.screens, id) is Some {
        lemma_screen(w, id);
    }
    if w.zones.contains_key(id) {
        assert(moderate(w.zones[id]));
    }
}

/// A mapped output exists and lies within the limits.
pub proof fn lemma_screen(w: World, id: OutputId)
    requires
        w.wf(),
        lookup(w.screens, id) is Some,
    ensures
        moderate(lookup(w.screens, id)->0),
        w.outputs.has(id),
{
    let i = index_of_key(w.screens, id);
    assert(files_at(w.screens, id, i));
}

/// There are no more tiled windows than registered ones.
pub proof fn lemma_tiled_ids(w: World, scope: LayoutScope)
    requires
        w.wf(),
    ensures
        w.tiled_ids(scope).len() <= w.windows.roll.len(),
        roomy(w.config.gap as int, w.tiled_ids(scope).len() as int),
{
    lemma_stack_len(w.windows, scope);
    w.windows.rendered(scope).lemma_filter_len(|id: WindowId| !w.windows.floats(id));
    lemma_fewer_fit(
        w.config.gap as int,
        w.tiled_ids(scope).len() as int,
        w.windows.roll.len() as int,
    );
}

/// The arrangement of an output gives each window a tile within the limits.
pub proof fn lemma_arrangement(w: World, id: OutputId, n: nat)
    requires
        w.wf(),
        roomy(w.config.gap as int, n as int),
    ensures
        w.arrangement(id, n).len() == n,
        forall|i: int|
            0 <= i < n ==> within(#[trigger] w.arrangement(id, n)[i], TILE_LIMIT as int),
{
    let area = w.usable(id);
    let kind = layout_of(w.layouts, w.shown(id));
    lemma_usable(w, id);
    lemma_layout_limits(kind, area, n, w.config.gap as int);
    lemma_tile_count(kind, area, n, w.config.gap as int);
}

/// Laying an output out keeps the state sound.
pub proof fn lemma_laid_out_wf(w: World, id: OutputId, animate: bool)
    requires
        w.wf(),
    ensures
        w.laid_out(id, animate).wf(),
        steady(w, w.laid_out(id, animate)),
{
    let scope = w.shown(id);
    let area = w.usable(id);
    let ids = w.tiled_ids(scope);
    lemma_tiled_ids(w, scope);
    let placed = match (w.last_covering(ids), lookup(w.screens, id)) {
        (Some(chosen), Some(geo)) => {
            lemma_screen(w, id);
            lemma_covered_by_wf(w, chosen, geo.rect(), ids);
            w.covered_by(chosen, geo.rect(), ids)
        },
        _ => {
            lemma_arrangement(w, id, ids.len());
            lemma_tiled_all_wf(w, ids, w.arrangement(id, ids.len()), animate);
            w.tiled_all(ids, w.arrangement(id, ids.len()), animate)
        },
    };
    lemma_floated_all_wf(placed, w.floating_ids(scope), area);
    let done = placed.floated_all(w.floating_ids(scope), area);
    lemma_steady_trans(w, placed, done);
}

pub proof fn lemma_laid_out_all_wf(w: World, ids: Seq<OutputId>, animate: bool)
    requires
        w.wf(),
    ensures
        w.laid_out_all(ids, animate).wf(),
        steady(w, w.laid_out_all(ids, animate)),
    decreases ids.len(),
{
    if ids.len() > 0 {
        let before = w.laid_out_all(ids.drop_last(), animate);
        lemma_laid_out_all_wf(w, ids.drop_last(), animate);
        lemma_laid_out_wf(before, ids.last(), animate);
        lemma_steady_trans(w, before, w.laid_out_all(ids, animate));
    }
}

/// Laying out keeps the state sound.
pub proof fn lemma_relaid_wf(w: World, scope: Option<LayoutScope>, animate: bool)
    requires
        w.wf(),
    ensures
        w.relaid(scope, animate).wf(),
        steady(w, w.relaid(scope, animate)),
{
    match scope {
        Some(scope) => lemma_laid_out_wf(w, scope.output, animate),
        None => lemma_laid_out_all_wf(
            w,
            w.outputs.active_ids(w.outputs.infos.len()),
            animate,
        ),
    }
}

/// `b` holds the same windows as `a`, with the same places, surfaces and
/// kinds.
pub open spec fn same_windows(a: Registry, b: Registry) -> bool {
    &&& b.roll == a.roll
    &&& b.index == a.index
    &&& b.free == a.free
    &&& b.next == a.next
    &&& b.infos.dom() == a.infos.dom()
    &&& forall|id: WindowId| #[trigger]
        a.infos.contains_key(id) ==> {
            &&& b.infos[id].home() == a.infos[id].home()
            &&& b.infos[id].window == a.infos[id].window
            &&& b.infos[id].floating == a.infos[id].floating
            &&& b.infos[id].fullscreen == a.infos[id].fullscreen
        }
}

/// `b` differs from `a` at most in what is on the plane, which boxes are in
/// motion, what windows were last told, which windows have the focus, the
/// order within stacks, and what was requested.
pub open spec fn calm(a: World, b: World) -> bool {
    &&& b == (World {
        elements: b.elements,
        windows: b.windows,
        morphs: b.morphs,
        effects: b.effects,
        ..a
    })
    &&& same_windows(a.windows, b.windows)
}

/// `b` differs from `a` at most as `calm` says, in which tag and which output
/// is shown and focused, and in the tag switches under way.
pub open spec fn kept(a: World, b: World) -> bool {
    &&& b == (World {
        elements: b.elements,
        windows: b.windows,
        outputs: b.outputs,
        slides: b.slides,
        morphs: b.morphs,
        effects: b.effects,
        ..a
    })
    &&& b.outputs.infos.len() == a.outputs.infos.len()
    &&& same_windows(a.windows, b.windows)
}

pub proof fn lemma_same_windows_trans(a: Registry, b: Registry, c: Registry)
    requires
        same_windows(a, b),
        same_windows(b, c),
    ensures
        same_windows(a, c),
{
    assert forall|id: WindowId| #[trigger] a.infos.contains_key(id) implies {
        &&& c.infos[id].home() == a.infos[id].home()
        &&& c.infos[id].window == a.infos[id].window
        &&& c.infos[id].floating == a.infos[id].floating
        &&& c.infos[id].fullscreen == a.infos[id].fullscreen
    } by {
        assert(a.infos.dom().contains(id));
        assert(b.infos.contains_key(id));
    }
}

pub proof fn lemma_calm_trans(a: World, b: World, c: World)
    requires
        calm(a, b),
        calm(b, c),
    ensures
        calm(a, c),
{
    lemma_same_windows_trans(a.windows, b.windows, c.windows);
}

pub proof fn lemma_kept_trans(a: World, b: World, c: World)
    requires
        kept(a, b),
        kept(b, c),
    ensures
        kept(a, c),
{
    lemma_same_windows_trans(a.windows, b.windows, c.windows);
}

pub proof fn lemma_mapped_all(w: World, places: Seq<(SurfaceId, Point)>)
    ensures
        ({
            let t = w.mapped_all(places);
            &&& t == (World { elements: t.elements, effects: t.effects, ..w })
            &&& keys_distinct(w.elements) ==> keys_distinct(t.elements)
        }),
        ({
            let t = w.unmapped_all(places);
            &&& t == (World { elements: t.elements, effects: t.effects, ..w })
            &&& keys_distinct(w.elements) ==> keys_distinct(t.elements)
        }),
    decreases places.len(),
{
    if places.len() > 0 {
        lemma_mapped_all(w, places.drop_last());
    }
}

pub proof fn lemma_mapped_ids(w: World, ids: Seq<WindowId>)
    ensures
        ({
            let t = w.mapped_ids(ids);
            &&& t == (World { elements: t.elements, effects: t.effects, ..w })
            &&& keys_distinct(w.elements) ==> keys_distinct(t.elements)
        }),
        ({
            let t = w.unmapped_ids(ids);
            &&& t == (World { elements: t.elements, effects: t.effects, ..w })
            &&& keys_distinct(w.elements) ==> keys_distinct(t.elements)
        }),
    decreases ids.len(),
{
    if ids.len() > 0 {
        lemma_mapped_ids(w, ids.drop_last());
    }
}

/// Telling bars changes nothing but what was requested.
pub proof fn lemma_broadcast(w: World)
    ensures
        w.broadcast() == (World { effects: w.broadcast().effects, ..w }),
{
    lemma_bars_told(w, w.bars);
}

pub proof fn lemma_bars_told(w: World, bars: Seq<BarModel>)
    ensures
        w.bars_told(bars) == (World { effects: w.bars_told(bars).effects, ..w }),
    decreases bars.len(),
{
    if bars.len() > 0 {
        let before = w.bars_told(bars.drop_last());
        let bar = bars.last();
        lemma_bars_told(w, bars.drop_last());
        lemma_groups_entered(before, bar.id, bar.groups);
        lemma_states_told(before.groups_entered(bar.id, bar.groups), bar.id, bar.workspaces);
    }
}

pub proof fn lemma_groups_entered(w: World, bar: u64, groups: Seq<(OutputId, bool)>)
    ensures
        ({
            let t = w.groups_entered(bar, groups);
            t == (World { effects: t.effects, ..w })
        }),
    decreases groups.len(),
{
    if groups.len() > 0 {
        lemma_groups_entered(w, bar, groups.drop_last());
    }
}

pub proof fn lemma_states_told(w: World, bar: u64, scopes: Seq<LayoutScope>)
    ensures
        ({
            let t = w.states_told(bar, scopes);
            t == (World { effects: t.effects, ..w })
        }),
    decreases scopes.len(),
{
    if scopes.len() > 0 {
        lemma_states_told(w, bar, scopes.drop_last());
    }
}

/// Refocusing or reordering a stack keeps the state sound.
pub proof fn lemma_restacked_calm(w: World, scope: LayoutScope, stack: Stack)
    requires
        w.wf(),
        w.windows.stacks.contains_key(scope),
        stack.wf(),
        stack.ids.no_duplicates(),
        forall|id: WindowId| stack.ids.contains(id) <==> w.windows.stacks[scope].ids.contains(id),
    ensures
        (World { windows: w.windows.restacked(scope, stack), ..w }).wf(),
        calm(w, (World { windows: w.windows.restacked(scope, stack), ..w })),
{
    lemma_restacked_wf(w.windows, scope, stack);
}

/// Changing the focus keeps the state sound.
pub proof fn lemma_focus_changed_wf(w: World, id: WindowId, surface: SurfaceId)
    requires
        w.wf(),
    ensures
        w.focus_changed(id, surface).wf(),
        calm(w, w.focus_changed(id, surface)),
{
    match w.windows.info(id) {
        None => {},
        Some(info) => {
            let home = info.home();
            assert(w.windows.infos.contains_key(id));
            let stack = w.windows.stacks[home];
            lemma_reordering(stack, id, id);
            let raised = if info.fullscreen {
                stack.moved_down()
            } else {
                stack
            };
            raised.ids.index_of_first_ensures(id);
            lemma_restacked_calm(w, home, raised.focused_on(id));
            let focused = World {
                windows: w.windows.restacked(home, raised.focused_on(id)).focused_on(Some(id)),
                ..w
            }.emit(Effect::Focus(Some(surface)));
            assert(focused.wf());
            assert(calm(w, focused));
            if info.fullscreen {
                lemma_relaid_wf(focused, Some(home), true);
                lemma_steady_calm(focused, focused.relaid(Some(home), true));
                lemma_calm_trans(w, focused, focused.relaid(Some(home), true));
            }
        },
    }
}

pub proof fn lemma_steady_calm(a: World, b: World)
    requires
        steady(a, b),
    ensures
        calm(a, b),
        kept(a, b),
{
}

pub proof fn lemma_window_focused_wf(w: World, surface: SurfaceId)
    requires
        w.wf(),
    ensures
        w.window_focused(surface).wf(),
        calm(w, w.window_focused(surface)),
{
    match w.windows.found(surface) {
        None => {},
        Some(id) => lemma_focus_changed_wf(w, id, surface),
    }
}

pub proof fn lemma_tag_focused_wf(w: World, scope: LayoutScope)
    requires
        w.wf(),
    ensures
        w.tag_focused(scope).wf(),
        calm(w, w.tag_focused(scope)),
{
    match w.scope_focus(scope) {
        Some((id, info)) => lemma_focus_changed_wf(w, id, info.window.surface),
        None => {},
    }
}

pub proof fn lemma_focus_shifted_wf(w: World, up: bool)
    requires
        w.wf(),
    ensures
        w.focus_shifted(up).wf(),
        calm(w, w.focus_shifted(up)),
        w.windows.focused is Some ==> w.has_focused_stack(),
{
    match w.windows.focused_info() {
        None => {},
        Some(info) => {
            let home = info.home();
            let id = w.windows.focused->0;
            assert(w.windows.infos.contains_key(id));
            let stack = w.windows.stacks[home];
            assert(stack.ids.contains(id));
            let shifted = if up {
                stack.focused_up()
            } else {
                stack.focused_down()
            };
            lemma_restacked_calm(w, home, shifted);
            let turned = World { windows: w.windows.restacked(home, shifted), ..w };
            let next = shifted.focused()->0;
            lemma_focus_changed_wf(turned, next, info.window.surface);
            lemma_calm_trans(w, turned, turned.focus_changed(next, info.window.surface));
        },
    }
}

pub proof fn lemma_window_shifted_wf(w: World, up: bool)
    requires
        w.wf(),
    ensures
        w.window_shifted(up).wf(),
        calm(w, w.window_shifted(up)),
{
    match w.windows.focused_info() {
        None => {},
        Some(info) => {
            let home = info.home();
            let id = w.windows.focused->0;
            assert(w.windows.infos.contains_key(id));
            let stack = w.windows.stacks[home];
            assert(stack.ids.contains(id));
            lemma_reordering(stack, id, id);
            let shifted = if up {
                stack.moved_up()
            } else {
                stack.moved_down()
            };
            lemma_restacked_calm(w, home, shifted);
            let turned = World { windows: w.windows.restacked(home, shifted), ..w };
            let next = shifted.focused()->0;
            let focused = turned.focus_changed(next, info.window.surface);
            lemma_focus_changed_wf(turned, next, info.window.surface);
            lemma_calm_trans(w, turned, focused);
            lemma_relaid_wf(focused, Some(home), true);
            lemma_steady_calm(focused, focused.relaid(Some(home), true));
            lemma_calm_trans(w, focused, focused.relaid(Some(home), true));
        },
    }
}

pub proof fn lemma_promoted_wf(w: World, surface: SurfaceId)
    requires
        w.wf(),
        w.promotable(surface),
    ensures
        w.promoted(surface).wf(),
        calm(w, w.promoted(surface)),
{
    let id = w.windows.found(surface)->0;
    let home = w.windows.infos[id].home();
    let master = w.windows.master(home)->0;
    assert(w.windows.infos.contains_key(id));
    let stack = w.windows.stacks[home];
    assert(stack.ids.contains(id));
    lemma_reordering(stack, id, master);
    let swapped = stack.swapped(id, master);
    lemma_restacked_calm(w, home, swapped);
    let turned = World { windows: w.windows.restacked(home, swapped), ..w };
    let focused = turned.focus_changed(id, surface);
    lemma_focus_changed_wf(turned, id, surface);
    lemma_calm_trans(w, turned, focused);
    lemma_relaid_wf(focused, Some(home), true);
    lemma_steady_calm(focused, focused.relaid(Some(home), true));
    lemma_calm_trans(w, focused, focused.relaid(Some(home), true));
}

/// Showing another tag, or focusing another output that exists, keeps the
/// state sound.
pub proof fn lemma_outputs_wf(w: World, outputs: OutputsModel)
    requires
        w.wf(),
        outputs.wf(),
        outputs.infos.len() == w.outputs.infos.len(),
    ensures
        (World { outputs, ..w }).wf(),
        kept(w, (World { outputs, ..w })),
{
    let t = World { outputs, ..w };
    assert forall|id: WindowId| #[trigger] t.windows.infos.contains_key(id) implies sound_info(
        t.windows.infos[id],
        t.outputs,
    ) by {
        assert(w.windows.infos.contains_key(id));
        assert(sound_info(w.windows.infos[id], w.outputs));
    }
}

pub proof fn lemma_turned_wf(outputs: OutputsModel, id: OutputId, tag: TagId)
    requires
        outputs.wf(),
    ensures
        outputs.turned(id, tag).wf(),
        outputs.turned(id, tag).infos.len() == outputs.infos.len(),
        outputs.turned(id, tag).focused == outputs.focused,
{
}

pub proof fn lemma_turned_to_wf(outputs: OutputsModel, tag: TagId)
    requires
        outputs.wf(),
    ensures
        outputs.turned_to(tag).wf(),
        outputs.turned_to(tag).infos.len() == outputs.infos.len(),
        outputs.turned_to(tag).focused == outputs.focused,
{
}

pub proof fn lemma_tag_changed_wf(w: World, tag: TagId)
    requires
        w.wf(),
    ensures
        w.tag_changed(tag).wf(),
        kept(w, w.tag_changed(tag)),
{
    match w.outputs.current_tag() {
        None => {},
        Some(old_tag) => {
            let output = w.outputs.focused;
            let scope = LayoutScope { output, tag };
            let off = w.windows.rendered(LayoutScope { output, tag: old_tag });
            let on = w.windows.rendered(scope);
            lemma_mapped_ids(w, off);
            lemma_mapped_ids(w.unmapped_ids(off), on);
            let shown = w.unmapped_ids(off).mapped_ids(on);
            assert(kept(w, shown));
            lemma_turned_to_wf(w.outputs, tag);
            lemma_outputs_wf(shown, w.outputs.turned_to(tag));
            let turned = World { outputs: w.outputs.turned_to(tag), ..shown };
            lemma_kept_trans(w, shown, turned);
            let focused = turned.tag_focused(scope);
            lemma_tag_focused_wf(turned, scope);
            lemma_kept_trans(w, turned, focused);
            let laid = focused.relaid(Some(scope), true);
            lemma_relaid_wf(focused, Some(scope), true);
            lemma_steady_calm(focused, laid);
            lemma_kept_trans(w, focused, laid);
            lemma_broadcast(laid);
            lemma_kept_trans(w, laid, laid.broadcast());
        },
    }
}

pub proof fn lemma_slide_finalized_wf(w: World, output: OutputId, slide: Slide, arrived: bool)
    requires
        w.wf(),
    ensures
        w.slide_finalized(output, slide, arrived).wf(),
        kept(w, w.slide_finalized(output, slide, arrived)),
{
    if arrived {
        lemma_mapped_all(w, slide.outgoing);
        lemma_mapped_all(w.unmapped_all(slide.outgoing), slide.incoming);
    } else {
        lemma_mapped_all(w, slide.incoming);
        lemma_mapped_all(w.unmapped_all(slide.incoming), slide.outgoing);
        let back = w.unmapped_all(slide.incoming).mapped_all(slide.outgoing);
        assert(kept(w, back));
        lemma_turned_wf(w.outputs, output, slide.old_tag);
        lemma_outputs_wf(back, w.outputs.turned(output, slide.old_tag));
        let turned = World { outputs: w.outputs.turned(output, slide.old_tag), ..back };
        lemma_kept_trans(w, back, turned);
        let scope = LayoutScope { output, tag: slide.old_tag };
        let focused = turned.tag_focused(scope);
        lemma_tag_focused_wf(turned, scope);
        lemma_kept_trans(w, turned, focused);
        lemma_broadcast(focused);
        lemma_kept_trans(w, focused, focused.broadcast());
    }
}

pub proof fn lemma_slide_finished_wf(w: World, output: OutputId)
    requires
        w.wf(),
    ensures
        w.slide_finished(output).wf(),
        kept(w, w.slide_finished(output)),
{
    match lookup(w.slides, output) {
        None => {},
        Some(slide) => {
            let without = World { slides: unfiled(w.slides, output), ..w };
            let i = index_of_key(w.slides, output);
            assert(files_at(w.slides, output, i));
            assert(sound_slide(w.slides[i].1));
            assert(without.wf()) by {
                assert forall|j: int| 0 <= j < without.slides.len() implies {
                    &&& without.outputs.has((#[trigger] without.slides[j]).0)
                    &&& sound_slide(without.slides[j].1)
                } by {
                    if j < i {
                        assert(without.slides[j] == w.slides[j]);
                    } else {
                        assert(without.slides[j] == w.slides[j + 1]);
                    }
                }
            }
            lemma_slide_finalized_wf(without, output, slide, slide.headed());
            lemma_kept_trans(w, without, w.slide_finished(output));
        },
    }
}

/// Filing a sound tag switch keeps the state sound.
pub proof fn lemma_slide_filed_wf(w: World, output: OutputId, slide: Slide)
    requires
        w.wf(),
        w.outputs.has(output),
        sound_slide(slide),
    ensures
        (World { slides: filed(w.slides, output, slide), ..w }).wf(),
        kept(w, (World { slides: filed(w.slides, output, slide), ..w })),
{
    let t = World { slides: filed(w.slides, output, slide), ..w };
    if has_key(w.slides, output) {
        assert(files_at(w.slides, output, index_of_key(w.slides, output)));
    }
    assert forall|j: int| 0 <= j < t.slides.len() implies {
        &&& t.outputs.has((#[trigger] t.slides[j]).0)
        &&& sound_slide(t.slides[j].1)
    } by {
        if j < w.slides.len() && t.slides[j] == w.slides[j] {
            assert(w.outputs.has(w.slides[j].0));
        }
    }
}

pub proof fn lemma_slid_wf(w: World, tag: TagId, direction: i32, excluded: Option<WindowId>)
    requires
        w.wf(),
        direction == 1 || direction == -1,
    ensures
        w.slid(tag, direction, excluded).wf(),
        kept(w, w.slid(tag, direction, excluded)),
{
    match w.outputs.current_tag() {
        None => {},
        Some(old_tag) => if old_tag != tag {
            let output = w.outputs.focused;
            let scope = LayoutScope { output, tag };
            let settled = w.slide_finished(output);
            lemma_slide_finished_wf(w, output);
            let outgoing = settled.snapshot(
                settled.windows.rendered(LayoutScope { output, tag: old_tag }),
                excluded,
            );
            lemma_turned_to_wf(settled.outputs, tag);
            lemma_outputs_wf(settled, settled.outputs.turned_to(tag));
            let turned = World { outputs: settled.outputs.turned_to(tag), ..settled };
            lemma_kept_trans(w, settled, turned);
            let ids = settled.windows.rendered(scope);
            lemma_mapped_ids(turned, ids);
            let placed = turned.mapped_ids(ids);
            lemma_kept_trans(w, turned, placed);
            let shown = placed.relaid(Some(scope), false);
            lemma_relaid_wf(placed, Some(scope), false);
            lemma_steady_calm(placed, shown);
            lemma_kept_trans(w, placed, shown);
            let incoming = shown.snapshot(shown.windows.rendered(scope), excluded);
            let focused = shown.tag_focused(scope);
            lemma_tag_focused_wf(shown, scope);
            lemma_kept_trans(w, shown, focused);
            let told = focused.broadcast();
            lemma_broadcast(focused);
            lemma_kept_trans(w, focused, told);
            match lookup(told.screens, output) {
                Some(geo) => lemma_screen(told, output),
                None => {},
            }
            let distance = match lookup(told.screens, output) {
                Some(geo) => geo.width,
                None => 0,
            };
            if distance == 0 {
                lemma_mapped_all(told, outgoing);
                lemma_kept_trans(w, told, w.slid(tag, direction, excluded));
            } else {
                let places = World::offset_places(incoming, direction * distance);
                lemma_mapped_all(told, places);
                let moved = told.mapped_all(places);
                lemma_kept_trans(w, told, moved);
                let slide = Slide {
                    direction,
                    distance: distance as i32,
                    animation: Animation::started(w.now, SLIDE_DURATION),
                    old_tag,
                    new_tag: tag,
                    outgoing,
                    incoming,
                    eased: Scalar { bits: ZERO },
                    offset: (direction * distance) as i32,
                };
                lemma_slide_filed_wf(moved, output, slide);
                let filed_slide = World { slides: filed(moved.slides, output, slide), ..moved };
                lemma_kept_trans(w, moved, filed_slide);
                lemma_kept_trans(w, filed_slide, filed_slide.emit(Effect::Render));
            }
        },
    }
}

pub proof fn lemma_output_focused_wf(w: World, id: OutputId)
    requires
        w.wf(),
        w.outputs.has(id),
        w.outputs.has(w.outputs.focused),
    ensures
        w.output_focused(id).wf(),
        kept(w, w.output_focused(id)),
{
    if w.outputs.at(w.outputs.focused).id != id {
        let outputs = OutputsModel { focused: id, ..w.outputs };
        lemma_outputs_wf(w, outputs);
        let turned = World { outputs, ..w };
        let pointed = match lookup(w.screens, id) {
            None => turned,
            Some(geo) => {
                lemma_screen(w, id);
                let centre = Point {
                    x: (geo.x + quotient(geo.width, 2)) as i32,
                    y: (geo.y + quotient(geo.height, 2)) as i32,
                };
                let aimed = turned.emit(Effect::Aim(centre));
                let candidates = if w.hits.contains_key(id) {
                    w.hits[id]
                } else {
                    Seq::empty()
                };
                let met = match first_mapped(candidates, w.elements) {
                    Some(surface) => {
                        lemma_window_focused_wf(aimed, surface);
                        aimed.window_focused(surface)
                    },
                    None => aimed,
                };
                assert(calm(aimed, met));
                lemma_kept_trans(w, aimed, met);
                met.emit(Effect::Warp(centre))
            },
        };
        assert(kept(w, pointed));
        match pointed.scope_focus(pointed.shown(id)) {
            Some((wid, info)) => {
                lemma_focus_changed_wf(pointed, wid, info.window.surface);
                lemma_kept_trans(
                    w,
                    pointed,
                    pointed.focus_changed(wid, info.window.surface),
                );
            },
            None => {},
        }
    }
}

/// The nearest output is active, mapped and not the focused one.
pub proof fn lemma_nearest(w: World, direction: Direction)
    requires
        w.wf(),
        w.nearest(direction) is Some,
    ensures
        w.outputs.has(w.nearest(direction)->0),
        w.outputs.at(w.nearest(direction)->0).active,
        w.lies(direction, w.nearest(direction)->0),
{
    let ids = w.outputs.active_ids(w.outputs.infos.len());
    let i = choose|i: int| w.is_nearest(direction, ids, i);
    assert(w.is_nearest(direction, ids, i));
    lemma_active_ids(w.outputs, w.outputs.infos.len(), 0);
    assert(w.outputs.has(ids[i]));
}

/// Giving a window another scope of an existing output keeps the state
/// sound.
pub proof fn lemma_relocated_sound(w: World, id: WindowId, scope: LayoutScope)
    requires
        w.wf(),
        w.windows.infos.contains_key(id),
        w.outputs.has(scope.output),
    ensures
        (World { windows: relocated(w.windows, id, scope), ..w }).wf(),
{
    let t = World { windows: relocated(w.windows, id, scope), ..w };
    lemma_relocated_wf(w.windows, id, scope);
    assert forall|other: WindowId| #[trigger] t.windows.infos.contains_key(other) implies sound_info(
        t.windows.infos[other],
        t.outputs,
    ) by {
        assert(w.windows.infos.contains_key(other));
        assert(sound_info(w.windows.infos[other], w.outputs));
    }
}

/// The focused window is the one that its surface is found by.
pub proof fn lemma_focused_found(w: World)
    requires
        w.wf(),
        w.windows.focused_info() is Some,
    ensures
        w.windows.found(w.windows.focused_info()->0.window.surface) == w.windows.focused,
        w.has_focused_stack(),
        w.windows.infos.contains_key(w.windows.focused->0),
        w.outputs.has(w.windows.focused_info()->0.output),
{
    let info = w.windows.focused_info()->0;
    let id = w.windows.focused->0;
    assert(w.windows.infos.contains_key(id));
    lemma_found_is_indexed(w.windows, info.window.surface);
}

pub proof fn lemma_moved_to_output_wf(w: World, direction: Direction)
    requires
        w.wf(),
        w.outputs.has(w.outputs.focused),
    ensures
        w.moved_to_output(direction).wf(),
        w.moved_to_output(direction).outputs.infos.len() == w.outputs.infos.len(),
{
    match (w.nearest(direction), w.windows.focused_info()) {
        (Some(target), Some(info)) => {
            lemma_nearest(w, direction);
            lemma_focused_found(w);
            let id = w.windows.focused->0;
            let gone = w.unmapped(info.window.surface);
            let scope = w.shown(target);
            lemma_relocated_sound(gone, id, scope);
            let placed = World { windows: relocated(w.windows, id, scope), ..gone };
            lemma_output_focused_wf(placed, target);
            let focused = placed.output_focused(target);
            lemma_relaid_wf(focused, Some(info.home()), true);
            lemma_relaid_wf(focused.relaid(Some(info.home()), true), Some(scope), true);
        },
        _ => {},
    }
}

/// Setting a box in motion keeps the state sound.
pub proof fn lemma_morphed_wf(
    w: World,
    window: crate::window::Window,
    output: OutputId,
    from: Rect,
    to: Rect,
    on_finish: MorphFinish,
)
    requires
        w.wf(),
    ensures
        w.morphed(window, output, from, to, on_finish).wf(),
        w.morphed(window, output, from, to, on_finish).outputs == w.outputs,
        w.morphed(window, output, from, to, on_finish).windows == w.windows,
{
}

pub proof fn lemma_moved_to_tag_wf(w: World, tag: TagId, direction: i32)
    requires
        w.wf(),
        direction == 1 || direction == -1,
    ensures
        w.moved_to_tag(tag, direction).wf(),
        w.moved_to_tag(tag, direction).outputs.infos.len() == w.outputs.infos.len(),
{
    match w.windows.focused_info() {
        None => {},
        Some(info) => {
            lemma_focused_found(w);
            let id = w.windows.focused->0;
            let scope = LayoutScope { output: info.output, tag };
            lemma_relocated_sound(w, id, scope);
            let placed = World { windows: relocated(w.windows, id, scope), ..w };
            lemma_slid_wf(placed, tag, direction, Some(id));
            let slid = placed.slid(tag, direction, Some(id));
            match (info.last_configured, slid.windows.info(id)) {
                (Some((old_rect, _)), Some(moved)) => match moved.last_configured {
                    Some((new_rect, _)) => lemma_morphed_wf(
                        slid,
                        info.window,
                        info.output,
                        old_rect,
                        new_rect,
                        MorphFinish::Remap,
                    ),
                    None => {},
                },
                _ => {},
            }
        },
    }
}

pub proof fn lemma_toggled_wf(w: World, id: WindowId)
    requires
        w.wf(),
    ensures
        w.toggled(id).wf(),
        w.toggled(id).outputs == w.outputs,
{
    match w.windows.info(id) {
        None => {},
        Some(info) => {
            let changed = WindowInfo { fullscreen: !info.fullscreen, ..info };
            lemma_info_wf(w, id, changed);
            lemma_relaid_wf(w.with_info(id, changed), Some(info.home()), true);
        },
    }
}

/// A change to what is kept about a window that leaves its place, its surface
/// and its limits alone keeps the state sound.
pub proof fn lemma_info_wf(w: World, id: WindowId, info: WindowInfo)
    requires
        w.wf(),
        w.windows.infos.contains_key(id),
        info.home() == w.windows.infos[id].home(),
        info.window.surface == w.windows.infos[id].window.surface,
        sound_info(info, w.outputs),
    ensures
        w.with_info(id, info).wf(),
{
    let t = w.with_info(id, info);
    lemma_updated_wf(w.windows, id, info);
    assert forall|other: WindowId| #[trigger] t.windows.infos.contains_key(other) implies sound_info(
        t.windows.infos[other],
        t.outputs,
    ) by {
        assert(w.windows.infos.contains_key(other) || other == id);
    }
}

pub proof fn lemma_uncovered_wf(w: World, ids: Seq<WindowId>)
    requires
        w.wf(),
    ensures
        w.uncovered(ids).wf(),
        w.uncovered(ids) == (World { windows: w.uncovered(ids).windows, ..w }),
        w.uncovered(ids).windows.infos.dom() == w.windows.infos.dom(),
        w.uncovered(ids).windows == (Registry {
            infos: w.uncovered(ids).windows.infos,
            ..w.windows
        }),
    decreases ids.len(),
{
    if ids.len() > 0 {
        lemma_uncovered_wf(w, ids.drop_last());
        let before = w.uncovered(ids.drop_last());
        match before.windows.info(ids.last()) {
            Some(info) => {
                lemma_info_wf(before, ids.last(), WindowInfo { fullscreen: false, ..info });
                assert(w.uncovered(ids).windows.infos.dom() =~= before.windows.infos.dom());
            },
            None => {},
        }
    }
}

pub proof fn lemma_slide_advanced_wf(w: World, output: OutputId, slide: Slide)
    requires
        w.wf(),
        w.outputs.has(output),
        sound_slide(slide),
    ensures
        w.slide_advanced(output, slide).wf(),
        kept(w, w.slide_advanced(output, slide)),
{
    if slide.animation.finished(w.now) {
        lemma_slide_finalized_wf(w, output, slide, slide.arrived());
    } else {
        let places = World::slide_places(slide);
        lemma_mapped_all(w, places);
        let moved = w.mapped_all(places);
        lemma_slide_filed_wf(moved, output, slide);
        lemma_kept_trans(w, moved, w.slide_advanced(output, slide));
    }
}

pub proof fn lemma_slides_advanced_all_wf(w: World, slides: Seq<(OutputId, Slide)>)
    requires
        w.wf(),
        sound_slides(slides, w.outputs),
    ensures
        w.slides_advanced_all(slides).wf(),
        kept(w, w.slides_advanced_all(slides)),
    decreases slides.len(),
{
    if slides.len() > 0 {
        assert(sound_slides(slides.drop_last(), w.outputs));
        lemma_slides_advanced_all_wf(w, slides.drop_last());
        let before = w.slides_advanced_all(slides.drop_last());
        let last = slides[slides.len() - 1];
        assert(w.outputs.has(last.0) && sound_slide(last.1));
        lemma_slide_advanced_wf(before, last.0, last.1);
        lemma_kept_trans(w, before, w.slides_advanced_all(slides));
    }
}

pub proof fn lemma_slides_advanced_wf(w: World)
    requires
        w.wf(),
    ensures
        w.slides_advanced().wf(),
        kept(w, w.slides_advanced()),
{
    let empty = World { slides: Seq::empty(), ..w };
    lemma_slides_advanced_all_wf(empty, w.slides);
    lemma_kept_trans(w, empty, w.slides_advanced());
}

pub proof fn lemma_morphs_advanced_all(
    w: World,
    id: OutputId,
    dead: Seq<SurfaceId>,
    morphs: Seq<(SurfaceId, WindowMorph)>,
)
    ensures
        ({
            let t = w.morphs_advanced_all(id, dead, morphs);
            &&& t == (World { elements: t.elements, morphs: t.morphs, effects: t.effects, ..w })
            &&& keys_distinct(w.elements) ==> keys_distinct(t.elements)
            &&& keys_distinct(w.morphs) ==> keys_distinct(t.morphs)
        }),
    decreases morphs.len(),
{
    if morphs.len() > 0 {
        lemma_morphs_advanced_all(w, id, dead, morphs.drop_last());
    }
}

/// Taking a window out of the registry keeps the state sound.
pub proof fn lemma_removed_sound(w: World, id: WindowId)
    requires
        w.wf(),
        w.windows.infos.contains_key(id),
    ensures
        (World { windows: w.windows.removed(id), ..w }).wf(),
{
    let without = World { windows: w.windows.removed(id), ..w };
    lemma_removed_wf(w.windows, id);
    lemma_fewer_fit(
        w.config.gap as int,
        without.windows.roll.len() as int,
        w.windows.roll.len() as int,
    );
    assert forall|other: WindowId| #[trigger]
        without.windows.infos.contains_key(other) implies sound_info(
        without.windows.infos[other],
        without.outputs,
    ) by {
        assert(w.windows.infos.contains_key(other));
    }
}

/// Removing a window keeps the state sound.
pub proof fn lemma_window_removed_wf(w: World, surface: SurfaceId)
    requires
        w.wf(),
    ensures
        w.window_removed(surface).wf(),
        w.window_removed(surface).outputs == w.outputs,
        !w.window_removed(surface).windows.index.contains_key(surface),
        w.windows.index.contains_key(surface) ==> w.window_removed(surface).windows.roll.len()
            == w.windows.roll.len() - 1,
{
    match w.windows.indexed(surface) {
        None => {},
        Some(id) => {
            let info = w.windows.infos[id];
            assert(w.windows.infos.contains_key(id));
            lemma_removed_wf(w.windows, id);
            lemma_removed_sound(w, id);
            let without = World { windows: w.windows.removed(id), ..w };
            let leaving = match info.last_configured {
                Some((rect, _)) => without.morphed(
                    info.window,
                    info.output,
                    rect,
                    shrunk(rect@).rect(),
                    MorphFinish::Unmap,
                ),
                None => without.unmapped(info.window.surface),
            };
            let told = leaving.broadcast();
            lemma_broadcast(leaving);
            assert(told.wf());
            match told.scope_focus(info.home()) {
                Some((next, next_info)) => {
                    lemma_focus_changed_wf(told, next, next_info.window.surface);
                },
                None => {},
            }
        },
    }
}

/// A window of a scope is registered.
pub proof fn lemma_rendered_registered(w: World, scope: LayoutScope, id: WindowId)
    requires
        w.wf(),
        w.windows.rendered(scope).contains(id),
    ensures
        w.windows.infos.contains_key(id),
        w.windows.infos[id].home() == scope,
{
    let ids = w.windows.rendered(scope);
    let k = choose|k: int| 0 <= k < ids.len() && ids[k] == id;
    lemma_rendered(w.windows, scope, k);
}

} // verus!
