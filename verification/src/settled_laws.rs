//! What is laid out, and what the bars hear, after each change.
use vstd::prelude::*;

use crate::animation::{
    shrunk, wrapped, Animation, MorphFinish, Point, Slide, SLIDE_DURATION,
};
use crate::client_laws::{
    lemma_all_placed, lemma_box_sets_out, lemma_focus_is_given, lemma_layout_only_adds,
    lemma_snapshot, stands_at,
};
use crate::config::{Action, Settings, TilingConfig};
use crate::effect::Effect;
use crate::laws::{lemma_plain_focus, lemma_second_layout_is_quiet, quiet};
use crate::layer::{layers_without, lemma_layer_index, LayerEntry};
use crate::layout::{Rect, Tile};
use crate::output::{Direction, LayoutScope, OutputId, TagId};
use crate::plane_laws::{lemma_own_surface, lemma_tiled_lands, stands_on, uncovered_there};
use crate::scalar::{Scalar, ZERO};
use crate::session_laws::{
    deserted, follows, lemma_bars_in_order, lemma_requests_stay, on_show,
};
use crate::table::{filed, keys_distinct, lemma_lookup_filed, lookup};
use crate::window::{SurfaceId, WindowId, WindowInfo};
use crate::window_laws::{
    lemma_one_stack, lemma_relocated, lemma_relocated_wf, lemma_reordering, relocated,
};
use crate::world::{moderate, World};
use crate::world_events::{layer_size, Anchors};
use crate::world_laws::{
    lemma_broadcast, lemma_focus_changed_wf, lemma_focused_found, lemma_info_wf, lemma_mapped_all,
    lemma_mapped_ids, lemma_nearest, lemma_output_focused_wf, lemma_outputs_wf, lemma_relaid_wf,
    lemma_relocated_sound, lemma_removed_sound, lemma_restacked_calm, lemma_same_windows_trans,
    lemma_slid_wf, lemma_slide_finished_wf, lemma_tag_focused_wf, lemma_turned_to_wf,
    lemma_window_removed_wf, same_windows,
};

verus! {

broadcast use crate::table::group_keys_distinct;

// Layout.

/// The last thing that made this state was to lay `output` out.
pub open spec fn freshly_laid(t: World, output: OutputId) -> bool {
    exists|b: World| b.wf() && #[trigger] b.laid_out(output, true) == t
}

/// On an output that was just laid out every window was told what layout has
/// to tell it: laying it out again tells it nothing.
pub proof fn lemma_freshly_laid(t: World, output: OutputId)
    requires
        freshly_laid(t, output),
    ensures
        quiet(t.effects, t.laid_out(output, true).effects),
        t.laid_out(output, true).windows == t.windows,
{
    let b = choose|b: World| b.wf() && #[trigger] b.laid_out(output, true) == t;
    lemma_second_layout_is_quiet(b, output, true, true);
}

/// Turning a window fullscreen, or back, lays its output out.
pub proof fn lemma_fullscreen_lays_out(w: World)
    requires
        w.wf(),
        w.windows.focused_info() is Some,
    ensures
        freshly_laid(w.acted(Action::FullScreen), w.windows.focused_info()->0.output),
{
    reveal(World::acted);
    let id = w.windows.focused->0;
    let info = w.windows.infos[id];
    let changed = WindowInfo { fullscreen: !info.fullscreen, ..info };
    lemma_info_wf(w, id, changed);
    assert(w.with_info(id, changed).laid_out(info.output, true) == w.acted(Action::FullScreen));
}

/// Moving a window in its stack lays its output out.
pub proof fn lemma_move_lays_out(w: World, up: bool)
    requires
        w.wf(),
        w.windows.focused_info() is Some,
    ensures
        freshly_laid(
            w.acted(
                if up {
                    Action::MoveUpStack
                } else {
                    Action::MoveDownStack
                },
            ),
            w.windows.focused_info()->0.output,
        ),
{
    reveal(World::acted);
    lemma_focused_found(w);
    let info = w.windows.focused_info()->0;
    let home = info.home();
    let stack = w.windows.stacks[home];
    assert(w.windows.infos.contains_key(w.windows.focused->0));
    assert(stack.ids.contains(w.windows.focused->0));
    lemma_reordering(stack, stack.ids[0], stack.ids[0]);
    let shifted = if up {
        stack.moved_up()
    } else {
        stack.moved_down()
    };
    lemma_restacked_calm(w, home, shifted);
    let turned = World { windows: w.windows.restacked(home, shifted), ..w };
    let id = shifted.focused()->0;
    lemma_focus_changed_wf(turned, id, info.window.surface);
    let focused = turned.focus_changed(id, info.window.surface);
    assert(focused.laid_out(home.output, true) == w.window_shifted(up));
}

/// Promoting a window lays its output out.
pub proof fn lemma_promotion_lays_out(w: World, surface: SurfaceId)
    requires
        w.wf(),
        w.promotable(surface),
    ensures
        freshly_laid(w.promoted(surface), w.windows.infos[w.windows.found(surface)->0].output),
{
    let id = w.windows.found(surface)->0;
    let home = w.windows.infos[id].home();
    let master = w.windows.master(home)->0;
    let stack = w.windows.stacks[home];
    assert(w.windows.infos.contains_key(id));
    assert(stack.ids.contains(id));
    lemma_reordering(stack, id, master);
    lemma_restacked_calm(w, home, stack.swapped(id, master));
    let turned = World { windows: w.windows.restacked(home, stack.swapped(id, master)), ..w };
    lemma_focus_changed_wf(turned, id, surface);
    let focused = turned.focus_changed(id, surface);
    assert(focused.laid_out(home.output, true) == w.promoted(surface));
}

/// Sending a window to another output lays out the one that it leaves and then
/// the one that it comes to.
pub proof fn lemma_send_lays_out(w: World, direction: Direction)
    requires
        w.wf(),
        w.outputs.has(w.outputs.focused),
        w.nearest(direction) is Some,
        w.windows.focused_info() is Some,
    ensures
        ({
            let t = w.moved_to_output(direction);
            let target = w.nearest(direction)->0;
            &&& freshly_laid(t, target)
            &&& exists|b: World|
                freshly_laid(b, w.windows.focused_info()->0.output) && #[trigger] b.laid_out(
                    target,
                    true,
                ) == t
        }),
{
    let target = w.nearest(direction)->0;
    let info = w.windows.focused_info()->0;
    let id = w.windows.focused->0;
    lemma_nearest(w, direction);
    lemma_focused_found(w);
    let gone = w.unmapped(info.window.surface);
    let scope = w.shown(target);
    lemma_relocated_sound(gone, id, scope);
    let placed = World { windows: relocated(w.windows, id, scope), ..gone };
    lemma_output_focused_wf(placed, target);
    let focused = placed.output_focused(target);
    lemma_relaid_wf(focused, Some(info.home()), true);
    let first = focused.relaid(Some(info.home()), true);
    assert(focused.laid_out(info.output, true) == first);
    assert(freshly_laid(first, info.output));
    assert(first.laid_out(target, true) == w.moved_to_output(direction));
}

/// A layer that comes or goes has its output laid out in the zone that is
/// left then.
pub proof fn lemma_layers_lay_out(w: World, surface: SurfaceId, id: OutputId, zone: Tile, i: int)
    ensures
        ({
            let t = w.layer_opened(surface, id, zone);
            t == (World { layers: t.layers, zones: w.zones.insert(id, zone), ..w }).laid_out(
                id,
                true,
            )
        }),
        0 <= i < w.layers.len() && w.layers[i].1.surface == surface && (forall|k: int|
            0 <= k < i ==> (#[trigger] w.layers[k]).1.surface != surface) ==> ({
            let t = w.layer_closed(surface, zone);
            let there = w.layers[i].0;
            t == (World {
                layers: layers_without(w.layers, there, surface),
                zones: w.zones.insert(there, zone),
                ..w
            }).laid_out(there, true)
        }),
{
    let more = World {
        layers: w.layers.push((id, LayerEntry { surface, init_config: false })),
        zones: w.zones.insert(id, zone),
        ..w
    };
    lemma_layout_keeps_layers(more, id);
    if 0 <= i < w.layers.len() && w.layers[i].1.surface == surface && (forall|k: int|
        0 <= k < i ==> (#[trigger] w.layers[k]).1.surface != surface) {
        lemma_layer_index(w.layers, surface, i);
    }
}

/// A layer whose commit leaves another zone than before has its output laid
/// out in that.
pub proof fn lemma_layer_commit_lays_out(
    w: World,
    surface: SurfaceId,
    anchors: Anchors,
    zone: Tile,
    i: int,
)
    requires
        w.wf(),
        moderate(zone),
        0 <= i < w.layers.len(),
        w.layers[i].1.surface == surface,
        forall|k: int| 0 <= k < i ==> (#[trigger] w.layers[k]).1.surface != surface,
        !(w.zones.contains_key(w.layers[i].0) && w.zones[w.layers[i].0] == zone),
    ensures
        freshly_laid(w.layer_committed(surface, anchors, zone), w.layers[i].0),
{
    lemma_layer_index(w.layers, surface, i);
    let (id, entry) = w.layers[i];
    let (width, height) = layer_size(anchors, zone);
    let told = if entry.init_config {
        w
    } else {
        World {
            layers: w.layers.update(i, (id, LayerEntry { init_config: true, ..entry })),
            ..w
        }.emit(Effect::ConfigureLayer { surface, width: width as i32, height: height as i32 })
    };
    let noted = told.zone_noted(id, zone);
    assert forall|k: int| 0 <= k < noted.layers.len() implies noted.outputs.has(
        (#[trigger] noted.layers[k]).0,
    ) by {
        assert(w.outputs.has(w.layers[k].0));
    }
    assert(noted.wf());
    assert(noted.laid_out(id, true) == w.layer_committed(surface, anchors, zone));
}

proof fn lemma_layout_keeps_layers(w: World, id: OutputId)
    ensures
        w.laid_out(id, true).layers == w.layers,
{
    let scope = w.shown(id);
    let area = w.usable(id);
    let ids = w.tiled_ids(scope);
    let boxes = w.arrangement(id, ids.len());
    let placed = match (w.last_covering(ids), lookup(w.screens, id)) {
        (Some(chosen), Some(geo)) => {
            lemma_all_keep_layers(w, ids, boxes, chosen, geo.rect(), area);
            w.covered_by(chosen, geo.rect(), ids)
        },
        _ => {
            lemma_all_keep_layers(w, ids, boxes, WindowId(0), area.rect(), area);
            w.tiled_all(ids, boxes, true)
        },
    };
    lemma_all_keep_layers(placed, w.floating_ids(scope), boxes, WindowId(0), area.rect(), area);
}

proof fn lemma_all_keep_layers(
    w: World,
    ids: Seq<WindowId>,
    boxes: Seq<Tile>,
    chosen: WindowId,
    rect: Rect,
    area: Tile,
)
    ensures
        w.tiled_all(ids, boxes, true).layers == w.layers,
        w.covered_by(chosen, rect, ids).layers == w.layers,
        w.floated_all(ids, area).layers == w.layers,
    decreases ids.len(),
{
    if ids.len() > 0 {
        lemma_all_keep_layers(w, ids.drop_last(), boxes, chosen, rect, area);
    }
}

/// A window that closes has the output that it was on laid out, before
/// everything is drawn.
pub proof fn lemma_close_lays_out(w: World, id: WindowId)
    requires
        w.wf(),
        w.windows.infos.contains_key(id),
    ensures
        ({
            let surface = w.windows.infos[id].window.surface;
            let t = w.toplevel_closed(surface);
            freshly_laid(
                World { effects: t.effects.drop_last(), ..t },
                w.windows.infos[id].output,
            )
        }),
{
    let surface = w.windows.infos[id].window.surface;
    let output = w.windows.infos[id].output;
    assert(w.windows.index[surface] == id);
    lemma_window_removed_wf(w, surface);
    let laid = w.window_removed(surface).laid_out(output, true);
    let t = w.toplevel_closed(surface);
    assert(t == laid.emit(Effect::Render));
    assert(t.effects.drop_last() =~= laid.effects);
    assert((World { effects: t.effects.drop_last(), ..t }) == laid);
}

/// A window that comes to float, or to be tiled, with its first commit has its
/// output laid out, before it is sent its first configure.
pub proof fn lemma_first_commit_lays_out(w: World, id: WindowId, has_parent: bool)
    requires
        w.wf(),
        w.windows.infos.contains_key(id),
        w.windows.infos[id].floating != has_parent,
    ensures
        ({
            let t = w.first_committed(w.windows.infos[id].window.surface, has_parent);
            freshly_laid(
                World { effects: t.effects.drop_last(), ..t },
                w.windows.infos[id].output,
            )
        }),
{
    let info = w.windows.infos[id];
    let surface = info.window.surface;
    assert(w.windows.index[surface] == id);
    let now = WindowInfo { floating: has_parent, ..info };
    lemma_info_wf(w, id, now);
    let laid = w.with_info(id, now).laid_out(info.output, true);
    let t = w.first_committed(surface, has_parent);
    assert(t == laid.emit(Effect::FirstConfigure { surface }));
    assert(t.effects.drop_last() =~= laid.effects);
    assert((World { effects: t.effects.drop_last(), ..t }) == laid);
}

/// Changing how windows are tiled lays every active output out.
pub proof fn lemma_tiling_lays_out(w: World, action: Action, ratio: Scalar)
    requires
        w.wf(),
        action is HideTabletWindows || action is ShowTabletWindows || action is ToggleTabletWindows
            || action is MakeRightHanded || action is MakeLeftHanded || action is FlipHandedness,
    ensures
        ({
            let t = w.acted(action);
            t == (World { config: t.config, ..w }).relaid(None, true)
        }),
        ({
            let t = w.ratio_raised(ratio);
            t == (World { config: t.config, ..w }).relaid(None, true)
        }),
        ({
            let t = w.ratio_lowered(ratio);
            t == (World { config: t.config, ..w }).relaid(None, true)
        }),
{
    reveal(World::acted);
    lemma_config_stays(w, w.acted(action).config.tiling);
    assert forall|tiling: TilingConfig| #[trigger] w.tiling_changed(tiling) == (World {
        config: w.tiling_changed(tiling).config,
        ..w
    }).relaid(None, true) by {
        lemma_config_stays(w, tiling);
    }
}

proof fn lemma_config_stays(w: World, tiling: TilingConfig)
    requires
        w.wf(),
    ensures
        w.tiling_changed(tiling).config == (Settings { tiling, ..w.config }),
{
    let changed = World { config: Settings { tiling, ..w.config }, ..w };
    assert(changed.wf());
    lemma_relaid_wf(changed, None, true);
}

// The bars.

/// Every bar that knows the workspace of `scope` was told how it is in `t`,
/// and that this was all.
pub open spec fn heard(w: World, t: World, b: int, scope: LayoutScope) -> bool {
    let bar = w.bars[b];
    &&& t.effects.contains(Effect::WorkspaceDone { bar: bar.id })
    &&& bar.workspaces.contains(scope) ==> t.effects.contains(
        Effect::WorkspaceState {
            bar: bar.id,
            scope,
            active: on_show(t, scope),
            hidden: !on_show(t, scope) && deserted(t, scope),
        },
    )
}

/// Turning an output to a tag at once is told to every bar.
pub proof fn lemma_turn_is_heard(w: World, tag: TagId, b: int, scope: LayoutScope)
    requires
        w.wf(),
        w.outputs.has(w.outputs.focused),
        0 <= b < w.bars.len(),
    ensures
        heard(w, w.tag_changed(tag), b, scope),
{
    let output = w.outputs.focused;
    let shown = LayoutScope { output, tag };
    let old_tag = w.outputs.current_tag()->0;
    let off = w.windows.rendered(LayoutScope { output, tag: old_tag });
    let on = w.windows.rendered(shown);
    lemma_mapped_ids(w, off);
    lemma_mapped_ids(w.unmapped_ids(off), on);
    let bare = w.unmapped_ids(off).mapped_ids(on);
    lemma_turned_to_wf(w.outputs, tag);
    lemma_outputs_wf(bare, w.outputs.turned_to(tag));
    let turned = World { outputs: w.outputs.turned_to(tag), ..bare };
    lemma_tag_focused_wf(turned, shown);
    let focused = turned.tag_focused(shown);
    lemma_relaid_wf(focused, Some(shown), true);
    let laid = focused.relaid(Some(shown), true);
    lemma_bars_in_order(laid, laid.bars, b, scope, output);
    assert(laid.bars == w.bars);
    assert(w.tag_changed(tag) == laid.broadcast());
}

/// A tag switch that slides is told to every bar as it begins.
pub proof fn lemma_slide_is_heard(
    w: World,
    tag: TagId,
    direction: i32,
    excluded: Option<WindowId>,
    b: int,
    scope: LayoutScope,
)
    requires
        w.wf(),
        direction == 1 || direction == -1,
        w.outputs.has(w.outputs.focused),
        w.outputs.infos[w.outputs.focused.0 as int].current_tag != tag,
        0 <= b < w.bars.len(),
    ensures
        heard(w, w.slid(tag, direction, excluded), b, scope),
{
    let output = w.outputs.focused;
    let new = LayoutScope { output, tag };
    let old_tag = w.outputs.current_tag()->0;
    let settled = w.slide_finished(output);
    lemma_slide_finished_wf(w, output);
    lemma_turned_to_wf(settled.outputs, tag);
    lemma_outputs_wf(settled, settled.outputs.turned_to(tag));
    let turned = World { outputs: settled.outputs.turned_to(tag), ..settled };
    let ids = settled.windows.rendered(new);
    lemma_mapped_ids(turned, ids);
    let placed = turned.mapped_ids(ids);
    lemma_relaid_wf(placed, Some(new), false);
    let shown = placed.relaid(Some(new), false);
    lemma_tag_focused_wf(shown, new);
    let focused = shown.tag_focused(new);
    lemma_broadcast(focused);
    let told = focused.broadcast();
    lemma_bars_in_order(focused, focused.bars, b, scope, output);
    assert(focused.bars == w.bars);
    let outgoing = settled.snapshot(
        settled.windows.rendered(LayoutScope { output, tag: old_tag }),
        excluded,
    );
    let incoming = shown.snapshot(shown.windows.rendered(new), excluded);
    let distance = match lookup(told.screens, output) {
        Some(geo) => geo.width,
        None => 0,
    };
    let places = World::offset_places(incoming, direction * distance);
    lemma_mapped_all(told, outgoing);
    lemma_mapped_all(told, places);
    lemma_places_only_add(told, outgoing);
    lemma_places_only_add(told, places);
    let t = w.slid(tag, direction, excluded);
    assert(follows(told.effects, t.effects));
    lemma_requests_stay(told.effects, t.effects);
    assert(t.outputs == focused.outputs);
    assert(t.windows == focused.windows);
}

proof fn lemma_places_only_add(w: World, places: Seq<(SurfaceId, Point)>)
    ensures
        follows(w.effects, w.mapped_all(places).effects),
        follows(w.effects, w.unmapped_all(places).effects),
    decreases places.len(),
{
    if places.len() > 0 {
        lemma_places_only_add(w, places.drop_last());
    }
}

/// A window that closes is told to every bar: the workspace that it was on may
/// be hidden now.
pub proof fn lemma_close_is_heard(w: World, id: WindowId, b: int, scope: LayoutScope)
    requires
        w.wf(),
        w.windows.infos.contains_key(id),
        0 <= b < w.bars.len(),
    ensures
        heard(w, w.toplevel_closed(w.windows.infos[id].window.surface), b, scope),
{
    let info = w.windows.infos[id];
    let surface = info.window.surface;
    let home = info.home();
    assert(w.windows.index[surface] == id);
    lemma_removed_sound(w, id);
    let without = World { windows: w.windows.removed(id), ..w };
    let leaving = match info.last_configured {
        Some((rect, _)) => {
            lemma_box_sets_out(
                without,
                info.window,
                info.output,
                rect,
                shrunk(rect@).rect(),
                MorphFinish::Unmap,
                surface,
            );
            without.morphed(
                info.window,
                info.output,
                rect,
                shrunk(rect@).rect(),
                MorphFinish::Unmap,
            )
        },
        None => without.unmapped(surface),
    };
    assert(leaving.wf());
    lemma_broadcast(leaving);
    let told = leaving.broadcast();
    lemma_bars_in_order(leaving, leaving.bars, b, scope, info.output);
    assert(leaving.bars == w.bars);
    let removed = w.window_removed(surface);
    lemma_window_removed_wf(w, surface);
    if w.windows.focused == Some(id) {
        match told.scope_focus(home) {
            Some((next, next_info)) => {
                lemma_focus_changed_wf(told, next, next_info.window.surface);
                lemma_focus_is_given(told, next, next_info.window.surface);
            },
            None => {},
        }
    }
    assert(follows(told.effects, removed.effects));
    assert(same_windows(told.windows, removed.windows));
    lemma_relaid_wf(removed, Some(home), true);
    lemma_layout_only_adds(removed, home.output, true);
    let laid = removed.laid_out(home.output, true);
    let t = w.toplevel_closed(surface);
    assert(t == laid.emit(Effect::Render));
    assert(follows(told.effects, laid.effects));
    assert(follows(told.effects, t.effects));
    lemma_requests_stay(told.effects, t.effects);
    assert(same_windows(removed.windows, laid.windows));
    lemma_same_windows_trans(told.windows, removed.windows, laid.windows);
    lemma_deserted_alike(told, t, scope);
}

proof fn lemma_deserted_alike(a: World, b: World, scope: LayoutScope)
    requires
        same_windows(a.windows, b.windows),
    ensures
        deserted(a, scope) == deserted(b, scope),
{
    assert forall|id: WindowId| #[trigger] a.windows.infos.contains_key(id) implies {
        &&& b.windows.infos.contains_key(id)
        &&& b.windows.infos[id].output == a.windows.infos[id].output
        &&& b.windows.infos[id].tag == a.windows.infos[id].tag
    } by {
        assert(b.windows.infos.dom().contains(id));
        assert(b.windows.infos[id].home() == a.windows.infos[id].home());
    }
    assert forall|id: WindowId| #[trigger]
        b.windows.infos.contains_key(id) implies a.windows.infos.contains_key(id) by {
        assert(a.windows.infos.dom().contains(id));
    }
}

/// A window that takes another tag ends up where it was told, or is on its way
/// there.
pub proof fn lemma_taken_window_travels(w: World, tag: TagId, direction: i32)
    requires
        w.wf(),
        direction == 1 || direction == -1,
        w.outputs.has(w.outputs.focused),
        w.windows.focused_info() is Some,
        w.windows.focused_info()->0.tag != tag,
        w.windows.focused_info()->0.last_configured is Some,
    ensures
        ({
            let id = w.windows.focused->0;
            let surface = w.windows.infos[id].window.surface;
            let t = w.moved_to_tag(tag, direction);
            (t.windows.info(id) matches Some(now) && now.last_configured is Some) ==> {
                let rect = ((t.windows.infos[id]).last_configured->0).0;
                match lookup(t.morphs, surface) {
                    Some(morph) => morph.to == rect && lookup(t.elements, surface) is None,
                    None => lookup(t.elements, surface) == Some(Point { x: rect.x, y: rect.y }),
                }
            }
        }),
{
    let id = w.windows.focused->0;
    let info = w.windows.infos[id];
    let scope = LayoutScope { output: info.output, tag };
    lemma_focused_found(w);
    lemma_relocated_sound(w, id, scope);
    let placed = World { windows: relocated(w.windows, id, scope), ..w };
    lemma_slid_wf(placed, tag, direction, Some(id));
    let slid = placed.slid(tag, direction, Some(id));
    match (info.last_configured, slid.windows.info(id)) {
        (Some((old, _)), Some(moved)) => match moved.last_configured {
            Some((new, _)) => lemma_box_sets_out(
                slid,
                info.window,
                info.output,
                old,
                new,
                MorphFinish::Remap,
                info.window.surface,
            ),
            None => {},
        },
        _ => {},
    }
}

/// A window that takes another tag along has the focus there, on top of the
/// windows of that tag, unless it is fullscreen or another switch was under
/// way.
pub proof fn lemma_taken_window_leads(w: World, tag: TagId, direction: i32)
    requires
        w.wf(),
        direction == 1 || direction == -1,
        w.outputs.has(w.outputs.focused),
        lookup(w.slides, w.outputs.focused) is None,
        w.windows.focused_info() is Some,
        w.windows.focused_info()->0.output == w.outputs.focused,
        w.windows.focused_info()->0.tag == w.outputs.infos[w.outputs.focused.0 as int].current_tag,
        w.windows.focused_info()->0.tag != tag,
        !w.windows.focused_info()->0.fullscreen,
    ensures
        ({
            let t = w.moved_to_tag(tag, direction);
            let scope = LayoutScope { output: w.outputs.focused, tag };
            &&& t.windows.focused == w.windows.focused
            &&& t.windows.stacks.contains_key(scope)
            &&& t.windows.stacks[scope].ids.last() == w.windows.focused->0
            &&& t.windows.stacks[scope].focused() == w.windows.focused
        }),
{
    let id = w.windows.focused->0;
    let info = w.windows.infos[id];
    let output = w.outputs.focused;
    let scope = LayoutScope { output, tag };
    lemma_focused_found(w);
    lemma_relocated_sound(w, id, scope);
    lemma_relocated_wf(w.windows, id, scope);
    lemma_relocated(w.windows, id, scope, id);
    let placed = World { windows: relocated(w.windows, id, scope), ..w };
    lemma_turned_to_wf(placed.outputs, tag);
    lemma_outputs_wf(placed, placed.outputs.turned_to(tag));
    let turned = World { outputs: placed.outputs.turned_to(tag), ..placed };
    let ids = placed.windows.rendered(scope);
    lemma_mapped_ids(turned, ids);
    let mapped = turned.mapped_ids(ids);
    lemma_relaid_wf(mapped, Some(scope), false);
    let shown = mapped.relaid(Some(scope), false);
    assert(placed.windows.infos.contains_key(id));
    assert(shown.windows.infos.dom().contains(id));
    assert(shown.windows.stacks == placed.windows.stacks);
    assert(shown.windows.stack_focus(scope) == Some(id));
    lemma_focus_is_given(shown, id, shown.windows.infos[id].window.surface);
    lemma_plain_focus(shown, id, shown.windows.infos[id].window.surface);
    let focused = shown.tag_focused(scope);
    assert(focused == shown.focus_changed(id, shown.windows.infos[id].window.surface));
    lemma_broadcast(focused);
    let told = focused.broadcast();
    let outgoing = placed.snapshot(
        placed.windows.rendered(LayoutScope { output, tag: info.tag }),
        Some(id),
    );
    let incoming = shown.snapshot(shown.windows.rendered(scope), Some(id));
    let distance = match lookup(told.screens, output) {
        Some(geo) => geo.width,
        None => 0,
    };
    lemma_mapped_all(told, outgoing);
    lemma_mapped_all(told, World::offset_places(incoming, direction * distance));
    let slid = placed.slid(tag, direction, Some(id));
    assert(slid.windows == told.windows);
    let t = w.moved_to_tag(tag, direction);
    assert(t.windows == slid.windows);
}

/// A tag switch brings in each tiled window of the tag that it is to: it ends
/// where the window was told, and starts an output's width to the side.
pub proof fn lemma_switch_brings(
    w: World,
    tag: TagId,
    direction: i32,
    excluded: Option<WindowId>,
    id: WindowId,
)
    requires
        w.wf(),
        direction == 1 || direction == -1,
        w.outputs.has(w.outputs.focused),
        w.outputs.infos[w.outputs.focused.0 as int].current_tag != tag,
        lookup(w.slides, w.outputs.focused) is None,
        (lookup(w.screens, w.outputs.focused) matches Some(geo) && geo.width != 0),
        w.windows.infos.contains_key(id),
        w.windows.infos[id].output == w.outputs.focused,
        w.windows.infos[id].tag == tag,
        !w.windows.infos[id].floating,
        excluded != Some(id),
        forall|k: WindowId| #[trigger]
            w.windows.infos.contains_key(k) && w.windows.infos[k].output == w.outputs.focused
                && w.windows.infos[k].tag == tag ==> !w.windows.infos[k].fullscreen,
    ensures
        ({
            let t = w.slid(tag, direction, excluded);
            let surface = w.windows.infos[id].window.surface;
            let width = (lookup(w.screens, w.outputs.focused)->0).width;
            &&& t.windows.infos.contains_key(id)
            &&& (t.windows.infos[id].last_configured matches Some((rect, _)) && {
                &&& lookup(t.elements, surface) == Some(
                    Point { x: wrapped(rect.x + direction * width), y: rect.y },
                )
                &&& (lookup(t.slides, w.outputs.focused) matches Some(slide)
                    && slide.incoming.contains((surface, Point { x: rect.x, y: rect.y })))
            })
        }),
{
    let output = w.outputs.focused;
    let scope = LayoutScope { output, tag };
    let surface = w.windows.infos[id].window.surface;
    let old_tag = w.outputs.current_tag()->0;
    lemma_turned_to_wf(w.outputs, tag);
    lemma_outputs_wf(w, w.outputs.turned_to(tag));
    let turned = World { outputs: w.outputs.turned_to(tag), ..w };
    let ids = w.windows.rendered(scope);
    lemma_mapped_ids(turned, ids);
    let mapped = turned.mapped_ids(ids);
    assert(mapped.wf());
    lemma_relaid_wf(mapped, Some(scope), false);
    let shown = mapped.laid_out(output, false);
    assert(mapped.relaid(Some(scope), false) == shown);
    assert(stands_on(mapped, output, id));
    assert(uncovered_there(mapped, output));
    lemma_tiled_lands(mapped, output, false, id);
    let rect = (shown.windows.infos[id].last_configured->0).0;
    let place = (surface, Point { x: rect.x, y: rect.y });
    assert(lookup(shown.elements, surface) == Some(place.1));
    let incoming = shown.snapshot(shown.windows.rendered(scope), excluded);
    lemma_one_stack(shown.windows, id, scope);
    assert(shown.windows.infos[id].home() == scope);
    lemma_snapshot(shown, shown.windows.rendered(scope), excluded, place);
    let rendered = shown.windows.rendered(scope);
    let k = choose|k: int| 0 <= k < rendered.len() && rendered[k] == id;
    assert(stands_at(shown, excluded, place, rendered[k]));
    assert(incoming.contains(place));
    lemma_snapshot_distinct(shown, rendered, excluded);
    lemma_tag_focused_wf(shown, scope);
    let focused = shown.tag_focused(scope);
    lemma_plain_tag_focus(shown, scope);
    lemma_broadcast(focused);
    let told = focused.broadcast();
    assert(told.windows.infos == shown.windows.infos);
    let outgoing = w.snapshot(
        w.windows.rendered(LayoutScope { output, tag: old_tag }),
        excluded,
    );
    let width = (lookup(w.screens, output)->0).width;
    assert(told.screens == w.screens);
    let places = World::offset_places(incoming, direction * width);
    lemma_mapped_all(told, places);
    let j = choose|j: int| 0 <= j < incoming.len() && incoming[j] == place;
    assert(keys_distinct(places)) by {
        assert forall|a: int, b: int| 0 <= a < b < places.len() implies (#[trigger] places[a]).0
            != (#[trigger] places[b]).0 by {
            assert(incoming[a].0 != incoming[b].0);
        }
    }
    lemma_all_placed(told, places, surface, j);
    assert(places[j] == (surface, Point { x: wrapped(rect.x + direction * width), y: rect.y }));
    let moved = told.mapped_all(places);
    let slide = Slide {
        direction,
        distance: width as i32,
        animation: Animation::started(w.now, SLIDE_DURATION),
        old_tag,
        new_tag: tag,
        outgoing,
        incoming,
        eased: Scalar { bits: ZERO },
        offset: (direction * width) as i32,
    };
    lemma_lookup_filed(moved.slides, output, slide, output);
    let t = w.slid(tag, direction, excluded);
    assert(t.slides == filed(moved.slides, output, slide));
    assert(t.elements == moved.elements);
    assert(t.windows == told.windows);
}

/// Focusing a tag of which no window is fullscreen changes nothing that is
/// kept about a window.
proof fn lemma_plain_tag_focus(w: World, scope: LayoutScope)
    requires
        w.wf(),
        forall|k: WindowId| #[trigger]
            w.windows.infos.contains_key(k) && w.windows.infos[k].home() == scope
                ==> !w.windows.infos[k].fullscreen,
    ensures
        w.tag_focused(scope).windows.infos == w.windows.infos,
        w.tag_focused(scope).elements == w.elements,
{
    match w.scope_focus(scope) {
        Some((id, info)) => {
            let stack = w.windows.stacks[scope];
            assert(stack.ids[stack.focus as int] == id);
            assert(w.windows.stacks[scope].ids.contains(id));
            assert(w.windows.infos[id].home() == scope);
        },
        None => {},
    }
}

/// A snapshot of different windows has no surface twice.
proof fn lemma_snapshot_distinct(w: World, ids: Seq<WindowId>, excluded: Option<WindowId>)
    requires
        w.wf(),
        ids.no_duplicates(),
    ensures
        keys_distinct(w.snapshot(ids, excluded)),
    decreases ids.len(),
{
    if ids.len() > 0 {
        let front = ids.drop_last();
        let last = ids[ids.len() - 1];
        let before = w.snapshot(front, excluded);
        lemma_snapshot_distinct(w, front, excluded);
        if w.windows.infos.contains_key(last) {
            let surface = w.windows.infos[last].window.surface;
            assert forall|j: int| 0 <= j < before.len() implies (#[trigger] before[j]).0
                != surface by {
                assert(before.contains(before[j]));
                lemma_snapshot(w, front, excluded, before[j]);
                let k = choose|k: int|
                    0 <= k < front.len() && stands_at(w, excluded, before[j], #[trigger] front[k]);
                assert(ids[k] != ids[ids.len() - 1]);
                lemma_own_surface(w, last, front[k]);
            }
        }
    }
}

} // verus!
