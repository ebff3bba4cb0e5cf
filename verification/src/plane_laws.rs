//! Where laying an output out leaves its windows.
use vstd::prelude::*;

use crate::animation::{shrunk, MorphFinish, Point};
use crate::client_laws::{
    amid, lemma_all_apart, lemma_floated_apart, lemma_floats_in_middle, lemma_tiled_apart,
    lemma_tiled_goes_there, surface_of,
};
use crate::laws::{
    lemma_apart, lemma_floated_all_tells, lemma_last_covering, lemma_tiled_all_tells, told,
};
use crate::layout::{Rect, Tile};
use crate::layout_laws::{within, TILE_LIMIT};
use crate::output::OutputId;
use crate::table::{keys_distinct, lemma_lookup_unfiled, lookup};
use crate::window::WindowId;
use crate::window_laws::lemma_one_stack;
use crate::world::World;
use crate::world_laws::{
    lemma_arrangement, lemma_covered_by_wf, lemma_floated_all_wf, lemma_laid_out_wf,
    lemma_rendered_registered, lemma_screen, lemma_tiled_all_wf, lemma_tiled_ids, lemma_usable,
    steady,
};

verus! {

broadcast use crate::table::group_keys_distinct;

/// Window `id` stands on the tag that output `output` shows.
pub open spec fn stands_on(w: World, output: OutputId, id: WindowId) -> bool {
    &&& output.0 < w.outputs.infos.len()
    &&& w.windows.infos.contains_key(id)
    &&& w.windows.infos[id].output == output
    &&& w.windows.infos[id].tag == w.outputs.infos[output.0 as int].current_tag
}

/// No window on the tag that output `output` shows is fullscreen, but for
/// those that float.
pub open spec fn uncovered_there(w: World, output: OutputId) -> bool {
    forall|id: WindowId| #[trigger]
        stands_on(w, output, id) && !w.windows.infos[id].floating
            ==> !w.windows.infos[id].fullscreen
}

/// Other windows have other surfaces.
pub(crate) proof fn lemma_own_surface(w: World, id: WindowId, other: WindowId)
    requires
        w.wf(),
        w.windows.infos.contains_key(id),
        other != id,
    ensures
        surface_of(w, other) != Some(w.windows.infos[id].window.surface),
{
    let surface = w.windows.infos[id].window.surface;
    assert(w.windows.index[surface] == id);
    if w.windows.infos.contains_key(other) {
        assert(w.windows.index[w.windows.infos[other].window.surface] == other);
    }
}

/// What tiling a window makes of its surface: it is at `rect`, or in motion
/// to it.
pub open spec fn lands(w: World, t: World, id: WindowId, rect: Rect, animate: bool) -> bool {
    let info = w.windows.infos[id];
    let surface = info.window.surface;
    let drawn = info.window.width > 0 && info.window.height > 0;
    let there = Some(Point { x: rect.x, y: rect.y });
    &&& !animate ==> lookup(t.elements, surface) == there
    &&& info.last_configured is None && !drawn ==> lookup(t.elements, surface) == there
    &&& animate && info.last_configured is None && drawn && lookup(w.morphs, surface) is None
        && shrunk(rect@).rect() != rect ==> lookup(t.elements, surface) is None && (lookup(
        t.morphs,
        surface,
    ) matches Some(morph) && morph.from == shrunk(rect@).rect() && morph.to == rect
        && morph.on_finish == MorphFinish::Remap)
    &&& animate && (info.last_configured matches Some((old, _)) && old != rect) && lookup(
        w.morphs,
        surface,
    ) is None ==> lookup(t.elements, surface) is None && (lookup(t.morphs, surface) matches Some(
        morph,
    ) && (info.last_configured matches Some((old, _)) && morph.from == old) && morph.to == rect
        && morph.on_finish == MorphFinish::Remap)
}

proof fn lemma_all_land(w: World, ids: Seq<WindowId>, boxes: Seq<Tile>, animate: bool, k: int)
    requires
        w.wf(),
        ids.no_duplicates(),
        0 <= k < ids.len(),
        w.windows.infos.contains_key(ids[k]),
    ensures
        lands(w, w.tiled_all(ids, boxes, animate), ids[k], boxes[k].rect(), animate),
    decreases ids.len(),
{
    let id = ids[k];
    let surface = w.windows.infos[id].window.surface;
    let front = ids.drop_last();
    let last = ids[ids.len() - 1];
    let before = w.tiled_all(front, boxes, animate);
    assert(front.no_duplicates());
    if k < front.len() {
        lemma_all_land(w, front, boxes, animate, k);
        assert(front[k] == id);
        assert(last != id);
        lemma_own_surface(w, id, last);
        lemma_surfaces_stay(w, front, boxes, animate, last);
        lemma_tiled_all_distinct(w, front, boxes, animate);
        lemma_tiled_apart(before, last, boxes[ids.len() - 1].rect(), animate, surface);
    } else {
        assert forall|j: int| 0 <= j < front.len() implies surface_of(w, #[trigger] front[j])
            != Some(surface) by {
            assert(front[j] == ids[j]);
            assert(ids[j] != ids[k]);
            lemma_own_surface(w, id, front[j]);
        }
        lemma_all_apart(
            w,
            front,
            boxes,
            animate,
            if front.len() > 0 { front[0] } else { WindowId(0) },
            boxes[0].rect(),
            boxes[0],
            surface,
        );
        assert(!front.contains(id)) by {
            if front.contains(id) {
                let j = choose|j: int| 0 <= j < front.len() && front[j] == id;
                assert(ids[j] == ids[k]);
            }
        }
        lemma_tiled_all_tells(w, front, boxes, animate, id);
        lemma_tiled_goes_there(before, id, boxes[k].rect(), animate);
    }
}

/// Tiling windows leaves every window with the surface that it has.
proof fn lemma_surfaces_stay(
    w: World,
    ids: Seq<WindowId>,
    boxes: Seq<Tile>,
    animate: bool,
    other: WindowId,
)
    ensures
        surface_of(w.tiled_all(ids, boxes, animate), other) == surface_of(w, other),
    decreases ids.len(),
{
    if ids.len() > 0 {
        lemma_surfaces_stay(w, ids.drop_last(), boxes, animate, other);
    }
}

proof fn lemma_tiled_all_distinct(w: World, ids: Seq<WindowId>, boxes: Seq<Tile>, animate: bool)
    requires
        keys_distinct(w.elements),
        keys_distinct(w.morphs),
    ensures
        keys_distinct(w.tiled_all(ids, boxes, animate).elements),
        keys_distinct(w.tiled_all(ids, boxes, animate).morphs),
    decreases ids.len(),
{
    if ids.len() > 0 {
        lemma_tiled_all_distinct(w, ids.drop_last(), boxes, animate);
    }
}

/// A tiled window of the tag that an output shows goes to the place that it is
/// told: at once if nothing is to move, out of a box in the middle of that if
/// it opens, and otherwise from the place that it had.
pub proof fn lemma_tiled_lands(w: World, output: OutputId, animate: bool, id: WindowId)
    requires
        w.wf(),
        stands_on(w, output, id),
        !w.windows.infos[id].floating,
        uncovered_there(w, output),
    ensures
        ({
            let t = w.laid_out(output, animate);
            &&& t.windows.infos.contains_key(id)
            &&& (t.windows.infos[id].last_configured matches Some((rect, _)) && lands(
                w,
                t,
                id,
                rect,
                animate,
            ))
        }),
{
    let scope = w.shown(output);
    let area = w.usable(output);
    let ids = w.tiled_ids(scope);
    let floating = w.floating_ids(scope);
    let surface = w.windows.infos[id].window.surface;
    lemma_apart(w, scope);
    lemma_one_stack(w.windows, id, scope);
    lemma_tiled_among(w, output, id);
    let k = choose|k: int| 0 <= k < ids.len() && ids[k] == id;
    lemma_last_covering(w, ids);
    match w.last_covering(ids) {
        Some(chosen) => {
            lemma_rendered_registered(w, scope, chosen);
            assert(stands_on(w, output, chosen));
        },
        None => {},
    }
    let boxes = w.arrangement(output, ids.len());
    let placed = w.tiled_all(ids, boxes, animate);
    lemma_all_land(w, ids, boxes, animate, k);
    lemma_tiled_all_tells(w, ids, boxes, animate, id);
    lemma_tiled_all_distinct(w, ids, boxes, animate);
    assert(!floating.contains(id));
    lemma_floated_all_tells(placed, floating, area, id);
    assert forall|j: int| 0 <= j < floating.len() implies surface_of(placed, #[trigger] floating[j])
        != Some(surface) by {
        assert(floating.contains(floating[j]));
        lemma_own_surface(w, id, floating[j]);
        lemma_surfaces_stay(w, ids, boxes, animate, floating[j]);
    }
    lemma_all_apart(
        placed,
        floating,
        boxes,
        animate,
        if floating.len() > 0 { floating[0] } else { WindowId(0) },
        area.rect(),
        area,
        surface,
    );
    lemma_laid_out_wf(w, output, animate);
    assert(w.laid_out(output, animate).windows.infos.dom().contains(id));
    assert(told(placed, id, boxes[k].rect()));
}

/// A window on the tag that an output shows is among the tiled ones or among
/// the floating ones, as it is.
proof fn lemma_tiled_among(w: World, output: OutputId, id: WindowId)
    requires
        w.wf(),
        stands_on(w, output, id),
    ensures
        !w.windows.infos[id].floating ==> w.tiled_ids(w.shown(output)).contains(id),
        w.windows.infos[id].floating ==> w.floating_ids(w.shown(output)).contains(id),
{
    let scope = w.shown(output);
    let ids = w.windows.rendered(scope);
    lemma_one_stack(w.windows, id, scope);
    assert(w.windows.infos[id].home() == scope);
    let k = choose|k: int| 0 <= k < ids.len() && ids[k] == id;
    if w.windows.infos[id].floating {
        ids.lemma_filter_contains(|x: WindowId| w.windows.floats(x), k);
    } else {
        ids.lemma_filter_contains(|x: WindowId| !w.windows.floats(x), k);
    }
}

/// A floating window of the tag that an output shows is put in the middle of
/// what the layers leave of the output, less a gap all round; until it has
/// drawn anything it counts as 640 by 480.
pub proof fn lemma_floating_lands(w: World, output: OutputId, animate: bool, id: WindowId)
    requires
        w.wf(),
        stands_on(w, output, id),
        w.windows.infos[id].floating,
        w.zones.contains_key(output),
        lookup(w.screens, output) is Some,
    ensures
        ({
            let t = w.laid_out(output, animate);
            let info = w.windows.infos[id];
            let zone = w.zones[output];
            let screen = lookup(w.screens, output)->0;
            let gap = w.config.gap as int;
            let drawn = info.window.width > 0 && info.window.height > 0;
            let width: int = if drawn { info.window.width as int } else { 640 };
            let height: int = if drawn { info.window.height as int } else { 480 };
            lookup(t.elements, info.window.surface) matches Some(at) && {
                &&& amid(at.x as int, width, screen.x + zone.x + gap, zone.width - 2 * gap)
                &&& amid(at.y as int, height, screen.y + zone.y + gap, zone.height - 2 * gap)
            }
        }),
{
    let scope = w.shown(output);
    let area = w.usable(output);
    let ids = w.tiled_ids(scope);
    let floating = w.floating_ids(scope);
    lemma_apart(w, scope);
    lemma_tiled_among(w, output, id);
    lemma_usable(w, output);
    let boxes = w.arrangement(output, ids.len());
    let placed = match (w.last_covering(ids), lookup(w.screens, output)) {
        (Some(chosen), Some(geo)) => w.covered_by(chosen, geo.rect(), ids),
        _ => w.tiled_all(ids, boxes, animate),
    };
    lemma_placed_wf(w, output, animate);
    let k = choose|k: int| 0 <= k < floating.len() && floating[k] == id;
    assert(placed.windows.infos.dom().contains(id));
    assert(placed.windows.infos[id].window == w.windows.infos[id].window);
    lemma_all_float(placed, floating, area, k);
}

/// The state between tiling and floating is sound.
proof fn lemma_placed_wf(w: World, output: OutputId, animate: bool)
    requires
        w.wf(),
    ensures
        ({
            let ids = w.tiled_ids(w.shown(output));
            let placed = match (w.last_covering(ids), lookup(w.screens, output)) {
                (Some(chosen), Some(geo)) => w.covered_by(chosen, geo.rect(), ids),
                _ => w.tiled_all(ids, w.arrangement(output, ids.len()), animate),
            };
            placed.wf() && steady(w, placed)
        }),
{
    let ids = w.tiled_ids(w.shown(output));
    lemma_tiled_ids(w, w.shown(output));
    match (w.last_covering(ids), lookup(w.screens, output)) {
        (Some(chosen), Some(geo)) => {
            lemma_screen(w, output);
            lemma_covered_by_wf(w, chosen, geo.rect(), ids);
        },
        _ => {
            lemma_arrangement(w, output, ids.len());
            lemma_tiled_all_wf(w, ids, w.arrangement(output, ids.len()), animate);
        },
    }
}

proof fn lemma_all_float(w: World, ids: Seq<WindowId>, area: Tile, k: int)
    requires
        w.wf(),
        ids.no_duplicates(),
        0 <= k < ids.len(),
        w.windows.infos.contains_key(ids[k]),
        within(area, 0x4000_0000),
    ensures
        ({
            let t = w.floated_all(ids, area);
            let info = w.windows.infos[ids[k]];
            let drawn = info.window.width > 0 && info.window.height > 0;
            let width: int = if drawn { info.window.width as int } else { 640 };
            let height: int = if drawn { info.window.height as int } else { 480 };
            lookup(t.elements, info.window.surface) matches Some(at) && {
                &&& amid(at.x as int, width, area.x, area.width)
                &&& amid(at.y as int, height, area.y, area.height)
            }
        }),
    decreases ids.len(),
{
    let id = ids[k];
    let surface = w.windows.infos[id].window.surface;
    let front = ids.drop_last();
    let last = ids[ids.len() - 1];
    let before = w.floated_all(front, area);
    lemma_floated_all_wf(w, front, area);
    assert(before.windows.infos.dom().contains(id));
    assert(before.windows.infos[id].window == w.windows.infos[id].window);
    if k < front.len() {
        lemma_all_float(w, front, area, k);
        assert(front[k] == id);
        lemma_own_surface(before, id, last);
        lemma_floated_apart(before, last, area, surface);
    } else {
        lemma_floats_in_middle(before, id, area);
    }
}

/// A tiled window that alone is fullscreen on the tag that an output shows
/// lies on the output's corner, and the other tiled windows there are off the
/// plane.
pub proof fn lemma_fullscreen_lands(
    w: World,
    output: OutputId,
    animate: bool,
    id: WindowId,
    other: WindowId,
)
    requires
        w.wf(),
        lookup(w.screens, output) is Some,
        stands_on(w, output, id),
        !w.windows.infos[id].floating,
        w.windows.infos[id].fullscreen,
        forall|k: WindowId| #[trigger]
            stands_on(w, output, k) && k != id ==> !w.windows.infos[k].fullscreen,
    ensures
        ({
            let t = w.laid_out(output, animate);
            let screen = lookup(w.screens, output)->0;
            &&& (lookup(t.elements, w.windows.infos[id].window.surface) matches Some(at) && at.x
                == screen.x && at.y == screen.y)
            &&& stands_on(w, output, other) && other != id && !w.windows.infos[other].floating
                ==> lookup(t.elements, w.windows.infos[other].window.surface) is None
        }),
{
    let scope = w.shown(output);
    let area = w.usable(output);
    let ids = w.tiled_ids(scope);
    let floating = w.floating_ids(scope);
    let geo = lookup(w.screens, output)->0;
    lemma_apart(w, scope);
    lemma_tiled_among(w, output, id);
    lemma_screen(w, output);
    lemma_last_covering(w, ids);
    lemma_found_covering(w, ids, id);
    match w.last_covering(ids) {
        Some(chosen) => {
            lemma_rendered_registered(w, scope, chosen);
            assert(stands_on(w, output, chosen));
            assert(chosen == id);
        },
        None => {},
    }
    let placed = w.covered_by(id, geo.rect(), ids);
    lemma_placed_wf(w, output, animate);
    lemma_cover(w, id, geo.rect(), ids, id);
    lemma_off_under_floating(w, output, placed, id);
    if stands_on(w, output, other) && other != id && !w.windows.infos[other].floating {
        lemma_tiled_among(w, output, other);
        lemma_cover(w, id, geo.rect(), ids, other);
        lemma_off_under_floating(w, output, placed, other);
    }
}

/// Floating windows move no tiled one.
proof fn lemma_off_under_floating(w: World, output: OutputId, placed: World, id: WindowId)
    requires
        w.wf(),
        placed.wf(),
        steady(w, placed),
        w.tiled_ids(w.shown(output)).contains(id),
        w.windows.infos.contains_key(id),
    ensures
        lookup(
            placed.floated_all(w.floating_ids(w.shown(output)), w.usable(output)).elements,
            w.windows.infos[id].window.surface,
        ) == lookup(placed.elements, w.windows.infos[id].window.surface),
{
    let area = w.usable(output);
    let scope = w.shown(output);
    let floating = w.floating_ids(scope);
    let surface = w.windows.infos[id].window.surface;
    lemma_apart(w, scope);
    assert(placed.windows.infos.dom().contains(id));
    assert forall|j: int| 0 <= j < floating.len() implies surface_of(placed, #[trigger] floating[j])
        != Some(surface) by {
        assert(floating.contains(floating[j]));
        lemma_own_surface(placed, id, floating[j]);
    }
    lemma_all_apart(
        placed,
        floating,
        seq![],
        true,
        if floating.len() > 0 { floating[0] } else { WindowId(0) },
        area.rect(),
        area,
        surface,
    );
}

proof fn lemma_found_covering(w: World, ids: Seq<WindowId>, id: WindowId)
    requires
        ids.contains(id),
        w.windows.covers(id),
    ensures
        w.last_covering(ids) is Some,
    decreases ids.len(),
{
    if !w.windows.covers(ids.last()) {
        let k = choose|k: int| 0 <= k < ids.len() && ids[k] == id;
        assert(ids.drop_last()[k] == id);
        lemma_found_covering(w, ids.drop_last(), id);
    }
}

proof fn lemma_cover(w: World, chosen: WindowId, area: Rect, ids: Seq<WindowId>, id: WindowId)
    requires
        w.wf(),
        within(area@, TILE_LIMIT as int),
        w.windows.infos.contains_key(id),
        ids.no_duplicates(),
        ids.contains(id),
    ensures
        ({
            let t = w.covered_by(chosen, area, ids);
            let surface = w.windows.infos[id].window.surface;
            lookup(t.elements, surface) == if id == chosen {
                Some(Point { x: area.x, y: area.y })
            } else {
                None
            }
        }),
    decreases ids.len(),
{
    let surface = w.windows.infos[id].window.surface;
    let front = ids.drop_last();
    let last = ids[ids.len() - 1];
    let before = w.covered_by(chosen, area, front);
    lemma_covered_by_wf(w, chosen, area, front);
    assert(before.windows.infos.dom().contains(id));
    assert(before.windows.infos[id].window == w.windows.infos[id].window);
    if last == id {
        if id == chosen {
            lemma_tiled_goes_there(before, id, area, false);
        } else {
            lemma_lookup_unfiled(before.elements, surface, surface);
        }
    } else {
        let k = choose|k: int| 0 <= k < ids.len() && ids[k] == id;
        assert(front[k] == id);
        lemma_cover(w, chosen, area, front, id);
        lemma_own_surface(before, id, last);
        if last == chosen {
            lemma_tiled_apart(before, chosen, area, false, surface);
        } else {
            match before.windows.info(last) {
                Some(info) => lemma_lookup_unfiled(before.elements, info.window.surface, surface),
                None => {},
            }
        }
    }
}

} // verus!
