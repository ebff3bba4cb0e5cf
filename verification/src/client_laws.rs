//! What clients opening, committing and closing windows, and windows in
//! motion, come to.
use vstd::prelude::*;

use crate::animation::{
    shrunk, wrapped, Animation, AnimationKind, MorphFinish, Point, Slide, WindowMorph,
};
use crate::effect::Effect;
use crate::handlers::compositor::Commit;
use crate::handlers::scale::lemma_windows_scaled;
use crate::handlers::xdg_shell::{lemma_closed, lemma_registered_wf};
use crate::laws::{
    lemma_apart, lemma_key_of_last, lemma_layout_stays_on_its_output, lemma_switch_turns_output,
};
use crate::layer::{layers_of, LayerEntry};
use crate::layout::{Rect, Tile};
use crate::layout_laws::{within, TILE_LIMIT};
use crate::output::{
    lemma_active_ids, lemma_active_once, LayoutScope, OutputId, OutputsModel, TagId,
};
use crate::scalar::Scalar;
use crate::session_laws::{follows, lemma_requests_stay};
use crate::table::{
    filed, files_at, has_key, index_of_key, keys_distinct, lemma_lookup_filed,
    lemma_lookup_unfiled, lemma_some_key, lookup, unfiled,
};
use crate::window::{lemma_index_of_first, SurfaceId, Window, WindowId, WindowInfo};
use crate::window_laws::{
    lemma_found_is_indexed, lemma_inserted_wf, lemma_one_stack, lemma_removed_wf, lemma_reordering,
    lemma_restacked_wf,
};
use crate::world::{sound_settings, sound_slides, World};
use crate::world_laws::{
    lemma_broadcast, lemma_focus_changed_wf, lemma_info_wf, lemma_mapped_all, lemma_mapped_ids,
    lemma_laid_out_all_wf, lemma_outputs_wf, lemma_relaid_wf, lemma_removed_sound,
    lemma_rendered_registered, lemma_slides_advanced_all_wf, lemma_tag_focused_wf,
    lemma_turned_to_wf, lemma_uncovered_wf, lemma_window_removed_wf, steady,
};

verus! {

broadcast use crate::table::group_keys_distinct;

// The plane.

/// What is put on top is found there, and everything else where it was.
proof fn lemma_raised<K, W>(s: Seq<(K, W)>, key: K, value: W, other: K)
    requires
        keys_distinct(s),
    ensures
        lookup(unfiled(s, key).push((key, value)), key) == Some(value),
        other != key ==> lookup(unfiled(s, key).push((key, value)), other) == lookup(s, other),
{
    lemma_lookup_unfiled(s, key, other);
    lemma_lookup_filed(unfiled(s, key), key, value, other);
    assert(filed(unfiled(s, key), key, value) == unfiled(s, key).push((key, value)));
}

/// A window that is placed is where it was put, one that is taken off is not
/// on the plane, and every other is where it was.
pub proof fn lemma_placed_there(
    w: World,
    surface: SurfaceId,
    at: Point,
    activate: bool,
    other: SurfaceId,
)
    requires
        keys_distinct(w.elements),
    ensures
        ({
            let on = w.mapped(surface, at, activate);
            let off = w.unmapped(surface);
            &&& lookup(on.elements, surface) == Some(at)
            &&& other != surface ==> lookup(on.elements, other) == lookup(w.elements, other)
            &&& on.elements.last() == (surface, at)
            &&& on.effects == w.effects.push(Effect::Place { surface, at, activate })
            &&& lookup(off.elements, surface) is None
            &&& other != surface ==> lookup(off.elements, other) == lookup(w.elements, other)
            &&& off.effects == w.effects.push(Effect::Unplace { surface })
            &&& keys_distinct(on.elements)
            &&& keys_distinct(off.elements)
        }),
{
    lemma_raised(w.elements, surface, at, other);
    lemma_lookup_unfiled(w.elements, surface, other);
}

/// Windows that are placed are each where they were put.
pub(crate) proof fn lemma_all_placed(w: World, places: Seq<(SurfaceId, Point)>, surface: SurfaceId, k: int)
    requires
        keys_distinct(w.elements),
        keys_distinct(places),
    ensures
        keys_distinct(w.mapped_all(places).elements),
        0 <= k < places.len() ==> lookup(w.mapped_all(places).elements, places[k].0) == Some(
            places[k].1,
        ),
        !has_key(places, surface) ==> lookup(w.mapped_all(places).elements, surface) == lookup(
            w.elements,
            surface,
        ),
    decreases places.len(),
{
    if places.len() > 0 {
        let front = places.drop_last();
        let last = places.last();
        let before = w.mapped_all(front);
        assert(keys_distinct(front)) by {
            assert forall|i: int, j: int| 0 <= i < j < front.len() implies (#[trigger] front[i]).0
                != (#[trigger] front[j]).0 by {
                assert(places[i].0 != places[j].0);
            }
        }
        lemma_all_placed(w, front, surface, k);
        if 0 <= k < front.len() {
            assert(places[k].0 != places[places.len() - 1].0);
            lemma_raised(before.elements, last.0, last.1, places[k].0);
        } else {
            lemma_raised(before.elements, last.0, last.1, surface);
        }
        if !has_key(places, surface) {
            lemma_key_of_last(places, surface);
            lemma_raised(before.elements, last.0, last.1, surface);
        }
    }
}

/// Windows that are taken off are not on the plane.
proof fn lemma_all_off(w: World, places: Seq<(SurfaceId, Point)>, surface: SurfaceId)
    requires
        keys_distinct(w.elements),
    ensures
        keys_distinct(w.unmapped_all(places).elements),
        has_key(places, surface) ==> lookup(w.unmapped_all(places).elements, surface) is None,
        !has_key(places, surface) ==> lookup(w.unmapped_all(places).elements, surface) == lookup(
            w.elements,
            surface,
        ),
    decreases places.len(),
{
    if places.len() > 0 {
        let before = w.unmapped_all(places.drop_last());
        lemma_all_off(w, places.drop_last(), surface);
        lemma_lookup_unfiled(before.elements, places.last().0, surface);
        lemma_key_of_last(places, surface);
    }
}

// Boxes in motion.

/// A box that sets out goes from where it is said to, or from where it is if
/// it is on its way already, to where it is said to; it takes 180
/// milliseconds from now, and its window is off the plane meanwhile. A box
/// that is there already has arrived.
pub proof fn lemma_box_sets_out(
    w: World,
    window: Window,
    output: OutputId,
    from: Rect,
    to: Rect,
    on_finish: MorphFinish,
    other: SurfaceId,
)
    requires
        keys_distinct(w.elements),
        keys_distinct(w.morphs),
    ensures
        ({
            let t = w.morphed(window, output, from, to, on_finish);
            let key = window.surface;
            let start = match lookup(w.morphs, key) {
                Some(morph) => morph.current,
                None => from,
            };
            &&& other != key ==> lookup(t.morphs, other) == lookup(w.morphs, other) && lookup(
                t.elements,
                other,
            ) == lookup(w.elements, other)
            &&& start != to ==> {
                &&& lookup(t.elements, key) is None
                &&& t.effects.last() == Effect::Render
                &&& (lookup(t.morphs, key) matches Some(morph) && {
                    &&& morph.window == window
                    &&& morph.output == output
                    &&& morph.from == start
                    &&& morph.current == start
                    &&& morph.to == to
                    &&& morph.on_finish == on_finish
                    &&& morph.animation.0 == AnimationKind::Timed {
                        start: w.now,
                        duration: 180_000_000,
                        from: Scalar { bits: 0 },
                        to: Scalar { bits: 0x3FF0_0000_0000_0000 },
                    }
                    &&& morph.base == match lookup(w.morphs, key) {
                        Some(was) => was.base,
                        None => (window.width, window.height),
                    }
                })
            }
            &&& start == to ==> {
                &&& lookup(t.morphs, key) is None
                &&& on_finish == MorphFinish::Remap ==> lookup(t.elements, key) == Some(
                    Point { x: to.x, y: to.y },
                )
                &&& on_finish == MorphFinish::Unmap ==> lookup(t.elements, key) is None
            }
            &&& t == (World { elements: t.elements, morphs: t.morphs, effects: t.effects, ..w })
            &&& keys_distinct(t.elements)
            &&& keys_distinct(t.morphs)
        }),
{
    let key = window.surface;
    lemma_lookup_unfiled(w.morphs, key, other);
    lemma_lookup_unfiled(w.elements, key, other);
    lemma_raised(w.elements, key, Point { x: to.x, y: to.y }, other);
    let t = w.morphed(window, output, from, to, on_finish);
    let start = match lookup(w.morphs, key) {
        Some(morph) => morph.current,
        None => from,
    };
    if start != to {
        let morph = WindowMorph {
            window,
            output,
            animation: Animation::started(w.now, crate::animation::MORPH_DURATION),
            from: start,
            to,
            on_finish,
            base: match lookup(w.morphs, key) {
                Some(was) => was.base,
                None => (window.width, window.height),
            },
            current: start,
            eased: Scalar { bits: crate::scalar::ZERO },
        };
        lemma_lookup_filed(w.morphs, key, morph, other);
        assert(t.morphs == filed(w.morphs, key, morph));
    }
}

/// A frame of an output draws exactly the boxes there whose window lives and
/// whose time is not over: those of the clock until it has run for as long as
/// they take, and those that a finger holds for as long as it does.
pub proof fn lemma_boxes_drawn(
    w: World,
    id: OutputId,
    dead: Seq<SurfaceId>,
    entry: (SurfaceId, WindowMorph),
)
    ensures
        w.boxes_drawn(id, dead).contains(entry) <==> w.morphs.contains(entry) && entry.1.output
            == id && !dead.contains(entry.1.window.surface) && under_way(entry.1.animation, w.now),
{
    let pred = |e: (SurfaceId, WindowMorph)| w.draws(id, dead, e.1);
    let all = w.morphs;
    let some = w.boxes_drawn(id, dead);
    if some.contains(entry) {
        all.lemma_filter_contains_rev(pred, entry);
        let k = choose|k: int| 0 <= k < some.len() && some[k] == entry;
        all.lemma_filter_pred(pred, k);
    }
    if all.contains(entry) && w.draws(id, dead, entry.1) {
        let k = choose|k: int| 0 <= k < all.len() && all[k] == entry;
        all.lemma_filter_contains(pred, k);
    }
}

/// The animation is not over at `now`.
pub open spec fn under_way(animation: Animation, now: u64) -> bool {
    match animation.0 {
        AnimationKind::Timed { start, duration, .. } => now < start + duration && (now >= start
            || duration > 0),
        AnimationKind::Manual { .. } => true,
    }
}

/// A frame of an output leaves the boxes of other outputs alone, and of its
/// own those that it draws; the rest have arrived.
pub proof fn lemma_boxes_carried_on(w: World, id: OutputId, dead: Seq<SurfaceId>, key: SurfaceId)
    requires
        keys_distinct(w.morphs),
    ensures
        ({
            let t = w.morphs_advanced(id, dead);
            match lookup(w.morphs, key) {
                Some(morph) => lookup(t.morphs, key) == if morph.output != id || (!dead.contains(
                    morph.window.surface,
                ) && under_way(morph.animation, w.now)) {
                    Some(morph)
                } else {
                    None
                },
                None => lookup(t.morphs, key) is None,
            }
        }),
{
    let empty = World { morphs: Seq::empty(), ..w };
    lemma_some_carried_on(empty, id, dead, w.morphs, key);
}

proof fn lemma_some_carried_on(
    w: World,
    id: OutputId,
    dead: Seq<SurfaceId>,
    morphs: Seq<(SurfaceId, WindowMorph)>,
    key: SurfaceId,
)
    requires
        w.morphs.len() == 0,
        keys_distinct(morphs),
    ensures
        ({
            let t = w.morphs_advanced_all(id, dead, morphs);
            &&& t.now == w.now
            &&& match lookup(morphs, key) {
                Some(morph) => lookup(t.morphs, key) == if morph.output != id || (!dead.contains(
                    morph.window.surface,
                ) && under_way(morph.animation, w.now)) {
                    Some(morph)
                } else {
                    None
                },
                None => lookup(t.morphs, key) is None,
            }
        }),
    decreases morphs.len(),
{
    if morphs.len() == 0 {
        assert(!has_key(morphs, key));
        assert(!has_key(w.morphs, key));
    } else {
        let front = morphs.drop_last();
        let (last, morph) = morphs.last();
        assert(keys_distinct(front)) by {
            assert forall|i: int, j: int| 0 <= i < j < front.len() implies (#[trigger] front[i]).0
                != (#[trigger] front[j]).0 by {
                assert(morphs[i].0 != morphs[j].0);
            }
        }
        let before = w.morphs_advanced_all(id, dead, front);
        lemma_some_carried_on(w, id, dead, front, key);
        lemma_some_carried_on(w, id, dead, front, last);
        assert(!has_key(front, last)) by {
            if has_key(front, last) {
                let k = index_of_key(front, last);
                assert(files_at(front, last, k));
                assert(morphs[k].0 != morphs[morphs.len() - 1].0);
            }
        }
        assert(filed(front, last, morph) =~= morphs);
        lemma_lookup_filed(front, last, morph, key);
        lemma_lookup_filed(before.morphs, last, morph, key);
    }
}

// Tag switches.

/// A tag switch that is carried on by a frame while its time lasts draws the
/// windows of both tags as one strip: those of the new tag off their place by
/// how far the switch has still to go, and those of the old one an output's
/// width behind them.
pub proof fn lemma_switch_drawn(w: World, output: OutputId, slide: Slide, k: int)
    requires
        keys_distinct(w.elements),
        keys_distinct(slide.outgoing + slide.incoming),
        under_way(slide.animation, w.now),
    ensures
        ({
            let t = w.slide_advanced(output, slide);
            &&& lookup(t.slides, output) == Some(slide)
            &&& t.outputs == w.outputs
            &&& t.windows == w.windows
            &&& 0 <= k < slide.incoming.len() ==> lookup(t.elements, slide.incoming[k].0) == Some(
                Point {
                    x: wrapped(slide.incoming[k].1.x + slide.offset),
                    y: slide.incoming[k].1.y,
                },
            )
            &&& 0 <= k < slide.outgoing.len() ==> lookup(t.elements, slide.outgoing[k].0) == Some(
                Point {
                    x: wrapped(
                        wrapped(slide.outgoing[k].1.x + slide.offset) - slide.direction
                            * slide.distance,
                    ),
                    y: slide.outgoing[k].1.y,
                },
            )
        }),
{
    let places = World::slide_places(slide);
    let both = slide.outgoing + slide.incoming;
    assert(keys_distinct(places)) by {
        assert forall|i: int, j: int| 0 <= i < j < places.len() implies (#[trigger] places[i]).0
            != (#[trigger] places[j]).0 by {
            assert(places[i].0 == both[i].0);
            assert(places[j].0 == both[j].0);
        }
    }
    let n = slide.outgoing.len() as int;
    lemma_all_placed(w, places, SurfaceId(0), k);
    lemma_all_placed(w, places, SurfaceId(0), n + k);
    if 0 <= k < slide.outgoing.len() {
        assert(places[k] == (slide.outgoing[k].0, slide.outgoing_at(slide.outgoing[k].1)));
    }
    if 0 <= k < slide.incoming.len() {
        assert(places[n + k] == (slide.incoming[k].0, slide.incoming_at(slide.incoming[k].1)));
    }
    lemma_mapped_all(w, places);
    let moved = w.mapped_all(places);
    lemma_lookup_filed(moved.slides, output, slide, output);
}

/// A tag switch whose time is over and that has come at least halfway has
/// arrived: the windows of the new tag are in their places, those of the old
/// one are off the plane, no output is turned, and it is carried on no more.
pub proof fn lemma_switch_over(w: World, output: OutputId, slide: Slide, k: int)
    requires
        keys_distinct(w.elements),
        keys_distinct(slide.outgoing + slide.incoming),
        !under_way(slide.animation, w.now),
        (Scalar { bits: 0x3FE0_0000_0000_0000 }).at_most(slide.animation.eased(slide.eased)),
    ensures
        ({
            let t = w.slide_advanced(output, slide);
            &&& t.slides == w.slides
            &&& t.outputs == w.outputs
            &&& t.windows == w.windows
            &&& 0 <= k < slide.incoming.len() ==> lookup(t.elements, slide.incoming[k].0) == Some(
                slide.incoming[k].1,
            )
            &&& 0 <= k < slide.outgoing.len() ==> lookup(t.elements, slide.outgoing[k].0) is None
        }),
{
    let both = slide.outgoing + slide.incoming;
    let n = slide.outgoing.len() as int;
    assert(keys_distinct(slide.incoming)) by {
        assert forall|i: int, j: int| 0 <= i < j < slide.incoming.len() implies (
        #[trigger] slide.incoming[i]).0 != (#[trigger] slide.incoming[j]).0 by {
            assert(both[n + i].0 != both[n + j].0);
        }
    }
    let off = w.unmapped_all(slide.outgoing);
    lemma_mapped_all(w, slide.outgoing);
    lemma_mapped_all(off, slide.incoming);
    if 0 <= k < slide.outgoing.len() {
        let surface = slide.outgoing[k].0;
        lemma_all_off(w, slide.outgoing, surface);
        lemma_some_key(slide.outgoing, surface, k);
        assert(!has_key(slide.incoming, surface)) by {
            if has_key(slide.incoming, surface) {
                let j = index_of_key(slide.incoming, surface);
                assert(files_at(slide.incoming, surface, j));
                assert(both[k].0 != both[n + j].0);
            }
        }
        lemma_all_placed(off, slide.incoming, surface, 0);
    }
    lemma_all_placed(off, slide.incoming, SurfaceId(0), k);
}

// Windows.

/// A window that is tiled goes to its place: at once if nothing is to move or
/// if it has drawn nothing yet; out of a box in the middle of its place if it
/// opens; and otherwise from the place that it had.
pub proof fn lemma_tiled_goes_there(w: World, id: WindowId, rect: Rect, animate: bool)
    requires
        keys_distinct(w.elements),
        keys_distinct(w.morphs),
        w.windows.infos.contains_key(id),
    ensures
        ({
            let t = w.tiled(id, rect, animate);
            let info = w.windows.infos[id];
            let surface = info.window.surface;
            let there = Some(Point { x: rect.x, y: rect.y });
            &&& !animate ==> lookup(t.elements, surface) == there
            &&& animate && info.last_configured is None && (info.window.width <= 0
                || info.window.height <= 0) ==> lookup(t.elements, surface) == there
            &&& animate && lookup(w.morphs, surface) is None && info.window.width > 0
                && info.window.height > 0 && info.last_configured is None && shrunk(rect@).rect()
                != rect ==> {
                &&& lookup(t.elements, surface) is None
                &&& (lookup(t.morphs, surface) matches Some(morph) && morph.from == shrunk(
                    rect@,
                ).rect() && morph.to == rect && morph.output == info.output && morph.on_finish
                    == MorphFinish::Remap)
            }
            &&& animate && lookup(w.morphs, surface) is None && (info.last_configured matches Some(
                (old, _),
            ) && old != rect) ==> {
                &&& lookup(t.elements, surface) is None
                &&& (lookup(t.morphs, surface) matches Some(morph) && (
                info.last_configured matches Some((old, _)) && morph.from == old) && morph.to
                    == rect && morph.output == info.output && morph.on_finish
                    == MorphFinish::Remap)
            }
            &&& animate && (lookup(w.morphs, surface) matches Some(under) && under.current != rect)
                && (info.last_configured matches Some((old, _)) && old != rect) ==> (lookup(
                t.morphs,
                surface,
            ) matches Some(morph) && morph.from == lookup(w.morphs, surface)->0.current && morph.to
                == rect)
            &&& animate && (info.last_configured matches Some((old, _)) && old == rect) && lookup(
                w.morphs,
                surface,
            ) is None && lookup(w.slides, info.output) is None ==> lookup(t.elements, surface)
                == there
        }),
{
    let info = w.windows.infos[id];
    let surface = info.window.surface;
    let told = if info.last_configured == Some((rect, info.fullscreen)) {
        w
    } else {
        w.emit(
            Effect::Configure {
                surface,
                size: Some((rect.width, rect.height)),
                fullscreen: info.fullscreen,
            },
        ).with_info(id, WindowInfo { last_configured: Some((rect, info.fullscreen)), ..info })
    };
    lemma_raised(w.elements, surface, Point { x: rect.x, y: rect.y }, surface);
    lemma_box_sets_out(
        told,
        info.window,
        info.output,
        shrunk(rect@).rect(),
        rect,
        MorphFinish::Remap,
        surface,
    );
    match info.last_configured {
        Some((old, _)) => lemma_box_sets_out(
            told,
            info.window,
            info.output,
            old,
            rect,
            MorphFinish::Remap,
            surface,
        ),
        None => {},
    }
}

/// A floating window is put in the middle of the area, to within a pixel, or
/// at its corner along an axis on which it does not fit. Until it has drawn
/// anything it counts as 640 by 480. It is told, once, to choose its size.
pub proof fn lemma_floats_in_middle(w: World, id: WindowId, area: Tile)
    requires
        keys_distinct(w.elements),
        w.windows.infos.contains_key(id),
        within(area, 0x4000_0000),
        -TILE_LIMIT <= w.windows.infos[id].window.width <= TILE_LIMIT,
        -TILE_LIMIT <= w.windows.infos[id].window.height <= TILE_LIMIT,
    ensures
        ({
            let t = w.floated(id, area);
            let info = w.windows.infos[id];
            let drawn = info.window.width > 0 && info.window.height > 0;
            let width: int = if drawn { info.window.width as int } else { 640 };
            let height: int = if drawn { info.window.height as int } else { 480 };
            let asked = Some((Rect { x: 0, y: 0, width: 0, height: 0 }, false));
            &&& (lookup(t.elements, info.window.surface) matches Some(at) && {
                &&& amid(at.x as int, width, area.x, area.width)
                &&& amid(at.y as int, height, area.y, area.height)
            })
            &&& t.windows.infos[id] == (WindowInfo { last_configured: asked, ..info })
            &&& info.last_configured != asked ==> t.effects[w.effects.len() as int]
                == (Effect::Configure {
                surface: info.window.surface,
                size: None,
                fullscreen: false,
            })
            &&& info.last_configured == asked ==> t.effects.len() == w.effects.len() + 1
        }),
{
    let info = w.windows.infos[id];
    let (width, height) = World::floating_size(info.window);
    let at = Point {
        x: World::centred(area.x, area.width, width) as i32,
        y: World::centred(area.y, area.height, height) as i32,
    };
    lemma_raised(w.elements, info.window.surface, at, info.window.surface);
    assert(w.windows.infos.insert(id, w.windows.infos[id]) =~= w.windows.infos);
}

/// A length that starts at `at` lies in the middle of an outer one, the odd
/// pixel behind it, or where that starts if it does not fit.
pub open spec fn amid(at: int, inner: int, start: int, outer: int) -> bool {
    if outer > inner {
        let before = at - start;
        let behind = start + outer - (at + inner);
        behind == before || behind == before + 1
    } else {
        at == start
    }
}

/// A window that opens is on the tag that its output shows, on top of every
/// other there, tiled and with no size of its own yet. It has the focus, and
/// the last thing that is asked is to give it the keyboard. Every other window
/// is where it was; of those on the tag that the focused output shows none is
/// fullscreen, and elsewhere none is more or less so than before.
pub proof fn lemma_window_opens(w: World, surface: SurfaceId, output: OutputId, other: WindowId)
    requires
        w.wf(),
        w.outputs.has(output),
        !w.windows.index.contains_key(surface),
        sound_settings(w.config, w.windows.roll.len() + 1),
        w.windows.free.len() == 0 ==> w.windows.next.0 < u64::MAX,
    ensures
        ({
            let t = w.toplevel_opened(surface, output);
            let id = w.windows.fresh_id();
            let tag = w.outputs.infos[output.0 as int].current_tag;
            let scope = LayoutScope { output, tag };
            &&& t.windows.infos.contains_key(id)
            &&& t.windows.infos[id].window == Window { surface, width: 0, height: 0 }
            &&& t.windows.infos[id].output == output
            &&& t.windows.infos[id].tag == tag
            &&& !t.windows.infos[id].floating
            &&& !t.windows.infos[id].fullscreen
            &&& t.windows.stacks.contains_key(scope)
            &&& t.windows.stacks[scope].ids == if w.windows.stacks.contains_key(scope) {
                w.windows.stacks[scope].ids.push(id)
            } else {
                seq![id]
            }
            &&& t.windows.stacks[scope].focused() == Some(id)
            &&& t.windows.focused == Some(id)
            &&& t.effects.last() == Effect::Focus(Some(surface))
            &&& t.outputs == w.outputs
            &&& t.screens == w.screens
            &&& w.windows.infos.contains_key(other) ==> {
                let was = w.windows.infos[other];
                let is = t.windows.infos[other];
                &&& t.windows.infos.contains_key(other)
                &&& is.window == was.window
                &&& is.output == was.output
                &&& is.tag == was.tag
                &&& is.floating == was.floating
                &&& is.fullscreen == (was.fullscreen && !(w.outputs.has(w.outputs.focused)
                    && was.output == w.outputs.focused && was.tag
                    == w.outputs.infos[w.outputs.focused.0 as int].current_tag))
            }
        }),
{
    let id = w.windows.fresh_id();
    let scope = w.shown(output);
    let laid = taken_in(w, surface, output).all_uncovered().relaid(Some(scope), true);
    lemma_taken_in(w, surface, output, other);
    let stack = laid.windows.stacks[scope];
    stack.ids.index_of_first_ensures(id);
    assert(w.toplevel_opened(surface, output) == laid.focus_changed(id, surface));
}

/// A window that was just registered, on the plane and nothing more.
spec fn taken_in(w: World, surface: SurfaceId, output: OutputId) -> World {
    let info = WindowInfo {
        tag: w.shown(output).tag,
        output,
        window: Window { surface, width: 0, height: 0 },
        fullscreen: false,
        floating: false,
        last_configured: None,
        last_fractional_scale: None,
    };
    World { windows: w.windows.inserted(info), ..w }.mapped(surface, Point { x: 0, y: 0 }, true)
}

proof fn lemma_taken_in(w: World, surface: SurfaceId, output: OutputId, other: WindowId)
    requires
        w.wf(),
        w.outputs.has(output),
        !w.windows.index.contains_key(surface),
        sound_settings(w.config, w.windows.roll.len() + 1),
        w.windows.free.len() == 0 ==> w.windows.next.0 < u64::MAX,
    ensures
        ({
            let scope = w.shown(output);
            let id = w.windows.fresh_id();
            let t = taken_in(w, surface, output).all_uncovered().relaid(Some(scope), true);
            &&& t.windows.infos.contains_key(id)
            &&& t.windows.infos[id].window == Window { surface, width: 0, height: 0 }
            &&& t.windows.infos[id].home() == scope
            &&& !t.windows.infos[id].floating
            &&& !t.windows.infos[id].fullscreen
            &&& t.windows.stacks.contains_key(scope)
            &&& t.windows.stacks[scope].ids == if w.windows.stacks.contains_key(scope) {
                w.windows.stacks[scope].ids.push(id)
            } else {
                seq![id]
            }
            &&& t.windows.stacks[scope].ids.contains(id)
            &&& t.windows.stacks[scope].ids.no_duplicates()
            &&& t.outputs == w.outputs
            &&& t.screens == w.screens
            &&& w.windows.infos.contains_key(other) ==> {
                let was = w.windows.infos[other];
                let is = t.windows.infos[other];
                &&& t.windows.infos.contains_key(other)
                &&& is.window == was.window
                &&& is.output == was.output
                &&& is.tag == was.tag
                &&& is.floating == was.floating
                &&& is.fullscreen == (was.fullscreen && !(w.outputs.has(w.outputs.focused)
                    && was.output == w.outputs.focused && was.tag
                    == w.outputs.infos[w.outputs.focused.0 as int].current_tag))
            }
        }),
{
    let scope = w.shown(output);
    let info = WindowInfo {
        tag: scope.tag,
        output,
        window: Window { surface, width: 0, height: 0 },
        fullscreen: false,
        floating: false,
        last_configured: None,
        last_fractional_scale: None,
    };
    let id = w.windows.fresh_id();
    lemma_registered_wf(w, info);
    lemma_inserted_wf(w.windows, info);
    let placed = taken_in(w, surface, output);
    assert(placed.wf());
    let ids = match placed.outputs.current_tag() {
        Some(tag) => placed.windows.rendered(LayoutScope { output: placed.outputs.focused, tag }),
        None => Seq::empty(),
    };
    lemma_uncovered_wf(placed, ids);
    let bare = placed.all_uncovered();
    assert(bare == placed.uncovered(ids));
    assert(placed.windows.infos.contains_key(id));
    lemma_uncovers(placed, ids, id);
    lemma_relaid_wf(bare, Some(scope), true);
    let laid = bare.relaid(Some(scope), true);
    assert(laid.windows.infos.dom().contains(id));
    let stack = laid.windows.stacks[scope];
    assert(stack.ids == placed.windows.stacks[scope].ids);
    assert(stack.ids[stack.ids.len() - 1] == id);
    if w.windows.infos.contains_key(other) {
        assert(other != id);
        assert(placed.windows.infos[other] == w.windows.infos[other]);
        lemma_uncovers(placed, ids, other);
        assert(laid.windows.infos.dom().contains(other));
        match placed.outputs.current_tag() {
            Some(tag) => lemma_one_stack(
                placed.windows,
                other,
                LayoutScope { output: placed.outputs.focused, tag },
            ),
            None => {},
        }
    }
}

/// Ending fullscreen ends it for those that are listed, and changes nothing
/// else.
proof fn lemma_uncovers(w: World, ids: Seq<WindowId>, id: WindowId)
    requires
        w.windows.infos.contains_key(id),
    ensures
        w.uncovered(ids).windows.infos.contains_key(id),
        w.uncovered(ids).windows.infos[id] == (WindowInfo {
            fullscreen: w.windows.infos[id].fullscreen && !ids.contains(id),
            ..w.windows.infos[id]
        }),
    decreases ids.len(),
{
    if ids.len() > 0 {
        let front = ids.drop_last();
        lemma_uncovers(w, front, id);
        if front.contains(id) {
            let k = choose|k: int| 0 <= k < front.len() && front[k] == id;
            assert(ids[k] == id);
        }
        if ids.contains(id) && id != ids.last() {
            let k = choose|k: int| 0 <= k < ids.len() && ids[k] == id;
            assert(front[k] == id);
        }
        assert(ids.last() == ids[ids.len() - 1]);
    }
}

/// The first commit of a window settles whether it floats: it does exactly if
/// it has a parent. It is then sent its first configure. Nothing is made of
/// any other window.
pub proof fn lemma_first_commit(
    w: World,
    surface: SurfaceId,
    has_parent: bool,
    id: WindowId,
    other: WindowId,
)
    requires
        w.wf(),
        w.windows.infos.contains_key(id),
        w.windows.infos[id].window.surface == surface,
    ensures
        ({
            let t = w.first_committed(surface, has_parent);
            let was = w.windows.infos[id];
            &&& t.windows.infos.contains_key(id)
            &&& t.windows.infos[id].floating == has_parent
            &&& t.windows.infos[id].window == was.window
            &&& t.windows.infos[id].output == was.output
            &&& t.windows.infos[id].tag == was.tag
            &&& t.windows.infos[id].fullscreen == was.fullscreen
            &&& t.effects.last() == Effect::FirstConfigure { surface }
            &&& was.floating == has_parent ==> t.effects.len() == w.effects.len() + 1
            &&& other != id && w.windows.infos.contains_key(other) ==> {
                &&& t.windows.infos.contains_key(other)
                &&& t.windows.infos[other].floating == w.windows.infos[other].floating
                &&& t.windows.infos[other].fullscreen == w.windows.infos[other].fullscreen
                &&& t.windows.infos[other].window == w.windows.infos[other].window
            }
            &&& t.outputs == w.outputs
            &&& t.windows.focused == w.windows.focused
        }),
{
    assert(w.windows.index[surface] == id);
    let info = w.windows.infos[id];
    if info.floating != has_parent {
        let now = WindowInfo { floating: has_parent, ..info };
        lemma_info_wf(w, id, now);
        let settled = w.with_info(id, now);
        lemma_relaid_wf(settled, Some(info.home()), true);
        assert(settled.windows.infos.contains_key(id));
        if w.windows.infos.contains_key(other) {
            assert(settled.windows.infos.contains_key(other));
            assert(settled.relaid(Some(info.home()), true).windows.infos.dom().contains(other));
        }
        assert(settled.relaid(Some(info.home()), true).windows.infos.dom().contains(id));
    }
}

/// The size that a window has committed is noted for it and for no other.
pub proof fn lemma_size_is_noted(
    w: World,
    root: SurfaceId,
    width: i32,
    height: i32,
    id: WindowId,
    other: WindowId,
)
    requires
        w.wf(),
    ensures
        ({
            let t = w.size_noted(root, width, height);
            &&& w.windows.infos.contains_key(id) && w.windows.infos[id].window.surface == root ==> {
                &&& t.windows.infos.contains_key(id)
                &&& t.windows.infos[id] == (WindowInfo {
                    window: Window { surface: root, width, height },
                    ..w.windows.infos[id]
                })
            }
            &&& w.windows.infos.contains_key(other) && w.windows.infos[other].window.surface != root
                ==> t.windows.infos.contains_key(other) && t.windows.infos[other]
                == w.windows.infos[other]
            &&& t.effects == w.effects
            &&& t.windows.stacks == w.windows.stacks
            &&& t.windows.focused == w.windows.focused
        }),
{
    if w.windows.infos.contains_key(id) && w.windows.infos[id].window.surface == root {
        assert(w.windows.index[root] == id);
    }
    if w.windows.index.contains_key(root) {
        let mine = w.windows.index[root];
        if w.windows.infos.contains_key(mine) {
            assert(w.windows.index[w.windows.infos[mine].window.surface] == mine);
        }
    }
}

/// A commit has just the output drawn that the window is on whose surface, or
/// whose surface's parent, was committed, and every output if there is none
/// such or the surface waits for its parent.
pub proof fn lemma_commit_draws(w: World, commit: Commit, id: WindowId)
    requires
        w.wf(),
    ensures
        !commit.sync && w.windows.infos.contains_key(id) && w.windows.infos[id].window.surface
            == commit.root ==> w.committed(commit).effects.last() == Effect::RenderOutput(
            w.windows.infos[id].output,
        ),
        commit.sync || (forall|k: WindowId| #[trigger]
            w.windows.infos.contains_key(k) ==> w.windows.infos[k].window.surface != commit.root)
            ==> w.committed(commit).effects.last() == Effect::Render,
{
    if w.windows.infos.contains_key(id) && w.windows.infos[id].window.surface == commit.root {
        assert(w.windows.index[commit.root] == id);
    }
    if w.windows.index.contains_key(commit.root) {
        let mine = w.windows.index[commit.root];
        assert(w.windows.infos.contains_key(mine) ==> w.windows.index[w.windows.infos[
            mine
        ].window.surface] == mine);
    }
}

// What layout leaves alone.

/// The surface of window `id`, if it exists.
pub open spec fn surface_of(w: World, id: WindowId) -> Option<SurfaceId> {
    match w.windows.info(id) {
        Some(info) => Some(info.window.surface),
        None => None,
    }
}

/// `b` has `surface` on the plane and in motion as `a` has, knows every window
/// by the same surface, and has only more requests.
pub open spec fn apart_from(a: World, b: World, surface: SurfaceId) -> bool {
    &&& lookup(b.elements, surface) == lookup(a.elements, surface)
    &&& lookup(b.morphs, surface) == lookup(a.morphs, surface)
    &&& keys_distinct(b.elements)
    &&& keys_distinct(b.morphs)
    &&& forall|id: WindowId| #[trigger] surface_of(b, id) == surface_of(a, id)
    &&& follows(a.effects, b.effects)
}

proof fn lemma_apart_trans(a: World, b: World, c: World, surface: SurfaceId)
    requires
        apart_from(a, b, surface),
        apart_from(b, c, surface),
    ensures
        apart_from(a, c, surface),
{
    assert forall|id: WindowId| #[trigger] surface_of(c, id) == surface_of(a, id) by {
        assert(surface_of(b, id) == surface_of(a, id));
    }
}

pub(crate) proof fn lemma_tiled_apart(
    w: World,
    id: WindowId,
    rect: Rect,
    animate: bool,
    surface: SurfaceId,
)
    requires
        keys_distinct(w.elements),
        keys_distinct(w.morphs),
        surface_of(w, id) != Some(surface),
    ensures
        apart_from(w, w.tiled(id, rect, animate), surface),
{
    match w.windows.info(id) {
        None => {},
        Some(info) => {
            let told = if info.last_configured == Some((rect, info.fullscreen)) {
                w
            } else {
                w.emit(
                    Effect::Configure {
                        surface: info.window.surface,
                        size: Some((rect.width, rect.height)),
                        fullscreen: info.fullscreen,
                    },
                ).with_info(
                    id,
                    WindowInfo { last_configured: Some((rect, info.fullscreen)), ..info },
                )
            };
            assert(apart_from(w, told, surface));
            let from = match info.last_configured {
                None => shrunk(rect@).rect(),
                Some((old, _)) => old,
            };
            lemma_raised(
                w.elements,
                info.window.surface,
                Point { x: rect.x, y: rect.y },
                surface,
            );
            lemma_box_sets_out(
                told,
                info.window,
                info.output,
                from,
                rect,
                MorphFinish::Remap,
                surface,
            );
            let t = told.morphed(info.window, info.output, from, rect, MorphFinish::Remap);
            lemma_box_only_adds(told, info.window, info.output, from, rect, MorphFinish::Remap);
            assert(apart_from(told, t, surface));
            lemma_apart_trans(w, told, t, surface);
            let placed = told.mapped(info.window.surface, Point { x: rect.x, y: rect.y }, false);
            assert(apart_from(told, placed, surface));
            lemma_apart_trans(w, told, placed, surface);
        },
    }
}

proof fn lemma_box_only_adds(
    w: World,
    window: Window,
    output: OutputId,
    from: Rect,
    to: Rect,
    on_finish: MorphFinish,
)
    ensures
        follows(w.effects, w.morphed(window, output, from, to, on_finish).effects),
{
}

pub(crate) proof fn lemma_floated_apart(w: World, id: WindowId, area: Tile, surface: SurfaceId)
    requires
        keys_distinct(w.elements),
        keys_distinct(w.morphs),
        surface_of(w, id) != Some(surface),
    ensures
        apart_from(w, w.floated(id, area), surface),
{
    match w.windows.info(id) {
        None => {},
        Some(info) => {
            let (width, height) = World::floating_size(info.window);
            lemma_raised(
                w.elements,
                info.window.surface,
                Point {
                    x: World::centred(area.x, area.width, width) as i32,
                    y: World::centred(area.y, area.height, height) as i32,
                },
                surface,
            );
        },
    }
}

/// None of `ids` is known by `surface`.
pub open spec fn strangers(w: World, ids: Seq<WindowId>, surface: SurfaceId) -> bool {
    forall|k: int| 0 <= k < ids.len() ==> surface_of(w, #[trigger] ids[k]) != Some(surface)
}

pub(crate) proof fn lemma_all_apart(
    w: World,
    ids: Seq<WindowId>,
    boxes: Seq<Tile>,
    animate: bool,
    chosen: WindowId,
    rect: Rect,
    area: Tile,
    surface: SurfaceId,
)
    requires
        keys_distinct(w.elements),
        keys_distinct(w.morphs),
        strangers(w, ids, surface),
        surface_of(w, chosen) != Some(surface) || !ids.contains(chosen),
    ensures
        apart_from(w, w.tiled_all(ids, boxes, animate), surface),
        apart_from(w, w.covered_by(chosen, rect, ids), surface),
        apart_from(w, w.floated_all(ids, area), surface),
    decreases ids.len(),
{
    if ids.len() > 0 {
        let front = ids.drop_last();
        let last = ids.last();
        assert(last == ids[ids.len() - 1]);
        assert forall|k: int| 0 <= k < front.len() implies surface_of(w, #[trigger] front[k])
            != Some(surface) by {
            assert(front[k] == ids[k]);
        }
        assert(surface_of(w, chosen) != Some(surface) || !front.contains(chosen)) by {
            if front.contains(chosen) {
                let k = choose|k: int| 0 <= k < front.len() && front[k] == chosen;
                assert(ids[k] == chosen);
            }
        }
        lemma_all_apart(w, front, boxes, animate, chosen, rect, area, surface);
        let tiled = w.tiled_all(front, boxes, animate);
        assert(surface_of(tiled, last) == surface_of(w, last));
        lemma_tiled_apart(tiled, last, boxes[ids.len() - 1].rect(), animate, surface);
        lemma_apart_trans(w, tiled, w.tiled_all(ids, boxes, animate), surface);
        let floated = w.floated_all(front, area);
        assert(surface_of(floated, last) == surface_of(w, last));
        lemma_floated_apart(floated, last, area, surface);
        lemma_apart_trans(w, floated, w.floated_all(ids, area), surface);
        let covered = w.covered_by(chosen, rect, front);
        assert(surface_of(covered, last) == surface_of(w, last));
        if last == chosen {
            lemma_tiled_apart(covered, chosen, rect, false, surface);
        } else {
            match covered.windows.info(last) {
                Some(info) => {
                    lemma_lookup_unfiled(covered.elements, info.window.surface, surface);
                    assert(apart_from(covered, covered.unmapped(info.window.surface), surface));
                },
                None => {},
            }
        }
        lemma_apart_trans(w, covered, w.covered_by(chosen, rect, ids), surface);
    }
}

/// Laying an output out moves no surface, on the plane or in motion, that
/// belongs to no window of the tag which it shows, and takes back nothing that
/// was asked before.
pub proof fn lemma_layout_moves_its_own(
    w: World,
    id: OutputId,
    animate: bool,
    surface: SurfaceId,
)
    requires
        w.wf(),
        forall|k: WindowId| #[trigger]
            w.windows.infos.contains_key(k) && w.windows.infos[k].window.surface == surface
                ==> w.windows.infos[k].home() != w.shown(id),
    ensures
        apart_from(w, w.laid_out(id, animate), surface),
{
    let scope = w.shown(id);
    let area = w.usable(id);
    let ids = w.tiled_ids(scope);
    let floating = w.floating_ids(scope);
    lemma_apart(w, scope);
    assert forall|k: int| 0 <= k < ids.len() implies surface_of(w, #[trigger] ids[k]) != Some(
        surface,
    ) by {
        assert(ids.contains(ids[k]));
        lemma_rendered_registered(w, scope, ids[k]);
    }
    assert forall|k: int| 0 <= k < floating.len() implies surface_of(w, #[trigger] floating[k])
        != Some(surface) by {
        assert(floating.contains(floating[k]));
        lemma_rendered_registered(w, scope, floating[k]);
    }
    let boxes = w.arrangement(id, ids.len());
    let placed = match (w.last_covering(ids), lookup(w.screens, id)) {
        (Some(chosen), Some(geo)) => {
            if ids.contains(chosen) {
                let k = choose|k: int| 0 <= k < ids.len() && ids[k] == chosen;
                assert(surface_of(w, ids[k]) != Some(surface));
            }
            lemma_all_apart(w, ids, boxes, animate, chosen, geo.rect(), area, surface);
            w.covered_by(chosen, geo.rect(), ids)
        },
        _ => {
            lemma_all_apart(
                w,
                ids,
                boxes,
                animate,
                if ids.len() > 0 { ids[0] } else { WindowId(0) },
                area.rect(),
                area,
                surface,
            );
            w.tiled_all(ids, boxes, animate)
        },
    };
    assert forall|k: int| 0 <= k < floating.len() implies surface_of(placed, #[trigger] floating[k])
        != Some(surface) by {
        assert(surface_of(w, floating[k]) != Some(surface));
        assert(surface_of(placed, floating[k]) == surface_of(w, floating[k]));
    }
    lemma_all_apart(
        placed,
        floating,
        boxes,
        animate,
        if floating.len() > 0 { floating[0] } else { WindowId(0) },
        area.rect(),
        area,
        surface,
    );
    let done = placed.floated_all(floating, area);
    lemma_apart_trans(w, placed, done, surface);
    assert(apart_from(done, done.emit(Effect::Render), surface));
    lemma_apart_trans(w, done, done.emit(Effect::Render), surface);
}

proof fn lemma_all_only_add(
    w: World,
    ids: Seq<WindowId>,
    boxes: Seq<Tile>,
    animate: bool,
    chosen: WindowId,
    rect: Rect,
    area: Tile,
)
    ensures
        follows(w.effects, w.tiled_all(ids, boxes, animate).effects),
        follows(w.effects, w.covered_by(chosen, rect, ids).effects),
        follows(w.effects, w.floated_all(ids, area).effects),
    decreases ids.len(),
{
    if ids.len() > 0 {
        let front = ids.drop_last();
        lemma_all_only_add(w, front, boxes, animate, chosen, rect, area);
        let tiled = w.tiled_all(front, boxes, animate);
        lemma_tiled_only_adds(tiled, ids.last(), boxes[ids.len() - 1].rect(), animate);
        let covered = w.covered_by(chosen, rect, front);
        lemma_tiled_only_adds(covered, chosen, rect, false);
        let floated = w.floated_all(front, area);
        assert(follows(floated.effects, floated.floated(ids.last(), area).effects));
    }
}

proof fn lemma_tiled_only_adds(w: World, id: WindowId, rect: Rect, animate: bool)
    ensures
        follows(w.effects, w.tiled(id, rect, animate).effects),
{
}

/// Laying an output out takes back nothing that was asked before, and has
/// everything drawn in the end.
pub proof fn lemma_layout_only_adds(w: World, id: OutputId, animate: bool)
    ensures
        follows(w.effects, w.laid_out(id, animate).effects),
        w.laid_out(id, animate).effects.last() == Effect::Render,
{
    let scope = w.shown(id);
    let area = w.usable(id);
    let ids = w.tiled_ids(scope);
    let boxes = w.arrangement(id, ids.len());
    let placed = match (w.last_covering(ids), lookup(w.screens, id)) {
        (Some(chosen), Some(geo)) => {
            lemma_all_only_add(w, ids, boxes, animate, chosen, geo.rect(), area);
            w.covered_by(chosen, geo.rect(), ids)
        },
        _ => {
            lemma_all_only_add(w, ids, boxes, animate, WindowId(0), area.rect(), area);
            w.tiled_all(ids, boxes, animate)
        },
    };
    lemma_all_only_add(
        placed,
        w.floating_ids(scope),
        boxes,
        animate,
        WindowId(0),
        area.rect(),
        area,
    );
}

// Focus.

/// A window that is given the focus has it, in its stack and as a whole, and
/// the keyboard is given to the surface that was named.
pub proof fn lemma_focus_is_given(w: World, id: WindowId, to: SurfaceId)
    requires
        w.wf(),
        w.windows.infos.contains_key(id),
    ensures
        ({
            let t = w.focus_changed(id, to);
            let home = w.windows.infos[id].home();
            let n = w.effects.len() as int;
            &&& t.windows.focused == Some(id)
            &&& t.windows.stacks.contains_key(home)
            &&& t.windows.stacks[home].focused() == Some(id)
            &&& n < t.effects.len()
            &&& follows(w.effects, t.effects)
            &&& t.effects[n] == Effect::Focus(Some(to))
            &&& !w.windows.infos[id].fullscreen ==> t.effects.len() == n + 1
            &&& t.outputs == w.outputs
        }),
{
    lemma_focus_changed_wf(w, id, to);
    let info = w.windows.infos[id];
    let home = info.home();
    let stack = w.windows.stacks[home];
    assert(stack.ids.contains(id));
    lemma_reordering(stack, id, id);
    let raised = if info.fullscreen {
        stack.moved_down()
    } else {
        stack
    };
    assert(raised.ids.contains(id));
    raised.ids.index_of_first_ensures(id);
    let focused = World {
        windows: w.windows.restacked(home, raised.focused_on(id)).focused_on(Some(id)),
        ..w
    }.emit(Effect::Focus(Some(to)));
    assert(focused.windows.stacks[home].focused() == Some(id));
    if info.fullscreen {
        lemma_restacked_wf(w.windows, home, raised.focused_on(id));
        assert(focused.wf());
        lemma_relaid_wf(focused, Some(home), true);
        lemma_layout_only_adds(focused, home.output, true);
        let t = focused.laid_out(home.output, true);
        assert(w.focus_changed(id, to) == t);
        assert(focused.effects[w.effects.len() as int] == Effect::Focus(Some(to)));
        assert(follows(w.effects, focused.effects));
        assert(follows(w.effects, t.effects));
        assert(t.windows.stacks == focused.windows.stacks);
    } else {
        assert(w.focus_changed(id, to) == focused);
    }
}

/// Turning to a tag gives the focus to the window that has it there, with the
/// keyboard, or to none if the tag has no window.
pub proof fn lemma_tag_gets_focus(w: World, scope: LayoutScope)
    requires
        w.wf(),
    ensures
        ({
            let t = w.tag_focused(scope);
            let n = w.effects.len() as int;
            let vacant = !w.windows.stacks.contains_key(scope)
                || w.windows.stacks[scope].ids.len() == 0;
            &&& vacant ==> t.windows.focused is None && t.effects == w.effects.push(
                Effect::Focus(None),
            )
            &&& !vacant ==> ({
                let id = w.windows.stacks[scope].ids[w.windows.stacks[scope].focus as int];
                &&& w.windows.infos.contains_key(id)
                &&& t.windows.focused == Some(id)
                &&& n < t.effects.len()
                &&& t.effects[n] == Effect::Focus(Some(w.windows.infos[id].window.surface))
            })
        }),
{
    if w.windows.stacks.contains_key(scope) && w.windows.stacks[scope].ids.len() > 0 {
        let stack = w.windows.stacks[scope];
        let id = stack.ids[stack.focus as int];
        assert(stack.wf());
        assert(w.windows.stacks[scope].ids.contains(id));
        lemma_focus_is_given(w, id, w.windows.infos[id].window.surface);
    }
}

/// A window whose surface is clicked gets the focus, unless it has it.
pub proof fn lemma_click_focuses(w: World, id: WindowId)
    requires
        w.wf(),
        w.windows.infos.contains_key(id),
    ensures
        ({
            let surface = w.windows.infos[id].window.surface;
            let t = w.window_focused(surface);
            let n = w.effects.len() as int;
            &&& t.windows.focused == Some(id)
            &&& w.windows.focused == Some(id) ==> t == w
            &&& w.windows.focused != Some(id) ==> n < t.effects.len() && t.effects[n]
                == Effect::Focus(Some(surface))
            &&& t.outputs == w.outputs
        }),
{
    let surface = w.windows.infos[id].window.surface;
    lemma_found_is_indexed(w.windows, surface);
    lemma_focus_is_given(w, id, surface);
}

/// A window that closes is gone, and every other is where it was, as big and
/// as it was before. The focus, if the window had it, goes to the one above it
/// in its stack, or to the one below if it was the last, with the keyboard;
/// without another there it goes to none. In the end everything is drawn.
pub proof fn lemma_window_closes(w: World, id: WindowId, i: int, other: WindowId)
    requires
        w.wf(),
        w.windows.infos.contains_key(id),
        0 <= i < w.windows.stacks[w.windows.infos[id].home()].ids.len(),
        w.windows.stacks[w.windows.infos[id].home()].ids[i] == id,
    ensures
        ({
            let surface = w.windows.infos[id].window.surface;
            let t = w.toplevel_closed(surface);
            let stack = w.windows.stacks[w.windows.infos[id].home()];
            &&& !t.windows.infos.contains_key(id)
            &&& !t.windows.index.contains_key(surface)
            &&& t.outputs == w.outputs
            &&& t.effects.last() == Effect::Render
            &&& other != id && w.windows.infos.contains_key(other) ==> {
                let was = w.windows.infos[other];
                let is = t.windows.infos[other];
                &&& t.windows.infos.contains_key(other)
                &&& is.window == was.window
                &&& is.output == was.output
                &&& is.tag == was.tag
                &&& is.floating == was.floating
                &&& is.fullscreen == was.fullscreen
            }
            &&& w.windows.focused != Some(id) ==> t.windows.focused == w.windows.focused
            &&& w.windows.focused == Some(id) && stack.focus == i ==> {
                let next = if i + 1 < stack.ids.len() {
                    Some(stack.ids[i + 1])
                } else if i > 0 {
                    Some(stack.ids[i - 1])
                } else {
                    None
                };
                &&& t.windows.focused == next
                &&& match next {
                    Some(n) => w.windows.infos.contains_key(n) && t.effects.contains(
                        Effect::Focus(Some(w.windows.infos[n].window.surface)),
                    ),
                    None => t.effects.contains(Effect::Focus(None)),
                }
            }
        }),
{
    let info = w.windows.infos[id];
    let surface = info.window.surface;
    let home = info.home();
    assert(w.windows.index[surface] == id);
    lemma_closed(w, surface);
    lemma_window_removed_wf(w, surface);
    let removed = w.window_removed(surface);
    lemma_relaid_wf(removed, Some(home), true);
    let laid = removed.relaid(Some(home), true);
    lemma_layout_only_adds(removed, home.output, true);
    lemma_requests_stay(removed.effects, w.toplevel_closed(surface).effects);
    lemma_removal(w, id, i, other);
    assert(!laid.windows.infos.dom().contains(id));
    if other != id && w.windows.infos.contains_key(other) {
        assert(laid.windows.infos.dom().contains(other));
    }
}

proof fn lemma_removal(w: World, id: WindowId, i: int, other: WindowId)
    requires
        w.wf(),
        w.windows.infos.contains_key(id),
        0 <= i < w.windows.stacks[w.windows.infos[id].home()].ids.len(),
        w.windows.stacks[w.windows.infos[id].home()].ids[i] == id,
    ensures
        ({
            let t = w.window_removed(w.windows.infos[id].window.surface);
            let stack = w.windows.stacks[w.windows.infos[id].home()];
            &&& !t.windows.infos.contains_key(id)
            &&& other != id && w.windows.infos.contains_key(other) ==> {
                let was = w.windows.infos[other];
                let is = t.windows.infos[other];
                &&& t.windows.infos.contains_key(other)
                &&& is.window == was.window
                &&& is.output == was.output
                &&& is.tag == was.tag
                &&& is.floating == was.floating
                &&& is.fullscreen == was.fullscreen
            }
            &&& w.windows.focused != Some(id) ==> t.windows.focused == w.windows.focused
            &&& w.windows.focused == Some(id) && stack.focus == i ==> {
                let next = if i + 1 < stack.ids.len() {
                    Some(stack.ids[i + 1])
                } else if i > 0 {
                    Some(stack.ids[i - 1])
                } else {
                    None
                };
                &&& t.windows.focused == next
                &&& match next {
                    Some(n) => w.windows.infos.contains_key(n) && t.effects.contains(
                        Effect::Focus(Some(w.windows.infos[n].window.surface)),
                    ),
                    None => t.effects.contains(Effect::Focus(None)),
                }
            }
        }),
{
    let info = w.windows.infos[id];
    let surface = info.window.surface;
    let home = info.home();
    let stack = w.windows.stacks[home];
    assert(w.windows.index[surface] == id);
    lemma_removed_sound(w, id);
    lemma_removed_wf(w.windows, id);
    let without = World { windows: w.windows.removed(id), ..w };
    let leaving = match info.last_configured {
        Some((rect, _)) => {
            lemma_box_sets_out(
                without,
                info.window,
                info.output,
                rect,
                shrunk(rect@).rect(),
                MorphFinish::Unmap,
                surface,
            );
            without.morphed(
                info.window,
                info.output,
                rect,
                shrunk(rect@).rect(),
                MorphFinish::Unmap,
            )
        },
        None => without.unmapped(surface),
    };
    assert(leaving.wf());
    lemma_broadcast(leaving);
    let told = leaving.broadcast();
    assert(told.windows == w.windows.removed(id));
    if other != id && w.windows.infos.contains_key(other) {
        assert(w.windows.removed(id).info(other) == w.windows.info(other));
        assert(told.windows.infos.dom().contains(other));
    }
    if w.windows.focused == Some(id) {
        let left = told.windows.stacks[home];
        stack.ids.index_of_first_ensures(id);
        lemma_index_of_first(stack.ids, id, i);
        assert(stack.ids.contains(id));
        assert(left == stack.without(id));
        match told.scope_focus(home) {
            Some((next, next_info)) => {
                lemma_focus_changed_wf(told, next, next_info.window.surface);
                lemma_focus_is_given(told, next, next_info.window.surface);
                let t = told.focus_changed(next, next_info.window.surface);
                assert(t.effects[told.effects.len() as int] == Effect::Focus(
                    Some(next_info.window.surface),
                ));
                assert(t.windows.infos.dom() == told.windows.infos.dom());
                if other != id && w.windows.infos.contains_key(other) {
                    assert(told.windows.infos.contains_key(other));
                    assert(t.windows.infos.dom().contains(other));
                }
                assert(w.windows.removed(id).info(next) == w.windows.info(next));
            },
            None => {
                let t = told.emit(Effect::Focus(None));
                assert(t.effects[told.effects.len() as int] == Effect::Focus(None));
            },
        }
        if stack.focus == i {
            assert(left.ids == stack.ids.remove(i));
            if i + 1 < stack.ids.len() {
                assert(left.ids[i] == stack.ids[i + 1]);
                assert(w.windows.stacks[home].ids.contains(stack.ids[i + 1]));
                assert(stack.ids[i + 1] != id);
            } else if i > 0 {
                assert(left.ids[i - 1] == stack.ids[i - 1]);
                assert(w.windows.stacks[home].ids.contains(stack.ids[i - 1]));
                assert(stack.ids[i - 1] != id);
            }
        }
    }
}

/// Giving a window the focus moves no surface whose window is on a tag that
/// is not shown.
proof fn lemma_focus_apart(w: World, id: WindowId, to: SurfaceId, surface: SurfaceId)
    requires
        w.wf(),
        forall|k: WindowId| #[trigger]
            w.windows.infos.contains_key(k) && w.windows.infos[k].window.surface == surface
                ==> w.windows.infos[k].home() != w.shown(w.windows.infos[k].output),
    ensures
        apart_from(w, w.focus_changed(id, to), surface),
{
    match w.windows.info(id) {
        None => {},
        Some(info) => {
            let home = info.home();
            assert(w.windows.infos.contains_key(id));
            let stack = w.windows.stacks[home];
            lemma_reordering(stack, id, id);
            let raised = if info.fullscreen {
                stack.moved_down()
            } else {
                stack
            };
            raised.ids.index_of_first_ensures(id);
            let focused = World {
                windows: w.windows.restacked(home, raised.focused_on(id)).focused_on(Some(id)),
                ..w
            }.emit(Effect::Focus(Some(to)));
            assert(apart_from(w, focused, surface));
            if info.fullscreen {
                lemma_restacked_wf(w.windows, home, raised.focused_on(id));
                assert(focused.wf());
                assert forall|k: WindowId| #[trigger]
                    focused.windows.infos.contains_key(k) && focused.windows.infos[k].window.surface
                        == surface implies focused.windows.infos[k].home() != focused.shown(
                    home.output,
                ) by {
                    assert(w.windows.infos.contains_key(k));
                }
                lemma_layout_moves_its_own(focused, home.output, true, surface);
                lemma_apart_trans(w, focused, w.focus_changed(id, to), surface);
            }
        },
    }
}

/// A window that closes shrinks from its place into a box in the middle of
/// that, and leaves the plane; one that never had a place leaves at once.
pub proof fn lemma_window_shrinks_away(w: World, id: WindowId)
    requires
        w.wf(),
        w.windows.infos.contains_key(id),
        lookup(w.morphs, w.windows.infos[id].window.surface) is None,
    ensures
        ({
            let info = w.windows.infos[id];
            let surface = info.window.surface;
            let t = w.toplevel_closed(surface);
            &&& lookup(t.elements, surface) is None
            &&& info.last_configured is None ==> lookup(t.morphs, surface) is None
            &&& (info.last_configured matches Some((rect, _)) && shrunk(rect@).rect() != rect)
                ==> (lookup(t.morphs, surface) matches Some(morph) && {
                &&& (info.last_configured matches Some((rect, _)) && morph.from == rect && morph.to
                    == shrunk(rect@).rect())
                &&& morph.output == info.output
                &&& morph.on_finish == MorphFinish::Unmap
            })
        }),
{
    let info = w.windows.infos[id];
    let surface = info.window.surface;
    let home = info.home();
    assert(w.windows.index[surface] == id);
    lemma_removed_sound(w, id);
    lemma_removed_wf(w.windows, id);
    let without = World { windows: w.windows.removed(id), ..w };
    lemma_lookup_unfiled(w.elements, surface, surface);
    let leaving = match info.last_configured {
        Some((rect, _)) => {
            lemma_box_sets_out(
                without,
                info.window,
                info.output,
                rect,
                shrunk(rect@).rect(),
                MorphFinish::Unmap,
                surface,
            );
            without.morphed(
                info.window,
                info.output,
                rect,
                shrunk(rect@).rect(),
                MorphFinish::Unmap,
            )
        },
        None => without.unmapped(surface),
    };
    assert(leaving.wf());
    lemma_broadcast(leaving);
    let told = leaving.broadcast();
    assert forall|k: WindowId| #[trigger]
        told.windows.infos.contains_key(k) implies told.windows.infos[k].window.surface
        != surface by {
        assert(told.windows.index.contains_key(told.windows.infos[k].window.surface));
    }
    let removed = w.window_removed(surface);
    lemma_window_removed_wf(w, surface);
    if w.windows.focused == Some(id) {
        match told.scope_focus(home) {
            Some((next, next_info)) => {
                lemma_focus_apart(told, next, next_info.window.surface, surface);
            },
            None => {},
        }
    }
    assert forall|k: WindowId| #[trigger]
        removed.windows.infos.contains_key(k) implies removed.windows.infos[k].window.surface
        != surface by {
        assert(removed.windows.index.contains_key(removed.windows.infos[k].window.surface));
    }
    lemma_layout_moves_its_own(removed, home.output, true, surface);
}

/// An output that is turned to another tag at once has none of the windows of
/// the tag that it showed on the plane any more.
pub proof fn lemma_old_tag_leaves(w: World, tag: TagId, id: WindowId)
    requires
        w.wf(),
        w.outputs.has(w.outputs.focused),
        w.windows.infos.contains_key(id),
        w.windows.infos[id].output == w.outputs.focused,
        w.windows.infos[id].tag == w.outputs.infos[w.outputs.focused.0 as int].current_tag,
        w.windows.infos[id].tag != tag,
    ensures
        lookup(w.tag_changed(tag).elements, w.windows.infos[id].window.surface) is None,
{
    let surface = w.windows.infos[id].window.surface;
    let output = w.outputs.focused;
    let scope = LayoutScope { output, tag };
    let old = LayoutScope { output, tag: w.windows.infos[id].tag };
    let off = w.windows.rendered(old);
    let on = w.windows.rendered(scope);
    lemma_one_stack(w.windows, id, old);
    lemma_one_stack(w.windows, id, scope);
    assert(w.windows.infos[id].home() == old);
    lemma_mapped_ids(w, off);
    lemma_ids_off(w, off, id);
    let cleared = w.unmapped_ids(off);
    lemma_mapped_ids(cleared, on);
    assert forall|k: int| 0 <= k < on.len() implies surface_of(cleared, #[trigger] on[k]) != Some(
        surface,
    ) by {
        assert(on.contains(on[k]));
        lemma_rendered_registered(w, scope, on[k]);
        assert(w.windows.index[w.windows.infos[on[k]].window.surface] == on[k]);
        assert(w.windows.index[surface] == id);
    }
    lemma_ids_on(cleared, on, surface);
    let bare = cleared.mapped_ids(on);
    lemma_turned_to_wf(w.outputs, tag);
    lemma_outputs_wf(bare, w.outputs.turned_to(tag));
    let turned = World { outputs: w.outputs.turned_to(tag), ..bare };
    assert(turned.shown(output) == scope);
    assert forall|k: WindowId| #[trigger]
        turned.windows.infos.contains_key(k) && turned.windows.infos[k].window.surface
            == surface implies turned.windows.infos[k].home() != turned.shown(
        turned.windows.infos[k].output,
    ) by {
        assert(w.windows.index[surface] == k);
        assert(w.windows.index[surface] == id);
    }
    lemma_tag_focused_wf(turned, scope);
    let focused = turned.tag_focused(scope);
    match turned.scope_focus(scope) {
        Some((next, info)) => lemma_focus_apart(turned, next, info.window.surface, surface),
        None => {},
    }
    assert forall|k: WindowId| #[trigger]
        focused.windows.infos.contains_key(k) && focused.windows.infos[k].window.surface
            == surface implies focused.windows.infos[k].home() != focused.shown(output) by {
        assert(turned.windows.infos.dom().contains(k));
        assert(turned.windows.infos.contains_key(k));
    }
    lemma_layout_moves_its_own(focused, output, true, surface);
    lemma_broadcast(focused.relaid(Some(scope), true));
}

proof fn lemma_ids_off(w: World, ids: Seq<WindowId>, id: WindowId)
    requires
        keys_distinct(w.elements),
        w.windows.infos.contains_key(id),
        ids.contains(id) || lookup(w.elements, w.windows.infos[id].window.surface) is None,
    ensures
        keys_distinct(w.unmapped_ids(ids).elements),
        lookup(w.unmapped_ids(ids).elements, w.windows.infos[id].window.surface) is None,
    decreases ids.len(),
{
    let surface = w.windows.infos[id].window.surface;
    if ids.len() > 0 {
        let front = ids.drop_last();
        let before = w.unmapped_ids(front);
        lemma_mapped_ids(w, front);
        if front.contains(id) || lookup(w.elements, surface) is None {
            lemma_ids_off(w, front, id);
            match before.windows.info(ids.last()) {
                Some(info) => lemma_lookup_unfiled(before.elements, info.window.surface, surface),
                None => {},
            }
        } else {
            let k = choose|k: int| 0 <= k < ids.len() && ids[k] == id;
            if k < front.len() {
                assert(front[k] == id);
            }
            assert(ids.last() == id);
            lemma_lookup_unfiled(before.elements, surface, surface);
        }
    }
}

proof fn lemma_ids_on(w: World, ids: Seq<WindowId>, surface: SurfaceId)
    requires
        keys_distinct(w.elements),
        strangers(w, ids, surface),
    ensures
        keys_distinct(w.mapped_ids(ids).elements),
        lookup(w.mapped_ids(ids).elements, surface) == lookup(w.elements, surface),
    decreases ids.len(),
{
    if ids.len() > 0 {
        let front = ids.drop_last();
        let before = w.mapped_ids(front);
        assert forall|k: int| 0 <= k < front.len() implies surface_of(w, #[trigger] front[k])
            != Some(surface) by {
            assert(front[k] == ids[k]);
        }
        lemma_mapped_ids(w, front);
        lemma_ids_on(w, front, surface);
        assert(surface_of(w, ids[ids.len() - 1]) != Some(surface));
        match before.windows.info(ids.last()) {
            Some(info) => lemma_raised(
                before.elements,
                info.window.surface,
                Point { x: 0, y: 0 },
                surface,
            ),
            None => {},
        }
    }
}

// Scale.

/// A window on an output is told its scale, unless that is what it was told
/// the last time; a window elsewhere is told nothing. Each layer of the
/// output is told too.
pub proof fn lemma_scale_reaches(
    w: World,
    output: OutputId,
    scale: Scalar,
    id: WindowId,
    layer: int,
)
    requires
        w.wf(),
    ensures
        ({
            let t = w.output_scaled(output, scale);
            let mine = layers_of(w.layers, output);
            &&& follows(w.effects, t.effects)
            &&& w.windows.infos.contains_key(id) ==> {
                let was = w.windows.infos[id];
                let news = was.output == output && (was.last_fractional_scale matches Some(known)
                    ==> !known.equals(scale));
                &&& t.windows.infos.contains_key(id)
                &&& !news ==> t.windows.infos[id] == was
                &&& news ==> t.windows.infos[id] == (WindowInfo {
                    last_fractional_scale: Some(scale),
                    ..was
                })
                &&& news ==> t.effects.contains(
                    Effect::PreferScale { surface: was.window.surface, scale },
                )
            }
            &&& 0 <= layer < mine.len() ==> t.effects.contains(
                Effect::PreferScale { surface: mine[layer].surface, scale },
            )
        }),
{
    let roll = w.windows.roll;
    let told = w.windows_scaled(roll, output, scale);
    lemma_windows_scaled(w, roll, output, scale);
    lemma_each_scaled(w, roll, output, scale, id);
    assert(w.windows.infos.contains_key(id) <==> roll.contains(id));
    let mine = layers_of(told.layers, output);
    lemma_layers_scaled(told, mine, scale, layer);
    lemma_requests_stay(told.effects, w.output_scaled(output, scale).effects);
}

proof fn lemma_each_scaled(
    w: World,
    ids: Seq<WindowId>,
    output: OutputId,
    scale: Scalar,
    id: WindowId,
)
    requires
        ids.no_duplicates(),
    ensures
        ({
            let t = w.windows_scaled(ids, output, scale);
            &&& follows(w.effects, t.effects)
            &&& t.windows.infos.contains_key(id) == w.windows.infos.contains_key(id)
            &&& w.windows.infos.contains_key(id) ==> {
                let was = w.windows.infos[id];
                let news = ids.contains(id) && w.scale_news(id, output, scale);
                &&& !news ==> t.windows.infos[id] == was
                &&& news ==> t.windows.infos[id] == (WindowInfo {
                    last_fractional_scale: Some(scale),
                    ..was
                })
                &&& news ==> t.effects.contains(
                    Effect::PreferScale { surface: was.window.surface, scale },
                )
            }
        }),
    decreases ids.len(),
{
    if ids.len() > 0 {
        let front = ids.drop_last();
        let last = ids.last();
        let before = w.windows_scaled(front, output, scale);
        let t = w.windows_scaled(ids, output, scale);
        lemma_each_scaled(w, front, output, scale, id);
        lemma_each_scaled(w, front, output, scale, last);
        assert(follows(before.effects, t.effects));
        lemma_requests_stay(before.effects, t.effects);
        assert(last == ids[ids.len() - 1]);
        assert(!front.contains(last)) by {
            if front.contains(last) {
                let k = choose|k: int| 0 <= k < front.len() && front[k] == last;
                assert(ids[k] == ids[ids.len() - 1]);
            }
        }
        assert(ids.contains(id) <==> front.contains(id) || id == last) by {
            if ids.contains(id) && id != last {
                let k = choose|k: int| 0 <= k < ids.len() && ids[k] == id;
                assert(front[k] == id);
            }
            if front.contains(id) {
                let k = choose|k: int| 0 <= k < front.len() && front[k] == id;
                assert(ids[k] == id);
            }
        }
        if before.scale_news(last, output, scale) {
            assert(t.effects[before.effects.len() as int] == Effect::PreferScale {
                surface: before.windows.infos[last].window.surface,
                scale,
            });
        }
    }
}

proof fn lemma_layers_scaled(w: World, layers: Seq<LayerEntry>, scale: Scalar, k: int)
    ensures
        ({
            let t = w.layers_scaled(layers, scale);
            &&& t == (World { effects: t.effects, ..w })
            &&& follows(w.effects, t.effects)
            &&& 0 <= k < layers.len() ==> t.effects.contains(
                Effect::PreferScale { surface: layers[k].surface, scale },
            )
        }),
    decreases layers.len(),
{
    if layers.len() > 0 {
        let front = layers.drop_last();
        let before = w.layers_scaled(front, scale);
        let t = w.layers_scaled(layers, scale);
        lemma_layers_scaled(w, front, scale, k);
        assert(follows(before.effects, t.effects));
        lemma_requests_stay(before.effects, t.effects);
        if k == front.len() {
            assert(t.effects[before.effects.len() as int] == Effect::PreferScale {
                surface: layers[k].surface,
                scale,
            });
        }
    }
}

/// A new surface is first told the scale of the output that its window lies
/// on, and a surface of no window that of the first output.
pub proof fn lemma_first_scale(w: World, root: SurfaceId, overlap: Option<OutputId>)
    requires
        w.wf(),
    ensures
        (exists|id: WindowId| #[trigger]
            w.windows.infos.contains_key(id) && w.windows.infos[id].window.surface == root)
            && overlap is Some ==> w.scale_source(root, overlap) == overlap,
        !(exists|id: WindowId| #[trigger]
            w.windows.infos.contains_key(id) && w.windows.infos[id].window.surface == root)
            || overlap is None ==> w.scale_source(root, overlap) == if w.screens.len() > 0 {
            Some(w.screens[0].0)
        } else {
            None
        },
{
    if exists|id: WindowId| #[trigger]
        w.windows.infos.contains_key(id) && w.windows.infos[id].window.surface == root {
        let id = choose|id: WindowId| #[trigger]
            w.windows.infos.contains_key(id) && w.windows.infos[id].window.surface == root;
        assert(w.windows.index[root] == id);
    } else if w.windows.index.contains_key(root) {
        assert(w.windows.infos.contains_key(w.windows.index[root]));
    }
}

// What a tag switch takes along.

/// A tag switch takes along exactly the windows of the tag that it leaves that
/// are on the plane, each from where it is, but for the one that it is to
/// leave out.
pub proof fn lemma_switch_takes_along(
    w: World,
    tag: TagId,
    direction: i32,
    excluded: Option<WindowId>,
    place: (SurfaceId, Point),
)
    requires
        w.wf(),
        direction == 1 || direction == -1,
        w.outputs.has(w.outputs.focused),
        w.outputs.infos[w.outputs.focused.0 as int].current_tag != tag,
        lookup(w.slides, w.outputs.focused) is None,
        (lookup(w.screens, w.outputs.focused) matches Some(geo) && geo.width != 0),
    ensures
        (lookup(w.slid(tag, direction, excluded).slides, w.outputs.focused) matches Some(slide) && (
        slide.outgoing.contains(place) <==> exists|id: WindowId|
            leaves(w, excluded, place, id))),
{
    let old = w.shown(w.outputs.focused);
    let ids = w.windows.rendered(old);
    lemma_switch_turns_output(w, tag, direction, excluded);
    lemma_snapshot(w, ids, excluded, place);
    if exists|id: WindowId| leaves(w, excluded, place, id) {
        let id = choose|id: WindowId| leaves(w, excluded, place, id);
        assert(w.windows.infos[id].home() == old);
        lemma_one_stack(w.windows, id, old);
        let k = choose|k: int| 0 <= k < ids.len() && ids[k] == id;
        assert(stands_at(w, excluded, place, ids[k]));
    }
    if exists|k: int| 0 <= k < ids.len() && stands_at(w, excluded, place, #[trigger] ids[k]) {
        let k = choose|k: int|
            0 <= k < ids.len() && stands_at(w, excluded, place, #[trigger] ids[k]);
        assert(ids.contains(ids[k]));
        lemma_rendered_registered(w, old, ids[k]);
        assert(leaves(w, excluded, place, ids[k]));
    }
}

/// Window `id` is on the tag that the focused output shows, on the plane at
/// `place`, and not left out.
pub open spec fn leaves(
    w: World,
    excluded: Option<WindowId>,
    place: (SurfaceId, Point),
    id: WindowId,
) -> bool {
    &&& w.windows.infos.contains_key(id)
    &&& w.windows.infos[id].output == w.outputs.focused
    &&& w.windows.infos[id].tag == w.outputs.infos[w.outputs.focused.0 as int].current_tag
    &&& stands_at(w, excluded, place, id)
}

/// Window `id` is on the plane at `place`, and not left out.
pub open spec fn stands_at(
    w: World,
    excluded: Option<WindowId>,
    place: (SurfaceId, Point),
    id: WindowId,
) -> bool {
    &&& excluded != Some(id)
    &&& w.windows.infos.contains_key(id)
    &&& w.windows.infos[id].window.surface == place.0
    &&& lookup(w.elements, place.0) == Some(place.1)
}

pub(crate) proof fn lemma_snapshot(
    w: World,
    ids: Seq<WindowId>,
    excluded: Option<WindowId>,
    place: (SurfaceId, Point),
)
    ensures
        w.snapshot(ids, excluded).contains(place) <==> exists|k: int|
            0 <= k < ids.len() && stands_at(w, excluded, place, #[trigger] ids[k]),
    decreases ids.len(),
{
    let some = w.snapshot(ids, excluded);
    if ids.len() > 0 {
        let front = ids.drop_last();
        let last = ids[ids.len() - 1];
        let before = w.snapshot(front, excluded);
        lemma_snapshot(w, front, excluded, place);
        assert(forall|k: int| 0 <= k < front.len() ==> #[trigger] front[k] == ids[k]);
        if before.contains(place) {
            let k = choose|k: int|
                0 <= k < front.len() && stands_at(w, excluded, place, #[trigger] front[k]);
            assert(stands_at(w, excluded, place, ids[k]));
            let j = choose|j: int| 0 <= j < before.len() && before[j] == place;
            assert(some[j] == place);
        }
        if stands_at(w, excluded, place, last) {
            assert(some == before.push(place));
            assert(some[before.len() as int] == place);
        }
        if some.contains(place) && !before.contains(place) {
            let j = choose|j: int| 0 <= j < some.len() && some[j] == place;
            if j < before.len() {
                assert(before[j] == place);
            }
            assert(stands_at(w, excluded, place, last));
        }
        if exists|k: int| 0 <= k < ids.len() && stands_at(w, excluded, place, #[trigger] ids[k]) {
            let k = choose|k: int|
                0 <= k < ids.len() && stands_at(w, excluded, place, #[trigger] ids[k]);
            if k < front.len() {
                assert(stands_at(w, excluded, place, front[k]));
            }
        }
    }
}

/// A frame carries on the tag switches whose time lasts, as they are, and no
/// others.
pub proof fn lemma_switches_carried_on(w: World, output: OutputId)
    requires
        w.wf(),
    ensures
        ({
            let t = w.slides_advanced();
            match lookup(w.slides, output) {
                Some(slide) => lookup(t.slides, output) == if under_way(slide.animation, w.now) {
                    Some(slide)
                } else {
                    None
                },
                None => lookup(t.slides, output) is None,
            }
        }),
{
    let empty = World { slides: Seq::empty(), ..w };
    assert(empty.wf());
    lemma_some_switches(empty, w.slides, output);
}

proof fn lemma_some_switches(w: World, slides: Seq<(OutputId, Slide)>, output: OutputId)
    requires
        w.wf(),
        w.slides.len() == 0,
        keys_distinct(slides),
        sound_slides(slides, w.outputs),
    ensures
        ({
            let t = w.slides_advanced_all(slides);
            match lookup(slides, output) {
                Some(slide) => lookup(t.slides, output) == if under_way(slide.animation, w.now) {
                    Some(slide)
                } else {
                    None
                },
                None => lookup(t.slides, output) is None,
            }
        }),
    decreases slides.len(),
{
    if slides.len() == 0 {
        assert(!has_key(slides, output));
        assert(!has_key(w.slides, output));
    } else {
        let front = slides.drop_last();
        let (last, slide) = slides.last();
        assert(keys_distinct(front)) by {
            assert forall|i: int, j: int| 0 <= i < j < front.len() implies (#[trigger] front[i]).0
                != (#[trigger] front[j]).0 by {
                assert(slides[i].0 != slides[j].0);
            }
        }
        assert(sound_slides(front, w.outputs)) by {
            assert(forall|i: int| 0 <= i < front.len() ==> #[trigger] front[i] == slides[i]);
        }
        let before = w.slides_advanced_all(front);
        lemma_slides_advanced_all_wf(w, front);
        lemma_some_switches(w, front, output);
        lemma_some_switches(w, front, last);
        assert(!has_key(front, last)) by {
            if has_key(front, last) {
                let k = index_of_key(front, last);
                assert(files_at(front, last, k));
                assert(slides[k].0 != slides[slides.len() - 1].0);
            }
        }
        assert(filed(front, last, slide) =~= slides);
        lemma_lookup_filed(front, last, slide, output);
        assert(before.now == w.now);
        if under_way(slide.animation, w.now) {
            let moved = before.mapped_all(World::slide_places(slide));
            lemma_mapped_all(before, World::slide_places(slide));
            assert(moved.slides == before.slides);
            lemma_lookup_filed(moved.slides, last, slide, output);
        } else {
            lemma_finalized_slides(before, last, slide, slide.arrived());
        }
    }
}

proof fn lemma_finalized_slides(w: World, output: OutputId, slide: Slide, arrived: bool)
    requires
        w.wf(),
    ensures
        w.slide_finalized(output, slide, arrived).slides == w.slides,
{
    if arrived {
        lemma_mapped_all(w, slide.outgoing);
        lemma_mapped_all(w.unmapped_all(slide.outgoing), slide.incoming);
    } else {
        let off = w.unmapped_all(slide.incoming);
        lemma_mapped_all(w, slide.incoming);
        lemma_mapped_all(off, slide.outgoing);
        let back = off.mapped_all(slide.outgoing);
        lemma_turned_back(back.outputs, output, slide.old_tag);
        lemma_outputs_wf(back, w.outputs.turned(output, slide.old_tag));
        let turned = World { outputs: w.outputs.turned(output, slide.old_tag), ..back };
        let scope = LayoutScope { output, tag: slide.old_tag };
        lemma_tag_focused_wf(turned, scope);
        lemma_broadcast(turned.tag_focused(scope));
    }
}

proof fn lemma_turned_back(outputs: OutputsModel, id: OutputId, tag: TagId)
    requires
        outputs.wf(),
    ensures
        outputs.turned(id, tag).wf(),
        outputs.turned(id, tag).infos.len() == outputs.infos.len(),
{
}

/// What easing yields is noted for the switch or the box that it is about, and
/// for no other; without such a one nothing changes.
pub proof fn lemma_samples(
    w: World,
    output: OutputId,
    surface: SurfaceId,
    eased: Scalar,
    offset: i32,
    current: Rect,
    other: OutputId,
    another: SurfaceId,
)
    ensures
        ({
            let s = w.slide_sampled(output, eased, offset);
            let m = w.morph_sampled(surface, eased, current);
            &&& match lookup(w.slides, output) {
                Some(slide) => lookup(s.slides, output) == Some(Slide { eased, offset, ..slide }),
                None => s == w,
            }
            &&& other != output ==> lookup(s.slides, other) == lookup(w.slides, other)
            &&& match lookup(w.morphs, surface) {
                Some(morph) => lookup(m.morphs, surface) == Some(
                    WindowMorph { eased, current, ..morph },
                ),
                None => m == w,
            }
            &&& another != surface ==> lookup(m.morphs, another) == lookup(w.morphs, another)
        }),
{
    match lookup(w.slides, output) {
        Some(slide) => lemma_lookup_filed(
            w.slides,
            output,
            Slide { eased, offset, ..slide },
            other,
        ),
        None => {},
    }
    match lookup(w.morphs, surface) {
        Some(morph) => lemma_lookup_filed(
            w.morphs,
            surface,
            WindowMorph { eased, current, ..morph },
            another,
        ),
        None => {},
    }
}

/// Laying everything out lays out each active output: what is kept about the
/// windows of the tag that it shows is what laying out that output makes of
/// it, in a state that differs from this one in nothing that layout goes by.
pub proof fn lemma_every_output_laid_out(w: World, animate: bool, i: int, id: WindowId)
    requires
        w.wf(),
        0 <= i < w.outputs.infos.len(),
        w.outputs.infos[i].active,
        w.windows.infos.contains_key(id),
        w.windows.infos[id].output == OutputId(i as u32),
        w.windows.infos[id].tag == w.outputs.infos[i].current_tag,
    ensures
        exists|b: World| #[trigger]
            steady(w, b) && b.wf() && b.windows.info(id) == w.windows.info(id) && w.relaid(
                None,
                animate,
            ).windows.info(id) == b.laid_out(OutputId(i as u32), animate).windows.info(id),
{
    let ids = w.outputs.active_ids(w.outputs.infos.len());
    lemma_active_ids(w.outputs, w.outputs.infos.len(), i);
    lemma_active_once(w.outputs, w.outputs.infos.len());
    lemma_some_laid_out(w, ids, animate, OutputId(i as u32), id);
}

proof fn lemma_some_laid_out(
    w: World,
    ids: Seq<OutputId>,
    animate: bool,
    output: OutputId,
    id: WindowId,
)
    requires
        w.wf(),
        ids.no_duplicates(),
        w.windows.infos.contains_key(id),
        w.windows.infos[id].home() == w.shown(output),
    ensures
        !ids.contains(output) ==> w.laid_out_all(ids, animate).windows.info(id) == w.windows.info(
            id,
        ),
        ids.contains(output) ==> exists|b: World| #[trigger]
            steady(w, b) && b.wf() && b.windows.info(id) == w.windows.info(id) && w.laid_out_all(
                ids,
                animate,
            ).windows.info(id) == b.laid_out(output, animate).windows.info(id),
    decreases ids.len(),
{
    if ids.len() > 0 {
        let front = ids.drop_last();
        let last = ids[ids.len() - 1];
        let before = w.laid_out_all(front, animate);
        lemma_laid_out_all_wf(w, front, animate);
        lemma_some_laid_out(w, front, animate, output, id);
        if front.contains(last) {
            let k = choose|k: int| 0 <= k < front.len() && front[k] == last;
            assert(ids[k] == last);
        }
        assert(before.windows.infos.dom().contains(id));
        if last == output {
            assert(steady(w, before));
            assert(ids.contains(output));
        } else {
            assert(ids.contains(output) ==> front.contains(output)) by {
                if ids.contains(output) {
                    let k = choose|k: int| 0 <= k < ids.len() && ids[k] == output;
                    assert(front[k] == output);
                }
            }
            assert(front.contains(output) ==> ids.contains(output)) by {
                if front.contains(output) {
                    let k = choose|k: int| 0 <= k < front.len() && front[k] == output;
                    assert(ids[k] == output);
                }
            }
            assert(before.windows.infos[id].home() != before.shown(last));
            lemma_layout_stays_on_its_output(before, last, animate, id);
        }
    }
}

} // verus!
