//! Where laying an output out puts its windows, in numbers.
use vstd::prelude::*;

use crate::laws::{
    lemma_apart, lemma_covered_by_tells, lemma_floated_all_tells, lemma_last_covering,
    lemma_tiled_all_tells, told,
};
use crate::layout::{
    column_tiles, fib_step, fib_tiles, quotient, saturated, stack_tile, Layout, Phase, Tile,
};
use crate::output::{LayoutKind, LayoutScope, OutputId};
use crate::table::lookup;
use crate::window::WindowId;
use crate::world::World;
use crate::world_laws::{
    lemma_arrangement, lemma_laid_out_wf, lemma_rendered_registered, lemma_screen, lemma_tiled_ids,
};

verus! {

/// The tiled windows of `scope`, the topmost first.
pub open spec fn tiled_in_order(w: World, scope: LayoutScope) -> Seq<WindowId> {
    w.windows.stacks[scope].ids.reverse().filter(|id: WindowId| !w.windows.infos[id].floating)
}

/// The scope that output `id` shows.
pub open spec fn scope_shown(w: World, id: OutputId) -> LayoutScope {
    LayoutScope { output: id, tag: w.outputs.infos[id.0 as int].current_tag }
}

/// `r` is rectangle `k` of `n` in the area from `x` and `y` that is cut into
/// a leading column, `lead` wide with its gap, and a stack beside it.
pub open spec fn in_columns(
    r: Tile,
    k: int,
    n: int,
    area: Tile,
    lead: int,
    gap: int,
) -> bool {
    if n == 1 {
        r == area
    } else if k == 0 {
        &&& r.x == area.x
        &&& r.y == area.y
        &&& r.width == lead - gap
        &&& r.height == area.height
    } else {
        let part = area.height / (n - 1);
        &&& r.x == area.x + lead
        &&& r.x + r.width == area.x + area.width
        &&& k == 1 ==> r.y == area.y && r.height == part
        &&& k > 1 ==> r.y == area.y + (k - 1) * part + gap && r.y + r.height == area.y + k * part
    }
}

/// `t` with width and height, and both coordinates, exchanged.
pub open spec fn flipped(t: Tile) -> Tile {
    Tile { x: t.y, y: t.x, width: t.height, height: t.width }
}

/// Lists are filtered alike by what agrees on their elements.
proof fn lemma_filtered_alike(
    s: Seq<WindowId>,
    p: spec_fn(WindowId) -> bool,
    q: spec_fn(WindowId) -> bool,
)
    requires
        forall|i: int| 0 <= i < s.len() ==> p(#[trigger] s[i]) == q(s[i]),
    ensures
        s.filter(p) == s.filter(q),
    decreases s.len(),
{
    reveal(Seq::filter);
    if s.len() > 0 {
        assert forall|i: int| 0 <= i < s.drop_last().len() implies p(#[trigger] s.drop_last()[i])
            == q(s.drop_last()[i]) by {
            assert(s.drop_last()[i] == s[i]);
        }
        lemma_filtered_alike(s.drop_last(), p, q);
        assert(p(s[s.len() - 1]) == q(s[s.len() - 1]));
    }
}

/// The tiled windows of what an output shows are listed from the topmost on.
pub proof fn lemma_tiled_in_order(w: World, id: OutputId)
    requires
        w.wf(),
        w.outputs.has(id),
        w.windows.stacks.contains_key(scope_shown(w, id)),
    ensures
        w.shown(id) == scope_shown(w, id),
        w.tiled_ids(w.shown(id)) == tiled_in_order(w, scope_shown(w, id)),
        forall|x: WindowId| #[trigger]
            tiled_in_order(w, scope_shown(w, id)).contains(x) ==> w.windows.infos.contains_key(x),
{
    let scope = scope_shown(w, id);
    let all = w.windows.stacks[scope].ids.reverse();
    let p = |x: WindowId| !w.windows.floats(x);
    let q = |x: WindowId| !w.windows.infos[x].floating;
    assert(w.windows.rendered(scope) == all);
    assert forall|i: int| 0 <= i < all.len() implies p(#[trigger] all[i]) == q(all[i]) by {
        assert(all.contains(all[i]));
        lemma_rendered_registered(w, scope, all[i]);
    }
    lemma_filtered_alike(all, p, q);
    assert(w.tiled_ids(scope) == all.filter(p));
    lemma_apart(w, scope);
    assert forall|x: WindowId| #[trigger]
        tiled_in_order(w, scope).contains(x) implies w.windows.infos.contains_key(x) by {
        assert(w.tiled_ids(scope).contains(x));
        lemma_rendered_registered(w, scope, x);
    }
}

/// Laying out tells each tiled window its tile.
proof fn lemma_each_told(w: World, id: OutputId, animate: bool, k: int)
    requires
        w.wf(),
        w.outputs.has(id),
        w.windows.stacks.contains_key(scope_shown(w, id)),
        forall|x: WindowId| #[trigger]
            tiled_in_order(w, scope_shown(w, id)).contains(x) ==> !w.windows.infos[x].fullscreen,
        0 <= k < tiled_in_order(w, scope_shown(w, id)).len(),
    ensures
        ({
            let ids = tiled_in_order(w, scope_shown(w, id));
            let after = w.laid_out(id, animate).windows;
            let tile = w.arrangement(id, ids.len())[k];
            &&& after.infos.contains_key(ids[k])
            &&& after.infos[ids[k]].last_configured matches Some((rect, fullscreen)) && rect@
                == tile && !fullscreen
        }),
{
    let scope = scope_shown(w, id);
    let area = w.usable(id);
    lemma_tiled_in_order(w, id);
    let ids = w.tiled_ids(scope);
    let floating = w.floating_ids(scope);
    let boxes = w.arrangement(id, ids.len());
    lemma_tiled_ids(w, scope);
    lemma_arrangement(w, id, ids.len());
    lemma_apart(w, scope);
    lemma_last_covering(w, ids);
    match w.last_covering(ids) {
        Some(x) => {
            assert(tiled_in_order(w, scope).contains(x));
        },
        None => {},
    }
    let placed = w.tiled_all(ids, boxes, animate);
    lemma_tiled_all_tells(w, ids, boxes, animate, ids[k]);
    assert(ids.contains(ids[k]));
    assert(!floating.contains(ids[k]));
    lemma_floated_all_tells(placed, floating, area, ids[k]);
    assert(told(placed, ids[k], boxes[k].rect()));
    lemma_laid_out_wf(w, id, animate);
    let after = w.laid_out(id, animate);
    assert(after.windows.infos.dom().contains(ids[k]));
    assert(after.windows.infos[ids[k]].fullscreen == w.windows.infos[ids[k]].fullscreen);
}

/// Where a tile of a column lies.
proof fn lemma_column_place(area: Tile, lead: int, n: int, gap: int, k: int)
    requires
        0 <= k < n,
        0 <= lead <= area.width <= 0x200_0000,
        0 <= area.height <= 0x200_0000,
        -0x80_0000 <= gap <= 0x80_0000,
    ensures
        in_columns(column_tiles(area, lead, n as nat, gap)[k], k, n, area, lead, gap),
{
    if n >= 2 && k > 0 {
        let m = n - 1;
        let part = quotient(area.height, m);
        assert(part == area.height / m);
        assert(0 <= part <= area.height) by (nonlinear_arith)
            requires
                m >= 1,
                0 <= area.height,
                part == area.height / m,
        ;
        assert(saturated(part - gap) == part - gap);
        assert(saturated(lead - gap) == lead - gap);
        assert(saturated(area.width - lead) == area.width - lead);
        let t = stack_tile(area, lead, m as nat, gap, k - 1);
        assert(column_tiles(area, lead, n as nat, gap)[k] == t);
        if k > 1 {
            assert((k - 2) * (saturated(part - gap) + gap) == (k - 2) * part);
            assert(part + (k - 2) * part == (k - 1) * part && (k - 1) * part + part == k * part)
                by (nonlinear_arith);
        }
    }
}

/// What laying an output out tells its tiled windows: none of them being
/// fullscreen, one of them alone has the whole of what its layers leave, less
/// a gap all round. Of more, the topmost leads with half of that area, or
/// three quarters of it, and the others share the rest evenly. An area at
/// least as wide as it is high is cut by a vertical line, so that the leader
/// spans its whole height; one that is higher than wide is cut across, so that
/// the leader spans its whole width.
pub proof fn lemma_columns_told(w: World, id: OutputId, animate: bool, k: int)
    requires
        w.wf(),
        w.outputs.has(id),
        w.zones.contains_key(id),
        lookup(w.screens, id) is Some,
        w.windows.stacks.contains_key(scope_shown(w, id)),
        forall|x: WindowId| #[trigger]
            tiled_in_order(w, scope_shown(w, id)).contains(x) ==> !w.windows.infos[x].fullscreen,
        0 <= k < tiled_in_order(w, scope_shown(w, id)).len(),
        2 * w.config.gap <= w.zones[id].width,
        2 * w.config.gap <= w.zones[id].height,
        w.layouts.contains_key(scope_shown(w, id)) ==> w.layouts[scope_shown(w, id)]
            != LayoutKind::Fibonacci,
    ensures
        ({
            let scope = scope_shown(w, id);
            let ids = tiled_in_order(w, scope);
            let zone = w.zones[id];
            let screen = lookup(w.screens, id)->0;
            let gap = w.config.gap as int;
            let area = Tile {
                x: screen.x + zone.x + gap,
                y: screen.y + zone.y + gap,
                width: zone.width - 2 * gap,
                height: zone.height - 2 * gap,
            };
            let tablet = w.layouts.contains_key(scope) && w.layouts[scope] == LayoutKind::Tablet;
            let after = w.laid_out(id, animate).windows;
            &&& after.infos.contains_key(ids[k])
            &&& after.infos[ids[k]].last_configured matches Some((rect, fullscreen)) && {
                &&& !fullscreen
                &&& area.width >= area.height ==> in_columns(
                    rect@,
                    k,
                    ids.len() as int,
                    area,
                    if tablet {
                        3 * (area.width / 4)
                    } else {
                        area.width / 2
                    },
                    gap,
                )
                &&& area.width < area.height ==> in_columns(
                    flipped(rect@),
                    k,
                    ids.len() as int,
                    flipped(area),
                    if tablet {
                        3 * (area.height / 4)
                    } else {
                        area.height / 2
                    },
                    gap,
                )
                &&& ids.len() >= 2 && k == 0 && area.width >= area.height ==> rect.height
                    == area.height
                &&& ids.len() >= 2 && k == 0 && area.width < area.height ==> rect.width
                    == area.width
            }
        }),
{
    let scope = scope_shown(w, id);
    let ids = tiled_in_order(w, scope);
    let n = ids.len() as int;
    let gap = w.config.gap as int;
    let area = w.usable(id);
    lemma_each_told(w, id, animate, k);
    crate::world_laws::lemma_usable(w, id);
    lemma_tiled_in_order(w, id);
    let wide = if w.layouts.contains_key(scope) && w.layouts[scope] == LayoutKind::Tablet {
        3 * (area.width / 4)
    } else {
        area.width / 2
    };
    let tall = if w.layouts.contains_key(scope) && w.layouts[scope] == LayoutKind::Tablet {
        3 * (area.height / 4)
    } else {
        area.height / 2
    };
    lemma_column_place(area, wide, n, gap, k);
    lemma_column_place(area.turned(), tall, n, gap, k);
    let tile = w.arrangement(id, ids.len())[k];
    if area.width >= area.height {
        assert(tile == column_tiles(area, wide, n as nat, gap)[k]);
    } else {
        let upright = column_tiles(area.turned(), tall, n as nat, gap);
        assert(upright.len() == n);
        assert(tile == upright[k].turned());
        assert(flipped(tile) == upright[k]);
        assert(flipped(area) == area.turned());
    }
}

/// How a spiral winds: the first tile takes the left part of the area, the
/// second the upper part of what is left of it, the third the right part of
/// what is left under that, the fourth the lower part of what is then left, and
/// so on round. Started downwards, it takes the upper part first.
pub proof fn lemma_spiral(area: Tile, n: nat, gap: int)
    requires
        n >= 5,
    ensures
        ({
            let t = fib_tiles(Phase::Right, area, n, gap);
            let right = area.x + area.width;
            let bottom = area.y + area.height;
            &&& t[0].x == area.x && t[0].y == area.y && t[0].height == area.height
            &&& t[1].x == t[0].x + t[0].width + gap && t[1].x + t[1].width == right
            &&& t[1].y == area.y
            &&& t[2].y == t[1].y + t[1].height + gap && t[2].y + t[2].height == bottom
            &&& t[2].x + t[2].width == right
            &&& t[3].x == t[1].x && t[3].x + t[3].width + gap == t[2].x
            &&& t[3].y + t[3].height == bottom
            &&& -500 <= 1000 * (t[0].width + gap) - 618 * area.width <= 500
            &&& -500 <= 1000 * (t[1].height + gap) - 618 * area.height <= 500
        }),
        ({
            let t = fib_tiles(Phase::Down, area, n, gap);
            let right = area.x + area.width;
            let bottom = area.y + area.height;
            &&& t[0].x == area.x && t[0].y == area.y && t[0].width == area.width
            &&& t[1].y == t[0].y + t[0].height + gap && t[1].y + t[1].height == bottom
            &&& t[1].x + t[1].width == right
            &&& -500 <= 1000 * (t[0].height + gap) - 618 * area.height <= 500
        }),
{
    let a1 = fib_step(Phase::Right, area, gap).1;
    let a2 = fib_step(Phase::Down, a1, gap).1;
    let a3 = fib_step(Phase::Left, a2, gap).1;
    let s0 = fib_tiles(Phase::Right, area, n, gap);
    let s1 = fib_tiles(Phase::Down, a1, (n - 1) as nat, gap);
    let s2 = fib_tiles(Phase::Left, a2, (n - 2) as nat, gap);
    let s3 = fib_tiles(Phase::Up, a3, (n - 3) as nat, gap);
    assert(s0 == seq![fib_step(Phase::Right, area, gap).0] + s1);
    assert(s1 == seq![fib_step(Phase::Down, a1, gap).0] + s2);
    assert(s2 == seq![fib_step(Phase::Left, a2, gap).0] + s3);
    assert(s3.len() > 0 && s3[0] == fib_step(Phase::Up, a3, gap).0);
    assert(s2[1] == s3[0]);
    assert(s1[1] == s2[0] && s1[2] == s2[1]);
    assert(s0[1] == s1[0] && s0[2] == s1[1] && s0[3] == s1[2]);
    let b1 = fib_step(Phase::Down, area, gap).1;
    let d0 = fib_tiles(Phase::Down, area, n, gap);
    let d1 = fib_tiles(Phase::Left, b1, (n - 1) as nat, gap);
    assert(d0 == seq![fib_step(Phase::Down, area, gap).0] + d1);
    assert(d1.len() > 0 && d1[0] == fib_step(Phase::Left, b1, gap).0);
    assert(d0[1] == d1[0]);
}

/// A tag that was given the spiral is laid out in one: the topmost window has
/// the larger part of the area, along its longer side, and the others the rest.
pub proof fn lemma_spiral_told(w: World, id: OutputId, animate: bool)
    requires
        w.wf(),
        w.outputs.has(id),
        w.zones.contains_key(id),
        lookup(w.screens, id) is Some,
        w.windows.stacks.contains_key(scope_shown(w, id)),
        forall|x: WindowId| #[trigger]
            tiled_in_order(w, scope_shown(w, id)).contains(x) ==> !w.windows.infos[x].fullscreen,
        tiled_in_order(w, scope_shown(w, id)).len() >= 2,
        w.layouts.contains_key(scope_shown(w, id)),
        w.layouts[scope_shown(w, id)] == LayoutKind::Fibonacci,
    ensures
        ({
            let first = tiled_in_order(w, scope_shown(w, id))[0];
            let zone = w.zones[id];
            let screen = lookup(w.screens, id)->0;
            let gap = w.config.gap as int;
            let width = zone.width - 2 * gap;
            let height = zone.height - 2 * gap;
            let after = w.laid_out(id, animate).windows;
            &&& after.infos.contains_key(first)
            &&& after.infos[first].last_configured matches Some((rect, _)) && {
                &&& rect.x == screen.x + zone.x + gap
                &&& rect.y == screen.y + zone.y + gap
                &&& width >= height ==> rect.height == height && -500 <= 1000 * (rect.width + gap)
                    - 618 * width <= 500
                &&& width < height ==> rect.width == width && -500 <= 1000 * (rect.height + gap)
                    - 618 * height <= 500
            }
        }),
{
    let ids = tiled_in_order(w, scope_shown(w, id));
    let area = w.usable(id);
    let gap = w.config.gap as int;
    lemma_each_told(w, id, animate, 0);
    lemma_tiled_in_order(w, id);
    let n = ids.len();
    assert(fib_tiles(Phase::Right, area, n, gap)[0] == fib_step(Phase::Right, area, gap).0);
    assert(fib_tiles(Phase::Down, area, n, gap)[0] == fib_step(Phase::Down, area, gap).0);
}

/// A fullscreen window is told the whole of its output, gap or no gap, and no
/// other tiled window of the tag is told anything.
pub proof fn lemma_fullscreen_told(w: World, id: OutputId, animate: bool, m: int, k: int)
    requires
        w.wf(),
        w.outputs.has(id),
        lookup(w.screens, id) is Some,
        w.windows.stacks.contains_key(scope_shown(w, id)),
        0 <= m < tiled_in_order(w, scope_shown(w, id)).len(),
        0 <= k < tiled_in_order(w, scope_shown(w, id)).len(),
        w.windows.infos[tiled_in_order(w, scope_shown(w, id))[m]].fullscreen,
        forall|j: int|
            m < j < tiled_in_order(w, scope_shown(w, id)).len() ==> !w.windows.infos[#[trigger]
            tiled_in_order(w, scope_shown(w, id))[j]].fullscreen,
    ensures
        ({
            let ids = tiled_in_order(w, scope_shown(w, id));
            let screen = lookup(w.screens, id)->0;
            let after = w.laid_out(id, animate).windows;
            &&& after.infos.contains_key(ids[m])
            &&& after.infos[ids[m]].last_configured matches Some((rect, fullscreen)) && rect@
                == screen && fullscreen
            &&& k != m ==> after.infos[ids[k]] == w.windows.infos[ids[k]]
        }),
{
    let scope = scope_shown(w, id);
    let area = w.usable(id);
    lemma_tiled_in_order(w, id);
    let ids = w.tiled_ids(scope);
    let floating = w.floating_ids(scope);
    lemma_apart(w, scope);
    assert forall|j: int| 0 <= j < ids.len() implies w.windows.infos.contains_key(
        #[trigger] ids[j],
    ) by {
        assert(tiled_in_order(w, scope).contains(ids[j]));
    }
    lemma_covering_found(w, ids, m);
    let chosen = ids[m];
    let geo = lookup(w.screens, id)->0;
    lemma_screen(w, id);
    lemma_covered_by_tells(w, chosen, geo.rect(), ids, ids[k]);
    assert(ids.contains(ids[m]));
    assert(ids.contains(ids[k]));
    assert(!floating.contains(ids[m]));
    assert(!floating.contains(ids[k]));
    let placed = w.covered_by(chosen, geo.rect(), ids);
    lemma_floated_all_tells(placed, floating, area, ids[m]);
    lemma_floated_all_tells(placed, floating, area, ids[k]);
    assert(told(placed, chosen, geo.rect()));
    lemma_laid_out_wf(w, id, animate);
    assert(w.laid_out(id, animate).windows.infos.dom().contains(ids[m]));
    assert(w.laid_out(id, animate).windows.infos.dom().contains(ids[k]));
    assert(ids[k] == ids[m] ==> k == m);
}

/// The last fullscreen window of a list is the one that is found.
proof fn lemma_covering_found(w: World, ids: Seq<WindowId>, m: int)
    requires
        0 <= m < ids.len(),
        w.windows.covers(ids[m]),
        forall|j: int| m < j < ids.len() ==> !w.windows.infos[#[trigger] ids[j]].fullscreen,
    ensures
        w.last_covering(ids) == Some(ids[m]),
    decreases ids.len(),
{
    if m < ids.len() - 1 {
        assert(!w.windows.infos[ids[ids.len() - 1]].fullscreen);
        assert forall|j: int| m < j < ids.drop_last().len() implies !w.windows.infos[#[trigger]
        ids.drop_last()[j]].fullscreen by {
            assert(ids.drop_last()[j] == ids[j]);
        }
        lemma_covering_found(w, ids.drop_last(), m);
    }
}

} // verus!
