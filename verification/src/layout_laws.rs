//! Laws of the layouts: how many tiles there are, where they lie, and within
//! what limits arranging them cannot overflow.
use vstd::prelude::*;

use crate::layout::{
    column_fits, column_tiles, fib_fits, fib_step, fib_tiles, golden_cut, golden_share, in_i32,
    quotient, saturated, stack_tile, turned, Layout, Phase, Tile,
};
use crate::output::LayoutKind;

verus! {

/// The largest coordinate, either way, of an area that windows are tiled in.
pub const AREA_LIMIT: i32 = 0x200_0000;

/// The largest coordinate, either way, of a tile in such an area.
pub const TILE_LIMIT: i32 = 0x2000_0000;

/// The largest gap between tiles, either way; with a negative one they
/// overlap.
pub const GAP_LIMIT: i32 = 0x80_0000;

/// How far the gaps around all windows may reach together.
pub const SPREAD_LIMIT: i32 = 0x1800_0000;

/// How much further a spiral can reach with each window.
pub open spec fn spread(gap: int) -> int {
    3 * (if gap >= 0 {
        gap
    } else {
        -gap
    }) + 4
}

/// With `gap` between them, `n` windows can be arranged in any area within
/// [`AREA_LIMIT`]: the larger the gap, the fewer.
pub open spec fn roomy(gap: int, n: int) -> bool {
    &&& -GAP_LIMIT <= gap <= GAP_LIMIT
    &&& n * spread(gap) <= SPREAD_LIMIT
}

/// Whether `n` windows can be arranged with `gap` between them.
pub fn is_roomy(gap: i32, n: usize) -> (r: bool)
    ensures
        r == roomy(gap as int, n as int),
{
    if gap < -GAP_LIMIT || gap > GAP_LIMIT {
        return false;
    }
    let size: i32 = if gap >= 0 {
        gap
    } else {
        -gap
    };
    let step: u64 = 3 * size as u64 + 4;
    proof {
        lemma_fewer_fit(gap as int, n as int, n as int);
    }
    if n as u64 > SPREAD_LIMIT as u64 {
        return false;
    }
    assert(n * step <= SPREAD_LIMIT * (3 * GAP_LIMIT + 4)) by (nonlinear_arith)
        requires
            0 <= n <= SPREAD_LIMIT,
            0 <= step <= 3 * GAP_LIMIT + 4,
    ;
    n as u64 * step <= SPREAD_LIMIT as u64
}

/// Where windows can be arranged, fewer can.
pub proof fn lemma_fewer_fit(gap: int, fewer: int, n: int)
    requires
        fewer <= n,
    ensures
        roomy(gap, n) ==> roomy(gap, fewer),
        roomy(gap, n) ==> n <= SPREAD_LIMIT,
{
    assert(fewer * spread(gap) <= n * spread(gap)) by (nonlinear_arith)
        requires
            fewer <= n,
            spread(gap) >= 4,
    ;
    assert(n >= 0 ==> n <= n * spread(gap)) by (nonlinear_arith)
        requires
            spread(gap) >= 4,
    ;
}

/// No coordinate of `t` is beyond `limit`, either way.
pub open spec fn within(t: Tile, limit: int) -> bool {
    &&& -limit <= t.x <= limit
    &&& -limit <= t.y <= limit
    &&& -limit <= t.width <= limit
    &&& -limit <= t.height <= limit
}

/// Every window gets a tile, and a single window gets the whole area.
pub proof fn lemma_tile_count(kind: LayoutKind, area: Tile, n: nat, gap: int)
    ensures
        kind.wide_tiles(area, n, gap).len() == n,
        kind.tall_tiles(area, n, gap).len() == n,
        n == 1 ==> kind.wide_tiles(area, n, gap) == seq![area],
        n == 1 ==> kind.tall_tiles(area, n, gap) == seq![area],
{
    match kind {
        LayoutKind::Fibonacci => {
            lemma_fib_count(Phase::Right, area, n, gap);
            lemma_fib_count(Phase::Down, area, n, gap);
        },
        _ => {},
    }
    if n == 1 {
        assert(area.turned().turned() == area);
        assert(turned(seq![area.turned()]) =~= seq![area]);
    }
}

proof fn lemma_fib_count(phase: Phase, area: Tile, n: nat, gap: int)
    ensures
        fib_tiles(phase, area, n, gap).len() == n,
    decreases n,
{
    if n >= 2 {
        lemma_fib_count(
            phase.successor(),
            fib_step(phase, area, gap).1,
            (n - 1) as nat,
            gap,
        );
    }
}

/// Arranging `n` windows with a leading tile leaves a gap between any two
/// tiles and keeps all of them inside the area, as long as the leading part
/// and each window's share of the stack are at least a gap long.
pub proof fn lemma_column_tiles(area: Tile, lead: int, n: nat, gap: int, i: int, j: int)
    requires
        area.fits(),
        0 <= gap <= lead <= area.width <= i32::MAX,
        n >= 2 ==> (n - 1) * gap <= area.height,
        0 <= i < j < n,
    ensures
        column_tiles(area, lead, n, gap)[i].inside(area),
        column_tiles(area, lead, n, gap)[j].inside(area),
        column_tiles(area, lead, n, gap)[i].apart(column_tiles(area, lead, n, gap)[j], gap),
{
    let m = n - 1;
    let part = quotient(area.height, m);
    assert(area.height >= 0 && gap <= part && m * part <= area.height) by (nonlinear_arith)
        requires
            m >= 1,
            gap >= 0,
            m * gap <= area.height,
            part == quotient(area.height, m),
    ;
    lemma_stack_place(area, lead, m as nat, gap, j - 1, part);
    if i > 0 {
        lemma_stack_place(area, lead, m as nat, gap, i - 1, part);
        assert((i - 1 + 1) * part <= (j - 1) * part) by (nonlinear_arith)
            requires
                i < j,
                part >= 0,
        ;
    }
}

/// Where the `k`th stacked tile lies.
proof fn lemma_stack_place(area: Tile, lead: int, m: nat, gap: int, k: int, part: int)
    requires
        area.fits(),
        0 <= gap <= lead <= area.width <= i32::MAX,
        0 <= k < m,
        part == quotient(area.height, m as int),
        gap <= part,
        m * part <= area.height,
    ensures
        ({
            let t = stack_tile(area, lead, m, gap, k);
            &&& t.x == area.x + lead
            &&& t.width == area.width - lead
            &&& t.y == area.y + k * part + if k > 0 {
                gap
            } else {
                0
            }
            &&& t.y + t.height == area.y + (k + 1) * part
            &&& t.y + t.height <= area.y + area.height
            &&& t.y >= area.y
        }),
{
    assert(part <= area.height && 0 <= k * part && (k + 1) * part <= area.height && k * part + part
        == (k + 1) * part && (k > 0 ==> (k - 1) * part + part == k * part)) by (nonlinear_arith)
        requires
            0 <= k < m,
            0 <= part,
            m * part <= area.height,
    ;
    assert(saturated(part - gap) == part - gap);
    assert(saturated(lead - gap) == lead - gap);
    if k > 0 {
        assert((k - 1) * (saturated(part - gap) + gap) == (k - 1) * part);
    }
}

/// [`MasterStack`] and [`Tablet`] keep every tile inside the area and a gap
/// between any two, as long as the area is at least four gaps long along the
/// one axis and a gap per stacked window along the other.
///
/// [`MasterStack`]: crate::layout::MasterStack
/// [`Tablet`]: crate::layout::Tablet
pub proof fn lemma_stacked_tiles(kind: LayoutKind, area: Tile, n: nat, gap: int, i: int, j: int)
    requires
        kind != LayoutKind::Fibonacci,
        area.fits(),
        0 <= gap,
        0 <= i < j < n,
    ensures
        4 * gap <= area.width && (n - 1) * gap <= area.height ==> ({
            let all = kind.wide_tiles(area, n, gap);
            all[i].inside(area) && all[j].inside(area) && all[i].apart(all[j], gap)
        }),
        4 * gap <= area.height && (n - 1) * gap <= area.width ==> ({
            let all = kind.tall_tiles(area, n, gap);
            all[i].inside(area) && all[j].inside(area) && all[i].apart(all[j], gap)
        }),
{
    if 4 * gap <= area.width && (n - 1) * gap <= area.height {
        let lead = if kind == LayoutKind::MasterStack {
            quotient(area.width, 2)
        } else {
            3 * quotient(area.width, 4)
        };
        lemma_column_tiles(area, lead, n, gap, i, j);
    }
    if 4 * gap <= area.height && (n - 1) * gap <= area.width {
        let flipped = area.turned();
        let lead = if kind == LayoutKind::MasterStack {
            quotient(flipped.width, 2)
        } else {
            3 * quotient(flipped.width, 4)
        };
        lemma_column_tiles(flipped, lead, n, gap, i, j);
    }
}

/// Each cut of the spiral leaves at least a gap's worth to cut from.
pub open spec fn fib_roomy(phase: Phase, area: Tile, n: nat, gap: int) -> bool
    decreases n,
{
    n >= 2 ==> {
        &&& match phase {
            Phase::Right | Phase::Left => golden_share(area.width) >= gap,
            Phase::Down | Phase::Up => golden_share(area.height) >= gap,
        }
        &&& fib_roomy(phase.successor(), fib_step(phase, area, gap).1, (n - 1) as nat, gap)
    }
}

/// A cut splits a length into two parts and the gap between them.
pub proof fn lemma_golden_cut(area: Tile, gap: int)
    ensures
        golden_cut(area, gap).0.width + gap + golden_cut(area, gap).1.width == area.width,
        golden_cut(area, gap).0.x + golden_cut(area, gap).0.width + gap == golden_cut(
            area,
            gap,
        ).1.x,
        golden_cut(area, gap).1.x + golden_cut(area, gap).1.width == area.x + area.width,
{
}

/// The spiral keeps every tile inside the area and a gap between any two, as
/// long as each part that it cuts is at least a gap long.
pub proof fn lemma_fib_tiles(phase: Phase, area: Tile, n: nat, gap: int, i: int, j: int)
    requires
        0 <= gap,
        0 <= area.width,
        0 <= area.height,
        fib_roomy(phase, area, n, gap),
        0 <= i <= j < n,
    ensures
        fib_tiles(phase, area, n, gap)[i].inside(area),
        fib_tiles(phase, area, n, gap)[j].inside(area),
        i < j ==> fib_tiles(phase, area, n, gap)[i].apart(
            fib_tiles(phase, area, n, gap)[j],
            gap,
        ),
    decreases n,
{
    lemma_fib_count(phase, area, n, gap);
    if n >= 2 {
        let (placed, rest) = fib_step(phase, area, gap);
        let all = fib_tiles(phase, area, n, gap);
        let tail = fib_tiles(phase.successor(), rest, (n - 1) as nat, gap);
        assert(all == seq![placed] + tail);
        lemma_fib_count(phase.successor(), rest, (n - 1) as nat, gap);
        if j > 0 {
            assert(all[j] == tail[j - 1]);
            let k = if i > 0 {
                i - 1
            } else {
                j - 1
            };
            if i > 0 {
                assert(all[i] == tail[i - 1]);
            }
            lemma_fib_tiles(phase.successor(), rest, (n - 1) as nat, gap, k, j - 1);
        }
    }
}

/// How far a spiral that starts in `t` can reach along the first axis.
spec fn reach(position: int, length: int) -> int {
    (if position >= 0 {
        position
    } else {
        -position
    }) + 3 * (if length >= 0 {
        length
    } else {
        -length
    })
}

/// A spiral reaches at most a little further with each cut, so that within
/// the limits it stays far inside `i32`.
proof fn lemma_fib_limits(phase: Phase, area: Tile, n: nat, gap: int, g: int, bound: int)
    requires
        -g <= gap <= g,
        0 <= g <= GAP_LIMIT,
        reach(area.x, area.width) <= bound,
        reach(area.y, area.height) <= bound,
        bound + n * (3 * g + 4) <= TILE_LIMIT,
    ensures
        fib_fits(phase, area, n, gap),
        forall|i: int|
            0 <= i < n ==> within(#[trigger] fib_tiles(phase, area, n, gap)[i], TILE_LIMIT as int),
    decreases n,
{
    assert(n * (3 * g + 4) >= 0 && (n >= 2 ==> n * (3 * g + 4) >= 2 * (3 * g + 4)))
        by (nonlinear_arith)
        requires
            g >= 0,
            n >= 0,
    ;
    if n >= 2 {
        let (placed, rest) = fib_step(phase, area, gap);
        let next = bound + (3 * g + 4);
        assert(next + (n - 1) * (3 * g + 4) == bound + n * (3 * g + 4)) by (nonlinear_arith)
            requires
                next == bound + (3 * g + 4),
        ;
        lemma_fib_limits(phase.successor(), rest, (n - 1) as nat, gap, g, next);
        lemma_fib_count(phase.successor(), rest, (n - 1) as nat, gap);
        let all = fib_tiles(phase, area, n, gap);
        let tail = fib_tiles(phase.successor(), rest, (n - 1) as nat, gap);
        assert forall|i: int| 0 <= i < n implies within(#[trigger] all[i], TILE_LIMIT as int) by {
            if i > 0 {
                assert(all[i] == tail[i - 1]);
            }
        }
    }
}

proof fn lemma_column_limits(area: Tile, lead: int, n: nat, gap: int)
    requires
        within(area, AREA_LIMIT as int),
        -AREA_LIMIT <= lead <= AREA_LIMIT,
        roomy(gap, n as int),
    ensures
        column_fits(area, lead, n, gap),
        forall|i: int|
            0 <= i < n ==> within(
                #[trigger] column_tiles(area, lead, n, gap)[i],
                TILE_LIMIT as int,
            ),
{
    lemma_fewer_fit(gap, n as int, n as int);
    if n >= 2 {
        let m = n - 1;
        let part = quotient(area.height, m);
        assert forall|i: int| 0 <= i < m implies {
            let t = #[trigger] stack_tile(area, lead, m as nat, gap, i);
            &&& within(t, TILE_LIMIT as int)
            &&& in_i32(t.y + t.height)
        } by {
            assert(-AREA_LIMIT <= part <= AREA_LIMIT && -AREA_LIMIT <= i * part <= AREA_LIMIT && (i
                - 1) * part + part == i * part) by (nonlinear_arith)
                requires
                    0 <= i < m,
                    part == quotient(area.height, m),
                    -AREA_LIMIT <= area.height <= AREA_LIMIT,
            ;
            if i > 0 {
                assert((i - 1) * (saturated(part - gap) + gap) == (i - 1) * part);
            }
        }
        assert forall|i: int| 0 <= i < n implies within(
            #[trigger] column_tiles(area, lead, n, gap)[i],
            TILE_LIMIT as int,
        ) by {
            if i > 0 {
                assert(column_tiles(area, lead, n, gap)[i] == stack_tile(
                    area,
                    lead,
                    m as nat,
                    gap,
                    i - 1,
                ));
            }
        }
        assert forall|i: int| 0 < i < n - 1 implies {
            let before = stack_tile(area, lead, (n - 1) as nat, gap, i - 1);
            &&& in_i32(before.y + before.height)
            &&& in_i32((#[trigger] stack_tile(area, lead, (n - 1) as nat, gap, i)).y)
        } by {
            assert(within(stack_tile(area, lead, m as nat, gap, i - 1), TILE_LIMIT as int));
        }
    }
}

/// Within the limits no layout overflows, and every tile stays within
/// [`TILE_LIMIT`].
pub proof fn lemma_layout_limits(kind: LayoutKind, area: Tile, n: nat, gap: int)
    requires
        within(area, AREA_LIMIT as int),
        roomy(gap, n as int),
    ensures
        kind.wide_fits(area, n, gap),
        kind.tall_fits(area, n, gap),
        forall|i: int|
            0 <= i < n ==> within(#[trigger] kind.wide_tiles(area, n, gap)[i], TILE_LIMIT as int),
        forall|i: int|
            0 <= i < n ==> within(#[trigger] kind.tall_tiles(area, n, gap)[i], TILE_LIMIT as int),
{
    match kind {
        LayoutKind::MasterStack => {
            lemma_column_limits(area, quotient(area.width, 2), n, gap);
            lemma_column_limits(area.turned(), quotient(area.height, 2), n, gap);
        },
        LayoutKind::Tablet => {
            lemma_column_limits(area, 3 * quotient(area.width, 4), n, gap);
            lemma_column_limits(area.turned(), 3 * quotient(area.height, 4), n, gap);
        },
        LayoutKind::Fibonacci => {
            let bound = 4 * AREA_LIMIT;
            let g = if gap >= 0 {
                gap
            } else {
                -gap
            };
            assert(spread(gap) == 3 * g + 4);
            lemma_fib_limits(Phase::Right, area, n, gap, g, bound);
            lemma_fib_limits(Phase::Down, area, n, gap, g, bound);
        },
    }
    lemma_tile_count(kind, area, n, gap);
    if kind != LayoutKind::Fibonacci {
        let upright = kind.wide_tiles(area.turned(), n, gap);
        assert forall|i: int| 0 <= i < n implies within(
            #[trigger] kind.tall_tiles(area, n, gap)[i],
            TILE_LIMIT as int,
        ) by {
            lemma_tile_count(kind, area.turned(), n, gap);
            assert(kind.tall_tiles(area, n, gap)[i] == upright[i].turned());
        }
    }
}

} // verus!
