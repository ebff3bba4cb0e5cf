//! Tiling layouts: how the windows of one tag share an output's area.
use vstd::prelude::*;

use crate::window::WindowId;

verus! {

/// A box in the compositor's global (layout) coordinate space.
#[derive(Debug, Clone, Copy, PartialEq, Eq, Structural)]
pub struct Rect {
    pub x: i32,
    pub y: i32,
    pub width: i32,
    pub height: i32,
}

/// A box with unbounded coordinates: what a [`Rect`] stands for.
pub struct Tile {
    pub x: int,
    pub y: int,
    pub width: int,
    pub height: int,
}

impl View for Rect {
    type V = Tile;

    open spec fn view(&self) -> Tile {
        Tile {
            x: self.x as int,
            y: self.y as int,
            width: self.width as int,
            height: self.height as int,
        }
    }
}

impl Tile {
    /// The rectangle with these coordinates.
    pub open spec fn rect(self) -> Rect {
        Rect {
            x: self.x as i32,
            y: self.y as i32,
            width: self.width as i32,
            height: self.height as i32,
        }
    }

    /// Every coordinate is an `i32`.
    pub open spec fn fits(self) -> bool {
        in_i32(self.x) && in_i32(self.y) && in_i32(self.width) && in_i32(self.height)
    }

    /// The same box with its two axes exchanged.
    pub open spec fn turned(self) -> Tile {
        Tile { x: self.y, y: self.x, width: self.height, height: self.width }
    }

    /// `self` lies within `outer`.
    pub open spec fn inside(self, outer: Tile) -> bool {
        &&& outer.x <= self.x
        &&& outer.y <= self.y
        &&& self.x + self.width <= outer.x + outer.width
        &&& self.y + self.height <= outer.y + outer.height
    }

    /// On one of the two axes, `self` and `other` are at least `gap` apart.
    pub open spec fn apart(self, other: Tile, gap: int) -> bool {
        ||| self.x + self.width + gap <= other.x
        ||| other.x + other.width + gap <= self.x
        ||| self.y + self.height + gap <= other.y
        ||| other.y + other.height + gap <= self.y
    }
}

/// What each of `rects` stands for.
pub open spec fn tiles(rects: Seq<Rect>) -> Seq<Tile> {
    rects.map_values(|r: Rect| r@)
}

/// Each of `boxes` with its axes exchanged.
pub open spec fn turned(boxes: Seq<Tile>) -> Seq<Tile> {
    boxes.map_values(|t: Tile| t.turned())
}

pub open spec fn in_i32(v: int) -> bool {
    i32::MIN <= v <= i32::MAX
}

/// `v`, or the end of the `i32` range that it lies beyond.
pub open spec fn saturated(v: int) -> int {
    if v > i32::MAX {
        i32::MAX as int
    } else if v < i32::MIN {
        i32::MIN as int
    } else {
        v
    }
}

/// `a` divided by `b > 0`, rounded toward zero.
pub open spec fn quotient(a: int, b: int) -> int {
    if a >= 0 {
        a / b
    } else {
        -((-a) / b)
    }
}

fn saturating_difference(a: i32, b: i32) -> (r: i32)
    ensures
        r == saturated(a - b),
{
    let d: i64 = a as i64 - b as i64;
    if d > i32::MAX as i64 {
        i32::MAX
    } else if d < i32::MIN as i64 {
        i32::MIN
    } else {
        d as i32
    }
}

/// A way of arranging windows in an area.
pub trait Layout {
    /// The name under which this layout is selected.
    spec fn title(&self) -> Seq<char>;

    /// The tiles of `n` windows in an area that is at least as wide as it is
    /// high, in render order.
    spec fn wide_tiles(&self, area: Tile, n: nat, gap: int) -> Seq<Tile>;

    /// Computing `wide_tiles` stays within `i32`.
    spec fn wide_fits(&self, area: Tile, n: nat, gap: int) -> bool;

    /// The tiles of `n` windows in an area that is higher than wide, in
    /// render order.
    spec fn tall_tiles(&self, area: Tile, n: nat, gap: int) -> Seq<Tile>;

    /// Computing `tall_tiles` stays within `i32`.
    spec fn tall_fits(&self, area: Tile, n: nat, gap: int) -> bool;

    fn name(&self) -> (name: &'static str)
        ensures
            name@ == self.title(),
    ;

    fn arrange_horizontal(&self, area: Rect, windows: &[WindowId], gap_size: i32) -> (rects: Vec<
        Rect,
    >)
        requires
            self.wide_fits(area@, windows@.len(), gap_size as int),
        ensures
            tiles(rects@) == self.wide_tiles(area@, windows@.len(), gap_size as int),
    ;

    fn arrange_vertical(&self, area: Rect, windows: &[WindowId], gap_size: i32) -> (rects: Vec<
        Rect,
    >)
        requires
            self.tall_fits(area@, windows@.len(), gap_size as int),
        ensures
            tiles(rects@) == self.tall_tiles(area@, windows@.len(), gap_size as int),
    ;
}

/// The leading tile: the left part of `area`, `lead` wide less the gap.
pub open spec fn lead_tile(area: Tile, lead: int, gap: int) -> Tile {
    Tile { width: saturated(lead - gap), ..area }
}

/// The `i`th of `m` tiles stacked to the right of the leading one. All are
/// one `m`th of the height apart; all but the first give up a gap.
pub open spec fn stack_tile(area: Tile, lead: int, m: nat, gap: int, i: int) -> Tile {
    let lead_width = saturated(lead - gap);
    let part = quotient(area.height, m as int);
    let later = saturated(part - gap);
    Tile {
        x: area.x + lead_width + gap,
        width: saturated(area.width - (lead_width + gap)),
        y: if i <= 0 {
            area.y
        } else {
            area.y + part + gap + (i - 1) * (later + gap)
        },
        height: if i <= 0 {
            part
        } else {
            later
        },
    }
}

/// One window fills `area`; of more, the first takes the leading tile and
/// the others are stacked beside it.
pub open spec fn column_tiles(area: Tile, lead: int, n: nat, gap: int) -> Seq<Tile> {
    if n == 0 {
        Seq::empty()
    } else if n == 1 {
        seq![area]
    } else {
        Seq::new(
            n,
            |i: int|
                if i == 0 {
                    lead_tile(area, lead, gap)
                } else {
                    stack_tile(area, lead, (n - 1) as nat, gap, i - 1)
                },
        )
    }
}

/// Every sum on the way to `column_tiles` is an `i32`.
pub open spec fn column_fits(area: Tile, lead: int, n: nat, gap: int) -> bool {
    let lead_width = saturated(lead - gap);
    n >= 2 ==> {
        &&& n - 1 <= i32::MAX
        &&& in_i32(lead_width + area.x)
        &&& in_i32(lead_width + area.x + gap)
        &&& in_i32(lead_width + gap)
        &&& forall|i: int|
            0 < i < n - 1 ==> {
                let before = stack_tile(area, lead, (n - 1) as nat, gap, i - 1);
                &&& in_i32(before.y + before.height)
                &&& in_i32((#[trigger] stack_tile(area, lead, (n - 1) as nat, gap, i)).y)
            }
    }
}

fn column(area: Rect, lead: i32, n: usize, gap_size: i32) -> (rects: Vec<Rect>)
    requires
        column_fits(area@, lead as int, n as nat, gap_size as int),
    ensures
        tiles(rects@) == column_tiles(area@, lead as int, n as nat, gap_size as int),
{
    let mut out: Vec<Rect> = Vec::new();
    if n == 0 {
        assert(tiles(out@) =~= column_tiles(area@, lead as int, n as nat, gap_size as int));
        return out;
    }
    if n == 1 {
        out.push(area);
        assert(tiles(out@) =~= column_tiles(area@, lead as int, n as nat, gap_size as int));
        return out;
    }
    let main_rect = Rect { width: saturating_difference(lead, gap_size), ..area };
    let x = main_rect.width + main_rect.x + gap_size;
    let width = saturating_difference(area.width, main_rect.width + gap_size);
    out.push(main_rect);
    let part_size = area.height / (n - 1) as i32;
    out.push(Rect { x, y: area.y, width, height: part_size });
    let later_size = saturating_difference(part_size, gap_size);
    let ghost goal = column_tiles(area@, lead as int, n as nat, gap_size as int);
    let mut i: usize = 1;
    while i < n - 1
        invariant
            2 <= n,
            1 <= i <= n - 1,
            column_fits(area@, lead as int, n as nat, gap_size as int),
            goal == column_tiles(area@, lead as int, n as nat, gap_size as int),
            x == stack_tile(area@, lead as int, (n - 1) as nat, gap_size as int, 0).x,
            width == stack_tile(area@, lead as int, (n - 1) as nat, gap_size as int, 0).width,
            later_size == stack_tile(area@, lead as int, (n - 1) as nat, gap_size as int, 1).height,
            out.len() == i + 1,
            forall|j: int| 0 <= j <= i ==> (#[trigger] out@[j])@ == goal[j],
        decreases n - i,
    {
        let ghost before = stack_tile(area@, lead as int, (n - 1) as nat, gap_size as int, i - 1);
        let ghost here = stack_tile(area@, lead as int, (n - 1) as nat, gap_size as int, i as int);
        assert(out@[i as int]@ == goal[i as int]);
        assert(goal[i as int] == before);
        let above = out[i];
        assert(above@ == before);
        assert(here.y == before.y + before.height + gap_size) by (nonlinear_arith)
            requires
                i >= 1,
                before == stack_tile(area@, lead as int, (n - 1) as nat, gap_size as int, i - 1),
                here == stack_tile(area@, lead as int, (n - 1) as nat, gap_size as int, i as int),
        ;
        let y = above.y + above.height + gap_size;
        out.push(Rect { x, y, width, height: later_size });
        i += 1;
        assert(goal[i as int] == here);
    }
    assert(tiles(out@) =~= goal);
    out
}

fn turn(rect: Rect) -> (r: Rect)
    ensures
        r@ == rect@.turned(),
{
    Rect { x: rect.y, y: rect.x, width: rect.height, height: rect.width }
}

/// A column, turned on its side.
fn row(area: Rect, lead: i32, n: usize, gap_size: i32) -> (rects: Vec<Rect>)
    requires
        column_fits(area@.turned(), lead as int, n as nat, gap_size as int),
    ensures
        tiles(rects@) == turned(
            column_tiles(area@.turned(), lead as int, n as nat, gap_size as int),
        ),
{
    let upright = column(turn(area), lead, n, gap_size);
    let mut out: Vec<Rect> = Vec::new();
    let mut i: usize = 0;
    while i < upright.len()
        invariant
            i <= upright.len(),
            out.len() == i,
            forall|j: int| 0 <= j < i ==> (#[trigger] out@[j])@ == upright@[j]@.turned(),
        decreases upright.len() - i,
    {
        out.push(turn(upright[i]));
        i += 1;
    }
    assert(tiles(out@) =~= turned(tiles(upright@)));
    out
}

/// One big tile on half of the area, the rest stacked beside it.
pub struct MasterStack;

impl Layout for MasterStack {
    open spec fn title(&self) -> Seq<char> {
        "MasterStack"@
    }

    open spec fn wide_tiles(&self, area: Tile, n: nat, gap: int) -> Seq<Tile> {
        column_tiles(area, quotient(area.width, 2), n, gap)
    }

    open spec fn wide_fits(&self, area: Tile, n: nat, gap: int) -> bool {
        column_fits(area, quotient(area.width, 2), n, gap)
    }

    open spec fn tall_tiles(&self, area: Tile, n: nat, gap: int) -> Seq<Tile> {
        turned(self.wide_tiles(area.turned(), n, gap))
    }

    open spec fn tall_fits(&self, area: Tile, n: nat, gap: int) -> bool {
        self.wide_fits(area.turned(), n, gap)
    }

    fn name(&self) -> (name: &'static str) {
        "MasterStack"
    }

    fn arrange_horizontal(&self, area: Rect, windows: &[WindowId], gap_size: i32) -> (rects: Vec<
        Rect,
    >) {
        column(area, area.width / 2, windows.len(), gap_size)
    }

    fn arrange_vertical(&self, area: Rect, windows: &[WindowId], gap_size: i32) -> (rects: Vec<
        Rect,
    >) {
        row(area, area.height / 2, windows.len(), gap_size)
    }
}

/// Like [`MasterStack`], but the big tile takes three quarters.
pub struct Tablet;

impl Layout for Tablet {
    open spec fn title(&self) -> Seq<char> {
        "Tablet"@
    }

    open spec fn wide_tiles(&self, area: Tile, n: nat, gap: int) -> Seq<Tile> {
        column_tiles(area, 3 * quotient(area.width, 4), n, gap)
    }

    open spec fn wide_fits(&self, area: Tile, n: nat, gap: int) -> bool {
        column_fits(area, 3 * quotient(area.width, 4), n, gap)
    }

    open spec fn tall_tiles(&self, area: Tile, n: nat, gap: int) -> Seq<Tile> {
        turned(self.wide_tiles(area.turned(), n, gap))
    }

    open spec fn tall_fits(&self, area: Tile, n: nat, gap: int) -> bool {
        self.wide_fits(area.turned(), n, gap)
    }

    fn name(&self) -> (name: &'static str) {
        "Tablet"
    }

    fn arrange_horizontal(&self, area: Rect, windows: &[WindowId], gap_size: i32) -> (rects: Vec<
        Rect,
    >) {
        let segment_size = area.width / 4;
        column(area, segment_size * 3, windows.len(), gap_size)
    }

    fn arrange_vertical(&self, area: Rect, windows: &[WindowId], gap_size: i32) -> (rects: Vec<
        Rect,
    >) {
        let segment_size = area.height / 4;
        row(area, segment_size * 3, windows.len(), gap_size)
    }
}

/// The side of an area that the next tile of a [`Fibonacci`] spiral is cut
/// from.
#[derive(Clone, Copy, PartialEq, Eq, Structural)]
pub enum Phase {
    Up,
    Down,
    Left,
    Right,
}

impl Phase {
    pub open spec fn successor(self) -> Phase {
        match self {
            Phase::Right => Phase::Down,
            Phase::Down => Phase::Left,
            Phase::Left => Phase::Up,
            Phase::Up => Phase::Right,
        }
    }

    /// The phase that follows, clockwise.
    pub fn next(self) -> (r: Self)
        ensures
            r == self.successor(),
    {
        match self {
            Phase::Right => Phase::Down,
            Phase::Down => Phase::Left,
            Phase::Left => Phase::Up,
            Phase::Up => Phase::Right,
        }
    }
}

/// The integer nearest to 0.618 times `length`; a tie goes away from zero.
pub open spec fn golden_share(length: int) -> int {
    if length >= 0 {
        (618 * length + 500) / 1000
    } else {
        -((618 * (-length) + 500) / 1000)
    }
}

fn golden(length: i32) -> (share: i32)
    ensures
        share == golden_share(length as int),
{
    let l: i64 = length as i64;
    if l >= 0 {
        ((618 * l + 500) / 1000) as i32
    } else {
        (-((618 * (-l) + 500) / 1000)) as i32
    }
}

/// `area` cut by a vertical line: the left part is the golden share of the
/// width less the gap, and the right part begins one gap further on.
pub open spec fn golden_cut(area: Tile, gap: int) -> (Tile, Tile) {
    let first = golden_share(area.width) - gap;
    (
        Tile { width: first, ..area },
        Tile { x: area.x + first + gap, width: area.width - first - gap, ..area },
    )
}

/// The tile that a phase places in `area`, and the area that is left.
pub open spec fn fib_step(phase: Phase, area: Tile, gap: int) -> (Tile, Tile) {
    match phase {
        Phase::Right => golden_cut(area, gap),
        Phase::Left => (golden_cut(area, gap).1, golden_cut(area, gap).0),
        Phase::Down => {
            let cut = golden_cut(area.turned(), gap);
            (cut.0.turned(), cut.1.turned())
        },
        Phase::Up => {
            let cut = golden_cut(area.turned(), gap);
            (cut.1.turned(), cut.0.turned())
        },
    }
}

/// The spiral of `n` tiles that starts in `phase`.
pub open spec fn fib_tiles(phase: Phase, area: Tile, n: nat, gap: int) -> Seq<Tile>
    decreases n,
{
    if n == 0 {
        Seq::empty()
    } else if n == 1 {
        seq![area]
    } else {
        let (placed, rest) = fib_step(phase, area, gap);
        seq![placed] + fib_tiles(phase.successor(), rest, (n - 1) as nat, gap)
    }
}

/// Every sum of a cut along the first axis is an `i32`.
pub open spec fn cut_fits(area: Tile, gap: int) -> bool {
    let first = golden_share(area.width) - gap;
    &&& in_i32(first)
    &&& in_i32(area.width - first)
    &&& in_i32(area.width - first - gap)
    &&& in_i32(area.x + first)
    &&& in_i32(area.x + first + gap)
}

/// Every sum on the way to `fib_tiles` is an `i32`.
pub open spec fn fib_fits(phase: Phase, area: Tile, n: nat, gap: int) -> bool
    decreases n,
{
    n >= 2 ==> {
        &&& match phase {
            Phase::Right | Phase::Left => cut_fits(area, gap),
            Phase::Down | Phase::Up => cut_fits(area.turned(), gap),
        }
        &&& fib_fits(phase.successor(), fib_step(phase, area, gap).1, (n - 1) as nat, gap)
    }
}

fn cut(area: Rect, gap_size: i32) -> (parts: (Rect, Rect))
    requires
        cut_fits(area@, gap_size as int),
    ensures
        (parts.0@, parts.1@) == golden_cut(area@, gap_size as int),
{
    let first_width = golden(area.width) - gap_size;
    let second_width = area.width - first_width - gap_size;
    let first_rect = Rect { width: first_width, ..area };
    let rest_rect = Rect { x: area.x + first_width + gap_size, width: second_width, ..area };
    (first_rect, rest_rect)
}

/// Places the spiral's tiles behind those already in `out`.
pub fn fib(phase: Phase, area: Rect, n: usize, gap_size: i32, out: &mut Vec<Rect>)
    requires
        fib_fits(phase, area@, n as nat, gap_size as int),
    ensures
        tiles(final(out)@) == tiles(old(out)@) + fib_tiles(
            phase,
            area@,
            n as nat,
            gap_size as int,
        ),
    decreases n,
{
    if n == 0 {
        assert(tiles(out@) =~= tiles(old(out)@) + fib_tiles(phase, area@, 0, gap_size as int));
        return;
    } else if n == 1 {
        out.push(area);
        assert(tiles(out@) =~= tiles(old(out)@) + fib_tiles(phase, area@, 1, gap_size as int));
        return;
    }
    let (placed, rest) = match phase {
        Phase::Right => cut(area, gap_size),
        Phase::Down => {
            let (first, second) = cut(turn(area), gap_size);
            (turn(first), turn(second))
        },
        Phase::Left => {
            let (first, second) = cut(area, gap_size);
            (second, first)
        },
        Phase::Up => {
            let (first, second) = cut(turn(area), gap_size);
            (turn(second), turn(first))
        },
    };
    assert((placed@, rest@) == fib_step(phase, area@, gap_size as int));
    out.push(placed);
    assert(tiles(out@) =~= tiles(old(out)@) + seq![placed@]);
    fib(phase.next(), rest, n - 1, gap_size, out);
    assert(tiles(out@) =~= tiles(old(out)@) + (seq![placed@] + fib_tiles(
        phase.successor(),
        rest@,
        (n - 1) as nat,
        gap_size as int,
    )));
}

/// A spiral of ever smaller tiles.
pub struct Fibonacci;

impl Layout for Fibonacci {
    open spec fn title(&self) -> Seq<char> {
        "Fibonacci"@
    }

    open spec fn wide_tiles(&self, area: Tile, n: nat, gap: int) -> Seq<Tile> {
        fib_tiles(Phase::Right, area, n, gap)
    }

    open spec fn wide_fits(&self, area: Tile, n: nat, gap: int) -> bool {
        fib_fits(Phase::Right, area, n, gap)
    }

    open spec fn tall_tiles(&self, area: Tile, n: nat, gap: int) -> Seq<Tile> {
        fib_tiles(Phase::Down, area, n, gap)
    }

    open spec fn tall_fits(&self, area: Tile, n: nat, gap: int) -> bool {
        fib_fits(Phase::Down, area, n, gap)
    }

    fn name(&self) -> (name: &'static str) {
        "Fibonacci"
    }

    fn arrange_horizontal(&self, area: Rect, windows: &[WindowId], gap_size: i32) -> (rects: Vec<
        Rect,
    >) {
        let mut out: Vec<Rect> = Vec::with_capacity(windows.len());
        fib(Phase::Right, area, windows.len(), gap_size, &mut out);
        assert(tiles(out@) =~= fib_tiles(Phase::Right, area@, windows@.len(), gap_size as int));
        out
    }

    fn arrange_vertical(&self, area: Rect, windows: &[WindowId], gap_size: i32) -> (rects: Vec<
        Rect,
    >) {
        let mut out: Vec<Rect> = Vec::with_capacity(windows.len());
        fib(Phase::Down, area, windows.len(), gap_size, &mut out);
        assert(tiles(out@) =~= fib_tiles(Phase::Down, area@, windows@.len(), gap_size as int));
        out
    }
}

} // verus!
