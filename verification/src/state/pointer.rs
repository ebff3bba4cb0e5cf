//! The pointer: what it is on, and where it may go.
use vstd::prelude::*;

use crate::effect::Effect;
use crate::layout::{Rect, Tile};
use crate::output::{OutputId, OutputsModel};
use crate::scalar::{double, lemma_double, Scalar};
use crate::state::Alice;
use crate::window::SurfaceId;
use crate::world::{moderate, World};
use crate::world_events::holds;
use crate::world_laws::{kept, lemma_outputs_wf, lemma_screen};

verus! {

/// Whether a layer wants the keyboard.
#[derive(Debug, Clone, Copy, PartialEq, Eq, Structural)]
pub enum KeyboardInteractivity {
    Never,
    Exclusive,
    OnDemand,
}

/// A surface under the pointer and where it lies.
#[derive(Debug, Clone, Copy, PartialEq, Eq, Structural)]
pub struct Hit {
    pub surface: SurfaceId,
    pub x: Scalar,
    pub y: Scalar,
}

/// What the pointer was found to be on, in each of the layers of an output
/// and among the windows.
#[derive(Debug, Clone, Copy)]
pub struct Probes {
    /// Where the output lies.
    pub origin: (Scalar, Scalar),
    pub overlay: Option<Hit>,
    pub top: Option<Hit>,
    pub window: Option<Hit>,
    pub bottom: Option<Hit>,
    pub background: Option<Hit>,
}

/// The first of two hits.
pub open spec fn either(a: Option<Hit>, b: Option<Hit>) -> Option<Hit> {
    match a {
        Some(hit) => Some(hit),
        None => b,
    }
}

/// The first surface among `found`.
pub open spec fn first_found(found: Seq<Option<SurfaceId>>) -> Option<SurfaceId>
    decreases found.len(),
{
    if found.len() == 0 {
        None
    } else {
        match found[0] {
            Some(surface) => Some(surface),
            None => first_found(found.skip(1)),
        }
    }
}

fn first_of(a: Option<Hit>, b: Option<Hit>) -> (r: Option<Hit>)
    ensures
        r == either(a, b),
{
    match a {
        Some(hit) => Some(hit),
        None => b,
    }
}

/// Whether a point lies in a box within the limits.
pub fn rect_holds(rect: &Rect, x: &Scalar, y: &Scalar) -> (r: bool)
    requires
        moderate(rect@),
    ensures
        r == holds(rect@, *x, *y),
{
    let left = Scalar::from_int(rect.x);
    let right = Scalar::from_int(rect.x + rect.width);
    let top = Scalar::from_int(rect.y);
    let bottom = Scalar::from_int(rect.y + rect.height);
    left.le(x) && x.lt(&right) && top.le(y) && y.lt(&bottom)
}

/// A point on whole coordinates lies in a box if they do.
pub proof fn lemma_holds(t: Tile, x: i32, y: i32)
    requires
        moderate(t),
    ensures
        holds(t, double(x as int), double(y as int)) <==> t.x <= x < t.x + t.width && t.y <= y
            < t.y + t.height,
{
    lemma_double(t.x, x as int);
    lemma_double(x as int, t.x + t.width);
    lemma_double(t.y, y as int);
    lemma_double(y as int, t.y + t.height);
}

/// The least left edge of the first `n` outputs.
pub open spec fn least_left(screens: Seq<(OutputId, Tile)>, n: nat) -> int
    decreases n,
{
    if n <= 1 {
        screens[0].1.x
    } else {
        let before = least_left(screens, (n - 1) as nat);
        if screens[n - 1].1.x < before {
            screens[n - 1].1.x
        } else {
            before
        }
    }
}

/// The greatest right edge of the first `n` outputs.
pub open spec fn greatest_right(screens: Seq<(OutputId, Tile)>, n: nat) -> int
    decreases n,
{
    if n <= 1 {
        screens[0].1.x + screens[0].1.width
    } else {
        let before = greatest_right(screens, (n - 1) as nat);
        let here = screens[n - 1].1.x + screens[n - 1].1.width;
        if here > before {
            here
        } else {
            before
        }
    }
}

/// Every output lies between the least left edge and the greatest right one,
/// and each of both is that of some output.
pub proof fn lemma_span(screens: Seq<(OutputId, Tile)>, n: nat)
    requires
        0 < n <= screens.len(),
    ensures
        forall|i: int|
            0 <= i < n ==> least_left(screens, n) <= (#[trigger] screens[i]).1.x && screens[i].1.x
                + screens[i].1.width <= greatest_right(screens, n),
        exists|i: int| 0 <= i < n && least_left(screens, n) == (#[trigger] screens[i]).1.x,
        exists|i: int|
            0 <= i < n && greatest_right(screens, n) == (#[trigger] screens[i]).1.x
                + screens[i].1.width,
    decreases n,
{
    if n > 1 {
        lemma_span(screens, (n - 1) as nat);
        assert(screens[n - 1] == screens[n - 1]);
    } else {
        assert(screens[0] == screens[0]);
    }
}

/// The first output whose horizontal extent, both ends counted, holds `x`.
pub open spec fn column_at(screens: Seq<(OutputId, Tile)>, x: Scalar) -> Option<Tile>
    decreases screens.len(),
{
    if screens.len() == 0 {
        None
    } else if double(screens[0].1.x).at_most(x) && x.at_most(
        double(screens[0].1.x + screens[0].1.width),
    ) {
        Some(screens[0].1)
    } else {
        column_at(screens.skip(1), x)
    }
}

/// The position on the outputs that is nearest to a point: first across all
/// of them, and then from top to bottom of the one there.
pub open spec fn brought_back(screens: Seq<(OutputId, Tile)>, x: Scalar, y: Scalar) -> (
    Scalar,
    Scalar,
) {
    if screens.len() == 0 {
        (x, y)
    } else {
        let across = x.confined(
            double(least_left(screens, screens.len())),
            double(greatest_right(screens, screens.len())),
        );
        (
            across,
            match column_at(screens, across) {
                Some(geo) => y.confined(double(geo.y), double(geo.y + geo.height)),
                None => y,
            },
        )
    }
}

/// The pointer is brought back between the outermost edges of the outputs,
/// and, where an output is, between its top and its bottom. Bringing it back
/// again moves it no further.
pub proof fn lemma_brought_back(w: World, x: Scalar, y: Scalar)
    requires
        w.wf(),
        w.screens.len() > 0,
        !x.nan(),
        !y.nan(),
    ensures
        ({
            let (across, down) = brought_back(w.screens, x, y);
            &&& double(least_left(w.screens, w.screens.len())).at_most(across)
            &&& across.at_most(double(greatest_right(w.screens, w.screens.len())))
            &&& column_at(w.screens, across) matches Some(geo) ==> double(geo.y).at_most(down)
                && down.at_most(double(geo.y + geo.height))
            &&& brought_back(w.screens, across, down) == (across, down)
        }),
{
    let screens = w.screens;
    let left = least_left(screens, screens.len());
    let right = greatest_right(screens, screens.len());
    lemma_span(screens, screens.len());
    lemma_screen_at(w, 0);
    let i = choose|i: int| 0 <= i < screens.len() && left == (#[trigger] screens[i]).1.x;
    let k = choose|k: int|
        0 <= k < screens.len() && right == (#[trigger] screens[k]).1.x + screens[k].1.width;
    lemma_screen_at(w, i);
    lemma_screen_at(w, k);
    assert(left <= screens[0].1.x <= screens[0].1.x + screens[0].1.width <= right);
    lemma_double(left, right);
    lemma_double(right, left);
    let across = brought_back(screens, x, y).0;
    lemma_column_at(screens, across);
    match column_at(screens, across) {
        Some(geo) => {
            let j = choose|j: int| 0 <= j < screens.len() && geo == (#[trigger] screens[j]).1;
            lemma_screen_at(w, j);
            lemma_double(geo.y, geo.y + geo.height);
            lemma_double(geo.y + geo.height, geo.y);
        },
        None => {},
    }
}

/// The output in whose column a point lies is one of the outputs.
proof fn lemma_column_at(screens: Seq<(OutputId, Tile)>, x: Scalar)
    ensures
        column_at(screens, x) matches Some(geo) ==> exists|i: int|
            0 <= i < screens.len() && geo == (#[trigger] screens[i]).1,
    decreases screens.len(),
{
    if screens.len() > 0 {
        let rest = screens.skip(1);
        lemma_column_at(rest, x);
        match column_at(screens, x) {
            Some(geo) => {
                if geo == screens[0].1 {
                    assert(geo == screens[0].1);
                } else {
                    let i = choose|i: int| 0 <= i < rest.len() && geo == (#[trigger] rest[i]).1;
                    assert(screens[i + 1] == rest[i]);
                }
            },
            None => {},
        }
    }
}

proof fn lemma_screen_at(w: World, i: int)
    requires
        w.wf(),
        0 <= i < w.screens.len(),
    ensures
        moderate(w.screens[i].1),
        0 <= w.screens[i].1.width,
        0 <= w.screens[i].1.height,
        w.outputs.has(w.screens[i].0),
{
}

impl Alice {
    /// The first mapped output that a point lies on.
    pub fn output_at(&self, x: Scalar, y: Scalar) -> (id: Option<OutputId>)
        requires
            self@.wf(),
        ensures
            id == World::screen_at(self@.screens, x, y),
    {
        let ghost screens = self@.screens;
        let mut i: usize = 0;
        assert(screens.skip(0) =~= screens);
        while i < self.space.outputs.len()
            invariant
                self@.wf(),
                screens == self@.screens,
                i <= screens.len(),
                World::screen_at(screens, x, y) == World::screen_at(
                    screens.skip(i as int),
                    x,
                    y,
                ),
            decreases screens.len() - i,
        {
            assert(screens.skip(i as int).skip(1) =~= screens.skip(i + 1));
            let (id, geo) = self.space.outputs.at(i);
            proof {
                lemma_screen_at(self@, i as int);
            }
            if rect_holds(geo, &x, &y) {
                return Some(id);
            }
            i += 1;
        }
        None
    }

    /// The last mapped output that a point lies on.
    pub fn last_output_at(&self, x: Scalar, y: Scalar) -> (id: Option<OutputId>)
        requires
            self@.wf(),
        ensures
            id == World::last_screen_at(self@.screens, x, y),
            id matches Some(id) ==> self@.outputs.has(id),
    {
        let ghost screens = self@.screens;
        let mut i: usize = self.space.outputs.len();
        assert(screens.take(i as int) =~= screens);
        while i > 0
            invariant
                self@.wf(),
                screens == self@.screens,
                i <= screens.len(),
                World::last_screen_at(screens, x, y) == World::last_screen_at(
                    screens.take(i as int),
                    x,
                    y,
                ),
            decreases i,
        {
            assert(screens.take(i as int).drop_last() =~= screens.take(i - 1));
            i -= 1;
            let (id, geo) = self.space.outputs.at(i);
            proof {
                lemma_screen_at(self@, i as int);
            }
            if rect_holds(geo, &x, &y) {
                return Some(id);
            }
        }
        None
    }

    /// What the pointer is on, given the output there and what was found on
    /// it: the lock's surface if the session is locked and has one there, or
    /// else the topmost of layers and windows.
    pub fn surface_under(&self, x: Scalar, y: Scalar, probes: &Probes) -> (hit: Option<Hit>)
        requires
            self@.wf(),
        ensures
            hit == match World::screen_at(self@.screens, x, y) {
                None => None,
                Some(id) => if self@.locked && self@.lock_surfaces.contains_key(id) {
                    Some(
                        Hit {
                            surface: self@.lock_surfaces[id],
                            x: probes.origin.0,
                            y: probes.origin.1,
                        },
                    )
                } else {
                    either(
                        either(probes.overlay, probes.top),
                        either(probes.window, either(probes.bottom, probes.background)),
                    )
                },
            },
            World::screen_at(self@.screens, x, y) is Some && !self@.locked ==> {
                &&& probes.overlay is Some ==> hit == probes.overlay
                &&& probes.overlay is None && probes.top is Some ==> hit == probes.top
                &&& probes.overlay is None && probes.top is None && probes.window is Some ==> hit
                    == probes.window
                &&& probes.overlay is None && probes.top is None && probes.window is None
                    && probes.bottom is Some ==> hit == probes.bottom
                &&& probes.overlay is None && probes.top is None && probes.window is None
                    && probes.bottom is None ==> hit == probes.background
            },
    {
        let Some(id) = self.output_at(x, y) else {
            return None;
        };
        if self.locked {
            if let Some(surface) = self.lock_surfaces.get(id) {
                return Some(Hit { surface: *surface, x: probes.origin.0, y: probes.origin.1 });
            }
        }
        first_of(
            first_of(probes.overlay, probes.top),
            first_of(probes.window, first_of(probes.bottom, probes.background)),
        )
    }

    /// The layer that the pointer is on, given what was found in each of the
    /// kinds of layers that count, in order.
    pub fn layer_under(&self, x: Scalar, y: Scalar, found: &Vec<Option<SurfaceId>>) -> (layer:
        Option<SurfaceId>)
        requires
            self@.wf(),
        ensures
            layer == if World::screen_at(self@.screens, x, y) is Some {
                first_found(found@)
            } else {
                None
            },
    {
        if self.output_at(x, y).is_none() {
            return None;
        }
        let mut i: usize = 0;
        assert(found@.skip(0) =~= found@);
        while i < found.len()
            invariant
                i <= found.len(),
                World::screen_at(self@.screens, x, y) is Some,
                first_found(found@) == first_found(found@.skip(i as int)),
            decreases found.len() - i,
        {
            assert(found@.skip(i as int).skip(1) =~= found@.skip(i + 1));
            if let Some(surface) = found[i] {
                return Some(surface);
            }
            i += 1;
        }
        None
    }

    /// Gives the keyboard to a layer that was clicked, if it wants it on
    /// demand.
    pub fn focus_layer_on_demand(
        &mut self,
        surface: SurfaceId,
        interactivity: KeyboardInteractivity,
    )
        ensures
            final(self)@ == if interactivity == KeyboardInteractivity::OnDemand {
                old(self)@.emit(Effect::Focus(Some(surface)))
            } else {
                old(self)@
            },
            old(self)@.wf() ==> final(self)@.wf(),
    {
        if interactivity == KeyboardInteractivity::OnDemand {
            self.emit(Effect::Focus(Some(surface)));
        }
    }

    /// The horizontal extent of all outputs together.
    fn horizontal_span(&self) -> (span: (i32, i32))
        requires
            self@.wf(),
            self@.screens.len() > 0,
        ensures
            span.0 == least_left(self@.screens, self@.screens.len()),
            span.1 == greatest_right(self@.screens, self@.screens.len()),
    {
        let n = self.space.outputs.len();
        let (_, first) = self.space.outputs.at(0);
        proof {
            lemma_screen_at(self@, 0);
        }
        let mut left: i32 = first.x;
        let mut right: i32 = first.x + first.width;
        let mut i: usize = 1;
        while i < n
            invariant
                self@.wf(),
                1 <= i <= n,
                n == self@.screens.len(),
                left == least_left(self@.screens, i as nat),
                right == greatest_right(self@.screens, i as nat),
            decreases n - i,
        {
            let (_, geo) = self.space.outputs.at(i);
            proof {
                lemma_screen_at(self@, i as int);
            }
            if geo.x < left {
                left = geo.x;
            }
            if geo.x + geo.width > right {
                right = geo.x + geo.width;
            }
            i += 1;
        }
        (left, right)
    }

    /// Brings a pointer position back onto the outputs: across all of them,
    /// and then from top to bottom of the one that is there. Where none is,
    /// the height stays.
    pub fn clamp_to_outputs(&self, x: Scalar, y: Scalar) -> (r: (Scalar, Scalar))
        requires
            self@.wf(),
        ensures
            r == brought_back(self@.screens, x, y),
    {
        if self.space.outputs.len() == 0 {
            return (x, y);
        }
        let (left, right) = self.horizontal_span();
        let across = x.clamp(&Scalar::from_int(left), &Scalar::from_int(right));
        let ghost screens = self@.screens;
        let mut i: usize = 0;
        assert(screens.skip(0) =~= screens);
        while i < self.space.outputs.len()
            invariant
                self@.wf(),
                screens == self@.screens,
                screens.len() > 0,
                across == x.confined(
                    double(least_left(screens, screens.len())),
                    double(greatest_right(screens, screens.len())),
                ),
                i <= screens.len(),
                column_at(screens, across) == column_at(screens.skip(i as int), across),
            decreases screens.len() - i,
        {
            assert(screens.skip(i as int).skip(1) =~= screens.skip(i + 1));
            let (_, geo) = self.space.outputs.at(i);
            proof {
                lemma_screen_at(self@, i as int);
            }
            if Scalar::from_int(geo.x).le(&across) && across.le(
                &Scalar::from_int(geo.x + geo.width),
            ) {
                let top = Scalar::from_int(geo.y);
                let bottom = Scalar::from_int(geo.y + geo.height);
                return (across, y.clamp(&top, &bottom));
            }
            i += 1;
        }
        (across, y)
    }

    /// Focuses the output that the pointer is on. Neither moves the pointer
    /// nor touches the keyboard.
    pub fn follow_pointer_output_focus(&mut self, x: Scalar, y: Scalar)
        requires
            old(self)@.wf(),
            old(self)@.outputs.has(old(self)@.outputs.focused),
        ensures
            final(self)@ == old(self)@.pointer_followed(x, y),
            final(self)@.wf(),
            kept(old(self)@, final(self)@),
    {
        let ids = self.outputs.iter();
        let mut i: usize = 0;
        assert(ids@.skip(0) =~= ids@);
        while i < ids.len()
            invariant
                self@ == old(self)@,
                old(self)@.wf(),
                old(self)@.outputs.has(old(self)@.outputs.focused),
                ids@ == old(self)@.outputs.active_ids(old(self)@.outputs.infos.len()),
                i <= ids.len(),
                old(self)@.output_around(ids@, x, y) == old(self)@.output_around(
                    ids@.skip(i as int),
                    x,
                    y,
                ),
            decreases ids.len() - i,
        {
            assert(ids@.skip(i as int).skip(1) =~= ids@.skip(i + 1));
            let id = ids[i];
            let there = match self.space.outputs.get(id) {
                Some(geo) => {
                    proof {
                        lemma_screen(self@, id);
                    }
                    rect_holds(geo, &x, &y)
                },
                None => false,
            };
            if there {
                if self.outputs.get_focused().id != id {
                    proof {
                        lemma_screen(self@, id);
                        lemma_outputs_wf(self@, OutputsModel { focused: id, ..self@.outputs });
                    }
                    self.outputs.change_focus(id);
                }
                return;
            }
            i += 1;
        }
    }
}

/// The surface that is found is that of the first kind of layers in which one
/// was found at all.
pub proof fn lemma_first_found(found: Seq<Option<SurfaceId>>, i: int)
    ensures
        (forall|k: int| 0 <= k < found.len() ==> (#[trigger] found[k]) is None) ==> first_found(
            found,
        ) is None,
        0 <= i < found.len() && found[i] is Some && (forall|k: int|
            0 <= k < i ==> (#[trigger] found[k]) is None) ==> first_found(found) == found[i],
    decreases found.len(),
{
    if found.len() > 0 {
        let rest = found.skip(1);
        lemma_first_found(rest, i - 1);
        assert(forall|k: int| 0 <= k < rest.len() ==> #[trigger] rest[k] == found[k + 1]);
        assert(found[0] is None || found[0] is Some);
    }
}

} // verus!
