//! Windows as clients open, size and close them.
use vstd::prelude::*;

use crate::animation::Point;
use crate::effect::Effect;
use crate::layout::{in_i32, Rect, Tile};
use crate::layout_laws::TILE_LIMIT;
use crate::output::{LayoutScope, OutputId, TagId};
use crate::scalar::Scalar;
use crate::state::Alice;
use crate::table::lookup;
use crate::window::{SurfaceId, Window, WindowId, WindowInfo};
use crate::window_laws::lemma_inserted_wf;
use crate::world::{sound_info, sound_settings, World};
use crate::world_laws::{lemma_info_wf, lemma_relaid_wf, lemma_uncovered_wf, lemma_window_removed_wf};

verus! {

broadcast use crate::table::group_keys_distinct;

/// Where a popup may go, relative to the window that it belongs to: the first
/// output's box, less where the popup's parent lies in its window and where
/// that lies on the plane.
pub open spec fn popup_bounds(screen: Tile, offset: Point, window: Point) -> Tile {
    Tile { x: screen.x - offset.x - window.x, y: screen.y - offset.y - window.y, ..screen }
}

/// Registering a window with a new surface keeps the state sound.
pub proof fn lemma_registered_wf(w: World, info: WindowInfo)
    requires
        w.wf(),
        sound_settings(w.config, w.windows.roll.len() + 1),
        w.windows.free.len() == 0 ==> w.windows.next.0 < u64::MAX,
        !w.windows.index.contains_key(info.window.surface),
        sound_info(info, w.outputs),
    ensures
        (World { windows: w.windows.inserted(info), ..w }).wf(),
{
    let t = World { windows: w.windows.inserted(info), ..w };
    lemma_inserted_wf(w.windows, info);
    assert forall|id: WindowId| #[trigger] t.windows.infos.contains_key(id) implies sound_info(
        t.windows.infos[id],
        t.outputs,
    ) by {
        if id != w.windows.fresh_id() {
            assert(w.windows.infos.contains_key(id));
        }
    }
}

impl Alice {
    /// Takes in a new window, while the pointer is at a point: on top of the
    /// tag that the output there shows, and focused. No window of the
    /// focused output's tag stays fullscreen.
    pub fn new_toplevel(&mut self, surface: SurfaceId, x: Scalar, y: Scalar)
        requires
            old(self)@.wf(),
            old(self)@.outputs.has(old(self)@.outputs.focused),
            !old(self)@.windows.index.contains_key(surface),
            sound_settings(old(self)@.config, old(self)@.windows.roll.len() + 1),
            old(self)@.windows.free.len() == 0 ==> old(self)@.windows.next.0 < u64::MAX,
        ensures
            final(self)@ == old(self)@.toplevel_opened(surface, old(self)@.birthplace(x, y)),
            final(self)@.wf(),
            final(self)@.outputs == old(self)@.outputs,
    {
        let output = match self.last_output_at(x, y) {
            Some(id) => id,
            None => self.outputs.get_focused().id,
        };
        let tag = match self.outputs.get_focused_tag(output) {
            Some(tag) => tag,
            None => TagId(0),
        };
        let window = Window { surface, width: 0, height: 0 };
        let info = WindowInfo::new(tag, output, window, false);
        proof {
            lemma_registered_wf(self@, info);
        }
        let id = self.window_registry.insert(info);
        self.map_element(surface, Point { x: 0, y: 0 }, true);
        let ghost placed = self@;
        proof {
            match placed.outputs.current_tag() {
                Some(tag) => lemma_uncovered_wf(
                    placed,
                    placed.windows.rendered(LayoutScope { output: placed.outputs.focused, tag }),
                ),
                None => {},
            }
        }
        self.undo_all_fullscreen();
        assert(self@ == placed.all_uncovered());
        self.relayout(Some(LayoutScope { output, tag }));
        self.change_focus(id, surface);
    }

    /// Forgets a window and lays its output out anew.
    pub fn toplevel_destroyed(&mut self, surface: SurfaceId)
        requires
            old(self)@.wf(),
        ensures
            final(self)@ == old(self)@.toplevel_closed(surface),
            final(self)@.wf(),
            final(self)@.outputs == old(self)@.outputs,
    {
        if let Some(scope) = self.remove_window(surface) {
            self.relayout(Some(scope));
        }
        self.emit(Effect::Render);
    }

    /// Sees to the first commit of a window. Only now is it known whether it
    /// has a parent: if so it floats, and its output is laid out anew before
    /// the window is told its size.
    pub fn first_commit(&mut self, surface: SurfaceId, has_parent: bool)
        requires
            old(self)@.wf(),
        ensures
            final(self)@ == old(self)@.first_committed(surface, has_parent),
            final(self)@.wf(),
            final(self)@.outputs == old(self)@.outputs,
    {
        if let Some(id) = self.window_registry.find_by_surface(&surface) {
            let info = match self.window_registry.get(&id) {
                Some(info) => Some(*info),
                None => None,
            };
            if let Some(info) = info {
                if info.floating != has_parent {
                    if let Some(kept) = self.window_registry.get_mut(&id) {
                        kept.floating = has_parent;
                    }
                    proof {
                        let changed = WindowInfo { floating: has_parent, ..info };
                        lemma_info_wf(old(self)@, id, changed);
                    }
                    self.relayout(Some(info.scope()));
                }
            }
        }
        self.emit(Effect::FirstConfigure { surface });
    }

    /// Records the size of what a window has committed.
    pub fn note_size(&mut self, root: SurfaceId, width: i32, height: i32)
        requires
            old(self)@.wf(),
            -TILE_LIMIT <= width <= TILE_LIMIT,
            -TILE_LIMIT <= height <= TILE_LIMIT,
        ensures
            final(self)@ == old(self)@.size_noted(root, width, height),
            final(self)@.wf(),
            final(self)@.outputs == old(self)@.outputs,
    {
        let Some(id) = self.window_registry.find_by_surface(&root) else {
            return;
        };
        if let Some(info) = self.window_registry.get_mut(&id) {
            info.window.width = width;
            info.window.height = height;
        }
        proof {
            match old(self)@.windows.info(id) {
                Some(info) => {
                    let window = Window { surface: info.window.surface, width, height };
                    lemma_info_wf(old(self)@, id, WindowInfo { window, ..info });
                },
                None => {},
            }
        }
    }

    /// Where a popup of the window of `root` may go, if that is on the plane;
    /// `offset` is where the popup's parent lies in the window.
    pub fn unconstrain_popup(&self, root: SurfaceId, offset: Point) -> (target: Option<Rect>)
        requires
            self@.wf(),
            lookup(self@.elements, root) matches Some(at) ==> {
                &&& self@.screens.len() > 0
                &&& in_i32(self@.screens[0].1.x - offset.x)
                &&& in_i32(self@.screens[0].1.x - offset.x - at.x)
                &&& in_i32(self@.screens[0].1.y - offset.y)
                &&& in_i32(self@.screens[0].1.y - offset.y - at.y)
            },
        ensures
            match (target, lookup(self@.elements, root)) {
                (Some(target), Some(at)) => target@ == popup_bounds(
                    self@.screens[0].1,
                    offset,
                    at,
                ),
                (None, None) => true,
                _ => false,
            },
    {
        let at = match self.space.elements.get(root) {
            Some(at) => *at,
            None => return None,
        };
        let (_, screen) = self.space.outputs.at(0);
        Some(
            Rect {
                x: screen.x - offset.x - at.x,
                y: screen.y - offset.y - at.y,
                width: screen.width,
                height: screen.height,
            },
        )
    }
}

/// A window that opens stands on top of the tag that its output shows and,
/// unless focusing it had to wait for another, has the focus.
pub proof fn lemma_opened(w: World, surface: SurfaceId, output: OutputId)
    requires
        w.wf(),
        w.outputs.has(output),
        !w.windows.index.contains_key(surface),
        sound_settings(w.config, w.windows.roll.len() + 1),
        w.windows.free.len() == 0 ==> w.windows.next.0 < u64::MAX,
    ensures
        ({
            let t = w.toplevel_opened(surface, output);
            let id = w.windows.fresh_id();
            &&& t.wf()
            &&& t.windows.indexed(surface) == Some(id)
            &&& t.windows.focused == Some(id)
            &&& t.windows.infos[id].home() == w.shown(output)
            &&& !t.windows.infos[id].fullscreen
            &&& t.windows.roll == w.windows.roll.push(id)
        }),
{
    let scope = w.shown(output);
    let info = WindowInfo {
        tag: scope.tag,
        output,
        window: Window { surface, width: 0, height: 0 },
        fullscreen: false,
        floating: false,
        last_configured: None,
        last_fractional_scale: None,
    };
    let id = w.windows.fresh_id();
    lemma_registered_wf(w, info);
    lemma_inserted_wf(w.windows, info);
    let placed = World { windows: w.windows.inserted(info), ..w }.mapped(
        surface,
        Point { x: 0, y: 0 },
        true,
    );
    assert(placed.wf());
    let ids = match placed.outputs.current_tag() {
        Some(tag) => placed.windows.rendered(LayoutScope { output: placed.outputs.focused, tag }),
        None => Seq::empty(),
    };
    lemma_uncovered_wf(placed, ids);
    lemma_uncovered_keeps(placed, ids, id);
    let bare = placed.all_uncovered();
    lemma_relaid_wf(bare, Some(scope), true);
    let laid = bare.relaid(Some(scope), true);
    assert(bare.windows.infos.contains_key(id));
    assert(laid.windows.infos.contains_key(id));
    crate::world_laws::lemma_focus_changed_wf(laid, id, surface);
    let focused = laid.focus_changed(id, surface);
    assert(laid.windows.stacks.contains_key(laid.windows.infos[id].home()));
    assert(laid.windows.infos[id].home() == scope);
    assert(!laid.windows.infos[id].fullscreen);
}

/// Ending fullscreen changes nothing else about a window.
proof fn lemma_uncovered_keeps(w: World, ids: Seq<WindowId>, id: WindowId)
    requires
        w.windows.infos.contains_key(id),
    ensures
        w.uncovered(ids).windows.infos.contains_key(id),
        w.uncovered(ids).windows.infos[id] == (WindowInfo {
            fullscreen: w.uncovered(ids).windows.infos[id].fullscreen,
            ..w.windows.infos[id]
        }),
        !w.windows.infos[id].fullscreen ==> !w.uncovered(ids).windows.infos[id].fullscreen,
    decreases ids.len(),
{
    if ids.len() > 0 {
        lemma_uncovered_keeps(w, ids.drop_last(), id);
    }
}

/// A window that closes is gone from the registry, and its surface is free.
pub proof fn lemma_closed(w: World, surface: SurfaceId)
    requires
        w.wf(),
    ensures
        w.toplevel_closed(surface).windows.indexed(surface) is None,
        w.toplevel_closed(surface).wf(),
{
    lemma_window_removed_wf(w, surface);
    match w.windows.indexed(surface) {
        Some(id) => lemma_relaid_wf(
            w.window_removed(surface),
            Some(w.windows.infos[id].home()),
            true,
        ),
        None => {},
    }
}

/// Seen from the plane, a popup may go exactly where the output is.
pub proof fn lemma_popup_bounds(screen: Tile, offset: Point, window: Point)
    ensures
        popup_bounds(screen, offset, window).x + offset.x + window.x == screen.x,
        popup_bounds(screen, offset, window).y + offset.y + window.y == screen.y,
        popup_bounds(screen, offset, window).width == screen.width,
        popup_bounds(screen, offset, window).height == screen.height,
{
}

} // verus!
