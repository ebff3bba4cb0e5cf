//! Focus: of windows, within stacks, and of outputs.
use vstd::prelude::*;

use crate::animation::Point;
use crate::effect::Effect;
use crate::layout::in_i32;
use crate::output::{Direction, LayoutKind, LayoutScope, OutputId, TagId};
use crate::state::Alice;
use crate::table::lookup;
use crate::window::{SurfaceId, Window, WindowId, WindowInfo};
use crate::window_laws::{lemma_reordering, relocated};
use crate::world::{comes_first, first_mapped, gap_between, World};
use crate::world_laws::{
    calm, kept, lemma_focus_changed_wf, lemma_focus_shifted_wf, lemma_focused_found,
    lemma_moved_to_output_wf, lemma_nearest, lemma_output_focused_wf, lemma_promoted_wf,
    lemma_relocated_sound, lemma_screen, lemma_tag_focused_wf, lemma_toggled_wf,
    lemma_uncovered_wf, lemma_window_focused_wf, lemma_window_shifted_wf,
};

verus! {

broadcast use crate::table::group_keys_distinct;

/// The gap between two stretches, given by start and length; zero if they
/// overlap.
pub fn axis_gap(a0: i32, al: i32, b0: i32, bl: i32) -> (gap: i32)
    requires
        in_i32(a0 + al),
        in_i32(b0 + bl),
        in_i32(gap_between(a0 as int, al as int, b0 as int, bl as int)),
    ensures
        gap == gap_between(a0 as int, al as int, b0 as int, bl as int),
{
    let a1 = a0 + al;
    let b1 = b0 + bl;
    if a0 < b1 && b0 < a1 {
        0
    } else if b0 >= a1 {
        b0 - a1
    } else {
        a0 - b1
    }
}

/// Two stretches that overlap have no gap, and the gap is the same both
/// ways.
pub proof fn lemma_gap_between(a0: int, al: int, b0: int, bl: int, x: int)
    requires
        0 < al,
        0 < bl,
    ensures
        gap_between(a0, al, b0, bl) >= 0,
        gap_between(a0, al, b0, bl) == gap_between(b0, bl, a0, al),
        a0 <= x < a0 + al && b0 <= x < b0 + bl ==> gap_between(a0, al, b0, bl) == 0,
{
}

/// The nearest output is found by its index.
proof fn lemma_is_nearest(w: World, direction: Direction, ids: Seq<OutputId>, i: int)
    requires
        ids == w.outputs.active_ids(w.outputs.infos.len()),
        lookup(w.screens, w.outputs.at(w.outputs.focused).id) is Some,
        w.is_nearest(direction, ids, i),
    ensures
        w.nearest(direction) == Some(ids[i]),
{
    let k = choose|k: int| w.is_nearest(direction, ids, k);
    assert(w.is_nearest(direction, ids, k));
    if k != i {
        assert(w.lies(direction, ids[k]));
        assert(w.lies(direction, ids[i]));
    }
}

impl Alice {
    /// Focuses window `id` and gives the keyboard to `surface`. A fullscreen
    /// window is moved down its stack first, and its output laid out.
    pub fn change_focus(&mut self, id: WindowId, surface: SurfaceId)
        requires
            old(self)@.wf(),
        ensures
            final(self)@ == old(self)@.focus_changed(id, surface),
            final(self)@.wf(),
            calm(old(self)@, final(self)@),
    {
        proof {
            lemma_focus_changed_wf(self@, id, surface);
        }
        let info = match self.window_registry.get(&id) {
            Some(info) => *info,
            None => return,
        };
        let scope = info.scope();
        proof {
            assert(self@.windows.infos.contains_key(id));
            assert(self@.windows.stacks[scope].ids.contains(id));
        }
        if let Some(stack) = self.window_registry.get_stack_mut(&scope) {
            if info.fullscreen {
                stack.move_down();
            }
            stack.change_focus(id);
        } else {
            return;
        }
        self.window_registry.change_focus(Some(id));
        self.emit(Effect::Focus(Some(surface)));
        if info.fullscreen {
            let ghost focused = self@;
            proof {
                let stack = old(self)@.windows.stacks[scope];
                lemma_reordering(stack, id, id);
                stack.moved_down().ids.index_of_first_ensures(id);
                crate::world_laws::lemma_restacked_calm(
                    old(self)@,
                    scope,
                    stack.moved_down().focused_on(id),
                );
            }
            self.relayout(Some(scope));
        }
    }

    /// Focuses the window of `surface`, unless it is focused already.
    pub fn focus_window(&mut self, surface: SurfaceId)
        requires
            old(self)@.wf(),
        ensures
            final(self)@ == old(self)@.window_focused(surface),
            final(self)@.wf(),
            calm(old(self)@, final(self)@),
    {
        proof {
            lemma_window_focused_wf(self@, surface);
        }
        let Some(id) = self.window_registry.find(Window { surface, width: 0, height: 0 }) else {
            return;
        };
        if self.window_registry.focused_id() == Some(id) {
            return;
        }
        self.change_focus(id, surface);
    }

    /// The window that has the focus of `scope`.
    pub(crate) fn focus_of_scope(&self, scope: &LayoutScope) -> (r: Option<(WindowId, WindowInfo)>)
        ensures
            r == self@.scope_focus(*scope),
    {
        let id = match self.window_registry.get_stack(scope) {
            Some(stack) => match stack.focused() {
                Some(id) => id,
                None => return None,
            },
            None => return None,
        };
        match self.window_registry.get(&id) {
            Some(info) => Some((id, *info)),
            None => None,
        }
    }

    /// Hands the focus to whichever window has that of `scope`, or to none.
    pub(crate) fn apply_tag_focus(&mut self, scope: LayoutScope)
        requires
            old(self)@.wf(),
        ensures
            final(self)@ == old(self)@.tag_focused(scope),
            final(self)@.wf(),
            calm(old(self)@, final(self)@),
    {
        proof {
            lemma_tag_focused_wf(self@, scope);
        }
        match self.focus_of_scope(&scope) {
            Some((id, info)) => {
                self.change_focus(id, info.window.surface);
            },
            None => {
                self.window_registry.change_focus(None);
                self.emit(Effect::Focus(None));
            },
        }
    }

    fn shift_focus(&mut self, up: bool) -> (done: Option<()>)
        requires
            old(self)@.wf(),
        ensures
            final(self)@ == old(self)@.focus_shifted(up),
            final(self)@.wf(),
            done is Some <==> old(self)@.has_focused_stack(),
            calm(old(self)@, final(self)@),
    {
        proof {
            lemma_focus_shifted_wf(self@, up);
        }
        let info = match self.window_registry.get_focused() {
            Some(info) => *info,
            None => return None,
        };
        let scope = info.scope();
        proof {
            lemma_focused_found(self@);
            assert(self@.windows.stacks[scope].ids.contains(self@.windows.focused->0));
        }
        let mut next: Option<WindowId> = None;
        if let Some(stack) = self.window_registry.get_stack_mut(&scope) {
            if up {
                stack.focus_up();
            } else {
                stack.focus_down();
            }
            next = stack.focused();
        }
        let Some(id) = next else {
            return None;
        };
        proof {
            let stack = old(self)@.windows.stacks[scope];
            let shifted = if up {
                stack.focused_up()
            } else {
                stack.focused_down()
            };
            crate::world_laws::lemma_restacked_calm(old(self)@, scope, shifted);
        }
        self.change_focus(id, info.window.surface);
        Some(())
    }

    /// Moves the focus one window up the stack of the focused window.
    pub fn focus_up(&mut self) -> (done: Option<()>)
        requires
            old(self)@.wf(),
        ensures
            final(self)@ == old(self)@.focus_shifted(true),
            final(self)@.wf(),
            done is Some <==> old(self)@.has_focused_stack(),
            calm(old(self)@, final(self)@),
    {
        self.shift_focus(true)
    }

    /// Moves the focus one window down the stack of the focused window.
    pub fn focus_down(&mut self) -> (done: Option<()>)
        requires
            old(self)@.wf(),
        ensures
            final(self)@ == old(self)@.focus_shifted(false),
            final(self)@.wf(),
            done is Some <==> old(self)@.has_focused_stack(),
            calm(old(self)@, final(self)@),
    {
        self.shift_focus(false)
    }

    fn shift_window(&mut self, up: bool) -> (done: Option<()>)
        requires
            old(self)@.wf(),
        ensures
            final(self)@ == old(self)@.window_shifted(up),
            final(self)@.wf(),
            done is Some <==> old(self)@.has_focused_stack(),
            calm(old(self)@, final(self)@),
    {
        proof {
            lemma_window_shifted_wf(self@, up);
        }
        let info = match self.window_registry.get_focused() {
            Some(info) => *info,
            None => return None,
        };
        let scope = info.scope();
        proof {
            lemma_focused_found(self@);
            assert(self@.windows.stacks[scope].ids.contains(self@.windows.focused->0));
        }
        let mut next: Option<WindowId> = None;
        if let Some(stack) = self.window_registry.get_stack_mut(&scope) {
            if up {
                stack.move_up();
            } else {
                stack.move_down();
            }
            next = stack.focused();
        }
        proof {
            let id = old(self)@.windows.focused->0;
            let stack = old(self)@.windows.stacks[scope];
            lemma_reordering(stack, id, id);
            let shifted = if up {
                stack.moved_up()
            } else {
                stack.moved_down()
            };
            crate::world_laws::lemma_restacked_calm(old(self)@, scope, shifted);
        }
        let Some(id) = next else {
            return None;
        };
        self.change_focus(id, info.window.surface);
        self.relayout(Some(scope));
        Some(())
    }

    /// Moves the window that has the focus of the focused window's stack one
    /// place up.
    pub fn move_up(&mut self) -> (done: Option<()>)
        requires
            old(self)@.wf(),
        ensures
            final(self)@ == old(self)@.window_shifted(true),
            final(self)@.wf(),
            done is Some <==> old(self)@.has_focused_stack(),
            calm(old(self)@, final(self)@),
    {
        self.shift_window(true)
    }

    /// Moves the window that has the focus of the focused window's stack one
    /// place down.
    pub fn move_down(&mut self) -> (done: Option<()>)
        requires
            old(self)@.wf(),
        ensures
            final(self)@ == old(self)@.window_shifted(false),
            final(self)@.wf(),
            done is Some <==> old(self)@.has_focused_stack(),
            calm(old(self)@, final(self)@),
    {
        self.shift_window(false)
    }

    /// Exchanges the window of `surface` with the one in the first tile,
    /// focuses it and lays its output out. Does nothing, and says so, if it
    /// is not tiled, its scope does not use the tablet layout, or it is in
    /// the first tile already.
    pub fn swap_to_master(&mut self, surface: SurfaceId) -> (done: bool)
        requires
            old(self)@.wf(),
        ensures
            done == old(self)@.promotable(surface),
            final(self)@ == if done {
                old(self)@.promoted(surface)
            } else {
                old(self)@
            },
            final(self)@.wf(),
            calm(old(self)@, final(self)@),
    {
        let Some(id) = self.window_registry.find(Window { surface, width: 0, height: 0 }) else {
            return false;
        };
        let info = match self.window_registry.get(&id) {
            Some(info) => *info,
            None => return false,
        };
        if info.floating {
            return false;
        }
        let scope = info.scope();
        if self.layout_registry.get_layout(&scope) != LayoutKind::Tablet {
            return false;
        }
        let Some(master) = self.window_registry.master(&scope) else {
            return false;
        };
        if master == id {
            return false;
        }
        proof {
            assert(self@.windows.infos.contains_key(id));
            lemma_promoted_wf(self@, surface);
        }
        if let Some(stack) = self.window_registry.get_stack_mut(&scope) {
            stack.swap_ids(id, master);
        } else {
            return false;
        }
        proof {
            let stack = old(self)@.windows.stacks[scope];
            assert(stack.ids.contains(id));
            lemma_reordering(stack, id, master);
            crate::world_laws::lemma_restacked_calm(
                old(self)@,
                scope,
                stack.swapped(id, master),
            );
        }
        self.change_focus(id, surface);
        self.relayout(Some(scope));
        true
    }

    /// Makes a window fullscreen, or ends that.
    pub fn toggle_fullscreen(&mut self, id: WindowId) -> (done: Option<()>)
        requires
            old(self)@.wf(),
        ensures
            final(self)@ == old(self)@.toggled(id),
            final(self)@.wf(),
            final(self)@.outputs == old(self)@.outputs,
            done is Some <==> old(self)@.windows.infos.contains_key(id),
    {
        proof {
            lemma_toggled_wf(self@, id);
        }
        let info = match self.window_registry.get(&id) {
            Some(info) => *info,
            None => return None,
        };
        if let Some(kept) = self.window_registry.get_mut(&id) {
            kept.fullscreen = !info.fullscreen;
        }
        proof {
            crate::world_laws::lemma_info_wf(
                old(self)@,
                id,
                WindowInfo { fullscreen: !info.fullscreen, ..info },
            );
        }
        self.relayout(Some(info.scope()));
        Some(())
    }

    /// Ends fullscreen for every window of the tag that the focused output
    /// shows.
    pub fn undo_all_fullscreen(&mut self) -> (done: Option<()>)
        requires
            old(self)@.wf(),
        ensures
            match old(self)@.outputs.current_tag() {
                Some(tag) => {
                    &&& done is Some
                    &&& final(self)@ == old(self)@.uncovered(
                        old(self)@.windows.rendered(
                            LayoutScope { output: old(self)@.outputs.focused, tag },
                        ),
                    )
                },
                None => done is None && final(self)@ == old(self)@,
            },
            final(self)@.wf(),
    {
        let Some(tag) = self.outputs.current_focused_tag() else {
            return None;
        };
        let output = self.outputs.get_focused().id;
        let windows = self.window_registry.filter(&LayoutScope { output, tag });
        let mut i: usize = 0;
        assert(windows@.take(0) =~= Seq::<WindowId>::empty());
        while i < windows.len()
            invariant
                i <= windows.len(),
                old(self)@.wf(),
                self@ == old(self)@.uncovered(windows@.take(i as int)),
            decreases windows.len() - i,
        {
            assert(windows@.take(i + 1).drop_last() =~= windows@.take(i as int));
            if let Some(info) = self.window_registry.get_mut(&windows[i]) {
                info.fullscreen = false;
            }
            i += 1;
        }
        assert(windows@.take(i as int) =~= windows@);
        proof {
            lemma_uncovered_wf(old(self)@, windows@);
        }
        Some(())
    }

    /// The active output that lies nearest in `direction` from the focused
    /// one; of those at the same distance the one least off to the side.
    pub fn select_output_direction(&self, direction: Direction) -> (id: Option<OutputId>)
        requires
            self@.wf(),
            self@.outputs.has(self@.outputs.focused),
        ensures
            id == self@.nearest(direction),
    {
        let current = self.outputs.get_focused().id;
        let here = match self.space.outputs.get(current) {
            Some(geo) => *geo,
            None => return None,
        };
        let ids = self.outputs.iter();
        proof {
            lemma_screen(self@, current);
        }
        let mut best: Option<(usize, i32, i32)> = None;
        let mut i: usize = 0;
        while i < ids.len()
            invariant
                self@.wf(),
                self@.outputs.has(self@.outputs.focused),
                current == self@.outputs.at(self@.outputs.focused).id,
                lookup(self@.screens, current) == Some(here@),
                crate::world::moderate(here@),
                i <= ids.len(),
                match best {
                    None => forall|j: int|
                        0 <= j < i ==> !self@.lies(direction, #[trigger] ids@[j]),
                    Some((b, primary, secondary)) => {
                        &&& b < i
                        &&& self@.lies(direction, ids@[b as int])
                        &&& self@.distance(direction, ids@[b as int]) == (
                            primary as int,
                            secondary as int,
                        )
                        &&& forall|j: int|
                            0 <= j < i && self@.lies(direction, #[trigger] ids@[j]) ==> {
                                let there = self@.distance(direction, ids@[j]);
                                let found = self@.distance(direction, ids@[b as int]);
                                if j < b {
                                    comes_first(found, there)
                                } else {
                                    !comes_first(there, found)
                                }
                            }
                    },
                },
            decreases ids.len() - i,
        {
            let id = ids[i];
            i += 1;
            if id == current {
                continue;
            }
            let geo = match self.space.outputs.get(id) {
                Some(geo) => *geo,
                None => continue,
            };
            proof {
                lemma_screen(self@, id);
            }
            let primary: i32 = match direction {
                Direction::Left => here.x - (geo.x + geo.width),
                Direction::Right => geo.x - (here.x + here.width),
                Direction::Up => here.y - (geo.y + geo.height),
                Direction::Down => geo.y - (here.y + here.height),
            };
            if primary < 0 {
                continue;
            }
            let secondary: i32 = match direction {
                Direction::Left | Direction::Right => axis_gap(
                    here.y,
                    here.height,
                    geo.y,
                    geo.height,
                ),
                Direction::Up | Direction::Down => axis_gap(here.x, here.width, geo.x, geo.width),
            };
            assert(self@.lies(direction, id));
            assert(self@.distance(direction, id) == (primary as int, secondary as int));
            let better = match best {
                None => true,
                Some((_, best_primary, best_secondary)) => primary < best_primary || (primary
                    == best_primary && secondary < best_secondary),
            };
            if better {
                best = Some((i - 1, primary, secondary));
            }
        }
        match best {
            Some((b, _, _)) => {
                proof {
                    assert(self@.is_nearest(direction, ids@, b as int));
                    lemma_is_nearest(self@, direction, ids@, b as int);
                }
                Some(ids[b])
            },
            None => {
                proof {
                    assert forall|k: int| !self@.is_nearest(direction, ids@, k) by {
                        if 0 <= k < ids@.len() {
                            assert(!self@.lies(direction, ids@[k]));
                        }
                    }
                }
                None
            },
        }
    }

    /// Focuses the nearest output in `direction`.
    pub fn focus_output_direction(&mut self, direction: Direction) -> (done: Option<()>)
        requires
            old(self)@.wf(),
            old(self)@.outputs.has(old(self)@.outputs.focused),
        ensures
            match old(self)@.nearest(direction) {
                Some(id) => done is Some && final(self)@ == old(self)@.output_focused(id),
                None => done is None && final(self)@ == old(self)@,
            },
            final(self)@.wf(),
            kept(old(self)@, final(self)@),
    {
        let Some(id) = self.select_output_direction(direction) else {
            return None;
        };
        proof {
            lemma_nearest(self@, direction);
        }
        self.focus_output(id);
        Some(())
    }

    /// The topmost window that the centre of output `id` lies in.
    fn hit_at_centre(&self, id: OutputId) -> (surface: Option<SurfaceId>)
        ensures
            surface == first_mapped(
                if self@.hits.contains_key(id) {
                    self@.hits[id]
                } else {
                    Seq::empty()
                },
                self@.elements,
            ),
    {
        let Some(candidates) = self.centre_hits.get(id) else {
            return None;
        };
        let mut i: usize = 0;
        assert(candidates@.skip(0) =~= candidates@);
        while i < candidates.len()
            invariant
                i <= candidates.len(),
                self@.hits.contains_key(id),
                self@.hits[id] == candidates@,
                first_mapped(candidates@, self@.elements) == first_mapped(
                    candidates@.skip(i as int),
                    self@.elements,
                ),
            decreases candidates.len() - i,
        {
            assert(candidates@.skip(i as int).skip(1) =~= candidates@.skip(i + 1));
            if self.space.elements.contains(candidates[i]) {
                return Some(candidates[i]);
            }
            i += 1;
        }
        None
    }

    /// Focuses output `id`: moves the pointer to the middle of it and hands
    /// the focus to the window that has it there.
    pub fn focus_output(&mut self, id: OutputId)
        requires
            old(self)@.wf(),
            old(self)@.outputs.has(id),
            old(self)@.outputs.has(old(self)@.outputs.focused),
        ensures
            final(self)@ == old(self)@.output_focused(id),
            final(self)@.wf(),
            kept(old(self)@, final(self)@),
    {
        proof {
            lemma_output_focused_wf(self@, id);
        }
        if self.outputs.get_focused().id == id {
            return;
        }
        let hit = self.hit_at_centre(id);
        let geometry = match self.space.outputs.get(id) {
            Some(geo) => {
                proof {
                    lemma_screen(self@, id);
                }
                Some(*geo)
            },
            None => None,
        };
        self.outputs.change_focus(id);
        proof {
            crate::world_laws::lemma_outputs_wf(old(self)@, self@.outputs);
        }
        if let Some(geo) = geometry {
            let centre = Point { x: geo.x + geo.width / 2, y: geo.y + geo.height / 2 };
            self.emit(Effect::Aim(centre));
            if let Some(surface) = hit {
                self.focus_window(surface);
            }
            self.emit(Effect::Warp(centre));
        }
        let tag = match self.outputs.get_focused_tag(id) {
            Some(tag) => tag,
            None => return,
        };
        match self.focus_of_scope(&LayoutScope { output: id, tag }) {
            Some((wid, info)) => {
                self.change_focus(wid, info.window.surface);
            },
            None => {
                self.emit(Effect::Focus(None));
            },
        }
    }

    /// Sends the focused window to the nearest output in `direction` and
    /// follows it there.
    pub fn move_to_output(&mut self, direction: Direction) -> (done: Option<()>)
        requires
            old(self)@.wf(),
            old(self)@.outputs.has(old(self)@.outputs.focused),
        ensures
            final(self)@ == old(self)@.moved_to_output(direction),
            final(self)@.wf(),
            final(self)@.outputs.infos.len() == old(self)@.outputs.infos.len(),
            done is Some <==> old(self)@.nearest(direction) is Some
                && old(self)@.has_focused_stack(),
    {
        proof {
            lemma_moved_to_output_wf(self@, direction);
        }
        let Some(target) = self.select_output_direction(direction) else {
            return None;
        };
        let info = match self.window_registry.get_focused() {
            Some(info) => *info,
            None => return None,
        };
        proof {
            lemma_nearest(self@, direction);
            lemma_focused_found(self@);
        }
        let home = info.scope();
        self.unmap_elem(info.window.surface);
        let Some(id) = self.window_registry.find(info.window) else {
            return None;
        };
        if let Some(stack) = self.window_registry.get_stack_mut(&home) {
            stack.remove_window(id);
        } else {
            return None;
        }
        let tag = match self.outputs.get_focused_tag(target) {
            Some(tag) => tag,
            None => TagId(0),
        };
        let scope = LayoutScope { output: target, tag };
        self.window_registry.stack_entry(scope, id);
        if let Some(kept) = self.window_registry.get_mut(&id) {
            kept.output = target;
            kept.tag = tag;
        }
        proof {
            let gone = old(self)@.unmapped(info.window.surface);
            assert(self@.windows =~= relocated(gone.windows, id, scope));
            lemma_relocated_sound(gone, id, scope);
        }
        self.focus_output(target);
        self.relayout(Some(home));
        self.relayout(Some(scope));
        Some(())
    }
}

} // verus!
