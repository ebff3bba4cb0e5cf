//! The compositor.
pub mod actions;
pub mod backend;
pub mod focus;
pub mod gestures;
pub mod pointer;
pub mod senses;
pub mod tags;

use vstd::prelude::*;

use crate::animation::{
    shrink_target, shrunk, Animation, MorphFinish, Point, TagSlideAnimation, WindowMorph,
    MORPH_DURATION,
};
use crate::config::{Action, Config};
use crate::effect::Effect;
use crate::gesture::ActiveGesture;
use crate::handlers::workspace::WorkspaceManagerState;
use crate::layer::LayerRegistry;
use crate::layout::{tiles, Layout, Rect};
use crate::laws::{lemma_size_sent_once, told_if_news};
use crate::layout_laws::{lemma_layout_limits, lemma_tile_count, within, AREA_LIMIT, TILE_LIMIT};
use crate::output::{LayoutRegistry, LayoutScope, OutputId, Outputs, TagId};
use crate::scalar::{Scalar, ZERO};
use crate::table::{lookup, Roster, Table};
use crate::window::{SurfaceId, Window, WindowId, WindowRegistry};
use crate::world::{moderate, World, FLOATING_HEIGHT, FLOATING_WIDTH};
use crate::world_laws::{
    lemma_floated_wf, lemma_laid_out_wf, lemma_relaid_wf, lemma_screen, lemma_tiled_ids,
    lemma_tiled_wf, steady,
};

verus! {

broadcast use crate::table::group_keys_distinct;

/// The plane that windows and outputs are laid out on.
pub struct Space {
    /// The windows on the plane, bottom first.
    pub elements: Roster<SurfaceId, Point>,
    /// The mapped outputs and where they lie.
    pub outputs: Roster<OutputId, Rect>,
}

/// Everything that the compositor knows. What it wants done outside is left
/// in `effects`, in order.
pub struct Alice {
    pub space: Space,
    pub window_registry: WindowRegistry,
    pub outputs: Outputs,
    pub layout_registry: LayoutRegistry,
    pub layer_surfaces: LayerRegistry,
    /// What the layers of each output were last seen to leave of it. A commit
    /// of a layer that leaves the same changes nothing.
    pub layer_zone_cache: Table<OutputId, Rect>,
    /// The tag switch under way on each output that has one.
    pub tag_animations: Roster<OutputId, TagSlideAnimation>,
    /// The window boxes in motion, by surface: ids of windows are reused, and
    /// a window that closes still moves after its id was handed on.
    pub window_morphs: Roster<SurfaceId, WindowMorph>,
    pub workspace_manager: WorkspaceManagerState,
    pub config: Config,
    /// The actions that are still to be carried out.
    pub backlog: Vec<Action>,
    pub done_autostart: bool,
    pub locked: bool,
    pub pending_locker: bool,
    pub lock_surfaces: Table<OutputId, SurfaceId>,
    pub blanked_outputs: Vec<OutputId>,
    pub lock_focus_output: Option<OutputId>,
    pub gesture: Option<ActiveGesture>,
    /// For each output, the windows that its centre was last found to lie
    /// in, topmost first.
    pub centre_hits: Table<OutputId, Vec<SurfaceId>>,
    /// The time, in nanoseconds since the compositor started.
    pub now: u64,
    pub effects: Vec<Effect>,
}

impl View for Alice {
    type V = World;

    open spec fn view(&self) -> World {
        World {
            elements: self.space.elements@,
            screens: self.space.outputs@,
            windows: self.window_registry@,
            outputs: self.outputs@,
            layouts: self.layout_registry@,
            layers: self.layer_surfaces@,
            zones: self.layer_zone_cache@,
            slides: self.tag_animations@,
            morphs: self.window_morphs@,
            bars: self.workspace_manager@,
            config: self.config@,
            backlog: self.backlog@,
            done_autostart: self.done_autostart,
            locked: self.locked,
            pending_locker: self.pending_locker,
            lock_surfaces: self.lock_surfaces@,
            blanked: self.blanked_outputs@,
            lock_focus: self.lock_focus_output,
            gesture: match self.gesture {
                Some(gesture) => Some(gesture@),
                None => None,
            },
            hits: self.centre_hits@,
            now: self.now,
            effects: self.effects@,
        }
    }
}

impl Alice {
    pub fn new(config: Config) -> (alice: Self)
        requires
            crate::world::sound_settings(config@, 0),
        ensures
            alice@ == World::initial(config@),
            alice@.wf(),
    {
        let mut effects: Vec<Effect> = Vec::new();
        effects.push(Effect::ApplyKeyboardLayout);
        let alice = Alice {
            space: Space { elements: Roster::new(), outputs: Roster::new() },
            window_registry: WindowRegistry::new(),
            outputs: Outputs::new(),
            layout_registry: LayoutRegistry::new(),
            layer_surfaces: LayerRegistry::new(),
            layer_zone_cache: Table::new(),
            tag_animations: Roster::new(),
            window_morphs: Roster::new(),
            workspace_manager: WorkspaceManagerState::new(),
            config,
            backlog: Vec::new(),
            done_autostart: false,
            locked: false,
            pending_locker: false,
            lock_surfaces: Table::new(),
            blanked_outputs: Vec::new(),
            lock_focus_output: None,
            gesture: None,
            centre_hits: Table::new(),
            now: 0,
            effects,
        };
        assert(alice@ =~= World::initial(config@));
        alice
    }

    /// Hands over what was requested so far, in order.
    pub fn take_effects(&mut self) -> (effects: Vec<Effect>)
        ensures
            effects@ == old(self)@.effects,
            final(self)@ == (World { effects: Seq::empty(), ..old(self)@ }),
            old(self)@.wf() ==> final(self)@.wf(),
    {
        let mut effects: Vec<Effect> = Vec::new();
        std::mem::swap(&mut effects, &mut self.effects);
        effects
    }

    pub(crate) fn emit(&mut self, effect: Effect)
        ensures
            final(self)@ == old(self)@.emit(effect),
    {
        self.effects.push(effect);
    }

    pub(crate) fn map_element(&mut self, surface: SurfaceId, at: Point, activate: bool)
        ensures
            final(self)@ == old(self)@.mapped(surface, at, activate),
    {
        self.space.elements.raise(surface, at);
        self.effects.push(Effect::Place { surface, at, activate });
    }

    pub(crate) fn unmap_elem(&mut self, surface: SurfaceId)
        ensures
            final(self)@ == old(self)@.unmapped(surface),
    {
        self.space.elements.remove(surface);
        self.effects.push(Effect::Unplace { surface });
    }

    fn apply_morph_finish(&mut self, surface: SurfaceId, rect: Rect, on_finish: MorphFinish)
        ensures
            final(self)@ == old(self)@.morph_finished(surface, rect, on_finish),
    {
        match on_finish {
            MorphFinish::Remap => self.map_element(surface, Point { x: rect.x, y: rect.y }, false),
            MorphFinish::Unmap => self.unmap_elem(surface),
        }
    }

    /// Starts, or redirects, the motion of a window's box. While it lasts the
    /// window is off the plane and drawn stretched instead; it is told at
    /// once that it is still on its output, so that it never sees itself
    /// leave.
    fn start_window_morph_impl(
        &mut self,
        window: Window,
        output: OutputId,
        from: Rect,
        to: Rect,
        on_finish: MorphFinish,
    )
        ensures
            final(self)@ == old(self)@.morphed(window, output, from, to, on_finish),
    {
        let key = window.surface;
        let (base, start) = match self.window_morphs.get(key) {
            Some(existing) => (existing.base, existing.current_rect()),
            None => ((window.width, window.height), from),
        };
        if start == to {
            self.window_morphs.remove(key);
            self.apply_morph_finish(key, to, on_finish);
            return;
        }
        self.unmap_elem(key);
        if self.outputs.has(output) && self.outputs.get_id(output).active {
            self.emit(Effect::EnterOutput { surface: key, output });
        }
        self.window_morphs.insert(
            key,
            WindowMorph {
                window,
                output,
                animation: Animation::new(self.now, MORPH_DURATION),
                from: start,
                to,
                on_finish,
                base,
                current: start,
                eased: Scalar { bits: ZERO },
            },
        );
        self.emit(Effect::Render);
    }

    fn start_window_morph(&mut self, window: Window, output: OutputId, from: Rect, to: Rect)
        ensures
            final(self)@ == old(self)@.morphed(window, output, from, to, MorphFinish::Remap),
    {
        self.start_window_morph_impl(window, output, from, to, MorphFinish::Remap);
    }

    /// The area that windows can be tiled in on output `id`, in global
    /// coordinates.
    pub fn usable_area(&self, id: OutputId) -> (area: Rect)
        requires
            self@.wf(),
        ensures
            area@ == self@.usable(id),
            within(area@, AREA_LIMIT as int),
    {
        let zone = match self.layer_zone_cache.get(id) {
            Some(zone) => *zone,
            None => Rect { x: 0, y: 0, width: 0, height: 0 },
        };
        assert(moderate(zone@));
        let (x, y) = match self.space.outputs.get(id) {
            Some(geo) => {
                proof {
                    lemma_screen(self@, id);
                }
                (geo.x, geo.y)
            },
            None => (0, 0),
        };
        let gap_size = self.config.gap_size();
        Rect {
            x: zone.x + x + gap_size,
            y: zone.y + y + gap_size,
            width: zone.width - gap_size * 2,
            height: zone.height - gap_size * 2,
        }
    }

    /// Tells a window about its rectangle, unless it was told the same the
    /// last time, and moves it there: a new window grows into place, one that
    /// moves is morphed, and one that an animation has hold of is left to it.
    pub fn apply_rects(&mut self, id: WindowId, rect: Rect, animate: bool)
        requires
            old(self)@.wf(),
            within(rect@, TILE_LIMIT as int),
        ensures
            final(self)@ == old(self)@.tiled(id, rect, animate),
            old(self)@.windows.info(id) is Some ==> told_if_news(
                old(self)@,
                final(self)@,
                id,
                rect,
            ),
            final(self)@.wf(),
            steady(old(self)@, final(self)@),
    {
        proof {
            lemma_tiled_wf(self@, id, rect, animate);
            if self@.windows.info(id) is Some {
                lemma_size_sent_once(self@, id, rect, animate, animate);
            }
        }
        let info = match self.window_registry.get(&id) {
            Some(info) => *info,
            None => return,
        };
        let surface = info.window.surface;
        let previous = info.last_configured;
        let unchanged = match previous {
            Some((old_rect, fullscreen)) => old_rect == rect && fullscreen == info.fullscreen,
            None => false,
        };
        if !unchanged {
            self.emit(
                Effect::Configure {
                    surface,
                    size: Some((rect.width, rect.height)),
                    fullscreen: info.fullscreen,
                },
            );
            if let Some(kept) = self.window_registry.get_mut(&id) {
                kept.last_configured = Some((rect, info.fullscreen));
            }
        }
        let rest = Point { x: rect.x, y: rect.y };
        if !animate {
            self.map_element(surface, rest, false);
            return;
        }
        let has_live_morph = self.window_morphs.contains(surface);
        let tag_sliding = self.tag_animations.contains(info.output);
        match previous {
            None => {
                if info.window.width > 0 && info.window.height > 0 {
                    let from = shrink_target(rect);
                    assert(from == shrunk(rect@).rect());
                    self.start_window_morph(info.window, info.output, from, rect);
                } else {
                    self.map_element(surface, rest, false);
                }
            },
            Some((old_rect, _)) => {
                if old_rect != rect {
                    self.start_window_morph(info.window, info.output, old_rect, rect);
                } else if has_live_morph || tag_sliding {
                } else {
                    self.map_element(surface, rest, false);
                }
            },
        }
    }

    /// Puts a floating window in the middle of `area`, at its own size. It is
    /// told once to choose that size itself.
    fn apply_floating(&mut self, id: WindowId, area: Rect)
        requires
            old(self)@.wf(),
            within(area@, AREA_LIMIT as int),
        ensures
            final(self)@ == old(self)@.floated(id, area@),
            final(self)@.wf(),
            steady(old(self)@, final(self)@),
    {
        proof {
            lemma_floated_wf(self@, id, area@);
        }
        let info = match self.window_registry.get(&id) {
            Some(info) => *info,
            None => return,
        };
        let surface = info.window.surface;
        let (w, h) = if info.window.width > 0 && info.window.height > 0 {
            (info.window.width, info.window.height)
        } else {
            (FLOATING_WIDTH, FLOATING_HEIGHT)
        };
        let sentinel = Rect { x: 0, y: 0, width: 0, height: 0 };
        let told = match info.last_configured {
            Some((rect, fullscreen)) => rect == sentinel && !fullscreen,
            None => false,
        };
        if !told {
            self.emit(Effect::Configure { surface, size: None, fullscreen: false });
            if let Some(kept) = self.window_registry.get_mut(&id) {
                kept.last_configured = Some((sentinel, false));
            }
        }
        let x = if area.width > w {
            area.x + (area.width - w) / 2
        } else {
            area.x
        };
        let y = if area.height > h {
            area.y + (area.height - h) / 2
        } else {
            area.y
        };
        self.map_element(surface, Point { x, y }, false);
    }

    /// The last of `windows` that is fullscreen.
    fn last_fullscreen(&self, windows: &Vec<WindowId>) -> (id: Option<WindowId>)
        ensures
            id == self@.last_covering(windows@),
    {
        let mut i: usize = windows.len();
        assert(windows@.take(i as int) =~= windows@);
        while i > 0
            invariant
                i <= windows.len(),
                self@.last_covering(windows@) == self@.last_covering(windows@.take(i as int)),
            decreases i,
        {
            assert(windows@.take(i as int).drop_last() =~= windows@.take(i - 1));
            i -= 1;
            if let Some(info) = self.window_registry.get(&windows[i]) {
                if info.fullscreen {
                    return Some(windows[i]);
                }
            }
        }
        None
    }

    /// If one of `windows` is fullscreen and the output is mapped, gives it
    /// the whole output and takes the others off the plane.
    fn try_full_screen(&mut self, output: OutputId, windows: &Vec<WindowId>) -> (done: bool)
        requires
            old(self)@.wf(),
        ensures
            final(self)@.wf(),
            match (old(self)@.last_covering(windows@), lookup(old(self)@.screens, output)) {
                (Some(chosen), Some(geo)) => {
                    &&& done
                    &&& final(self)@ == old(self)@.covered_by(chosen, geo.rect(), windows@)
                },
                _ => !done && final(self)@ == old(self)@,
            },
    {
        let Some(chosen) = self.last_fullscreen(windows) else {
            return false;
        };
        let area = match self.space.outputs.get(output) {
            Some(geo) => *geo,
            None => return false,
        };
        assert(area == area@.rect());
        proof {
            lemma_screen(self@, output);
        }
        let mut i: usize = 0;
        assert(windows@.take(0) =~= Seq::<WindowId>::empty());
        while i < windows.len()
            invariant
                i <= windows.len(),
                old(self)@.wf(),
                self@.wf(),
                within(area@, TILE_LIMIT as int),
                self@ == old(self)@.covered_by(chosen, area, windows@.take(i as int)),
            decreases windows.len() - i,
        {
            assert(windows@.take(i + 1).drop_last() =~= windows@.take(i as int));
            let id = windows[i];
            if id == chosen {
                self.apply_rects(chosen, area, false);
            } else {
                let surface = match self.window_registry.get(&id) {
                    Some(info) => Some(info.window.surface),
                    None => None,
                };
                if let Some(surface) = surface {
                    self.unmap_elem(surface);
                }
            }
            i += 1;
        }
        assert(windows@.take(i as int) =~= windows@);
        true
    }

    /// The windows of `scope`, apart by whether they float.
    fn partition(&self, scope: &LayoutScope) -> (r: (Vec<WindowId>, Vec<WindowId>))
        ensures
            r.0@ == self@.floating_ids(*scope),
            r.1@ == self@.tiled_ids(*scope),
    {
        let ids = self.window_registry.filter(scope);
        let mut floating: Vec<WindowId> = Vec::new();
        let mut tiled: Vec<WindowId> = Vec::new();
        let ghost drifts = |id: WindowId| self@.windows.floats(id);
        let ghost stays = |id: WindowId| !self@.windows.floats(id);
        let mut i: usize = 0;
        proof {
            reveal(Seq::filter);
            assert(ids@.take(0) =~= Seq::<WindowId>::empty());
        }
        while i < ids.len()
            invariant
                i <= ids.len(),
                drifts == (|id: WindowId| self@.windows.floats(id)),
                stays == (|id: WindowId| !self@.windows.floats(id)),
                floating@ == ids@.take(i as int).filter(drifts),
                tiled@ == ids@.take(i as int).filter(stays),
            decreases ids.len() - i,
        {
            proof {
                reveal(Seq::filter);
                assert(ids@.take(i + 1).drop_last() =~= ids@.take(i as int));
            }
            let id = ids[i];
            let floats = match self.window_registry.get(&id) {
                Some(info) => info.floating,
                None => false,
            };
            if floats {
                floating.push(id);
            } else {
                tiled.push(id);
            }
            i += 1;
        }
        assert(ids@.take(i as int) =~= ids@);
        (floating, tiled)
    }

    fn float_all(&mut self, floating: &Vec<WindowId>, area: Rect)
        requires
            old(self)@.wf(),
            within(area@, AREA_LIMIT as int),
        ensures
            final(self)@ == old(self)@.floated_all(floating@, area@),
            final(self)@.wf(),
    {
        let mut i: usize = 0;
        assert(floating@.take(0) =~= Seq::<WindowId>::empty());
        while i < floating.len()
            invariant
                i <= floating.len(),
                self@.wf(),
                within(area@, AREA_LIMIT as int),
                self@ == old(self)@.floated_all(floating@.take(i as int), area@),
            decreases floating.len() - i,
        {
            assert(floating@.take(i + 1).drop_last() =~= floating@.take(i as int));
            self.apply_floating(floating[i], area);
            i += 1;
        }
        assert(floating@.take(i as int) =~= floating@);
    }

    fn tile_all(&mut self, windows: &Vec<WindowId>, rects: &Vec<Rect>, animate: bool)
        requires
            old(self)@.wf(),
            windows@.len() == rects@.len(),
            forall|i: int|
                0 <= i < rects@.len() ==> within(#[trigger] tiles(rects@)[i], TILE_LIMIT as int),
        ensures
            final(self)@ == old(self)@.tiled_all(windows@, tiles(rects@), animate),
            final(self)@.wf(),
    {
        let mut i: usize = 0;
        assert(windows@.take(0) =~= Seq::<WindowId>::empty());
        while i < windows.len()
            invariant
                i <= windows.len(),
                windows@.len() == rects@.len(),
                self@.wf(),
                forall|i: int|
                    0 <= i < rects@.len() ==> within(
                        #[trigger] tiles(rects@)[i],
                        TILE_LIMIT as int,
                    ),
                self@ == old(self)@.tiled_all(windows@.take(i as int), tiles(rects@), animate),
            decreases windows.len() - i,
        {
            assert(windows@.take(i + 1).drop_last() =~= windows@.take(i as int));
            assert(tiles(rects@)[i as int] == rects@[i as int]@);
            assert(rects@[i as int]@.rect() == rects@[i as int]);
            self.apply_rects(windows[i], rects[i], animate);
            i += 1;
        }
        assert(windows@.take(i as int) =~= windows@);
    }

    fn relayout_single(&mut self, output: OutputId, animate: bool)
        requires
            old(self)@.wf(),
        ensures
            final(self)@ == old(self)@.laid_out(output, animate),
            final(self)@.wf(),
            steady(old(self)@, final(self)@),
    {
        proof {
            lemma_laid_out_wf(self@, output, animate);
        }
        let tag = match self.outputs.get_focused_tag(output) {
            Some(tag) => tag,
            None => TagId(0),
        };
        let area = self.usable_area(output);
        let scope = LayoutScope { output, tag };
        let (floating, windows) = self.partition(&scope);
        if self.try_full_screen(output, &windows) {
            self.float_all(&floating, area);
            self.emit(Effect::Render);
            return;
        }
        let layout = self.layout_registry.get_layout(&scope);
        let gap_size = self.config.gap_size();
        proof {
            lemma_tiled_ids(self@, scope);
            lemma_layout_limits(layout, area@, windows@.len(), gap_size as int);
            lemma_tile_count(layout, area@, windows@.len(), gap_size as int);
        }
        let rects = if area.width >= area.height {
            layout.arrange_horizontal(area, &windows, gap_size)
        } else {
            layout.arrange_vertical(area, &windows, gap_size)
        };
        assert(tiles(rects@) == self@.arrangement(output, windows@.len()));
        assert(tiles(rects@).len() == rects@.len());
        self.tile_all(&windows, &rects, animate);
        self.float_all(&floating, area);
        self.emit(Effect::Render);
    }

    fn relayout_impl(&mut self, scope: Option<LayoutScope>, animate: bool)
        requires
            old(self)@.wf(),
            scope matches Some(scope) ==> old(self)@.outputs.has(scope.output),
        ensures
            final(self)@ == old(self)@.relaid(scope, animate),
            final(self)@.wf(),
            steady(old(self)@, final(self)@),
    {
        proof {
            lemma_relaid_wf(self@, scope, animate);
        }
        if let Some(scope) = scope {
            self.relayout_single(scope.output, animate);
            return;
        }
        let ids = self.outputs.iter();
        let mut i: usize = 0;
        assert(ids@.take(0) =~= Seq::<OutputId>::empty());
        while i < ids.len()
            invariant
                i <= ids.len(),
                self@.wf(),
                self@ == old(self)@.laid_out_all(ids@.take(i as int), animate),
            decreases ids.len() - i,
        {
            assert(ids@.take(i + 1).drop_last() =~= ids@.take(i as int));
            self.relayout_single(ids[i], animate);
            i += 1;
        }
        assert(ids@.take(i as int) =~= ids@);
    }

    /// Lays out the output of `scope`, or every active output.
    pub fn relayout(&mut self, scope: Option<LayoutScope>)
        requires
            old(self)@.wf(),
            scope matches Some(scope) ==> old(self)@.outputs.has(scope.output),
        ensures
            final(self)@ == old(self)@.relaid(scope, true),
            final(self)@.wf(),
            steady(old(self)@, final(self)@),
    {
        self.relayout_impl(scope, true);
    }

    /// The same, without setting any box in motion.
    fn relayout_unanimated(&mut self, scope: Option<LayoutScope>)
        requires
            old(self)@.wf(),
            scope matches Some(scope) ==> old(self)@.outputs.has(scope.output),
        ensures
            final(self)@ == old(self)@.relaid(scope, false),
            final(self)@.wf(),
            steady(old(self)@, final(self)@),
    {
        self.relayout_impl(scope, false);
    }
}

} // verus!
