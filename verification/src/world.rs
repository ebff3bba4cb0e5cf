//! The compositor's state as a mathematical value, and what each operation
//! makes of it.
use vstd::prelude::*;

use crate::animation::{
    shrunk, wrapped, Animation, MorphFinish, Point, Slide, WindowMorph, MORPH_DURATION,
    SLIDE_DURATION,
};
use crate::config::{Action, Settings};
use crate::effect::Effect;
use crate::gesture::Gesture;
use crate::layer::LayerEntry;
use crate::layout::{quotient, Layout, Rect, Tile};
use crate::layout_laws::{roomy, within, TILE_LIMIT};
use crate::output::{
    layout_named, layout_of, Direction, LayoutKind, LayoutScope, OutputId, OutputsModel, TagId,
};
use crate::scalar::{Scalar, ZERO};
use crate::table::{filed, has_key, keys_distinct, lookup, unfiled};
use crate::window::{Registry, SurfaceId, Window, WindowId, WindowInfo};
use crate::window_laws::relocated;

verus! {

/// The largest coordinate, either way, of an output or of its usable zone:
/// the pointer's coordinates have 24 bits before the point on the wire.
pub const SCREEN_LIMIT: i32 = 0x80_0000;

/// The last of the tags that can be stepped to.
pub const LAST_TAG: u32 = 8;

/// The size that a floating window is taken to have before it has drawn
/// anything.
pub const FLOATING_WIDTH: i32 = 640;

pub const FLOATING_HEIGHT: i32 = 480;

/// A program that shows workspaces: which groups it knows, with whether it
/// was told their output, and which workspaces.
#[verifier::ext_equal]
pub struct BarModel {
    pub id: u64,
    pub groups: Seq<(OutputId, bool)>,
    pub workspaces: Seq<LayoutScope>,
}

/// Everything that the compositor knows.
#[verifier::ext_equal]
pub struct World {
    /// The windows on the plane, bottom first.
    pub elements: Seq<(SurfaceId, Point)>,
    /// The mapped outputs and where they lie, in the order of their mapping.
    pub screens: Seq<(OutputId, Tile)>,
    pub windows: Registry,
    pub outputs: OutputsModel,
    pub layouts: Map<LayoutScope, LayoutKind>,
    pub layers: Seq<(OutputId, LayerEntry)>,
    /// What the layers leave of each output, relative to its origin.
    pub zones: Map<OutputId, Tile>,
    pub slides: Seq<(OutputId, Slide)>,
    pub morphs: Seq<(SurfaceId, WindowMorph)>,
    pub bars: Seq<BarModel>,
    pub config: Settings,
    /// The actions that are still to be carried out.
    pub backlog: Seq<Action>,
    pub done_autostart: bool,
    pub locked: bool,
    pub pending_locker: bool,
    pub lock_surfaces: Map<OutputId, SurfaceId>,
    pub blanked: Seq<OutputId>,
    pub lock_focus: Option<OutputId>,
    pub gesture: Option<Gesture>,
    /// For each output, the windows that its centre was last found to lie
    /// in, topmost first.
    pub hits: Map<OutputId, Seq<SurfaceId>>,
    pub now: u64,
    pub effects: Seq<Effect>,
}

/// `t` lies within the limits for outputs and zones.
pub open spec fn moderate(t: Tile) -> bool {
    within(t, SCREEN_LIMIT as int)
}

/// What is kept about a window is within the limits.
pub open spec fn sound_info(info: WindowInfo, outputs: OutputsModel) -> bool {
    &&& outputs.has(info.output)
    &&& -TILE_LIMIT <= info.window.width <= TILE_LIMIT
    &&& -TILE_LIMIT <= info.window.height <= TILE_LIMIT
    &&& info.last_configured matches Some((r, _)) ==> within(r@, TILE_LIMIT as int)
}

pub open spec fn sound_windows(windows: Registry, outputs: OutputsModel) -> bool {
    &&& windows.wf()
    &&& forall|id: WindowId| #[trigger]
        windows.infos.contains_key(id) ==> sound_info(windows.infos[id], outputs)
}

pub open spec fn sound_screens(screens: Seq<(OutputId, Tile)>, outputs: OutputsModel) -> bool {
    &&& keys_distinct(screens)
    &&& forall|i: int|
        0 <= i < screens.len() ==> {
            &&& outputs.has((#[trigger] screens[i]).0)
            &&& moderate(screens[i].1)
            &&& 0 <= screens[i].1.width
            &&& 0 <= screens[i].1.height
        }
}

pub open spec fn sound_zones(zones: Map<OutputId, Tile>) -> bool {
    forall|id: OutputId| #[trigger] zones.contains_key(id) ==> moderate(zones[id])
}

/// An action that can be carried out: a layout that it names is known.
pub open spec fn doable(action: Action) -> bool {
    action matches Action::SetLayout(name) ==> layout_named(name@) is Some
}

/// The settings leave room for `n` windows.
pub open spec fn sound_settings(config: Settings, n: nat) -> bool {
    roomy(config.gap as int, n as int)
}

pub open spec fn sound_slide(slide: Slide) -> bool {
    &&& slide.direction == 1 || slide.direction == -1
    &&& -SCREEN_LIMIT <= slide.distance <= SCREEN_LIMIT
}

pub open spec fn sound_slides(slides: Seq<(OutputId, Slide)>, outputs: OutputsModel) -> bool {
    forall|i: int|
        0 <= i < slides.len() ==> {
            &&& outputs.has((#[trigger] slides[i]).0)
            &&& sound_slide(slides[i].1)
        }
}

pub open spec fn sound_layers(
    layers: Seq<(OutputId, LayerEntry)>,
    outputs: OutputsModel,
) -> bool {
    forall|i: int| 0 <= i < layers.len() ==> outputs.has((#[trigger] layers[i]).0)
}

/// The first of `candidates` that is on the plane.
pub open spec fn first_mapped(
    candidates: Seq<SurfaceId>,
    elements: Seq<(SurfaceId, Point)>,
) -> Option<SurfaceId>
    decreases candidates.len(),
{
    if candidates.len() == 0 {
        None
    } else if has_key(elements, candidates[0]) {
        Some(candidates[0])
    } else {
        first_mapped(candidates.skip(1), elements)
    }
}

impl World {
    pub open spec fn wf(self) -> bool {
        &&& self.outputs.wf()
        &&& keys_distinct(self.elements)
        &&& keys_distinct(self.slides)
        &&& keys_distinct(self.morphs)
        &&& sound_windows(self.windows, self.outputs)
        &&& sound_screens(self.screens, self.outputs)
        &&& sound_zones(self.zones)
        &&& sound_settings(self.config, self.windows.roll.len())
        &&& sound_slides(self.slides, self.outputs)
        &&& sound_layers(self.layers, self.outputs)
    }

    /// What a compositor with these settings starts from.
    pub open spec fn initial(config: Settings) -> World {
        World {
            elements: Seq::empty(),
            screens: Seq::empty(),
            windows: Registry::empty(),
            outputs: OutputsModel { infos: Seq::empty(), focused: OutputId(0) },
            layouts: Map::empty(),
            layers: Seq::empty(),
            zones: Map::empty(),
            slides: Seq::empty(),
            morphs: Seq::empty(),
            bars: Seq::empty(),
            config,
            backlog: Seq::empty(),
            done_autostart: false,
            locked: false,
            pending_locker: false,
            lock_surfaces: Map::empty(),
            blanked: Seq::empty(),
            lock_focus: None,
            gesture: None,
            hits: Map::empty(),
            now: 0,
            effects: seq![Effect::ApplyKeyboardLayout],
        }
    }

    /// The tag that the focused output shows has one after it.
    pub open spec fn can_step(self) -> bool {
        self.outputs.current_tag() matches Some(tag) ==> tag.0 < u32::MAX
    }

    // Requests and the plane.

    pub open spec fn emit(self, effect: Effect) -> World {
        World { effects: self.effects.push(effect), ..self }
    }

    /// With a window on the plane, above every other.
    pub open spec fn mapped(self, surface: SurfaceId, at: Point, activate: bool) -> World {
        World {
            elements: unfiled(self.elements, surface).push((surface, at)),
            effects: self.effects.push(Effect::Place { surface, at, activate }),
            ..self
        }
    }

    /// Without a window on the plane.
    pub open spec fn unmapped(self, surface: SurfaceId) -> World {
        World {
            elements: unfiled(self.elements, surface),
            effects: self.effects.push(Effect::Unplace { surface }),
            ..self
        }
    }

    /// With each of `places` on the plane, in order.
    pub open spec fn mapped_all(self, places: Seq<(SurfaceId, Point)>) -> World
        decreases places.len(),
    {
        if places.len() == 0 {
            self
        } else {
            self.mapped_all(places.drop_last()).mapped(places.last().0, places.last().1, false)
        }
    }

    /// With none of `places` on the plane.
    pub open spec fn unmapped_all(self, places: Seq<(SurfaceId, Point)>) -> World
        decreases places.len(),
    {
        if places.len() == 0 {
            self
        } else {
            self.unmapped_all(places.drop_last()).unmapped(places.last().0)
        }
    }

    /// With windows `ids`, those that are registered, on the plane at its
    /// origin.
    pub open spec fn mapped_ids(self, ids: Seq<WindowId>) -> World
        decreases ids.len(),
    {
        if ids.len() == 0 {
            self
        } else {
            let before = self.mapped_ids(ids.drop_last());
            match before.windows.info(ids.last()) {
                Some(info) => before.mapped(info.window.surface, Point { x: 0, y: 0 }, false),
                None => before,
            }
        }
    }

    /// With windows `ids`, those that are registered, off the plane.
    pub open spec fn unmapped_ids(self, ids: Seq<WindowId>) -> World
        decreases ids.len(),
    {
        if ids.len() == 0 {
            self
        } else {
            let before = self.unmapped_ids(ids.drop_last());
            match before.windows.info(ids.last()) {
                Some(info) => before.unmapped(info.window.surface),
                None => before,
            }
        }
    }

    pub open spec fn with_info(self, id: WindowId, info: WindowInfo) -> World {
        World { windows: self.windows.updated(id, info), ..self }
    }

    // Boxes in motion.

    /// What becomes of a window whose box has arrived at `rect`.
    pub open spec fn morph_finished(
        self,
        surface: SurfaceId,
        rect: Rect,
        on_finish: MorphFinish,
    ) -> World {
        match on_finish {
            MorphFinish::Remap => self.mapped(surface, Point { x: rect.x, y: rect.y }, false),
            MorphFinish::Unmap => self.unmapped(surface),
        }
    }

    /// With the box of `window` on its way to `to`: from where it is now if
    /// it was on its way already, or else from `from`.
    pub open spec fn morphed(
        self,
        window: Window,
        output: OutputId,
        from: Rect,
        to: Rect,
        on_finish: MorphFinish,
    ) -> World {
        let key = window.surface;
        let existing = lookup(self.morphs, key);
        let base = match existing {
            Some(morph) => morph.base,
            None => (window.width, window.height),
        };
        let start = match existing {
            Some(morph) => morph.current,
            None => from,
        };
        if start == to {
            World { morphs: unfiled(self.morphs, key), ..self }.morph_finished(key, to, on_finish)
        } else {
            let gone = self.unmapped(key);
            let entered = if self.outputs.has(output) && self.outputs.at(output).active {
                gone.emit(Effect::EnterOutput { surface: key, output })
            } else {
                gone
            };
            World {
                morphs: filed(
                    self.morphs,
                    key,
                    WindowMorph {
                        window,
                        output,
                        animation: Animation::started(self.now, MORPH_DURATION),
                        from: start,
                        to,
                        on_finish,
                        base,
                        current: start,
                        eased: Scalar { bits: ZERO },
                    },
                ),
                ..entered
            }.emit(Effect::Render)
        }
    }

    // Layout.

    /// The area that windows are tiled in on output `id`: the zone that its
    /// layers leave, where the output lies, less a gap all round.
    pub open spec fn usable(self, id: OutputId) -> Tile {
        let zone = if self.zones.contains_key(id) {
            self.zones[id]
        } else {
            Tile { x: 0, y: 0, width: 0, height: 0 }
        };
        let (x, y) = match lookup(self.screens, id) {
            Some(geo) => (geo.x, geo.y),
            None => (0int, 0int),
        };
        let gap = self.config.gap;
        Tile {
            x: zone.x + x + gap,
            y: zone.y + y + gap,
            width: zone.width - gap * 2,
            height: zone.height - gap * 2,
        }
    }

    /// With window `id` told about its rectangle, unless it was told the same
    /// the last time, and taken to it.
    pub open spec fn tiled(self, id: WindowId, rect: Rect, animate: bool) -> World {
        match self.windows.info(id) {
            None => self,
            Some(info) => {
                let surface = info.window.surface;
                let rest = Point { x: rect.x, y: rect.y };
                let told = if info.last_configured == Some((rect, info.fullscreen)) {
                    self
                } else {
                    self.emit(
                        Effect::Configure {
                            surface,
                            size: Some((rect.width, rect.height)),
                            fullscreen: info.fullscreen,
                        },
                    ).with_info(
                        id,
                        WindowInfo { last_configured: Some((rect, info.fullscreen)), ..info },
                    )
                };
                if !animate {
                    told.mapped(surface, rest, false)
                } else {
                    match info.last_configured {
                        None => if info.window.width > 0 && info.window.height > 0 {
                            told.morphed(
                                info.window,
                                info.output,
                                shrunk(rect@).rect(),
                                rect,
                                MorphFinish::Remap,
                            )
                        } else {
                            told.mapped(surface, rest, false)
                        },
                        Some((old_rect, _)) => if old_rect != rect {
                            told.morphed(
                                info.window,
                                info.output,
                                old_rect,
                                rect,
                                MorphFinish::Remap,
                            )
                        } else if has_key(self.morphs, surface) || has_key(
                            self.slides,
                            info.output,
                        ) {
                            told
                        } else {
                            told.mapped(surface, rest, false)
                        },
                    }
                }
            },
        }
    }

    /// With each of `ids` told about its tile and taken to it.
    pub open spec fn tiled_all(
        self,
        ids: Seq<WindowId>,
        boxes: Seq<Tile>,
        animate: bool,
    ) -> World
        decreases ids.len(),
    {
        if ids.len() == 0 {
            self
        } else {
            self.tiled_all(ids.drop_last(), boxes, animate).tiled(
                ids.last(),
                boxes[ids.len() - 1].rect(),
                animate,
            )
        }
    }

    /// The size of a floating window.
    pub open spec fn floating_size(window: Window) -> (int, int) {
        if window.width > 0 && window.height > 0 {
            (window.width as int, window.height as int)
        } else {
            (FLOATING_WIDTH as int, FLOATING_HEIGHT as int)
        }
    }

    /// Where a length `inner` starts so that it is centred on `outer`, but
    /// not before `start`.
    pub open spec fn centred(start: int, outer: int, inner: int) -> int {
        if outer > inner {
            start + (outer - inner) / 2
        } else {
            start
        }
    }

    /// With window `id` told, once, to choose its own size, and put in the
    /// middle of `area`.
    pub open spec fn floated(self, id: WindowId, area: Tile) -> World {
        match self.windows.info(id) {
            None => self,
            Some(info) => {
                let surface = info.window.surface;
                let sentinel = (Rect { x: 0, y: 0, width: 0, height: 0 }, false);
                let (width, height) = World::floating_size(info.window);
                let told = if info.last_configured == Some(sentinel) {
                    self
                } else {
                    self.emit(
                        Effect::Configure { surface, size: None, fullscreen: false },
                    ).with_info(id, WindowInfo { last_configured: Some(sentinel), ..info })
                };
                told.mapped(
                    surface,
                    Point {
                        x: World::centred(area.x, area.width, width) as i32,
                        y: World::centred(area.y, area.height, height) as i32,
                    },
                    false,
                )
            },
        }
    }

    pub open spec fn floated_all(self, ids: Seq<WindowId>, area: Tile) -> World
        decreases ids.len(),
    {
        if ids.len() == 0 {
            self
        } else {
            self.floated_all(ids.drop_last(), area).floated(ids.last(), area)
        }
    }

    /// The last of `ids` that is fullscreen.
    pub open spec fn last_covering(self, ids: Seq<WindowId>) -> Option<WindowId>
        decreases ids.len(),
    {
        if ids.len() == 0 {
            None
        } else if self.windows.covers(ids.last()) {
            Some(ids.last())
        } else {
            self.last_covering(ids.drop_last())
        }
    }

    /// With `chosen` on the whole of `area` and the others of `ids` off the
    /// plane.
    pub open spec fn covered_by(self, chosen: WindowId, area: Rect, ids: Seq<WindowId>) -> World
        decreases ids.len(),
    {
        if ids.len() == 0 {
            self
        } else {
            let before = self.covered_by(chosen, area, ids.drop_last());
            if ids.last() == chosen {
                before.tiled(chosen, area, false)
            } else {
                match before.windows.info(ids.last()) {
                    Some(info) => before.unmapped(info.window.surface),
                    None => before,
                }
            }
        }
    }

    /// The windows of `scope` that float.
    pub open spec fn floating_ids(self, scope: LayoutScope) -> Seq<WindowId> {
        self.windows.rendered(scope).filter(|id: WindowId| self.windows.floats(id))
    }

    /// The windows of `scope` that are tiled.
    pub open spec fn tiled_ids(self, scope: LayoutScope) -> Seq<WindowId> {
        self.windows.rendered(scope).filter(|id: WindowId| !self.windows.floats(id))
    }

    /// The scope that output `id` shows.
    pub open spec fn shown(self, id: OutputId) -> LayoutScope {
        LayoutScope {
            output: id,
            tag: match self.outputs.tag_of(id) {
                Some(tag) => tag,
                None => TagId(0),
            },
        }
    }

    /// The tiles of `n` windows in the usable area of output `id`.
    pub open spec fn arrangement(self, id: OutputId, n: nat) -> Seq<Tile> {
        let area = self.usable(id);
        let kind = layout_of(self.layouts, self.shown(id));
        if area.width >= area.height {
            kind.wide_tiles(area, n, self.config.gap as int)
        } else {
            kind.tall_tiles(area, n, self.config.gap as int)
        }
    }

    /// With the windows that output `id` shows laid out: a fullscreen one on
    /// the whole output, or all of them tiled, and the floating ones in the
    /// middle either way.
    pub open spec fn laid_out(self, id: OutputId, animate: bool) -> World {
        let scope = self.shown(id);
        let area = self.usable(id);
        let ids = self.tiled_ids(scope);
        let placed = match (self.last_covering(ids), lookup(self.screens, id)) {
            (Some(chosen), Some(geo)) => self.covered_by(chosen, geo.rect(), ids),
            _ => self.tiled_all(ids, self.arrangement(id, ids.len()), animate),
        };
        placed.floated_all(self.floating_ids(scope), area).emit(Effect::Render)
    }

    pub open spec fn laid_out_all(self, ids: Seq<OutputId>, animate: bool) -> World
        decreases ids.len(),
    {
        if ids.len() == 0 {
            self
        } else {
            self.laid_out_all(ids.drop_last(), animate).laid_out(ids.last(), animate)
        }
    }

    /// With the output of `scope`, or else every active output, laid out.
    pub open spec fn relaid(self, scope: Option<LayoutScope>, animate: bool) -> World {
        match scope {
            Some(scope) => self.laid_out(scope.output, animate),
            None => self.laid_out_all(
                self.outputs.active_ids(self.outputs.infos.len()),
                animate,
            ),
        }
    }

    // Workspaces as bars see them.

    /// The tag is the one that its output shows.
    pub open spec fn tag_active(self, scope: LayoutScope) -> bool {
        self.outputs.tag_of(scope.output) == Some(scope.tag)
    }

    /// The tag is neither shown nor has it any window.
    pub open spec fn tag_hidden(self, scope: LayoutScope) -> bool {
        !self.tag_active(scope) && self.windows.rendered(scope).len() == 0
    }

    /// Bar `bar` told the outputs of those of `groups` that it was not told
    /// yet.
    pub open spec fn groups_entered(self, bar: u64, groups: Seq<(OutputId, bool)>) -> World
        decreases groups.len(),
    {
        if groups.len() == 0 {
            self
        } else {
            let before = self.groups_entered(bar, groups.drop_last());
            if groups.last().1 {
                before
            } else {
                before.emit(Effect::EnterGroup { bar, output: groups.last().0 })
            }
        }
    }

    /// Bar `bar` told the state of each of `scopes`.
    pub open spec fn states_told(self, bar: u64, scopes: Seq<LayoutScope>) -> World
        decreases scopes.len(),
    {
        if scopes.len() == 0 {
            self
        } else {
            let scope = scopes.last();
            self.states_told(bar, scopes.drop_last()).emit(
                Effect::WorkspaceState {
                    bar,
                    scope,
                    active: self.tag_active(scope),
                    hidden: self.tag_hidden(scope),
                },
            )
        }
    }

    /// One bar told everything that may have changed.
    pub open spec fn bar_told(self, bar: BarModel) -> World {
        self.groups_entered(bar.id, bar.groups).states_told(bar.id, bar.workspaces).emit(
            Effect::WorkspaceDone { bar: bar.id },
        )
    }

    pub open spec fn bars_told(self, bars: Seq<BarModel>) -> World
        decreases bars.len(),
    {
        if bars.len() == 0 {
            self
        } else {
            self.bars_told(bars.drop_last()).bar_told(bars.last())
        }
    }

    /// Every bar told everything that may have changed.
    pub open spec fn broadcast(self) -> World {
        self.bars_told(self.bars)
    }

    // Focus.

    /// With window `id` focused in its stack and as a whole, and the keyboard
    /// given to `surface`. A fullscreen window is first moved down its stack,
    /// and its output laid out.
    pub open spec fn focus_changed(self, id: WindowId, surface: SurfaceId) -> World {
        match self.windows.info(id) {
            None => self,
            Some(info) => match self.windows.stack(info.home()) {
                None => self,
                Some(stack) => {
                    let raised = if info.fullscreen {
                        stack.moved_down()
                    } else {
                        stack
                    };
                    let focused = World {
                        windows: self.windows.restacked(
                            info.home(),
                            raised.focused_on(id),
                        ).focused_on(Some(id)),
                        ..self
                    }.emit(Effect::Focus(Some(surface)));
                    if info.fullscreen {
                        focused.relaid(Some(info.home()), true)
                    } else {
                        focused
                    }
                },
            },
        }
    }

    /// With the window of `surface` focused, unless it is already.
    pub open spec fn window_focused(self, surface: SurfaceId) -> World {
        match self.windows.found(surface) {
            None => self,
            Some(id) => if self.windows.focused == Some(id) {
                self
            } else {
                self.focus_changed(id, surface)
            },
        }
    }

    /// What is kept about the window that has the focus of `scope`.
    pub open spec fn scope_focus(self, scope: LayoutScope) -> Option<(WindowId, WindowInfo)> {
        match self.windows.stack_focus(scope) {
            Some(id) => match self.windows.info(id) {
                Some(info) => Some((id, info)),
                None => None,
            },
            None => None,
        }
    }

    /// With the window that has the focus of `scope` focused as a whole, or
    /// none if the scope has none.
    pub open spec fn tag_focused(self, scope: LayoutScope) -> World {
        match self.scope_focus(scope) {
            Some((id, info)) => self.focus_changed(id, info.window.surface),
            None => World { windows: self.windows.focused_on(None), ..self }.emit(
                Effect::Focus(None),
            ),
        }
    }

    /// With the focus one window further in the stack of the focused window.
    /// The keyboard stays with the surface that had the focus before.
    pub open spec fn focus_shifted(self, up: bool) -> World {
        match self.windows.focused_info() {
            None => self,
            Some(info) => match self.windows.stack(info.home()) {
                None => self,
                Some(stack) => {
                    let shifted = if up {
                        stack.focused_up()
                    } else {
                        stack.focused_down()
                    };
                    let turned = World {
                        windows: self.windows.restacked(info.home(), shifted),
                        ..self
                    };
                    match shifted.focused() {
                        None => turned,
                        Some(id) => turned.focus_changed(id, info.window.surface),
                    }
                },
            },
        }
    }

    /// With the focused window of the focused window's stack one place
    /// further, and the output laid out.
    pub open spec fn window_shifted(self, up: bool) -> World {
        match self.windows.focused_info() {
            None => self,
            Some(info) => match self.windows.stack(info.home()) {
                None => self,
                Some(stack) => {
                    let shifted = if up {
                        stack.moved_up()
                    } else {
                        stack.moved_down()
                    };
                    let turned = World {
                        windows: self.windows.restacked(info.home(), shifted),
                        ..self
                    };
                    match shifted.focused() {
                        None => turned,
                        Some(id) => turned.focus_changed(id, info.window.surface).relaid(
                            Some(info.home()),
                            true,
                        ),
                    }
                },
            },
        }
    }

    /// There is a focused window, and it stands in a stack.
    pub open spec fn has_focused_stack(self) -> bool {
        match self.windows.focused_info() {
            None => false,
            Some(info) => self.windows.stacks.contains_key(info.home()),
        }
    }

    /// The window of `surface` can take the first tile: it is tiled, its
    /// scope uses the layout made for that, and another window is there.
    pub open spec fn promotable(self, surface: SurfaceId) -> bool {
        match self.windows.found(surface) {
            None => false,
            Some(id) => match self.windows.info(id) {
                None => false,
                Some(info) => {
                    &&& !info.floating
                    &&& layout_of(self.layouts, info.home()) == LayoutKind::Tablet
                    &&& self.windows.master(info.home()) is Some
                    &&& self.windows.master(info.home()) != Some(id)
                    &&& self.windows.stacks.contains_key(info.home())
                },
            },
        }
    }

    /// With the window of `surface` exchanged with the one in the first tile,
    /// focused, and the output laid out.
    pub open spec fn promoted(self, surface: SurfaceId) -> World {
        let id = self.windows.found(surface)->0;
        let home = self.windows.infos[id].home();
        let master = self.windows.master(home)->0;
        World {
            windows: self.windows.restacked(home, self.windows.stacks[home].swapped(id, master)),
            ..self
        }.focus_changed(id, surface).relaid(Some(home), true)
    }

    /// With no window of the scope that the focused output shows fullscreen.
    pub open spec fn uncovered(self, ids: Seq<WindowId>) -> World
        decreases ids.len(),
    {
        if ids.len() == 0 {
            self
        } else {
            let before = self.uncovered(ids.drop_last());
            match before.windows.info(ids.last()) {
                Some(info) => before.with_info(
                    ids.last(),
                    WindowInfo { fullscreen: false, ..info },
                ),
                None => before,
            }
        }
    }

    /// With window `id` fullscreen if it was not, and the other way round.
    pub open spec fn toggled(self, id: WindowId) -> World {
        match self.windows.info(id) {
            None => self,
            Some(info) => self.with_info(
                id,
                WindowInfo { fullscreen: !info.fullscreen, ..info },
            ).relaid(Some(info.home()), true),
        }
    }

    // Tags.

    /// Where the windows `ids` are, those that are on the plane, but for
    /// `excluded`.
    pub open spec fn snapshot(self, ids: Seq<WindowId>, excluded: Option<WindowId>) -> Seq<
        (SurfaceId, Point),
    >
        decreases ids.len(),
    {
        if ids.len() == 0 {
            Seq::empty()
        } else {
            let before = self.snapshot(ids.drop_last(), excluded);
            let id = ids.last();
            if excluded == Some(id) {
                before
            } else {
                match self.windows.info(id) {
                    None => before,
                    Some(info) => match lookup(self.elements, info.window.surface) {
                        None => before,
                        Some(at) => before.push((info.window.surface, at)),
                    },
                }
            }
        }
    }

    /// With the focused output turned to `tag`, at once.
    pub open spec fn tag_changed(self, tag: TagId) -> World {
        match self.outputs.current_tag() {
            None => self,
            Some(old_tag) => {
                let output = self.outputs.focused;
                let scope = LayoutScope { output, tag };
                let cleared = self.unmapped_ids(
                    self.windows.rendered(LayoutScope { output, tag: old_tag }),
                );
                let shown = cleared.mapped_ids(self.windows.rendered(scope));
                World { outputs: self.outputs.turned_to(tag), ..shown }.tag_focused(scope).relaid(
                    Some(scope),
                    true,
                ).broadcast()
            },
        }
    }

    /// What becomes of a tag switch on `output` that is over: the new tag
    /// stays if it has arrived, or else the old one is brought back.
    pub open spec fn slide_finalized(
        self,
        output: OutputId,
        slide: Slide,
        arrived: bool,
    ) -> World {
        if arrived {
            self.unmapped_all(slide.outgoing).mapped_all(slide.incoming)
        } else {
            let back = self.unmapped_all(slide.incoming).mapped_all(slide.outgoing);
            World { outputs: self.outputs.turned(output, slide.old_tag), ..back }.tag_focused(
                LayoutScope { output, tag: slide.old_tag },
            ).broadcast()
        }
    }

    /// With the tag switch on `output`, if there is one, over before its
    /// time: at the tag that it was headed to.
    pub open spec fn slide_finished(self, output: OutputId) -> World {
        match lookup(self.slides, output) {
            None => self,
            Some(slide) => World {
                slides: unfiled(self.slides, output),
                ..self
            }.slide_finalized(output, slide, slide.headed()),
        }
    }

    /// `places` moved sideways by `offset`.
    pub open spec fn offset_places(places: Seq<(SurfaceId, Point)>, offset: int) -> Seq<
        (SurfaceId, Point),
    > {
        places.map_values(
            |place: (SurfaceId, Point)|
                (place.0, Point { x: wrapped(place.1.x + offset), y: place.1.y }),
        )
    }

    /// With the focused output turned to `tag`, its windows about to slide in
    /// from the side that `direction` says while those of the tag that it
    /// showed slide out. `excluded` slides neither way.
    pub open spec fn slid(self, tag: TagId, direction: i32, excluded: Option<WindowId>) -> World {
        match self.outputs.current_tag() {
            None => self,
            Some(old_tag) => if old_tag == tag {
                self
            } else {
                let output = self.outputs.focused;
                let scope = LayoutScope { output, tag };
                let settled = self.slide_finished(output);
                let outgoing = settled.snapshot(
                    settled.windows.rendered(LayoutScope { output, tag: old_tag }),
                    excluded,
                );
                let shown = World {
                    outputs: settled.outputs.turned_to(tag),
                    ..settled
                }.mapped_ids(settled.windows.rendered(scope)).relaid(Some(scope), false);
                let incoming = shown.snapshot(shown.windows.rendered(scope), excluded);
                let told = shown.tag_focused(scope).broadcast();
                let distance = match lookup(told.screens, output) {
                    Some(geo) => geo.width,
                    None => 0,
                };
                if distance == 0 {
                    told.unmapped_all(outgoing).emit(Effect::Render)
                } else {
                    let moved = told.mapped_all(
                        World::offset_places(incoming, direction * distance),
                    );
                    World {
                        slides: filed(
                            moved.slides,
                            output,
                            Slide {
                                direction,
                                distance: distance as i32,
                                animation: Animation::started(self.now, SLIDE_DURATION),
                                old_tag,
                                new_tag: tag,
                                outgoing,
                                incoming,
                                eased: Scalar { bits: ZERO },
                                offset: (direction * distance) as i32,
                            },
                        ),
                        ..moved
                    }.emit(Effect::Render)
                }
            },
        }
    }

    /// Where the windows of both tags of a switch under way are drawn.
    pub open spec fn slide_places(slide: Slide) -> Seq<(SurfaceId, Point)> {
        slide.outgoing.map_values(
            |place: (SurfaceId, Point)| (place.0, slide.outgoing_at(place.1)),
        ) + slide.incoming.map_values(
            |place: (SurfaceId, Point)| (place.0, slide.incoming_at(place.1)),
        )
    }

    /// With one tag switch carried on by a frame: over if its time has
    /// passed, or else its windows where they are drawn now.
    pub open spec fn slide_advanced(self, output: OutputId, slide: Slide) -> World {
        if slide.animation.finished(self.now) {
            self.slide_finalized(output, slide, slide.arrived())
        } else {
            let moved = self.mapped_all(World::slide_places(slide));
            World { slides: filed(moved.slides, output, slide), ..moved }
        }
    }

    pub open spec fn slides_advanced_all(self, slides: Seq<(OutputId, Slide)>) -> World
        decreases slides.len(),
    {
        if slides.len() == 0 {
            self
        } else {
            self.slides_advanced_all(slides.drop_last()).slide_advanced(
                slides.last().0,
                slides.last().1,
            )
        }
    }

    /// With every tag switch carried on by a frame.
    pub open spec fn slides_advanced(self) -> World {
        World { slides: Seq::empty(), ..self }.slides_advanced_all(self.slides)
    }

    /// The box of `morph` is to be drawn on output `id`.
    pub open spec fn draws(self, id: OutputId, dead: Seq<SurfaceId>, morph: WindowMorph) -> bool {
        &&& morph.output == id
        &&& !dead.contains(morph.window.surface)
        &&& !morph.animation.finished(self.now)
    }

    /// With one box carried on by a frame of output `id`: left alone if it is
    /// elsewhere, over if its time has passed or its window is dead.
    pub open spec fn morph_advanced(
        self,
        id: OutputId,
        dead: Seq<SurfaceId>,
        key: SurfaceId,
        morph: WindowMorph,
    ) -> World {
        if morph.output != id || self.draws(id, dead, morph) {
            World { morphs: filed(self.morphs, key, morph), ..self }
        } else {
            self.morph_finished(morph.window.surface, morph.to, morph.on_finish)
        }
    }

    pub open spec fn morphs_advanced_all(
        self,
        id: OutputId,
        dead: Seq<SurfaceId>,
        morphs: Seq<(SurfaceId, WindowMorph)>,
    ) -> World
        decreases morphs.len(),
    {
        if morphs.len() == 0 {
            self
        } else {
            self.morphs_advanced_all(id, dead, morphs.drop_last()).morph_advanced(
                id,
                dead,
                morphs.last().0,
                morphs.last().1,
            )
        }
    }

    /// With every box carried on by a frame of output `id`.
    pub open spec fn morphs_advanced(self, id: OutputId, dead: Seq<SurfaceId>) -> World {
        World { morphs: Seq::empty(), ..self }.morphs_advanced_all(id, dead, self.morphs)
    }

    /// The boxes that a frame of output `id` draws.
    pub open spec fn boxes_drawn(self, id: OutputId, dead: Seq<SurfaceId>) -> Seq<
        (SurfaceId, WindowMorph),
    > {
        self.morphs.filter(|entry: (SurfaceId, WindowMorph)| self.draws(id, dead, entry.1))
    }

    /// Without the window of `surface`: it shrinks away if it ever had a
    /// place, and the focus, if it had it, goes to the window that has it in
    /// the same stack.
    pub open spec fn window_removed(self, surface: SurfaceId) -> World {
        match self.windows.indexed(surface) {
            None => self,
            Some(id) => match self.windows.info(id) {
                None => self,
                Some(info) => {
                    let without = World { windows: self.windows.removed(id), ..self };
                    let leaving = match info.last_configured {
                        Some((rect, _)) => without.morphed(
                            info.window,
                            info.output,
                            rect,
                            shrunk(rect@).rect(),
                            MorphFinish::Unmap,
                        ),
                        None => without.unmapped(info.window.surface),
                    };
                    let told = leaving.broadcast();
                    if self.windows.focused != Some(id) {
                        told
                    } else {
                        match told.scope_focus(info.home()) {
                            Some((next, next_info)) => told.focus_changed(
                                next,
                                next_info.window.surface,
                            ),
                            None => told.emit(Effect::Focus(None)),
                        }
                    }
                },
            },
        }
    }

    // Outputs.

    /// How far `to` lies from `from` in `direction`; negative if it does not
    /// lie wholly that way.
    pub open spec fn travel(direction: Direction, from: Tile, to: Tile) -> int {
        match direction {
            Direction::Left => from.x - (to.x + to.width),
            Direction::Right => to.x - (from.x + from.width),
            Direction::Up => from.y - (to.y + to.height),
            Direction::Down => to.y - (from.y + from.height),
        }
    }

    /// How far `to` lies off `from` to the side of `direction`.
    pub open spec fn sidestep(direction: Direction, from: Tile, to: Tile) -> int {
        match direction {
            Direction::Left | Direction::Right => gap_between(
                from.y,
                from.height,
                to.y,
                to.height,
            ),
            Direction::Up | Direction::Down => gap_between(from.x, from.width, to.x, to.width),
        }
    }

    /// Output `id` lies in `direction` from the focused one.
    pub open spec fn lies(self, direction: Direction, id: OutputId) -> bool {
        &&& id != self.outputs.at(self.outputs.focused).id
        &&& lookup(self.screens, id) is Some
        &&& World::travel(
            direction,
            lookup(self.screens, self.outputs.at(self.outputs.focused).id)->0,
            lookup(self.screens, id)->0,
        ) >= 0
    }

    /// How far output `id` lies in `direction` from the focused one, and how
    /// far off to the side.
    pub open spec fn distance(self, direction: Direction, id: OutputId) -> (int, int) {
        let from = lookup(self.screens, self.outputs.at(self.outputs.focused).id)->0;
        let to = lookup(self.screens, id)->0;
        (World::travel(direction, from, to), World::sidestep(direction, from, to))
    }

    /// `ids[i]` is the nearest in `direction`: no other that lies there is
    /// nearer, and none before it is as near.
    pub open spec fn is_nearest(self, direction: Direction, ids: Seq<OutputId>, i: int) -> bool {
        &&& 0 <= i < ids.len()
        &&& self.lies(direction, ids[i])
        &&& forall|j: int|
            0 <= j < ids.len() && self.lies(direction, #[trigger] ids[j]) ==> {
                let there = self.distance(direction, ids[j]);
                let here = self.distance(direction, ids[i]);
                if j < i {
                    comes_first(here, there)
                } else {
                    !comes_first(there, here)
                }
            }
    }

    /// The active output that lies nearest in `direction` from the focused
    /// one.
    pub open spec fn nearest(self, direction: Direction) -> Option<OutputId> {
        let ids = self.outputs.active_ids(self.outputs.infos.len());
        if lookup(self.screens, self.outputs.at(self.outputs.focused).id) is Some && exists|i: int|
            self.is_nearest(direction, ids, i) {
            Some(ids[choose|i: int| self.is_nearest(direction, ids, i)])
        } else {
            None
        }
    }

    /// With output `id` focused, the pointer in the middle of it, and the
    /// keyboard with the window that has the focus there.
    pub open spec fn output_focused(self, id: OutputId) -> World {
        if self.outputs.at(self.outputs.focused).id == id {
            self
        } else {
            let turned = World { outputs: OutputsModel { focused: id, ..self.outputs }, ..self };
            let pointed = match lookup(self.screens, id) {
                None => turned,
                Some(geo) => {
                    let centre = Point {
                        x: (geo.x + quotient(geo.width, 2)) as i32,
                        y: (geo.y + quotient(geo.height, 2)) as i32,
                    };
                    let aimed = turned.emit(Effect::Aim(centre));
                    let candidates = if self.hits.contains_key(id) {
                        self.hits[id]
                    } else {
                        Seq::empty()
                    };
                    let met = match first_mapped(candidates, self.elements) {
                        Some(surface) => aimed.window_focused(surface),
                        None => aimed,
                    };
                    met.emit(Effect::Warp(centre))
                },
            };
            match pointed.scope_focus(pointed.shown(id)) {
                Some((wid, info)) => pointed.focus_changed(wid, info.window.surface),
                None => pointed.emit(Effect::Focus(None)),
            }
        }
    }

    /// With the focused window on the nearest output in `direction`, on top
    /// of the tag that it shows, and that output focused.
    pub open spec fn moved_to_output(self, direction: Direction) -> World {
        match (self.nearest(direction), self.windows.focused_info()) {
            (Some(target), Some(info)) => {
                let gone = self.unmapped(info.window.surface);
                match self.windows.found(info.window.surface) {
                    None => gone,
                    Some(id) => if self.windows.stacks.contains_key(info.home()) {
                        let scope = self.shown(target);
                        World { windows: relocated(self.windows, id, scope), ..gone }.output_focused(
                            target,
                        ).relaid(Some(info.home()), true).relaid(Some(scope), true)
                    } else {
                        gone
                    },
                }
            },
            _ => self,
        }
    }

    /// With the focused window on `tag` of its output, that tag shown, and
    /// the window morphed from where it was to where it is now.
    pub open spec fn moved_to_tag(self, tag: TagId, direction: i32) -> World {
        match self.windows.focused_info() {
            None => self,
            Some(info) => if info.tag == tag {
                self
            } else {
                match self.windows.found(info.window.surface) {
                    None => self,
                    Some(id) => if self.windows.stacks.contains_key(info.home()) {
                        let scope = LayoutScope { output: info.output, tag };
                        let slid = World {
                            windows: relocated(self.windows, id, scope),
                            ..self
                        }.slid(tag, direction, Some(id));
                        if self.outputs.current_tag() is None {
                            slid
                        } else {
                            match (
                                info.last_configured,
                                slid.windows.info(id),
                            ) {
                                (Some((old_rect, _)), Some(moved)) => match moved.last_configured {
                                    Some((new_rect, _)) => slid.morphed(
                                        info.window,
                                        info.output,
                                        old_rect,
                                        new_rect,
                                        MorphFinish::Remap,
                                    ),
                                    None => slid,
                                },
                                _ => slid,
                            }
                        }
                    } else {
                        self
                    },
                }
            },
        }
    }

    /// With the tag after the one shown, unless that is the last.
    pub open spec fn next_tag_focused(self) -> World {
        match self.outputs.current_tag() {
            Some(tag) => if tag.0 != LAST_TAG {
                self.slid(TagId((tag.0 + 1) as u32), 1, None)
            } else {
                self
            },
            None => self,
        }
    }

    /// With the tag before the one shown, unless that is the first.
    pub open spec fn previous_tag_focused(self) -> World {
        match self.outputs.current_tag() {
            Some(tag) => if tag.0 != 0 {
                self.slid(TagId((tag.0 - 1) as u32), (-1int) as i32, None)
            } else {
                self
            },
            None => self,
        }
    }

    pub open spec fn moved_to_next_tag(self) -> World {
        match self.outputs.current_tag() {
            Some(tag) => if tag.0 != LAST_TAG {
                self.moved_to_tag(TagId((tag.0 + 1) as u32), 1)
            } else {
                self
            },
            None => self,
        }
    }

    pub open spec fn moved_to_previous_tag(self) -> World {
        match self.outputs.current_tag() {
            Some(tag) => if tag.0 != 0 {
                self.moved_to_tag(TagId((tag.0 - 1) as u32), (-1int) as i32)
            } else {
                self
            },
            None => self,
        }
    }

    /// With the tag that the focused output shows using the layout `name`.
    pub open spec fn layout_changed(self, name: Seq<char>) -> World {
        World {
            layouts: self.layouts.insert(
                self.shown(self.outputs.focused),
                layout_named(name)->0,
            ),
            ..self
        }
    }
}

/// `a` comes before `b` in lexicographic order.
pub open spec fn comes_first(a: (int, int), b: (int, int)) -> bool {
    a.0 < b.0 || (a.0 == b.0 && a.1 < b.1)
}

/// The gap between two stretches, zero if they overlap.
pub open spec fn gap_between(a0: int, al: int, b0: int, bl: int) -> int {
    if a0 < b0 + bl && b0 < a0 + al {
        0
    } else if b0 >= a0 + al {
        b0 - (a0 + al)
    } else {
        a0 - (b0 + bl)
    }
}

} // verus!
