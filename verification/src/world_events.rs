//! What the events of outputs, clients and the pointer make of the
//! compositor's state.
use vstd::prelude::*;

use crate::animation::{Point, Slide, WindowMorph};
use crate::effect::Effect;
use crate::layer::{layer_index, layers_of, layers_without, LayerEntry};
use crate::layout::{Rect, Tile};
use crate::output::{LayoutScope, OutputId, OutputsModel, TagId};
use crate::scalar::{double, Scalar};
use crate::table::{filed, has_key, lookup, unfiled};
use crate::window::{SurfaceId, Window, WindowId, WindowInfo};
use crate::world::{BarModel, World};

verus! {

/// How many tags each output has as workspaces.
pub const NUM_TAGS: u32 = 9;

/// The edges that a layer is anchored to.
#[derive(Debug, Clone, Copy, PartialEq, Eq, Structural)]
pub struct Anchors {
    pub top: bool,
    pub bottom: bool,
    pub left: bool,
    pub right: bool,
}

/// The point lies in the box.
pub open spec fn holds(t: Tile, x: Scalar, y: Scalar) -> bool {
    &&& double(t.x).at_most(x)
    &&& x.below(double(t.x + t.width))
    &&& double(t.y).at_most(y)
    &&& y.below(double(t.y + t.height))
}

/// The size to suggest to a layer: the zone's along an axis on which it is
/// anchored to both edges, and none along the other.
pub open spec fn layer_size(anchors: Anchors, zone: Tile) -> (int, int) {
    (
        if anchors.left && anchors.right {
            zone.width
        } else {
            0
        },
        if anchors.top && anchors.bottom {
            zone.height
        } else {
            0
        },
    )
}

/// `groups` without the one of `output`.
pub open spec fn group_gone(groups: Seq<(OutputId, bool)>, output: OutputId) -> Seq<
    (OutputId, bool),
> {
    unfiled(groups, output)
}

/// Bar `i` is the first called `id`.
pub open spec fn is_first_bar(bars: Seq<BarModel>, id: u64, i: int) -> bool {
    &&& 0 <= i < bars.len()
    &&& bars[i].id == id
    &&& forall|j: int| 0 <= j < i ==> (#[trigger] bars[j]).id != id
}

/// The index of the bar called `id`.
pub open spec fn bar_index(bars: Seq<BarModel>, id: u64) -> Option<int> {
    if exists|i: int| is_first_bar(bars, id, i) {
        Some(choose|i: int| is_first_bar(bars, id, i))
    } else {
        None
    }
}

/// `scopes` with `scope` among them.
pub open spec fn scopes_with(scopes: Seq<LayoutScope>, scope: LayoutScope) -> Seq<LayoutScope> {
    if scopes.contains(scope) {
        scopes
    } else {
        scopes.push(scope)
    }
}

/// `scopes` without `scope`.
pub open spec fn scopes_but(scopes: Seq<LayoutScope>, scope: LayoutScope) -> Seq<LayoutScope> {
    scopes.filter(|other: LayoutScope| other != scope)
}

/// `scopes` without those of `output`.
pub open spec fn scopes_elsewhere(scopes: Seq<LayoutScope>, output: OutputId) -> Seq<LayoutScope> {
    scopes.filter(|scope: LayoutScope| scope.output != output)
}

/// Those of `scopes` that are of `output`.
pub open spec fn scopes_there(scopes: Seq<LayoutScope>, output: OutputId) -> Seq<LayoutScope> {
    scopes.filter(|scope: LayoutScope| scope.output == output)
}

impl World {
    // The senses.

    /// The tag switch on `output`, if there is one, at what easing yields.
    pub open spec fn slide_sampled(self, output: OutputId, eased: Scalar, offset: i32) -> World {
        match lookup(self.slides, output) {
            Some(slide) => World {
                slides: filed(self.slides, output, Slide { eased, offset, ..slide }),
                ..self
            },
            None => self,
        }
    }

    /// The box of `surface`, if it is in motion, at what easing yields.
    pub open spec fn morph_sampled(self, surface: SurfaceId, eased: Scalar, current: Rect) -> World {
        match lookup(self.morphs, surface) {
            Some(morph) => World {
                morphs: filed(self.morphs, surface, WindowMorph { eased, current, ..morph }),
                ..self
            },
            None => self,
        }
    }

    // Outputs.

    /// With a bar told about the first `n` tags of `output`.
    pub open spec fn workspaces_announced(self, bar: u64, output: OutputId, n: nat) -> World
        decreases n,
    {
        if n == 0 {
            self
        } else {
            let scope = LayoutScope { output, tag: TagId((n - 1) as u32) };
            self.workspaces_announced(bar, output, (n - 1) as nat).emit(
                Effect::AnnounceWorkspace {
                    bar,
                    scope,
                    number: n as u32,
                    active: self.tag_active(scope),
                    hidden: self.tag_hidden(scope),
                },
            )
        }
    }

    /// With a bar told about `output`.
    pub open spec fn output_announced(self, bar: u64, output: OutputId) -> World {
        self.emit(Effect::AnnounceGroup { bar, output }).workspaces_announced(
            bar,
            output,
            NUM_TAGS as nat,
        )
    }

    pub open spec fn outputs_announced(self, bar: u64, ids: Seq<OutputId>) -> World
        decreases ids.len(),
    {
        if ids.len() == 0 {
            self
        } else {
            self.outputs_announced(bar, ids.drop_last()).output_announced(bar, ids.last())
        }
    }

    /// With each of `bars` told about `output`.
    pub open spec fn output_announced_to(self, bars: Seq<BarModel>, output: OutputId) -> World
        decreases bars.len(),
    {
        if bars.len() == 0 {
            self
        } else {
            let bar = bars.last().id;
            self.output_announced_to(bars.drop_last(), output).output_announced(
                bar,
                output,
            ).emit(Effect::WorkspaceDone { bar })
        }
    }

    pub open spec fn workspaces_removed(self, bar: u64, scopes: Seq<LayoutScope>) -> World
        decreases scopes.len(),
    {
        if scopes.len() == 0 {
            self
        } else {
            self.workspaces_removed(bar, scopes.drop_last()).emit(
                Effect::RemoveWorkspace { bar, scope: scopes.last() },
            )
        }
    }

    /// What a bar still knows once `output` is gone.
    pub open spec fn bar_without(bar: BarModel, output: OutputId) -> BarModel {
        if has_key(bar.groups, output) {
            BarModel {
                groups: group_gone(bar.groups, output),
                workspaces: scopes_elsewhere(bar.workspaces, output),
                ..bar
            }
        } else {
            bar
        }
    }

    /// With those of the first `n` bars that know `output` told that it is
    /// gone.
    pub open spec fn output_gone_from(self, output: OutputId, n: nat) -> World
        decreases n,
    {
        if n == 0 {
            self
        } else {
            let before = self.output_gone_from(output, (n - 1) as nat);
            let bar = self.bars[n - 1];
            if has_key(bar.groups, output) {
                World {
                    bars: before.bars.update(n - 1, World::bar_without(bar, output)),
                    ..before
                }.workspaces_removed(bar.id, scopes_there(bar.workspaces, output)).emit(
                    Effect::RemoveGroup { bar: bar.id, output },
                ).emit(Effect::WorkspaceDone { bar: bar.id })
            } else {
                before
            }
        }
    }

    /// With a bar called `bar`, told about every active output.
    pub open spec fn bar_bound(self, bar: u64) -> World {
        World {
            bars: self.bars.push(
                BarModel { id: bar, groups: Seq::empty(), workspaces: Seq::empty() },
            ),
            ..self
        }.outputs_announced(bar, self.outputs.active_ids(self.outputs.infos.len())).emit(
            Effect::WorkspaceDone { bar },
        )
    }

    /// With `model` for the bar called `bar`, if there is one.
    pub open spec fn bar_changed(self, bar: u64, model: spec_fn(BarModel) -> BarModel) -> World {
        match bar_index(self.bars, bar) {
            Some(i) => World { bars: self.bars.update(i, model(self.bars[i])), ..self },
            None => self,
        }
    }

    /// With bar `bar` knowing the group of `output`; `entered` says whether
    /// it was told the output too.
    pub open spec fn group_announced(self, bar: u64, output: OutputId, entered: bool) -> World {
        self.bar_changed(
            bar,
            |model: BarModel| BarModel { groups: filed(model.groups, output, entered), ..model },
        )
    }

    /// With bar `bar` told the output of a group that it knows.
    pub open spec fn group_entered(self, bar: u64, output: OutputId) -> World {
        self.bar_changed(
            bar,
            |model: BarModel|
                BarModel {
                    groups: if has_key(model.groups, output) {
                        filed(model.groups, output, true)
                    } else {
                        model.groups
                    },
                    ..model
                },
        )
    }

    /// With bar `bar` knowing a tag as a workspace.
    pub open spec fn workspace_announced(self, bar: u64, scope: LayoutScope) -> World {
        self.bar_changed(
            bar,
            |model: BarModel|
                BarModel { workspaces: scopes_with(model.workspaces, scope), ..model },
        )
    }

    /// With bar `bar` no longer holding a workspace.
    pub open spec fn workspace_dropped(self, bar: u64, scope: LayoutScope) -> World {
        self.bar_changed(
            bar,
            |model: BarModel|
                BarModel { workspaces: scopes_but(model.workspaces, scope), ..model },
        )
    }

    /// With bar `bar`, which has taken in what it was sent, told what it
    /// could not be told before.
    pub open spec fn bar_committed(self, bar: u64) -> World {
        match bar_index(self.bars, bar) {
            Some(i) => self.groups_entered(bar, self.bars[i].groups).emit(
                Effect::WorkspaceDone { bar },
            ),
            None => self,
        }
    }

    /// Without the bars called `bar`.
    pub open spec fn bar_gone(self, bar: u64) -> World {
        World { bars: self.bars.filter(|model: BarModel| model.id != bar), ..self }
    }

    /// With the tag of a workspace shown: its output is focused first.
    pub open spec fn workspace_activated(self, scope: LayoutScope) -> World {
        self.output_focused(scope.output).tag_changed(scope.tag)
    }

    /// With an output called `name` mapped at `geometry`, of which its layers
    /// leave `zone`, and made known to every bar.
    pub open spec fn output_connected(
        self,
        name: Seq<char>,
        geometry: Tile,
        zone: Tile,
    ) -> World {
        let id = self.outputs.inserted_id(name);
        let inserted = World {
            outputs: self.outputs.inserted(name),
            screens: filed(self.screens, id, geometry),
            zones: self.zones.insert(id, zone),
            ..self
        };
        inserted.output_announced_to(self.bars, id)
    }

    /// Without the output called `name` on the plane.
    pub open spec fn output_disconnected(self, name: Seq<char>) -> World {
        match self.outputs.named(name) {
            None => self,
            Some(i) => {
                let id = self.outputs.infos[i].id;
                let told = self.output_gone_from(id, self.bars.len());
                World {
                    outputs: self.outputs.deactivated(name),
                    screens: unfiled(self.screens, id),
                    ..told
                }
            },
        }
    }

    /// With output `id` at another geometry and its layers leaving another
    /// zone.
    pub open spec fn output_resized(self, id: OutputId, geometry: Tile, zone: Tile) -> World {
        World {
            screens: if has_key(self.screens, id) {
                filed(self.screens, id, geometry)
            } else {
                self.screens
            },
            zones: self.zones.insert(id, zone),
            ..self
        }
    }

    // The pointer.

    /// The first of the mapped outputs that a point lies on.
    pub open spec fn screen_at(screens: Seq<(OutputId, Tile)>, x: Scalar, y: Scalar) -> Option<OutputId>
        decreases screens.len(),
    {
        if screens.len() == 0 {
            None
        } else if holds(screens[0].1, x, y) {
            Some(screens[0].0)
        } else {
            World::screen_at(screens.skip(1), x, y)
        }
    }

    /// The last of the mapped outputs that a point lies on.
    pub open spec fn last_screen_at(screens: Seq<(OutputId, Tile)>, x: Scalar, y: Scalar) -> Option<
        OutputId,
    >
        decreases screens.len(),
    {
        if screens.len() == 0 {
            None
        } else if holds(screens.last().1, x, y) {
            Some(screens.last().0)
        } else {
            World::last_screen_at(screens.drop_last(), x, y)
        }
    }

    /// The first of `ids` that is mapped where a point lies.
    pub open spec fn output_around(self, ids: Seq<OutputId>, x: Scalar, y: Scalar) -> Option<OutputId>
        decreases ids.len(),
    {
        if ids.len() == 0 {
            None
        } else {
            match lookup(self.screens, ids[0]) {
                Some(geo) => if holds(geo, x, y) {
                    Some(ids[0])
                } else {
                    self.output_around(ids.skip(1), x, y)
                },
                None => self.output_around(ids.skip(1), x, y),
            }
        }
    }

    /// With the output that the pointer is on focused.
    pub open spec fn pointer_followed(self, x: Scalar, y: Scalar) -> World {
        match self.output_around(self.outputs.active_ids(self.outputs.infos.len()), x, y) {
            Some(id) => if self.outputs.at(self.outputs.focused).id != id {
                World { outputs: OutputsModel { focused: id, ..self.outputs }, ..self }
            } else {
                self
            },
            None => self,
        }
    }

    // Windows.

    /// The output that a window opened while the pointer is at a point comes
    /// to: the one there, or else the focused one.
    pub open spec fn birthplace(self, x: Scalar, y: Scalar) -> OutputId {
        match World::last_screen_at(self.screens, x, y) {
            Some(id) => id,
            None => self.outputs.at(self.outputs.focused).id,
        }
    }

    /// With a new window on top of the tag that `output` shows, no window of
    /// the focused output's tag fullscreen, and the new one focused.
    pub open spec fn toplevel_opened(self, surface: SurfaceId, output: OutputId) -> World {
        let scope = self.shown(output);
        let info = WindowInfo {
            tag: scope.tag,
            output,
            window: Window { surface, width: 0, height: 0 },
            fullscreen: false,
            floating: false,
            last_configured: None,
            last_fractional_scale: None,
        };
        let id = self.windows.fresh_id();
        let placed = World { windows: self.windows.inserted(info), ..self }.mapped(
            surface,
            Point { x: 0, y: 0 },
            true,
        );
        placed.all_uncovered().relaid(Some(scope), true).focus_changed(id, surface)
    }

    /// With no window of the tag that the focused output shows fullscreen.
    pub open spec fn all_uncovered(self) -> World {
        match self.outputs.current_tag() {
            Some(tag) => self.uncovered(
                self.windows.rendered(LayoutScope { output: self.outputs.focused, tag }),
            ),
            None => self,
        }
    }

    /// Without the window of `surface`, and with the output that it was on
    /// laid out anew.
    pub open spec fn toplevel_closed(self, surface: SurfaceId) -> World {
        let removed = self.window_removed(surface);
        let laid = match self.windows.indexed(surface) {
            Some(id) => removed.relaid(Some(self.windows.infos[id].home()), true),
            None => removed,
        };
        laid.emit(Effect::Render)
    }

    /// With the size that the window of `root` has committed.
    pub open spec fn size_noted(self, root: SurfaceId, width: i32, height: i32) -> World {
        match self.windows.indexed(root) {
            Some(id) => match self.windows.info(id) {
                Some(info) => self.with_info(
                    id,
                    WindowInfo { window: Window { surface: info.window.surface, width, height }, ..info },
                ),
                None => self,
            },
            None => self,
        }
    }

    /// The output that the window of `root` is on.
    pub open spec fn output_of(self, root: SurfaceId) -> Option<OutputId> {
        match self.windows.indexed(root) {
            Some(id) => match self.windows.info(id) {
                Some(info) => Some(info.output),
                None => None,
            },
            None => None,
        }
    }

    /// With the first commit of a window seen to: it floats if it has a
    /// parent, its output is laid out if that is news, and it is sent its
    /// first configure.
    pub open spec fn first_committed(self, surface: SurfaceId, has_parent: bool) -> World {
        let settled = match self.windows.indexed(surface) {
            Some(id) => match self.windows.info(id) {
                Some(info) => if info.floating != has_parent {
                    self.with_info(id, WindowInfo { floating: has_parent, ..info }).relaid(
                        Some(info.home()),
                        true,
                    )
                } else {
                    self
                },
                None => self,
            },
            None => self,
        };
        settled.emit(Effect::FirstConfigure { surface })
    }

    // Layers.

    /// With the layers of output `id` leaving `zone`.
    pub open spec fn zone_noted(self, id: OutputId, zone: Tile) -> World {
        World { zones: self.zones.insert(id, zone), ..self }
    }

    pub open spec fn layer_opened(self, surface: SurfaceId, id: OutputId, zone: Tile) -> World {
        World {
            layers: self.layers.push((id, LayerEntry { surface, init_config: false })),
            ..self
        }.zone_noted(id, zone).relaid(Some(self.shown(id)), true)
    }

    pub open spec fn layer_closed(self, surface: SurfaceId, zone: Tile) -> World {
        match layer_index(self.layers, surface) {
            None => self,
            Some(i) => {
                let id = self.layers[i].0;
                World { layers: layers_without(self.layers, id, surface), ..self }.zone_noted(
                    id,
                    zone,
                ).relaid(Some(self.shown(id)), true)
            },
        }
    }

    /// With a commit of a layer seen to: it is sent its size the first time,
    /// and its output is laid out if what the layers leave has changed.
    pub open spec fn layer_committed(
        self,
        surface: SurfaceId,
        anchors: Anchors,
        zone: Tile,
    ) -> World {
        match layer_index(self.layers, surface) {
            None => self,
            Some(i) => {
                let (id, entry) = self.layers[i];
                let (width, height) = layer_size(anchors, zone);
                let told = if entry.init_config {
                    self
                } else {
                    World {
                        layers: self.layers.update(
                            i,
                            (id, LayerEntry { init_config: true, ..entry }),
                        ),
                        ..self
                    }.emit(
                        Effect::ConfigureLayer {
                            surface,
                            width: width as i32,
                            height: height as i32,
                        },
                    )
                };
                if self.zones.contains_key(id) && self.zones[id] == zone {
                    told
                } else {
                    told.zone_noted(id, zone).relaid(Some(self.shown(id)), true)
                }
            },
        }
    }

    // Scale.

    /// Window `id` is on output `output` and was not told `scale` yet.
    pub open spec fn scale_news(self, id: WindowId, output: OutputId, scale: Scalar) -> bool {
        &&& self.windows.infos.contains_key(id)
        &&& self.windows.infos[id].output == output
        &&& match self.windows.infos[id].last_fractional_scale {
            Some(known) => !known.equals(scale),
            None => true,
        }
    }

    /// With those of `ids` that are on `output` told about its scale, unless
    /// they were told the same the last time.
    pub open spec fn windows_scaled(
        self,
        ids: Seq<WindowId>,
        output: OutputId,
        scale: Scalar,
    ) -> World
        decreases ids.len(),
    {
        if ids.len() == 0 {
            self
        } else {
            let before = self.windows_scaled(ids.drop_last(), output, scale);
            let id = ids.last();
            if before.scale_news(id, output, scale) {
                let info = before.windows.infos[id];
                before.emit(
                    Effect::PreferScale { surface: info.window.surface, scale },
                ).with_info(id, WindowInfo { last_fractional_scale: Some(scale), ..info })
            } else {
                before
            }
        }
    }

    pub open spec fn layers_scaled(self, layers: Seq<LayerEntry>, scale: Scalar) -> World
        decreases layers.len(),
    {
        if layers.len() == 0 {
            self
        } else {
            self.layers_scaled(layers.drop_last(), scale).emit(
                Effect::PreferScale { surface: layers.last().surface, scale },
            )
        }
    }

    /// With every window and layer of `output` told about its scale.
    pub open spec fn output_scaled(self, output: OutputId, scale: Scalar) -> World {
        self.windows_scaled(self.windows.roll, output, scale).layers_scaled(
            layers_of(self.layers, output),
            scale,
        )
    }

    /// The output whose scale a new surface is first told: the one that its
    /// window is on, or else the first.
    pub open spec fn scale_source(self, root: SurfaceId, overlap: Option<OutputId>) -> Option<
        OutputId,
    > {
        if self.output_of(root) is Some && overlap is Some {
            overlap
        } else if self.screens.len() > 0 {
            Some(self.screens[0].0)
        } else {
            None
        }
    }
}

} // verus!
