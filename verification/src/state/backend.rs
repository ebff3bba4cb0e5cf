//! Outputs as they come and go, and what is drawn on them.
pub mod udev;
pub mod winit;

use vstd::prelude::*;

use crate::layer::layers_of;
use crate::layout::{in_i32, Rect, Tile};
use crate::output::{
    lemma_outputs_stay_wf, LayoutScope, OutputId, OutputsModel, TagId,
};
use crate::scalar::Scalar;
use crate::state::Alice;
use crate::table::{
    filed, files_at, has_key, index_of_key, lemma_keys_stay_distinct, lookup, unfiled,
};
use crate::window::{SurfaceId, WindowId};
use crate::world::{moderate, sound_info, sound_screens, sound_slide, World};
use crate::world_laws::lemma_screen;

verus! {

broadcast use crate::table::group_keys_distinct;

/// Outputs that know as many as before, or more, keep the state sound.
pub proof fn lemma_more_outputs_wf(w: World, outputs: OutputsModel)
    requires
        w.wf(),
        outputs.wf(),
        outputs.infos.len() >= w.outputs.infos.len(),
    ensures
        (World { outputs, ..w }).wf(),
{
    let t = World { outputs, ..w };
    assert forall|id: WindowId| #[trigger] t.windows.infos.contains_key(id) implies sound_info(
        t.windows.infos[id],
        t.outputs,
    ) by {
        assert(w.windows.infos.contains_key(id));
        assert(sound_info(w.windows.infos[id], w.outputs));
    }
    assert forall|i: int| 0 <= i < t.slides.len() implies {
        &&& t.outputs.has((#[trigger] t.slides[i]).0)
        &&& sound_slide(t.slides[i].1)
    } by {
        assert(w.outputs.has(w.slides[i].0));
    }
    assert forall|i: int| 0 <= i < t.layers.len() implies t.outputs.has(
        (#[trigger] t.layers[i]).0,
    ) by {
        assert(w.outputs.has(w.layers[i].0));
    }
}

/// Mapping an output that exists keeps the mapped outputs sound.
proof fn lemma_screens_filed(
    screens: Seq<(OutputId, Tile)>,
    outputs: OutputsModel,
    id: OutputId,
    geometry: Tile,
)
    requires
        sound_screens(screens, outputs),
        outputs.has(id),
        moderate(geometry),
        0 <= geometry.width,
        0 <= geometry.height,
    ensures
        sound_screens(filed(screens, id, geometry), outputs),
{
    lemma_keys_stay_distinct(screens, id, geometry);
    let after = filed(screens, id, geometry);
    if has_key(screens, id) {
        assert(files_at(screens, id, index_of_key(screens, id)));
    }
    assert forall|i: int| 0 <= i < after.len() implies {
        &&& outputs.has((#[trigger] after[i]).0)
        &&& moderate(after[i].1)
        &&& 0 <= after[i].1.width
        &&& 0 <= after[i].1.height
    } by {
        if i < screens.len() && after[i] == screens[i] {
            assert(outputs.has(screens[i].0));
        }
    }
}

/// Unmapping an output keeps the mapped outputs sound.
proof fn lemma_screens_unfiled(
    screens: Seq<(OutputId, Tile)>,
    outputs: OutputsModel,
    id: OutputId,
)
    requires
        sound_screens(screens, outputs),
    ensures
        sound_screens(unfiled(screens, id), outputs),
{
    if has_key(screens, id) {
        let k = index_of_key(screens, id);
        assert(files_at(screens, id, k));
        lemma_keys_stay_distinct(screens, id, screens[k].1);
        let after = unfiled(screens, id);
        assert forall|i: int| 0 <= i < after.len() implies {
            &&& outputs.has((#[trigger] after[i]).0)
            &&& moderate(after[i].1)
            &&& 0 <= after[i].1.width
            &&& 0 <= after[i].1.height
        } by {
            if i < k {
                assert(after[i] == screens[i]);
            } else {
                assert(after[i] == screens[i + 1]);
            }
        }
    }
}

/// Mapping an output that exists keeps the state sound.
pub proof fn lemma_screen_filed_wf(w: World, id: OutputId, geometry: Tile)
    requires
        w.wf(),
        w.outputs.has(id),
        moderate(geometry),
        0 <= geometry.width,
        0 <= geometry.height,
    ensures
        (World { screens: filed(w.screens, id, geometry), ..w }).wf(),
{
    lemma_screens_filed(w.screens, w.outputs, id, geometry);
}

/// Unmapping an output keeps the state sound.
pub proof fn lemma_screen_unfiled_wf(w: World, id: OutputId)
    requires
        w.wf(),
    ensures
        (World { screens: unfiled(w.screens, id), ..w }).wf(),
{
    lemma_screens_unfiled(w.screens, w.outputs, id);
}

/// Telling bars about an output, or that it is gone, changes nothing but the
/// bars and what was requested.
pub proof fn lemma_output_told(w: World, output: OutputId, n: nat)
    requires
        n <= w.bars.len(),
    ensures
        ({
            let t = w.output_announced_to(w.bars.take(n as int), output);
            t == (World { effects: t.effects, ..w })
        }),
        ({
            let t = w.output_gone_from(output, n);
            t == (World { bars: t.bars, effects: t.effects, ..w })
        }),
    decreases n,
{
    if n > 0 {
        lemma_output_told(w, output, (n - 1) as nat);
        assert(w.bars.take(n as int).drop_last() =~= w.bars.take(n - 1));
        let before = w.output_announced_to(w.bars.take(n - 1), output);
        crate::handlers::workspace::lemma_output_announced(before, w.bars[n - 1].id, output);
        let gone = w.output_gone_from(output, (n - 1) as nat);
        let bar = w.bars[n - 1];
        crate::handlers::workspace::lemma_workspaces_removed(
            World { bars: gone.bars.update(n - 1, World::bar_without(bar, output)), ..gone },
            bar.id,
            crate::world_events::scopes_there(bar.workspaces, output),
        );
    }
}

/// The widths of those of `ids` that are mapped, added up.
pub open spec fn widths(w: World, ids: Seq<OutputId>) -> int
    decreases ids.len(),
{
    if ids.len() == 0 {
        0
    } else {
        widths(w, ids.drop_last()) + match lookup(w.screens, ids.last()) {
            Some(geo) => geo.width,
            None => 0,
        }
    }
}

/// Widths are not negative.
proof fn lemma_widths(w: World, ids: Seq<OutputId>, n: int)
    requires
        w.wf(),
        0 <= n <= ids.len(),
    ensures
        0 <= widths(w, ids.take(n)) <= widths(w, ids),
    decreases ids.len(),
{
    if ids.len() > 0 {
        if lookup(w.screens, ids.last()) is Some {
            let k = index_of_key(w.screens, ids.last());
            assert(files_at(w.screens, ids.last(), k));
            assert(w.outputs.has(w.screens[k].0));
        }
        if n < ids.len() {
            assert(ids.take(n) =~= ids.drop_last().take(n));
            lemma_widths(w, ids.drop_last(), n);
        } else {
            assert(ids.take(n) =~= ids);
            lemma_widths(w, ids.drop_last(), n - 1);
        }
    }
}

/// A mode of a connector. `distance` is how far its refresh rate lies from
/// the configured one, if one is configured.
#[derive(Debug, Clone, Copy, PartialEq, Eq, Structural)]
pub struct ModeInfo {
    pub width: u16,
    pub height: u16,
    pub refresh: u32,
    pub preferred: bool,
    pub distance: Scalar,
}

/// Mode `i` is the first that the connector prefers.
pub open spec fn is_first_preferred(modes: Seq<ModeInfo>, i: int) -> bool {
    &&& 0 <= i < modes.len()
    &&& modes[i].preferred
    &&& forall|j: int| 0 <= j < i ==> !(#[trigger] modes[j]).preferred
}

/// The mode that a connector comes up with: the first that it prefers, or
/// else its first.
pub open spec fn is_default_mode(modes: Seq<ModeInfo>, i: int) -> bool {
    if exists|k: int| is_first_preferred(modes, k) {
        is_first_preferred(modes, i)
    } else {
        i == 0 && modes.len() > 0
    }
}

/// Both modes have the same size.
pub open spec fn same_size(a: ModeInfo, b: ModeInfo) -> bool {
    a.width == b.width && a.height == b.height
}

/// Of the modes of the same size as mode `d`, mode `i` is the one whose
/// refresh rate is nearest to the configured one, and the first of those.
pub open spec fn is_closest_mode(modes: Seq<ModeInfo>, d: int, i: int) -> bool {
    &&& 0 <= i < modes.len()
    &&& same_size(modes[i], modes[d])
    &&& forall|j: int|
        0 <= j < modes.len() && same_size(#[trigger] modes[j], modes[d]) ==> if j < i {
            modes[i].distance.bits < modes[j].distance.bits
        } else {
            modes[i].distance.bits <= modes[j].distance.bits
        }
}

proof fn lemma_some_preferred(modes: Seq<ModeInfo>, j: int)
    requires
        0 <= j < modes.len(),
        modes[j].preferred,
    ensures
        exists|k: int| is_first_preferred(modes, k),
    decreases j,
{
    if exists|k: int| 0 <= k < j && (#[trigger] modes[k]).preferred {
        lemma_some_preferred(modes, choose|k: int| 0 <= k < j && (#[trigger] modes[k]).preferred);
    } else {
        assert(is_first_preferred(modes, j));
    }
}

proof fn lemma_default_mode(modes: Seq<ModeInfo>, i: int)
    requires
        is_default_mode(modes, i),
    ensures
        (exists|j: int| 0 <= j < modes.len() && (#[trigger] modes[j]).preferred)
            ==> modes[i].preferred,
        (forall|j: int| 0 <= j < modes.len() ==> !(#[trigger] modes[j]).preferred) ==> i == 0,
        forall|j: int| 0 <= j < i ==> !(#[trigger] modes[j]).preferred,
        0 <= i < modes.len(),
{
    if exists|j: int| 0 <= j < modes.len() && (#[trigger] modes[j]).preferred {
        lemma_some_preferred(
            modes,
            choose|j: int| 0 <= j < modes.len() && (#[trigger] modes[j]).preferred,
        );
    }
}

/// The mode that a connector comes up with.
fn default_mode(modes: &Vec<ModeInfo>) -> (slot: Option<usize>)
    ensures
        match slot {
            Some(i) => is_default_mode(modes@, i as int) && i < modes@.len(),
            None => modes@.len() == 0,
        },
{
    let mut i: usize = 0;
    while i < modes.len()
        invariant
            i <= modes.len(),
            forall|j: int| 0 <= j < i ==> !(#[trigger] modes@[j]).preferred,
        decreases modes.len() - i,
    {
        if modes[i].preferred {
            assert(is_first_preferred(modes@, i as int));
            return Some(i);
        }
        i += 1;
    }
    if modes.len() > 0 {
        Some(0)
    } else {
        None
    }
}

/// The mode to use: the one that the connector comes up with or, if a refresh
/// rate is configured, the one of that size whose own is nearest to it.
pub fn select_mode(modes: &Vec<ModeInfo>, wants_refresh: bool) -> (slot: Option<usize>)
    ensures
        match slot {
            Some(i) => {
                &&& i < modes@.len()
                &&& if wants_refresh {
                    exists|d: int|
                        is_default_mode(modes@, d) && is_closest_mode(modes@, d, i as int)
                } else {
                    is_default_mode(modes@, i as int)
                }
            },
            None => modes@.len() == 0,
        },
        modes@.len() > 0 ==> slot is Some,
        slot matches Some(i) ==> !wants_refresh ==> {
            &&& (exists|j: int| 0 <= j < modes@.len() && (#[trigger] modes@[j]).preferred)
                ==> modes@[i as int].preferred
            &&& (forall|j: int| 0 <= j < modes@.len() ==> !(#[trigger] modes@[j]).preferred) ==> i
                == 0
            &&& forall|j: int| 0 <= j < i ==> !(#[trigger] modes@[j]).preferred
        },
        slot matches Some(i) ==> wants_refresh ==> {
            &&& forall|j: int|
                0 <= j < modes@.len() && (#[trigger] modes@[j]).width == modes@[i as int].width
                    && modes@[j].height == modes@[i as int].height
                    ==> modes@[i as int].distance.bits <= modes@[j].distance.bits
            &&& (exists|j: int| 0 <= j < modes@.len() && (#[trigger] modes@[j]).preferred)
                ==> exists|j: int|
                0 <= j < modes@.len() && (#[trigger] modes@[j]).preferred && modes@[j].width
                    == modes@[i as int].width && modes@[j].height == modes@[i as int].height
        },
{
    let Some(d) = default_mode(modes) else {
        return None;
    };
    proof {
        lemma_default_mode(modes@, d as int);
    }
    if !wants_refresh {
        return Some(d);
    }
    let size = modes[d];
    let mut best: Option<usize> = None;
    let mut i: usize = 0;
    while i < modes.len()
        invariant
            i <= modes.len(),
            d < modes.len(),
            size == modes@[d as int],
            match best {
                Some(b) => {
                    &&& b < i
                    &&& same_size(modes@[b as int], size)
                    &&& forall|j: int|
                        0 <= j < i && same_size(#[trigger] modes@[j], size) ==> if j < b {
                            modes@[b as int].distance.bits < modes@[j].distance.bits
                        } else {
                            modes@[b as int].distance.bits <= modes@[j].distance.bits
                        }
                },
                None => forall|j: int|
                    0 <= j < i ==> !same_size(#[trigger] modes@[j], size),
            },
        decreases modes.len() - i,
    {
        let mode = modes[i];
        if mode.width == size.width && mode.height == size.height {
            let nearer = match best {
                Some(b) => mode.distance.bits < modes[b].distance.bits,
                None => true,
            };
            if nearer {
                best = Some(i);
            }
        }
        i += 1;
    }
    proof {
        match best {
            Some(b) => {
                assert(is_closest_mode(modes@, d as int, b as int));
                assert forall|j: int|
                    0 <= j < modes@.len() && (#[trigger] modes@[j]).width == modes@[b as int].width
                        && modes@[j].height
                        == modes@[b as int].height implies modes@[b as int].distance.bits
                    <= modes@[j].distance.bits by {
                    assert(same_size(modes@[j], modes@[d as int]));
                }
                assert(modes@[d as int].width == modes@[b as int].width);
            },
            None => {
                assert(same_size(modes@[d as int], size));
            },
        }
    }
    best
}

/// A refresh rate in thousandths of a hertz.
pub fn millihertz(refresh: u32) -> (r: i32)
    requires
        refresh * 1000 <= i32::MAX,
    ensures
        r == refresh * 1000,
{
    refresh as i32 * 1000
}

/// What the outside is asked to draw, topmost first.
#[derive(Debug, Clone, Copy, PartialEq, Eq, Structural)]
pub enum SceneItem {
    /// The pointer's image.
    Cursor,
    /// The boxes in motion.
    Morphs,
    /// The layers of one kind, each where it was arranged.
    Layers(LayerKind),
    /// One window, at the output's origin.
    Window(SurfaceId),
    /// The lock's surface, at the output's origin.
    Lock(SurfaceId),
    /// Everything on the plane, layers included.
    Plane,
}

/// The kinds of layers, topmost first.
#[derive(Debug, Clone, Copy, PartialEq, Eq, Structural)]
pub enum LayerKind {
    Overlay,
    Top,
    Bottom,
    Background,
}

/// What stands on an output behind pointer and boxes in motion.
pub open spec fn scenery(w: World, scope: LayoutScope) -> Seq<SceneItem> {
    if w.locked {
        if w.lock_surfaces.contains_key(scope.output) {
            seq![
                SceneItem::Layers(LayerKind::Overlay),
                SceneItem::Lock(w.lock_surfaces[scope.output]),
            ]
        } else {
            seq![]
        }
    } else {
        match w.windows.first_covering(w.windows.rendered(scope)) {
            Some(id) => seq![
                SceneItem::Layers(LayerKind::Overlay),
                SceneItem::Window(w.windows.infos[id].window.surface),
                SceneItem::Layers(LayerKind::Bottom),
                SceneItem::Layers(LayerKind::Background),
            ],
            None => seq![SceneItem::Plane],
        }
    }
}

/// What is to be drawn on an output that shows `scope`, topmost first.
pub open spec fn planned(w: World, scope: LayoutScope, cursor: bool, morphs: bool) -> Seq<
    SceneItem,
> {
    (if cursor {
        seq![SceneItem::Cursor]
    } else {
        seq![]
    }) + (if morphs {
        seq![SceneItem::Morphs]
    } else {
        seq![]
    }) + scenery(w, scope)
}

/// Besides the pointer and, if they are asked for, the boxes in motion, a
/// locked output shows the layers above everything and the lock's own
/// surface, and nothing else: no window at rest and no other layer.
pub proof fn lemma_lock_hides_session(
    w: World,
    scope: LayoutScope,
    cursor: bool,
    morphs: bool,
    i: int,
)
    requires
        w.locked,
        0 <= i < planned(w, scope, cursor, morphs).len(),
    ensures
        ({
            let item = planned(w, scope, cursor, morphs)[i];
            ||| cursor && item == SceneItem::Cursor
            ||| morphs && item == SceneItem::Morphs
            ||| w.lock_surfaces.contains_key(scope.output) && (item == SceneItem::Layers(
                LayerKind::Overlay,
            ) || item == SceneItem::Lock(w.lock_surfaces[scope.output]))
        }),
{
}

/// The surfaces of the windows on the plane.
pub open spec fn surfaces_on(elements: Seq<(SurfaceId, crate::animation::Point)>) -> Seq<
    SurfaceId,
> {
    elements.map_values(|e: (SurfaceId, crate::animation::Point)| e.0)
}

/// The surfaces that are told when a frame of output `id` was shown.
pub open spec fn audience(w: World, id: OutputId) -> Seq<SurfaceId> {
    let shown = surfaces_on(w.elements) + layers_of(w.layers, id).map_values(
        |entry: crate::layer::LayerEntry| entry.surface,
    );
    if w.lock_surfaces.contains_key(id) {
        shown.push(w.lock_surfaces[id])
    } else {
        shown
    }
}

impl Alice {
    /// Where an output goes: where it is configured to, or else to the right
    /// of all those that are mapped.
    pub fn output_place(&self, name: &str) -> (place: (i32, i32))
        requires
            self@.wf(),
            lookup(self@.config.positions, name@) is None ==> in_i32(
                widths(self@, self@.outputs.active_ids(self@.outputs.infos.len())),
            ),
        ensures
            place == match lookup(self@.config.positions, name@) {
                Some(position) => (position.x, position.y),
                None => (
                    widths(
                        self@,
                        self@.outputs.active_ids(self@.outputs.infos.len()),
                    ) as i32,
                    0,
                ),
            },
    {
        if let Some(position) = self.config.get_output_position(name) {
            return (position.x, position.y);
        }
        let ids = self.outputs.iter();
        let mut sum: i32 = 0;
        let mut i: usize = 0;
        assert(ids@.take(0) =~= Seq::<OutputId>::empty());
        while i < ids.len()
            invariant
                self@.wf(),
                i <= ids.len(),
                in_i32(widths(self@, ids@)),
                sum == widths(self@, ids@.take(i as int)),
            decreases ids.len() - i,
        {
            assert(ids@.take(i + 1).drop_last() =~= ids@.take(i as int));
            proof {
                lemma_widths(self@, ids@, i + 1);
            }
            if let Some(geo) = self.space.outputs.get(ids[i]) {
                sum = sum + geo.width;
            }
            i += 1;
        }
        assert(ids@.take(i as int) =~= ids@);
        (sum, 0)
    }

    /// Maps an output and makes it known to every bar. An output that was
    /// here before comes back on the tag that it showed.
    pub fn output_connected(&mut self, name: String, geometry: Rect, zone: Rect) -> (id: OutputId)
        requires
            old(self)@.wf(),
            old(self)@.outputs.named(name@) is None ==> old(self)@.outputs.infos.len() < u32::MAX,
            moderate(geometry@),
            0 <= geometry.width,
            0 <= geometry.height,
            moderate(zone@),
        ensures
            id == old(self)@.outputs.inserted_id(name@),
            final(self)@ == old(self)@.output_connected(name@, geometry@, zone@),
            final(self)@.wf(),
            final(self)@.outputs.has(id),
    {
        proof {
            let outputs = self@.outputs.inserted(name@);
            lemma_outputs_stay_wf(self@.outputs, name@, TagId(0));
            lemma_more_outputs_wf(self@, outputs);
            lemma_screen_filed_wf(
                World { outputs, ..self@ },
                self@.outputs.inserted_id(name@),
                geometry@,
            );
        }
        let id = self.outputs.insert(name);
        self.space.outputs.insert(id, geometry);
        self.layer_zone_cache.insert(id, zone);
        proof {
            lemma_output_told(self@, id, self@.bars.len());
            assert(self@.bars.take(self@.bars.len() as int) =~= self@.bars);
        }
        self.workspace_output_added(id);
        id
    }

    /// Takes an output off the plane and tells every bar so.
    pub fn output_disconnected(&mut self, name: &str)
        requires
            old(self)@.wf(),
        ensures
            final(self)@ == old(self)@.output_disconnected(name@),
            final(self)@.wf(),
    {
        let id = match self.outputs.get(name) {
            Some(info) => info.id,
            None => return,
        };
        proof {
            lemma_output_told(self@, id, self@.bars.len());
            let told = self@.output_gone_from(id, self@.bars.len());
            let outputs = self@.outputs.deactivated(name@);
            lemma_deactivated_wf(self@.outputs, name@);
            crate::world_laws::lemma_outputs_wf(told, outputs);
            lemma_screen_unfiled_wf(World { outputs, ..told }, id);
        }
        self.workspace_output_removed(id);
        self.outputs.deactivate(name);
        self.space.outputs.remove(id);
    }

    /// Records another geometry of an output, and what its layers leave.
    pub fn output_resized(&mut self, id: OutputId, geometry: Rect, zone: Rect)
        requires
            old(self)@.wf(),
            moderate(geometry@),
            0 <= geometry.width,
            0 <= geometry.height,
            moderate(zone@),
        ensures
            final(self)@ == old(self)@.output_resized(id, geometry@, zone@),
            final(self)@.wf(),
    {
        if self.space.outputs.contains(id) {
            proof {
                lemma_screen(self@, id);
                lemma_screen_filed_wf(self@, id, geometry@);
            }
            self.space.outputs.insert(id, geometry);
        }
        self.layer_zone_cache.insert(id, zone);
    }

    /// The tag that the output called `name` shows.
    pub fn output_scope(&self, name: &str) -> (scope: Option<LayoutScope>)
        requires
            self@.wf(),
        ensures
            scope == match self@.outputs.named(name@) {
                Some(i) => Some(self@.shown(self@.outputs.infos[i].id)),
                None => None,
            },
    {
        let id = match self.outputs.get(name) {
            Some(info) => info.id,
            None => return None,
        };
        proof {
            let i = self@.outputs.named(name@)->0;
            assert(self@.outputs.is_first_named(name@, i));
        }
        match self.outputs.get_focused_tag(id) {
            Some(tag) => Some(LayoutScope { output: id, tag }),
            None => None,
        }
    }

    /// What is to be drawn on an output that shows `scope`, topmost first;
    /// pointer and boxes in motion if asked for.
    pub fn frame_plan(&self, scope: LayoutScope, cursor: bool, morphs: bool) -> (items: Vec<
        SceneItem,
    >)
        ensures
            items@ == planned(self@, scope, cursor, morphs),
    {
        let mut items: Vec<SceneItem> = Vec::new();
        if cursor {
            items.push(SceneItem::Cursor);
        }
        if morphs {
            items.push(SceneItem::Morphs);
        }
        if self.locked {
            if let Some(surface) = self.lock_surfaces.get(scope.output) {
                items.push(SceneItem::Layers(LayerKind::Overlay));
                items.push(SceneItem::Lock(*surface));
            }
        } else {
            match self.window_registry.fullscreen_window_for_output(&scope) {
                Some(window) => {
                    items.push(SceneItem::Layers(LayerKind::Overlay));
                    items.push(SceneItem::Window(window.surface));
                    items.push(SceneItem::Layers(LayerKind::Bottom));
                    items.push(SceneItem::Layers(LayerKind::Background));
                },
                None => {
                    items.push(SceneItem::Plane);
                },
            }
        }
        assert(items@ =~= planned(self@, scope, cursor, morphs));
        items
    }

    /// The surfaces that are told when a frame of output `id` was shown.
    pub fn frame_audience(&self, id: OutputId) -> (surfaces: Vec<SurfaceId>)
        ensures
            surfaces@ == audience(self@, id),
    {
        let mut surfaces: Vec<SurfaceId> = Vec::new();
        let n = self.space.elements.len();
        let mut i: usize = 0;
        while i < n
            invariant
                i <= n,
                n == self@.elements.len(),
                surfaces@ == surfaces_on(self@.elements).take(i as int),
            decreases n - i,
        {
            let (surface, _) = self.space.elements.at(i);
            assert(surfaces_on(self@.elements).take(i + 1) =~= surfaces_on(self@.elements).take(
                i as int,
            ).push(surface));
            surfaces.push(surface);
            i += 1;
        }
        assert(surfaces_on(self@.elements).take(i as int) =~= surfaces_on(self@.elements));
        let layers = self.layer_surfaces.get(&id);
        let ghost windows = surfaces@;
        let ghost names = layers@.map_values(|entry: crate::layer::LayerEntry| entry.surface);
        let mut k: usize = 0;
        assert(windows =~= windows + names.take(0));
        while k < layers.len()
            invariant
                k <= layers.len(),
                names == layers@.map_values(|entry: crate::layer::LayerEntry| entry.surface),
                surfaces@ == windows + names.take(k as int),
            decreases layers.len() - k,
        {
            assert(windows + names.take(k + 1) =~= (windows + names.take(k as int)).push(
                names[k as int],
            ));
            surfaces.push(layers[k].surface);
            k += 1;
        }
        assert(names.take(k as int) =~= names);
        if let Some(surface) = self.lock_surfaces.get(id) {
            surfaces.push(*surface);
        }
        surfaces
    }
}

/// An output that is no longer active keeps its id and its name.
pub proof fn lemma_deactivated_wf(outputs: OutputsModel, name: Seq<char>)
    requires
        outputs.wf(),
    ensures
        outputs.deactivated(name).wf(),
        outputs.deactivated(name).infos.len() == outputs.infos.len(),
{
    match outputs.named(name) {
        Some(i) => {
            assert(outputs.is_first_named(name, i));
        },
        None => {},
    }
}

} // verus!
