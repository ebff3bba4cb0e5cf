//! Layers: panels, bars, launchers and wallpapers.
use vstd::prelude::*;

use crate::effect::Effect;
use crate::layer::{
    is_first_layer, is_other_layer, layer_index, layers_without, LayerEntry,
};
use crate::layout::Rect;
use crate::output::{LayoutScope, OutputId};
use crate::state::Alice;
use crate::window::SurfaceId;
use crate::world::{moderate, sound_layers, World};
use crate::world_events::{layer_size, Anchors};

verus! {

/// The size to suggest to a layer: along an axis on which it is anchored to
/// both edges it is to fill what is left of the output, and along the other
/// it decides for itself.
pub fn suggested_size(anchors: Anchors, zone: Rect) -> (size: (i32, i32))
    ensures
        size.0 == layer_size(anchors, zone@).0,
        size.1 == layer_size(anchors, zone@).1,
{
    let width = if anchors.left && anchors.right {
        zone.width
    } else {
        0
    };
    let height = if anchors.top && anchors.bottom {
        zone.height
    } else {
        0
    };
    (width, height)
}

/// The entry for a surface stands where the index says.
proof fn lemma_layer_at(layers: Seq<(OutputId, LayerEntry)>, surface: SurfaceId)
    requires
        layer_index(layers, surface) is Some,
    ensures
        is_first_layer(layers, surface, layer_index(layers, surface)->0),
{
    let i = choose|i: int| is_first_layer(layers, surface, i);
    assert(is_first_layer(layers, surface, i));
}

/// Forgetting layers keeps the others where they are.
proof fn lemma_layers_without_sound(w: World, id: OutputId, surface: SurfaceId)
    requires
        w.wf(),
    ensures
        sound_layers(layers_without(w.layers, id, surface), w.outputs),
{
    let keep = |e: (OutputId, LayerEntry)| is_other_layer(e, id, surface);
    let kept = layers_without(w.layers, id, surface);
    assert(kept == w.layers.filter(keep));
    assert forall|i: int| 0 <= i < kept.len() implies w.outputs.has((#[trigger] kept[i]).0) by {
        w.layers.lemma_filter_contains_rev(keep, kept[i]);
        let k = choose|k: int| 0 <= k < w.layers.len() && w.layers[k] == kept[i];
        assert(w.outputs.has(w.layers[k].0));
    }
}

impl Alice {
    /// The output that a new layer comes to: the one that it asks for, or
    /// else the focused one.
    pub fn layer_output(&self, wanted: Option<OutputId>) -> (id: OutputId)
        requires
            self@.outputs.has(self@.outputs.focused),
            self@.outputs.wf(),
        ensures
            id == match wanted {
                Some(id) => id,
                None => self@.outputs.focused,
            },
    {
        match wanted {
            Some(id) => id,
            None => self.outputs.get_focused().id,
        }
    }

    /// Takes in a layer on output `id`, whose layers leave `zone` now, and
    /// lays the output out.
    pub fn new_layer_surface(&mut self, surface: SurfaceId, id: OutputId, zone: Rect)
        requires
            old(self)@.wf(),
            old(self)@.outputs.has(id),
            moderate(zone@),
        ensures
            final(self)@ == old(self)@.layer_opened(surface, id, zone@),
            final(self)@.wf(),
            final(self)@.outputs == old(self)@.outputs,
    {
        let Some(tag) = self.outputs.get_focused_tag(id) else {
            return;
        };
        self.layer_surfaces.insert(id, surface);
        self.layer_zone_cache.insert(id, zone);
        self.relayout(Some(LayoutScope { output: id, tag }));
    }

    /// The output that the layer of a surface is on.
    pub fn layer_host(&self, surface: SurfaceId) -> (id: Option<OutputId>)
        ensures
            id == match layer_index(self@.layers, surface) {
                Some(i) => Some(self@.layers[i].0),
                None => None,
            },
    {
        match self.layer_surfaces.find(&surface) {
            Some((id, _)) => Some(id),
            None => None,
        }
    }

    /// Forgets a layer, whose output's layers leave `zone` now, and lays that
    /// output out.
    pub fn layer_destroyed(&mut self, surface: SurfaceId, zone: Rect)
        requires
            old(self)@.wf(),
            moderate(zone@),
        ensures
            final(self)@ == old(self)@.layer_closed(surface, zone@),
            final(self)@.wf(),
            final(self)@.outputs == old(self)@.outputs,
    {
        let Some((id, _)) = self.layer_surfaces.find(&surface) else {
            return;
        };
        proof {
            lemma_layer_at(self@.layers, surface);
            lemma_layers_without_sound(self@, id, surface);
            assert(self@.outputs.has(self@.layers[layer_index(self@.layers, surface)->0].0));
        }
        let Some(tag) = self.outputs.get_focused_tag(id) else {
            return;
        };
        self.layer_surfaces.remove(id, surface);
        self.layer_zone_cache.insert(id, zone);
        self.relayout(Some(LayoutScope { output: id, tag }));
    }

    /// Sees to a commit of a layer: the first one is answered with a size,
    /// and the output is laid out if its layers leave something else than
    /// they did.
    pub fn layer_commit(&mut self, surface: SurfaceId, anchors: Anchors, zone: Rect)
        requires
            old(self)@.wf(),
            moderate(zone@),
        ensures
            final(self)@ == old(self)@.layer_committed(surface, anchors, zone@),
            final(self)@.wf(),
            final(self)@.outputs == old(self)@.outputs,
    {
        let Some((id, entry)) = self.layer_surfaces.find(&surface) else {
            return;
        };
        proof {
            lemma_layer_at(self@.layers, surface);
            assert(self@.outputs.has(self@.layers[layer_index(self@.layers, surface)->0].0));
        }
        if !entry.init_config {
            let (width, height) = suggested_size(anchors, zone);
            self.emit(Effect::ConfigureLayer { surface, width, height });
            self.layer_surfaces.mark_configured(surface);
        }
        let same = match self.layer_zone_cache.get(id) {
            Some(known) => *known == zone,
            None => false,
        };
        if same {
            return;
        }
        let Some(tag) = self.outputs.get_focused_tag(id) else {
            return;
        };
        self.layer_zone_cache.insert(id, zone);
        self.relayout(Some(LayoutScope { output: id, tag }));
    }
}

/// A commit that leaves of its output what was left before asks for nothing
/// but the layer's own first size.
pub proof fn lemma_quiet_layer_commit(
    w: World,
    surface: SurfaceId,
    anchors: Anchors,
    zone: crate::layout::Tile,
)
    requires
        layer_index(w.layers, surface) matches Some(i) ==> w.zones.contains_key(w.layers[i].0)
            && w.zones[w.layers[i].0] == zone,
    ensures
        w.layer_committed(surface, anchors, zone).windows == w.windows,
        w.layer_committed(surface, anchors, zone).elements == w.elements,
        layer_index(w.layers, surface) matches Some(i) ==> (w.layers[i].1.init_config
            ==> w.layer_committed(surface, anchors, zone) == w),
{
}

} // verus!
