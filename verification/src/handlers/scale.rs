//! Fractional scales.
use vstd::prelude::*;

use crate::effect::Effect;
use crate::layer::LayerEntry;
use crate::output::OutputId;
use crate::scalar::Scalar;
use crate::state::Alice;
use crate::window::{SurfaceId, WindowId, WindowInfo};
use crate::world::World;
use crate::world_laws::lemma_info_wf;

verus! {

pub proof fn lemma_windows_scaled(w: World, ids: Seq<WindowId>, output: OutputId, scale: Scalar)
    requires
        w.wf(),
    ensures
        w.windows_scaled(ids, output, scale).wf(),
        ({
            let t = w.windows_scaled(ids, output, scale);
            t == (World { windows: t.windows, effects: t.effects, ..w })
        }),
        w.windows_scaled(ids, output, scale).windows.roll == w.windows.roll,
    decreases ids.len(),
{
    if ids.len() > 0 {
        lemma_windows_scaled(w, ids.drop_last(), output, scale);
        let before = w.windows_scaled(ids.drop_last(), output, scale);
        let id = ids.last();
        if before.scale_news(id, output, scale) {
            let info = before.windows.infos[id];
            lemma_info_wf(
                before,
                id,
                WindowInfo { last_fractional_scale: Some(scale), ..info },
            );
        }
    }
}

impl Alice {
    /// Tells the windows of `output` about its scale, but for those that were
    /// told the same the last time.
    fn scale_windows(&mut self, output: OutputId, scale: Scalar)
        requires
            old(self)@.wf(),
        ensures
            final(self)@ == old(self)@.windows_scaled(old(self)@.windows.roll, output, scale),
            final(self)@.wf(),
            final(self)@.layers == old(self)@.layers,
    {
        let ids = self.window_registry.iter();
        let mut i: usize = 0;
        assert(ids@.take(0) =~= Seq::<WindowId>::empty());
        while i < ids.len()
            invariant
                i <= ids.len(),
                old(self)@.wf(),
                self@ == old(self)@.windows_scaled(ids@.take(i as int), output, scale),
            decreases ids.len() - i,
        {
            assert(ids@.take(i + 1).drop_last() =~= ids@.take(i as int));
            let id = ids[i];
            let info = match self.window_registry.get(&id) {
                Some(info) => Some(*info),
                None => None,
            };
            if let Some(info) = info {
                let known = match info.last_fractional_scale {
                    Some(known) => known.same(&scale),
                    None => false,
                };
                if info.output == output && !known {
                    self.emit(Effect::PreferScale { surface: info.window.surface, scale });
                    if let Some(kept) = self.window_registry.get_mut(&id) {
                        kept.last_fractional_scale = Some(scale);
                    }
                }
            }
            i += 1;
        }
        assert(ids@.take(i as int) =~= ids@);
        proof {
            lemma_windows_scaled(old(self)@, ids@, output, scale);
        }
    }

    fn scale_layers(&mut self, layers: &Vec<LayerEntry>, scale: Scalar)
        ensures
            final(self)@ == old(self)@.layers_scaled(layers@, scale),
            old(self)@.wf() ==> final(self)@.wf(),
    {
        let mut i: usize = 0;
        assert(layers@.take(0) =~= Seq::<LayerEntry>::empty());
        while i < layers.len()
            invariant
                i <= layers.len(),
                self@ == old(self)@.layers_scaled(layers@.take(i as int), scale),
                old(self)@.wf() ==> self@.wf(),
            decreases layers.len() - i,
        {
            assert(layers@.take(i + 1).drop_last() =~= layers@.take(i as int));
            self.emit(Effect::PreferScale { surface: layers[i].surface, scale });
            i += 1;
        }
        assert(layers@.take(i as int) =~= layers@);
    }

    /// Tells the windows and layers of the output called `name` about its
    /// scale; windows only if it is news to them.
    pub fn refresh_fractional_scale_for_output(&mut self, name: &str, scale: Scalar)
        requires
            old(self)@.wf(),
        ensures
            final(self)@ == match old(self)@.outputs.named(name@) {
                Some(i) => old(self)@.output_scaled(old(self)@.outputs.infos[i].id, scale),
                None => old(self)@,
            },
            final(self)@.wf(),
    {
        let id = match self.outputs.get(name) {
            Some(info) => info.id,
            None => return,
        };
        self.scale_windows(id, scale);
        let layers = self.layer_surfaces.get(&id);
        self.scale_layers(&layers, scale);
    }

    /// The output whose scale a new surface is told first. `root` is the
    /// window that the surface belongs to, and `overlap` the first output
    /// that this was found to lie on.
    pub fn new_fractional_scale(&self, root: SurfaceId, overlap: Option<OutputId>) -> (id: Option<
        OutputId,
    >)
        requires
            self@.wf(),
        ensures
            id == self@.scale_source(root, overlap),
    {
        let known = match self.window_registry.find_by_surface(&root) {
            Some(id) => self.window_registry.get(&id).is_some(),
            None => false,
        };
        if known && overlap.is_some() {
            return overlap;
        }
        if self.space.outputs.len() > 0 {
            let (id, _) = self.space.outputs.at(0);
            Some(id)
        } else {
            None
        }
    }
}

/// A window that was told a scale is not told it again.
pub proof fn lemma_scale_told_once(w: World, id: WindowId, output: OutputId, scale: Scalar)
    requires
        !scale.nan(),
        w.scale_news(id, output, scale),
    ensures
        !w.windows_scaled(seq![id], output, scale).scale_news(id, output, scale),
        w.windows_scaled(seq![id], output, scale).windows_scaled(seq![id], output, scale)
            == w.windows_scaled(seq![id], output, scale),
{
    let one = seq![id];
    assert(one.drop_last() =~= Seq::<WindowId>::empty());
    assert(w.windows_scaled(one.drop_last(), output, scale) == w);
    let t = w.windows_scaled(one, output, scale);
    assert(t.windows.infos[id].last_fractional_scale == Some(scale));
    assert(t.windows_scaled(one.drop_last(), output, scale) == t);
}

} // verus!
