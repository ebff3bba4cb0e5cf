//! Layer-shell surfaces: panels, bars, launchers, wallpapers.
use vstd::prelude::*;

use crate::output::OutputId;
use crate::window::SurfaceId;

verus! {

/// A layer surface, and whether it was sent its first configure.
#[derive(Debug, Clone, Copy, PartialEq, Eq, Structural)]
pub struct LayerEntry {
    pub surface: SurfaceId,
    pub init_config: bool,
}

/// The layer surfaces of every output, in the order in which they came.
pub struct LayerRegistry {
    entries: Vec<(OutputId, LayerEntry)>,
}

impl View for LayerRegistry {
    type V = Seq<(OutputId, LayerEntry)>;

    closed spec fn view(&self) -> Seq<(OutputId, LayerEntry)> {
        self.entries@
    }
}

/// Entry `i` is the first for `surface`.
pub open spec fn is_first_layer(
    layers: Seq<(OutputId, LayerEntry)>,
    surface: SurfaceId,
    i: int,
) -> bool {
    &&& 0 <= i < layers.len()
    &&& layers[i].1.surface == surface
    &&& forall|j: int| 0 <= j < i ==> (#[trigger] layers[j]).1.surface != surface
}

/// The index of the entry for `surface`.
pub open spec fn layer_index(layers: Seq<(OutputId, LayerEntry)>, surface: SurfaceId) -> Option<
    int,
> {
    if exists|i: int| is_first_layer(layers, surface, i) {
        Some(choose|i: int| is_first_layer(layers, surface, i))
    } else {
        None
    }
}

/// The layers of output `id`, in order.
pub open spec fn layers_of(layers: Seq<(OutputId, LayerEntry)>, id: OutputId) -> Seq<LayerEntry> {
    layers.filter(|e: (OutputId, LayerEntry)| e.0 == id).map_values(
        |e: (OutputId, LayerEntry)| e.1,
    )
}

/// An entry is not that of `surface` on output `id`.
pub open spec fn is_other_layer(
    entry: (OutputId, LayerEntry),
    id: OutputId,
    surface: SurfaceId,
) -> bool {
    !(entry.0 == id && entry.1.surface == surface)
}

/// The layers without those of `surface` on output `id`.
pub open spec fn layers_without(
    layers: Seq<(OutputId, LayerEntry)>,
    id: OutputId,
    surface: SurfaceId,
) -> Seq<(OutputId, LayerEntry)> {
    layers.filter(|e: (OutputId, LayerEntry)| is_other_layer(e, id, surface))
}

pub(crate) proof fn lemma_layer_index(layers: Seq<(OutputId, LayerEntry)>, surface: SurfaceId, i: int)
    requires
        is_first_layer(layers, surface, i),
    ensures
        layer_index(layers, surface) == Some(i),
{
    let k = choose|k: int| is_first_layer(layers, surface, k);
    if k < i {
        assert(layers[k].1.surface != surface);
    } else if i < k {
        assert(layers[i].1.surface != surface);
    }
}

impl LayerRegistry {
    pub fn new() -> (registry: Self)
        ensures
            registry@ == Seq::<(OutputId, LayerEntry)>::empty(),
    {
        LayerRegistry { entries: Vec::new() }
    }

    /// The layers of output `id`.
    pub fn get(&self, id: &OutputId) -> (layers: Vec<LayerEntry>)
        ensures
            layers@ == layers_of(self@, *id),
    {
        let mut layers: Vec<LayerEntry> = Vec::new();
        let mut i: usize = 0;
        assert(layers_of(self.entries@.take(0), *id) =~= Seq::<LayerEntry>::empty()) by {
            reveal(Seq::filter);
        }
        while i < self.entries.len()
            invariant
                i <= self.entries.len(),
                layers@ == layers_of(self.entries@.take(i as int), *id),
            decreases self.entries.len() - i,
        {
            let entry = self.entries[i];
            proof {
                reveal(Seq::filter);
                assert(self.entries@.take(i + 1).drop_last() =~= self.entries@.take(i as int));
            }
            if entry.0 == *id {
                layers.push(entry.1);
            }
            i += 1;
            assert(layers@ =~= layers_of(self.entries@.take(i as int), *id));
        }
        assert(self.entries@.take(i as int) =~= self.entries@);
        layers
    }

    pub fn insert(&mut self, id: OutputId, surface: SurfaceId)
        ensures
            final(self)@ == old(self)@.push((id, LayerEntry { surface, init_config: false })),
    {
        self.entries.push((id, LayerEntry { surface, init_config: false }));
    }

    fn position(&self, surface: SurfaceId) -> (slot: Option<usize>)
        ensures
            match slot {
                Some(i) => layer_index(self@, surface) == Some(i as int) && i < self@.len(),
                None => layer_index(self@, surface) == None::<int>,
            },
    {
        let mut i: usize = 0;
        while i < self.entries.len()
            invariant
                i <= self.entries.len(),
                forall|j: int| 0 <= j < i ==> (#[trigger] self@[j]).1.surface != surface,
            decreases self.entries.len() - i,
        {
            if self.entries[i].1.surface == surface {
                proof {
                    lemma_layer_index(self@, surface, i as int);
                }
                return Some(i);
            }
            i += 1;
        }
        None
    }

    /// The output that the layer of `surface` is on, and what is kept about
    /// it.
    pub fn find(&self, surface: &SurfaceId) -> (r: Option<(OutputId, LayerEntry)>)
        ensures
            r == match layer_index(self@, *surface) {
                Some(i) => Some(self@[i]),
                None => None,
            },
    {
        match self.position(*surface) {
            Some(i) => Some(self.entries[i]),
            None => None,
        }
    }

    /// Records that the layer of `surface` was sent its first configure.
    pub fn mark_configured(&mut self, surface: SurfaceId)
        ensures
            final(self)@ == match layer_index(old(self)@, surface) {
                Some(i) => old(self)@.update(
                    i,
                    (old(self)@[i].0, LayerEntry { init_config: true, ..old(self)@[i].1 }),
                ),
                None => old(self)@,
            },
    {
        if let Some(i) = self.position(surface) {
            let entry = self.entries[i];
            self.entries.set(
                i,
                (entry.0, LayerEntry { surface: entry.1.surface, init_config: true }),
            );
        }
    }

    /// Forgets the layers of `surface` on output `id`.
    pub fn remove(&mut self, id: OutputId, surface: SurfaceId)
        ensures
            final(self)@ == layers_without(old(self)@, id, surface),
    {
        let mut kept: Vec<(OutputId, LayerEntry)> = Vec::new();
        let mut i: usize = 0;
        assert(layers_without(self.entries@.take(0), id, surface) =~= Seq::<
            (OutputId, LayerEntry),
        >::empty()) by {
            reveal(Seq::filter);
        }
        while i < self.entries.len()
            invariant
                *self == *old(self),
                i <= self.entries.len(),
                kept@ == layers_without(self.entries@.take(i as int), id, surface),
            decreases self.entries.len() - i,
        {
            let entry = self.entries[i];
            proof {
                reveal(Seq::filter);
                assert(self.entries@.take(i + 1).drop_last() =~= self.entries@.take(i as int));
            }
            if !(entry.0 == id && entry.1.surface == surface) {
                kept.push(entry);
            }
            i += 1;
        }
        assert(self.entries@.take(i as int) =~= self.entries@);
        self.entries = kept;
    }
}

} // verus!
