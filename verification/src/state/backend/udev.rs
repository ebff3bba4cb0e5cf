//! The graphics cards and the outputs on them.
use vstd::prelude::*;

use crate::output::OutputId;
use crate::session_laws::{lemma_filtered, lemma_output_goes};
use crate::state::backend::{lemma_deactivated_wf, lemma_output_told};
use crate::state::Alice;
use crate::table::{
    filed, files_at, has_key, index_of_key, keys_distinct, lemma_files_at,
    lemma_keys_stay_distinct, lemma_lookup_filed, lemma_lookup_unfiled, lemma_some_key,
    lemma_unfiled_distinct, lookup, unfiled, Key, Roster,
};
use crate::world::World;

verus! {

/// Names a graphics card's node.
#[derive(Debug, Clone, Copy, PartialEq, Eq, Structural)]
pub struct NodeId(pub u32);

/// Names what drives one output: a controller on a card.
#[derive(Debug, Clone, Copy, PartialEq, Eq, Structural)]
pub struct HeadId {
    pub node: NodeId,
    pub crtc: u32,
}

impl Key for NodeId {
    open spec fn packed(self) -> u64 {
        self.0 as u64
    }

    proof fn lemma_packed_injective(a: Self, b: Self) {
    }

    fn pack(&self) -> (code: u64) {
        self.0 as u64
    }
}

impl Key for HeadId {
    open spec fn packed(self) -> u64 {
        (self.node.0 * 0x1_0000_0000 + self.crtc) as u64
    }

    proof fn lemma_packed_injective(a: Self, b: Self) {
    }

    fn pack(&self) -> (code: u64) {
        self.node.0 as u64 * 0x1_0000_0000 + self.crtc as u64
    }
}

/// An output on a card: what it is called, and whether a frame of it is on
/// its way to the screen.
pub struct SurfaceData {
    pub output: String,
    pub frame_pending: bool,
}

/// What a [`SurfaceData`] stands for.
pub struct SurfaceModel {
    pub output: Seq<char>,
    pub frame_pending: bool,
}

impl View for SurfaceData {
    type V = SurfaceModel;

    open spec fn view(&self) -> SurfaceModel {
        SurfaceModel { output: self.output@, frame_pending: self.frame_pending }
    }
}

/// What a card renders with: its own node, or that of another.
#[derive(Debug, Clone, Copy, PartialEq, Eq, Structural)]
pub struct GpuBackendData {
    pub render_node: NodeId,
}

impl View for GpuBackendData {
    type V = GpuBackendData;

    open spec fn view(&self) -> GpuBackendData {
        *self
    }
}

/// The cards, and the outputs on them.
pub struct UdevData {
    pub primary_gpu: NodeId,
    /// The cards that drive outputs.
    pub backends: Roster<NodeId, GpuBackendData>,
    /// The cards that only render.
    pub render_gbm_devices: Vec<NodeId>,
    pub surfaces: Roster<HeadId, SurfaceData>,
}

/// What a [`UdevData`] stands for.
#[verifier::ext_equal]
pub struct Cards {
    pub primary: NodeId,
    pub backends: Seq<(NodeId, GpuBackendData)>,
    pub renderers: Seq<NodeId>,
    pub heads: Seq<(HeadId, SurfaceModel)>,
}

impl View for UdevData {
    type V = Cards;

    open spec fn view(&self) -> Cards {
        Cards {
            primary: self.primary_gpu,
            backends: self.backends@,
            renderers: self.render_gbm_devices@,
            heads: self.surfaces@,
        }
    }
}

/// What is to be done with a card that was plugged in.
#[derive(Debug, Clone, Copy, PartialEq, Eq, Structural)]
pub enum DeviceStep {
    /// It drives outputs, and there is something to render them with.
    Finish,
    /// It drives outputs, but what renders them has not come yet.
    Defer,
    /// It only renders, under this node.
    RenderOnly(NodeId),
}

/// How a card that drives outputs is set up.
#[derive(Debug, Clone, Copy, PartialEq, Eq, Structural)]
pub struct KmsPlan {
    pub render_node: NodeId,
    /// Whether the card allocates for itself and is added as a renderer.
    pub own_allocator: bool,
}

/// What became of a frame that was rendered.
#[derive(Debug, Clone, Copy, PartialEq, Eq, Structural)]
pub enum FrameOutcome {
    /// Nothing has changed since the last one.
    Unchanged,
    /// It is on its way to the screen.
    Queued,
    /// It could not be rendered, or not be queued.
    Failed,
}

impl Cards {
    /// Nothing is listed twice.
    pub open spec fn wf(self) -> bool {
        &&& keys_distinct(self.backends)
        &&& keys_distinct(self.heads)
        &&& self.renderers.no_duplicates()
    }

    /// The outputs of which no frame is on its way.
    pub open spec fn idle(self) -> Seq<HeadId> {
        self.heads.filter(|entry: (HeadId, SurfaceModel)| !entry.1.frame_pending).map_values(
            |entry: (HeadId, SurfaceModel)| entry.0,
        )
    }

    /// The names of the outputs on a card.
    pub open spec fn names_on(self, node: NodeId) -> Seq<Seq<char>> {
        self.heads.filter(|entry: (HeadId, SurfaceModel)| entry.0.node == node).map_values(
            |entry: (HeadId, SurfaceModel)| entry.1.output,
        )
    }

    /// The outputs that are not on a card.
    pub open spec fn heads_off(self, node: NodeId) -> Seq<(HeadId, SurfaceModel)> {
        self.heads.filter(|entry: (HeadId, SurfaceModel)| entry.0.node != node)
    }

    /// The names of the outputs that go with a card that drives outputs.
    pub open spec fn names_lost(self, node: NodeId) -> Seq<Seq<char>> {
        if has_key(self.backends, node) {
            self.names_on(node)
        } else {
            seq![]
        }
    }

    /// The cards that only render, but for one.
    pub open spec fn renderers_but(self, node: NodeId) -> Seq<NodeId> {
        self.renderers.filter(|other: NodeId| other.0 != node.0)
    }

    /// Without a card.
    pub open spec fn without(self, node: NodeId) -> Cards {
        Cards {
            backends: unfiled(self.backends, node),
            renderers: self.renderers_but(node),
            heads: if has_key(self.backends, node) {
                self.heads_off(node)
            } else {
                self.heads
            },
            ..self
        }
    }

    /// A card that drives outputs has something to render them with.
    pub open spec fn can_render(self, own: Option<NodeId>) -> bool {
        own is Some || self.renderers.contains(self.primary)
    }

    /// With a frame of `head` on its way, or not.
    pub open spec fn with_pending(self, head: HeadId, pending: bool) -> Cards {
        match lookup(self.heads, head) {
            Some(surface) => Cards {
                heads: filed(
                    self.heads,
                    head,
                    SurfaceModel { frame_pending: pending, ..surface },
                ),
                ..self
            },
            None => self,
        }
    }
}

impl World {
    /// Without the outputs called `names`.
    pub open spec fn outputs_disconnected(self, names: Seq<Seq<char>>) -> World
        decreases names.len(),
    {
        if names.len() == 0 {
            self
        } else {
            self.outputs_disconnected(names.drop_last()).output_disconnected(names.last())
        }
    }

    /// With a frame of the output called `name` shown.
    pub open spec fn presented(self, name: Seq<char>) -> World {
        match self.outputs.named(name) {
            Some(i) => self.blanked_output(self.outputs.infos[i].id),
            None => self.lock_tried(),
        }
    }
}

impl UdevData {
    pub fn new(primary_gpu: NodeId) -> (data: Self)
        ensures
            data@ == (Cards {
                primary: primary_gpu,
                backends: Seq::empty(),
                renderers: Seq::empty(),
                heads: Seq::empty(),
            }),
            data@.wf(),
    {
        UdevData {
            primary_gpu,
            backends: Roster::new(),
            render_gbm_devices: Vec::new(),
            surfaces: Roster::new(),
        }
    }

    fn renders(&self, node: NodeId) -> (r: bool)
        ensures
            r == self@.renderers.contains(node),
    {
        let mut i: usize = 0;
        while i < self.render_gbm_devices.len()
            invariant
                i <= self.render_gbm_devices.len(),
                forall|j: int| 0 <= j < i ==> self@.renderers[j] != node,
            decreases self.render_gbm_devices.len() - i,
        {
            if self.render_gbm_devices[i] == node {
                assert(self@.renderers[i as int] == node);
                return true;
            }
            i += 1;
        }
        false
    }

    /// Decides about a card that was plugged in; `own` is its render node, if
    /// it has one. A card that drives outputs waits until something can
    /// render for it.
    pub fn device_added(&mut self, node: NodeId, own: Option<NodeId>, drives_outputs: bool) -> (step:
        DeviceStep)
        requires
            old(self)@.wf(),
        ensures
            final(self)@.wf(),
            step == if drives_outputs {
                if old(self)@.can_render(own) {
                    DeviceStep::Finish
                } else {
                    DeviceStep::Defer
                }
            } else {
                DeviceStep::RenderOnly(
                    match own {
                        Some(own) => own,
                        None => node,
                    },
                )
            },
            final(self)@ == match step {
                DeviceStep::RenderOnly(renderer) => Cards {
                    renderers: if old(self)@.renderers.contains(renderer) {
                        old(self)@.renderers
                    } else {
                        old(self)@.renderers.push(renderer)
                    },
                    ..old(self)@
                },
                _ => old(self)@,
            },
    {
        if drives_outputs {
            if own.is_some() || self.renders(self.primary_gpu) {
                DeviceStep::Finish
            } else {
                DeviceStep::Defer
            }
        } else {
            let renderer = match own {
                Some(own) => own,
                None => node,
            };
            if !self.renders(renderer) {
                self.render_gbm_devices.push(renderer);
            }
            DeviceStep::RenderOnly(renderer)
        }
    }

    /// How a card that drives outputs is set up; none if there is nothing to
    /// render them with.
    pub fn plan_kms_device(&self, own: Option<NodeId>) -> (plan: Option<KmsPlan>)
        ensures
            plan is Some <==> self@.can_render(own),
            plan matches Some(plan) ==> plan == (KmsPlan {
                render_node: match own {
                    Some(own) => own,
                    None => self@.primary,
                },
                own_allocator: own is Some,
            }),
    {
        match own {
            Some(own) => Some(KmsPlan { render_node: own, own_allocator: true }),
            None => if self.renders(self.primary_gpu) {
                Some(KmsPlan { render_node: self.primary_gpu, own_allocator: false })
            } else {
                None
            },
        }
    }

    /// Records that a card that drives outputs was set up.
    pub fn finish_kms_device(&mut self, node: NodeId, render_node: NodeId)
        requires
            old(self)@.wf(),
        ensures
            final(self)@.wf(),
            final(self)@ == (Cards {
                backends: filed(old(self)@.backends, node, GpuBackendData { render_node }),
                ..old(self)@
            }),
    {
        proof {
            lemma_keys_stay_distinct(self@.backends, node, GpuBackendData { render_node });
        }
        self.backends.insert(node, GpuBackendData { render_node });
    }

    /// What a card renders with.
    pub fn render_node(&self, node: NodeId) -> (r: Option<NodeId>)
        ensures
            r == match lookup(self@.backends, node) {
                Some(backend) => Some(backend.render_node),
                None => None,
            },
    {
        match self.backends.get(node) {
            Some(backend) => Some(backend.render_node),
            None => None,
        }
    }

    /// Records that an output on a card was set up; nothing of it is on its
    /// way yet.
    pub fn surface_created(&mut self, head: HeadId, output: String)
        requires
            old(self)@.wf(),
        ensures
            final(self)@.wf(),
            final(self)@ == (Cards {
                heads: filed(
                    old(self)@.heads,
                    head,
                    SurfaceModel { output: output@, frame_pending: false },
                ),
                ..old(self)@
            }),
    {
        proof {
            lemma_keys_stay_distinct(
                self@.heads,
                head,
                SurfaceModel { output: output@, frame_pending: false },
            );
        }
        self.surfaces.insert(head, SurfaceData { output, frame_pending: false });
    }

    /// Every output of which no frame is on its way: all of them can be
    /// rendered now.
    pub fn schedule_render(&self) -> (targets: Vec<HeadId>)
        ensures
            targets@ == self@.idle(),
    {
        let ghost all = self@.heads;
        let ghost rests = |entry: (HeadId, SurfaceModel)| !entry.1.frame_pending;
        let ghost name = |entry: (HeadId, SurfaceModel)| entry.0;
        let mut targets: Vec<HeadId> = Vec::new();
        let n = self.surfaces.len();
        let mut i: usize = 0;
        proof {
            reveal(Seq::filter);
            assert(all.take(0) =~= Seq::<(HeadId, SurfaceModel)>::empty());
            assert(targets@ =~= all.take(0).filter(rests).map_values(name));
        }
        while i < n
            invariant
                i <= n,
                n == all.len(),
                all == self@.heads,
                rests == (|entry: (HeadId, SurfaceModel)| !entry.1.frame_pending),
                name == (|entry: (HeadId, SurfaceModel)| entry.0),
                targets@ == all.take(i as int).filter(rests).map_values(name),
            decreases n - i,
        {
            proof {
                reveal(Seq::filter);
                assert(all.take(i + 1).drop_last() =~= all.take(i as int));
            }
            let (head, surface) = self.surfaces.at(i);
            if !surface.frame_pending {
                targets.push(head);
            }
            i += 1;
            assert(targets@ =~= all.take(i as int).filter(rests).map_values(name));
        }
        assert(all.take(i as int) =~= all);
        targets
    }

    /// The same for the one output that has something new to show, if it is
    /// known what drives it.
    pub fn schedule_render_output(&self, head: Option<HeadId>) -> (targets: Vec<HeadId>)
        ensures
            targets@ == match head {
                None => self@.idle(),
                Some(head) => match lookup(self@.heads, head) {
                    Some(surface) => if surface.frame_pending {
                        seq![]
                    } else {
                        seq![head]
                    },
                    None => seq![],
                },
            },
    {
        let Some(head) = head else {
            return self.schedule_render();
        };
        let mut targets: Vec<HeadId> = Vec::new();
        if let Some(surface) = self.surfaces.get(head) {
            if !surface.frame_pending {
                targets.push(head);
            }
        }
        assert(targets@ =~= match lookup(self@.heads, head) {
            Some(surface) => if surface.frame_pending {
                seq![]
            } else {
                seq![head]
            },
            None => seq![],
        });
        targets
    }

    /// Records what became of a frame, and says whether it was shown: only
    /// then are its surfaces told to draw the next one.
    pub fn frame_rendered(&mut self, head: HeadId, outcome: FrameOutcome) -> (queued: bool)
        requires
            old(self)@.wf(),
        ensures
            final(self)@.wf(),
            queued == (outcome == FrameOutcome::Queued && has_key(old(self)@.heads, head)),
            final(self)@ == if queued {
                old(self)@.with_pending(head, true)
            } else {
                old(self)@
            },
    {
        if outcome != FrameOutcome::Queued {
            return false;
        }
        proof {
            lemma_pending_wf(self@, head, true);
        }
        match self.surfaces.get_mut(head) {
            Some(surface) => {
                surface.frame_pending = true;
                true
            },
            None => false,
        }
    }

    /// Forgets what drives an output, and returns what that was called.
    fn take_surface(&mut self, head: HeadId) -> (name: Option<String>)
        requires
            old(self)@.wf(),
        ensures
            final(self)@.wf(),
            final(self)@ == (Cards { heads: unfiled(old(self)@.heads, head), ..old(self)@ }),
            match name {
                Some(name) => match lookup(old(self)@.heads, head) {
                    Some(surface) => surface.output == name@,
                    None => false,
                },
                None => lookup(old(self)@.heads, head) is None,
            },
    {
        proof {
            if has_key(self@.heads, head) {
                lemma_keys_stay_distinct(self@.heads, head, lookup(self@.heads, head)->0);
            }
        }
        match self.surfaces.remove(head) {
            Some(surface) => Some(surface.output),
            None => None,
        }
    }

    /// Forgets the outputs on a card, and returns what they were called.
    fn take_surfaces(&mut self, node: NodeId) -> (names: Vec<String>)
        requires
            keys_distinct(old(self)@.heads),
        ensures
            final(self)@ == (Cards { heads: old(self)@.heads_off(node), ..old(self)@ }),
            strings(names@) == old(self)@.names_on(node),
    {
        let ghost all = self@.heads;
        let ghost there = |entry: (HeadId, SurfaceModel)| entry.0.node == node;
        let ghost off = |entry: (HeadId, SurfaceModel)| entry.0.node != node;
        let ghost called = |entry: (HeadId, SurfaceModel)| entry.1.output;
        let ghost view = |entry: (HeadId, SurfaceData)| (entry.0, entry.1@);
        let mut rest = self.surfaces.drain();
        let mut names: Vec<String> = Vec::new();
        let ghost mut done: int = 0;
        proof {
            reveal(Seq::filter);
            assert(all.take(0) =~= Seq::<(HeadId, SurfaceModel)>::empty());
            assert(strings(names@) =~= all.take(0).filter(there).map_values(called));
            assert(self@.heads =~= all.take(0).filter(off));
            assert(rest@.map_values(view) =~= all.skip(0));
        }
        while rest.len() > 0
            invariant
                0 <= done <= all.len(),
                all == old(self)@.heads,
                there == (|entry: (HeadId, SurfaceModel)| entry.0.node == node),
                off == (|entry: (HeadId, SurfaceModel)| entry.0.node != node),
                called == (|entry: (HeadId, SurfaceModel)| entry.1.output),
                view == (|entry: (HeadId, SurfaceData)| (entry.0, entry.1@)),
                rest@.map_values(view) == all.skip(done),
                strings(names@) == all.take(done).filter(there).map_values(called),
                keys_distinct(all),
                self@ == (Cards { heads: all.take(done).filter(off), ..old(self)@ }),
            decreases rest.len(),
        {
            let ghost before = rest@;
            let ghost kept = self@.heads;
            let ghost known = names@;
            assert(before.map_values(view).len() == all.skip(done).len());
            assert(before.map_values(view)[0] == all.skip(done)[0]);
            assert(all[done] == (before[0].0, before[0].1@));
            let (head, surface) = rest.remove(0);
            proof {
                reveal(Seq::filter);
                assert(all.take(done + 1).drop_last() =~= all.take(done));
                assert(rest@.map_values(view) =~= all.skip(done + 1)) by {
                    assert forall|j: int| 0 <= j < rest@.len() implies rest@.map_values(view)[j]
                        == all.skip(done + 1)[j] by {
                        assert(rest@[j] == before[j + 1]);
                        assert(before.map_values(view)[j + 1] == all.skip(done)[j + 1]);
                    }
                }
                lemma_filtered_key(all, done, head, off);
            }
            if head.node == node {
                names.push(surface.output);
                assert(strings(names@) =~= strings(known).push(all[done].1.output));
                assert(all.take(done + 1).filter(there) =~= all.take(done).filter(there).push(
                    all[done],
                ));
                assert(all.take(done + 1).filter(off) =~= all.take(done).filter(off));
            } else {
                self.surfaces.insert(head, surface);
                assert(all.take(done + 1).filter(there) =~= all.take(done).filter(there));
                assert(all.take(done + 1).filter(off) =~= all.take(done).filter(off).push(
                    all[done],
                ));
            }
            proof {
                done = done + 1;
                assert(strings(names@) =~= all.take(done).filter(there).map_values(called));
            }
        }
        assert(all.take(done) =~= all);
        names
    }

    /// Forgets a card that was unplugged. Returns the outputs that were on
    /// it, and which renderers go with it.
    fn take_device(&mut self, node: NodeId) -> (r: (Vec<String>, Option<NodeId>, bool))
        requires
            old(self)@.wf(),
        ensures
            r.1 == match lookup(old(self)@.backends, node) {
                Some(backend) => Some(backend.render_node),
                None => None,
            },
            r.2 == old(self)@.renderers.contains(node),
            strings(r.0@) == old(self)@.names_lost(node),
            final(self)@ == old(self)@.without(node),
            final(self)@.wf(),
    {
        proof {
            lemma_without_wf(self@, node);
        }
        let had = self.renders(node);
        let mut names: Vec<String> = Vec::new();
        assert(strings(names@) =~= seq![]);
        let mut render_node: Option<NodeId> = None;
        if let Some(backend) = self.backends.remove(node) {
            names = self.take_surfaces(node);
            render_node = Some(backend.render_node);
        }
        let mut kept: Vec<NodeId> = Vec::new();
        let mut i: usize = 0;
        let ghost all = self@.renderers;
        let ghost keep = |other: NodeId| other.0 != node.0;
        proof {
            reveal(Seq::filter);
            assert(all.take(0) =~= Seq::<NodeId>::empty());
        }
        while i < self.render_gbm_devices.len()
            invariant
                i <= all.len(),
                all == self@.renderers,
                keep == (|other: NodeId| other.0 != node.0),
                kept@ == all.take(i as int).filter(keep),
            decreases all.len() - i,
        {
            proof {
                reveal(Seq::filter);
                assert(all.take(i + 1).drop_last() =~= all.take(i as int));
            }
            if self.render_gbm_devices[i] != node {
                kept.push(self.render_gbm_devices[i]);
            }
            i += 1;
        }
        assert(all.take(i as int) =~= all);
        self.render_gbm_devices = kept;
        (names, render_node, had)
    }
}

/// What `names` stand for.
pub open spec fn strings(names: Seq<String>) -> Seq<Seq<char>> {
    names.map_values(|name: String| name@)
}

/// A key that comes later in a list without repeated keys is not among what
/// was kept of the entries before it.
proof fn lemma_filtered_key(
    all: Seq<(HeadId, SurfaceModel)>,
    n: int,
    head: HeadId,
    keep: spec_fn((HeadId, SurfaceModel)) -> bool,
)
    requires
        keys_distinct(all),
        0 <= n < all.len(),
        all[n].0 == head,
    ensures
        !has_key(all.take(n).filter(keep), head),
{
    let kept = all.take(n).filter(keep);
    if has_key(kept, head) {
        let i = index_of_key(kept, head);
        assert(files_at(kept, head, i));
        all.take(n).lemma_filter_contains_rev(keep, kept[i]);
        let k = choose|k: int| 0 <= k < n && all.take(n)[k] == kept[i];
        assert(all[k].0 == head);
    }
}

/// What is kept of a list without repeated keys has none either.
proof fn lemma_filtered_distinct(
    all: Seq<(HeadId, SurfaceModel)>,
    keep: spec_fn((HeadId, SurfaceModel)) -> bool,
)
    requires
        keys_distinct(all),
    ensures
        keys_distinct(all.filter(keep)),
    decreases all.len(),
{
    reveal(Seq::filter);
    if all.len() > 0 {
        let n = all.len() - 1;
        lemma_filtered_distinct(all.drop_last(), keep);
        assert(all.drop_last() =~= all.take(n));
        lemma_filtered_key(all, n, all[n].0, keep);
        let before = all.drop_last().filter(keep);
        let after = all.filter(keep);
        assert forall|i: int, j: int| 0 <= i < j < after.len() implies (#[trigger] after[i]).0 != (
        #[trigger] after[j]).0 by {
            if j == before.len() {
                if after[i].0 == after[j].0 {
                    lemma_some_key(before, all[n].0, i);
                }
            }
        }
    }
}

/// What is kept of a list without repetitions has none either.
proof fn lemma_filtered_once(all: Seq<NodeId>, keep: spec_fn(NodeId) -> bool)
    requires
        all.no_duplicates(),
    ensures
        all.filter(keep).no_duplicates(),
    decreases all.len(),
{
    reveal(Seq::filter);
    if all.len() > 0 {
        lemma_filtered_once(all.drop_last(), keep);
        let before = all.drop_last().filter(keep);
        if before.contains(all.last()) {
            all.drop_last().lemma_filter_contains_rev(keep, all.last());
        }
    }
}

proof fn lemma_pending_wf(cards: Cards, head: HeadId, pending: bool)
    requires
        cards.wf(),
    ensures
        cards.with_pending(head, pending).wf(),
{
    match lookup(cards.heads, head) {
        Some(surface) => lemma_keys_stay_distinct(
            cards.heads,
            head,
            SurfaceModel { frame_pending: pending, ..surface },
        ),
        None => {},
    }
}

proof fn lemma_without_wf(cards: Cards, node: NodeId)
    requires
        cards.wf(),
    ensures
        cards.without(node).wf(),
{
    if has_key(cards.backends, node) {
        lemma_keys_stay_distinct(cards.backends, node, lookup(cards.backends, node)->0);
        let off = |entry: (HeadId, SurfaceModel)| entry.0.node != node;
        assert(cards.heads_off(node) == cards.heads.filter(off));
        lemma_filtered_distinct(cards.heads, off);
    }
    let keep = |other: NodeId| other.0 != node.0;
    assert(cards.renderers_but(node) == cards.renderers.filter(keep));
    lemma_filtered_once(cards.renderers, keep);
    assert(keys_distinct(cards.without(node).backends));
    assert(keys_distinct(cards.without(node).heads));
}

impl Alice {
    fn disconnect_all(&mut self, names: &Vec<String>)
        requires
            old(self)@.wf(),
        ensures
            final(self)@ == old(self)@.outputs_disconnected(strings(names@)),
            final(self)@.wf(),
    {
        let ghost all = strings(names@);
        let mut i: usize = 0;
        assert(all.take(0) =~= Seq::<Seq<char>>::empty());
        while i < names.len()
            invariant
                i <= names.len(),
                all == strings(names@),
                self@.wf(),
                self@ == old(self)@.outputs_disconnected(all.take(i as int)),
            decreases names.len() - i,
        {
            assert(all.take(i + 1).drop_last() =~= all.take(i as int));
            self.output_disconnected(names[i].as_str());
            i += 1;
        }
        assert(all.take(i as int) =~= all);
    }

    /// A connector was unplugged: its output, if there was one, goes off the
    /// plane.
    pub fn connector_disconnected(&mut self, cards: &mut UdevData, head: HeadId)
        requires
            old(self)@.wf(),
            old(cards)@.wf(),
        ensures
            match lookup(old(cards)@.heads, head) {
                Some(surface) if has_key(old(cards)@.backends, head.node) => {
                    &&& final(self)@ == old(self)@.output_disconnected(surface.output)
                    &&& final(cards)@ == (Cards {
                        heads: unfiled(old(cards)@.heads, head),
                        ..old(cards)@
                    })
                },
                _ => final(self)@ == old(self)@ && final(cards)@ == old(cards)@,
            },
            final(self)@.wf(),
            final(cards)@.wf(),
    {
        if !cards.backends.contains(head.node) {
            return;
        }
        if let Some(name) = cards.take_surface(head) {
            self.output_disconnected(name.as_str());
        }
    }

    /// A card was unplugged: its outputs go off the plane. Returns the
    /// renderers that go with it: the one that the card rendered with, and
    /// whether the card itself was one.
    pub fn device_removed(&mut self, cards: &mut UdevData, node: NodeId) -> (r: (
        Option<NodeId>,
        bool,
    ))
        requires
            old(self)@.wf(),
            old(cards)@.wf(),
        ensures
            r.0 == match lookup(old(cards)@.backends, node) {
                Some(backend) => Some(backend.render_node),
                None => None,
            },
            r.1 == old(cards)@.renderers.contains(node),
            final(cards)@ == old(cards)@.without(node),
            final(self)@ == old(self)@.outputs_disconnected(old(cards)@.names_lost(node)),
            final(cards)@.wf(),
            final(self)@.wf(),
    {
        let (names, render_node, renders) = cards.take_device(node);
        self.disconnect_all(&names);
        (render_node, renders)
    }

    /// A frame of an output has reached the screen; `submitted` says whether
    /// the card confirmed it. Returns whether the next one is to be rendered.
    pub fn frame_finish(&mut self, cards: &mut UdevData, head: HeadId, submitted: bool) -> (again:
        bool)
        requires
            old(cards)@.wf(),
        ensures
            final(cards)@.wf(),
            again == (submitted && has_key(old(cards)@.backends, head.node) && has_key(
                old(cards)@.heads,
                head,
            )),
            final(cards)@ == if again {
                old(cards)@.with_pending(head, false)
            } else {
                old(cards)@
            },
            final(self)@ == if again {
                old(self)@.presented(lookup(old(cards)@.heads, head)->0.output)
            } else {
                old(self)@
            },
            old(self)@.wf() ==> final(self)@.wf(),
    {
        if !submitted || !cards.backends.contains(head.node) {
            return false;
        }
        proof {
            lemma_pending_wf(cards@, head, false);
        }
        let Some(surface) = cards.surfaces.get_mut(head) else {
            return false;
        };
        surface.frame_pending = false;
        let id = match self.outputs.get(surface.output.as_str()) {
            Some(info) => Some(info.id),
            None => None,
        };
        match id {
            Some(id) => self.output_presented(id),
            None => self.try_lock(),
        }
        true
    }
}

/// Once a frame is on its way the output is not rendered again until it has
/// been shown, and then it is.
pub proof fn lemma_one_frame_at_a_time(cards: Cards, head: HeadId)
    requires
        cards.wf(),
        has_key(cards.heads, head),
    ensures
        !cards.with_pending(head, true).idle().contains(head),
        cards.with_pending(head, false).idle().contains(head),
{
    let surface = lookup(cards.heads, head)->0;
    let i = index_of_key(cards.heads, head);
    assert(files_at(cards.heads, head, i));
    let rests = |entry: (HeadId, SurfaceModel)| !entry.1.frame_pending;
    let busy = cards.with_pending(head, true);
    let name = |entry: (HeadId, SurfaceModel)| entry.0;
    if busy.idle().contains(head) {
        let kept = busy.heads.filter(rests);
        let k = choose|k: int| 0 <= k < busy.idle().len() && busy.idle()[k] == head;
        assert(kept[k].0 == head);
        busy.heads.lemma_filter_contains_rev(rests, kept[k]);
        busy.heads.lemma_filter_pred(rests, k);
        let j = choose|j: int| 0 <= j < busy.heads.len() && busy.heads[j] == kept[k];
        if j != i {
            assert(cards.heads[j].0 == cards.heads[i].0);
        }
    }
    let free = cards.with_pending(head, false);
    let entry = (head, SurfaceModel { frame_pending: false, ..surface });
    assert(free.heads[i] == entry);
    free.heads.lemma_filter_contains(rests, i);
    let kept = free.heads.filter(rests);
    let k = choose|k: int| 0 <= k < kept.len() && kept[k] == entry;
    assert(free.idle()[k] == head);
}

/// An output is to be rendered exactly if it is on some card and no frame of
/// it is on its way.
pub proof fn lemma_idle(cards: Cards, head: HeadId)
    requires
        cards.wf(),
    ensures
        cards.idle().contains(head) <==> (lookup(cards.heads, head) matches Some(surface)
            && !surface.frame_pending),
{
    let rests = |entry: (HeadId, SurfaceModel)| !entry.1.frame_pending;
    let kept = cards.heads.filter(rests);
    if cards.idle().contains(head) {
        let k = choose|k: int| 0 <= k < cards.idle().len() && cards.idle()[k] == head;
        assert(kept[k].0 == head);
        assert(kept.contains(kept[k]));
        lemma_filtered(cards.heads, rests, kept[k]);
        let j = choose|j: int| 0 <= j < cards.heads.len() && cards.heads[j] == kept[k];
        lemma_filed_at(cards.heads, head, j);
    }
    if has_key(cards.heads, head) {
        let i = index_of_key(cards.heads, head);
        assert(files_at(cards.heads, head, i));
        let entry = cards.heads[i];
        if !entry.1.frame_pending {
            assert(cards.heads.contains(entry));
            lemma_filtered(cards.heads, rests, entry);
            let k = choose|k: int| 0 <= k < kept.len() && kept[k] == entry;
            assert(cards.idle()[k] == head);
        }
    }
}

proof fn lemma_filed_at(heads: Seq<(HeadId, SurfaceModel)>, head: HeadId, j: int)
    requires
        keys_distinct(heads),
        0 <= j < heads.len(),
        heads[j].0 == head,
    ensures
        lookup(heads, head) == Some(heads[j].1),
{
    assert(files_at(heads, head, j));
    lemma_files_at(heads, head, j);
}

/// Marking a frame of one output as on its way, or as shown, marks that output
/// and no other, and keeps its name.
pub proof fn lemma_marked(cards: Cards, head: HeadId, pending: bool, other: HeadId)
    requires
        has_key(cards.heads, head),
    ensures
        (lookup(cards.with_pending(head, pending).heads, head) matches Some(now)
            && now.frame_pending == pending && now.output == lookup(cards.heads, head)->0.output),
        other != head ==> lookup(cards.with_pending(head, pending).heads, other) == lookup(
            cards.heads,
            other,
        ),
{
    let surface = lookup(cards.heads, head)->0;
    lemma_lookup_filed(
        cards.heads,
        head,
        SurfaceModel { frame_pending: pending, ..surface },
        other,
    );
}

/// A card that goes takes its outputs along if it drives any, and no others;
/// it is then neither among those that drive outputs nor among those that
/// only render, and every other card is where it was.
pub proof fn lemma_card_goes(
    cards: Cards,
    node: NodeId,
    entry: (HeadId, SurfaceModel),
    other: NodeId,
)
    requires
        cards.wf(),
    ensures
        ({
            let left = cards.without(node);
            &&& lookup(left.backends, node) is None
            &&& other != node ==> lookup(left.backends, other) == lookup(cards.backends, other)
            &&& !left.renderers.contains(node)
            &&& other != node ==> (left.renderers.contains(other) <==> cards.renderers.contains(
                other,
            ))
            &&& left.heads.contains(entry) <==> cards.heads.contains(entry) && !(has_key(
                cards.backends,
                node,
            ) && entry.0.node.0 == node.0)
            &&& left.primary == cards.primary
        }),
{
    lemma_lookup_unfiled(cards.backends, node, other);
    lemma_renderers_left(cards.renderers, node, other);
    lemma_renderers_left(cards.renderers, node, node);
    lemma_heads_left(cards, node, entry);
}

proof fn lemma_renderers_left(renderers: Seq<NodeId>, node: NodeId, other: NodeId)
    ensures
        renderers.filter(|n: NodeId| n.0 != node.0).contains(other) <==> renderers.contains(other)
            && other.0 != node.0,
{
    lemma_filtered(renderers, |n: NodeId| n.0 != node.0, other);
}

proof fn lemma_heads_left(cards: Cards, node: NodeId, entry: (HeadId, SurfaceModel))
    ensures
        cards.heads_off(node).contains(entry) <==> cards.heads.contains(entry) && entry.0.node.0
            != node.0,
{
    lemma_filtered(
        cards.heads,
        |entry: (HeadId, SurfaceModel)| entry.0.node != node,
        entry,
    );
}

/// Outputs that go with their card are off the plane and inactive, each of
/// them.
pub proof fn lemma_outputs_go(w: World, names: Seq<Seq<char>>, i: int)
    requires
        w.outputs.wf(),
        keys_distinct(w.screens),
        0 <= i < w.outputs.infos.len(),
    ensures
        ({
            let t = w.outputs_disconnected(names);
            &&& t.outputs.wf()
            &&& keys_distinct(t.screens)
            &&& t.outputs.infos.len() == w.outputs.infos.len()
            &&& t.outputs.infos[i].name == w.outputs.infos[i].name
            &&& t.outputs.infos[i].current_tag == w.outputs.infos[i].current_tag
            &&& names.contains(w.outputs.infos[i].name) ==> !t.outputs.infos[i].active && lookup(
                t.screens,
                OutputId(i as u32),
            ) is None
            &&& !names.contains(w.outputs.infos[i].name) ==> t.outputs.infos[i]
                == w.outputs.infos[i] && lookup(t.screens, OutputId(i as u32)) == lookup(
                w.screens,
                OutputId(i as u32),
            )
            &&& t.windows == w.windows
        }),
    decreases names.len(),
{
    if names.len() > 0 {
        let front = names.drop_last();
        let name = names.last();
        let before = w.outputs_disconnected(front);
        let id = OutputId(i as u32);
        lemma_outputs_go(w, front, i);
        assert(names =~= front.push(name));
        assert(names.contains(w.outputs.infos[i].name) <==> front.contains(w.outputs.infos[i].name)
            || w.outputs.infos[i].name == name) by {
            let mine = w.outputs.infos[i].name;
            if names.contains(mine) && mine != name {
                let k = choose|k: int| 0 <= k < names.len() && names[k] == mine;
                assert(front[k] == mine);
            }
            if front.contains(mine) {
                let k = choose|k: int| 0 <= k < front.len() && front[k] == mine;
                assert(names[k] == mine);
            }
            assert(names[names.len() - 1] == name);
        }
        lemma_deactivated_wf(before.outputs, name);
        match before.outputs.named(name) {
            Some(j) => {
                assert(before.outputs.is_first_named(name, j));
                lemma_output_goes(before, name, j, id);
                lemma_unfiled_distinct(before.screens, OutputId(j as u32));
                assert(before.outputs.infos[j].id == OutputId(j as u32));
                assert(before.outputs.infos[i].name == name ==> i == j);
                assert(before.outputs.infos[i].id == id);
                lemma_output_goes(before, name, i, id);
                lemma_output_told(
                    before,
                    OutputId(j as u32),
                    before.bars.len(),
                );
            },
            None => {
                assert(before.outputs.infos[i].name != name) by {
                    if before.outputs.infos[i].name == name {
                        assert(before.outputs.is_first_named(name, i));
                    }
                }
            },
        }
    }
}

} // verus!
