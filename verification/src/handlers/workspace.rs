//! The tags as workspaces, for the programs that show and switch them.
use vstd::prelude::*;

use crate::effect::Effect;
use crate::output::{LayoutScope, OutputId, Outputs, TagId};
use crate::state::Alice;
use crate::table::{filed, files_at, has_key, lemma_files_at};
use crate::window::WindowRegistry;
use crate::world::{BarModel, World};
use crate::world_events::{
    bar_index, is_first_bar, scopes_but, scopes_elsewhere, scopes_there, NUM_TAGS,
};
use crate::world_laws::{kept, lemma_groups_entered, lemma_kept_trans, lemma_states_told};

verus! {

/// Goes with the global that bars bind.
#[derive(Debug, Clone, Copy, Default)]
pub struct ManagerGlobalData;

/// Goes with what a bar has bound.
#[derive(Debug, Clone, Copy, Default)]
pub struct ManagerUserData;

/// Goes with the group of an output.
#[derive(Debug, Clone, Copy)]
pub struct GroupUserData {
    pub output: OutputId,
}

/// Goes with the workspace of a tag.
#[derive(Debug, Clone, Copy)]
pub struct WorkspaceUserData {
    pub output: OutputId,
    pub tag: TagId,
}

/// A program that shows workspaces, and what it was told about.
pub struct BoundInstance {
    pub id: u64,
    /// The outputs whose groups it knows, and whether it was told which
    /// output each group is on.
    pub groups: Vec<(OutputId, bool)>,
    /// The tags that it knows as workspaces.
    pub workspaces: Vec<LayoutScope>,
}

impl View for BoundInstance {
    type V = BarModel;

    open spec fn view(&self) -> BarModel {
        BarModel { id: self.id, groups: self.groups@, workspaces: self.workspaces@ }
    }
}

/// Every program that shows workspaces.
pub struct WorkspaceManagerState {
    pub instances: Vec<BoundInstance>,
}

impl View for WorkspaceManagerState {
    type V = Seq<BarModel>;

    open spec fn view(&self) -> Seq<BarModel> {
        self.instances@.map_values(|instance: BoundInstance| instance@)
    }
}

impl WorkspaceManagerState {
    pub fn new() -> (state: Self)
        ensures
            state@ == Seq::<BarModel>::empty(),
    {
        let state = WorkspaceManagerState { instances: Vec::new() };
        assert(state@ =~= Seq::<BarModel>::empty());
        state
    }
}

/// Whether a tag is the one that its output shows, and whether it is hidden:
/// neither shown nor occupied.
pub fn workspace_state(outputs: &Outputs, window_registry: &WindowRegistry, scope: LayoutScope) -> (r:
    (bool, bool))
    ensures
        r.0 == (outputs@.tag_of(scope.output) == Some(scope.tag)),
        r.1 == (!r.0 && window_registry@.rendered(scope).len() == 0),
{
    let active = outputs.get_focused_tag(scope.output) == Some(scope.tag);
    let occupied = window_registry.filter(&scope).len() > 0;
    (active, !active && !occupied)
}

impl Alice {
    /// Tells one bar the outputs of the groups that it was not told yet, if
    /// it can know them by now.
    fn sync_group_outputs(&mut self, bar: usize)
        requires
            bar < old(self)@.bars.len(),
        ensures
            final(self)@ == old(self)@.groups_entered(
                old(self)@.bars[bar as int].id,
                old(self)@.bars[bar as int].groups,
            ),
    {
        let ghost model = self@.bars[bar as int];
        assert(self.workspace_manager.instances@[bar as int]@ == model);
        let id = self.workspace_manager.instances[bar].id;
        let n = self.workspace_manager.instances[bar].groups.len();
        let mut i: usize = 0;
        assert(model.groups.take(0) =~= Seq::<(OutputId, bool)>::empty());
        while i < n
            invariant
                i <= n,
                bar < self@.bars.len(),
                self@.bars[bar as int] == model,
                model.groups.len() == n,
                id == model.id,
                self@ == old(self)@.groups_entered(id, model.groups.take(i as int)),
            decreases n - i,
        {
            assert(model.groups.take(i + 1).drop_last() =~= model.groups.take(i as int));
            assert(self.workspace_manager.instances@[bar as int]@ == model);
            let (output, entered) = self.workspace_manager.instances[bar].groups[i];
            if !entered {
                self.emit(Effect::EnterGroup { bar: id, output });
            }
            i += 1;
        }
        assert(model.groups.take(i as int) =~= model.groups);
    }

    fn tell_states(&mut self, bar: usize)
        requires
            bar < old(self)@.bars.len(),
        ensures
            final(self)@ == old(self)@.states_told(
                old(self)@.bars[bar as int].id,
                old(self)@.bars[bar as int].workspaces,
            ),
    {
        let ghost model = self@.bars[bar as int];
        assert(self.workspace_manager.instances@[bar as int]@ == model);
        let id = self.workspace_manager.instances[bar].id;
        let n = self.workspace_manager.instances[bar].workspaces.len();
        let mut i: usize = 0;
        assert(model.workspaces.take(0) =~= Seq::<LayoutScope>::empty());
        while i < n
            invariant
                i <= n,
                bar < self@.bars.len(),
                self@.bars[bar as int] == model,
                model.workspaces.len() == n,
                id == model.id,
                self@.outputs == old(self)@.outputs,
                self@.windows == old(self)@.windows,
                self@ == old(self)@.states_told(id, model.workspaces.take(i as int)),
            decreases n - i,
        {
            assert(model.workspaces.take(i + 1).drop_last() =~= model.workspaces.take(i as int));
            assert(self.workspace_manager.instances@[bar as int]@ == model);
            let scope = self.workspace_manager.instances[bar].workspaces[i];
            let (active, hidden) = workspace_state(&self.outputs, &self.window_registry, scope);
            self.emit(Effect::WorkspaceState { bar: id, scope, active, hidden });
            i += 1;
        }
        assert(model.workspaces.take(i as int) =~= model.workspaces);
    }

    /// Tells every bar the state of every workspace that it knows.
    pub fn broadcast_workspace_state(&mut self)
        ensures
            final(self)@ == old(self)@.broadcast(),
    {
        let ghost bars = self@.bars;
        let n = self.workspace_manager.instances.len();
        let mut i: usize = 0;
        assert(bars.take(0) =~= Seq::<BarModel>::empty());
        while i < n
            invariant
                i <= n,
                n == bars.len(),
                bars == old(self)@.bars,
                self@.bars == bars,
                self@ == old(self)@.bars_told(bars.take(i as int)),
            decreases n - i,
        {
            assert(bars.take(i + 1).drop_last() =~= bars.take(i as int));
            assert(self.workspace_manager@.len() == self.workspace_manager.instances@.len());
            proof {
                lemma_groups_entered(self@, bars[i as int].id, bars[i as int].groups);
                lemma_states_told(
                    self@.groups_entered(bars[i as int].id, bars[i as int].groups),
                    bars[i as int].id,
                    bars[i as int].workspaces,
                );
            }
            self.sync_group_outputs(i);
            self.tell_states(i);
            assert(self.workspace_manager.instances@[i as int]@ == bars[i as int]);
            let bar = self.workspace_manager.instances[i].id;
            self.emit(Effect::WorkspaceDone { bar });
            i += 1;
        }
        assert(bars.take(i as int) =~= bars);
    }

    /// Tells a bar about the tags of an output, in order.
    fn announce_workspaces(&mut self, bar: u64, output: OutputId)
        ensures
            final(self)@ == old(self)@.workspaces_announced(bar, output, NUM_TAGS as nat),
    {
        let mut i: u32 = 0;
        while i < NUM_TAGS
            invariant
                i <= NUM_TAGS,
                self@.outputs == old(self)@.outputs,
                self@.windows == old(self)@.windows,
                self@ == old(self)@.workspaces_announced(bar, output, i as nat),
            decreases NUM_TAGS - i,
        {
            let scope = LayoutScope { output, tag: TagId(i) };
            let (active, hidden) = workspace_state(&self.outputs, &self.window_registry, scope);
            self.emit(
                Effect::AnnounceWorkspace { bar, scope, number: i + 1, active, hidden },
            );
            i += 1;
        }
    }

    /// Tells a bar about an output and its tags.
    fn announce_output(&mut self, bar: u64, output: OutputId)
        ensures
            final(self)@ == old(self)@.output_announced(bar, output),
    {
        self.emit(Effect::AnnounceGroup { bar, output });
        self.announce_workspaces(bar, output);
    }

    /// Tells every bar about an output that has just come.
    pub fn workspace_output_added(&mut self, output: OutputId)
        ensures
            final(self)@ == old(self)@.output_announced_to(old(self)@.bars, output),
    {
        let ghost bars = self@.bars;
        let n = self.workspace_manager.instances.len();
        let mut i: usize = 0;
        assert(bars.take(0) =~= Seq::<BarModel>::empty());
        while i < n
            invariant
                i <= n,
                n == bars.len(),
                bars == old(self)@.bars,
                self@.bars == bars,
                self@ == old(self)@.output_announced_to(bars.take(i as int), output),
            decreases n - i,
        {
            assert(bars.take(i + 1).drop_last() =~= bars.take(i as int));
            assert(self.workspace_manager@.len() == self.workspace_manager.instances@.len());
            assert(self.workspace_manager.instances@[i as int]@ == bars[i as int]);
            let bar = self.workspace_manager.instances[i].id;
            proof {
                lemma_output_announced(self@, bar, output);
            }
            self.announce_output(bar, output);
            self.emit(Effect::WorkspaceDone { bar });
            i += 1;
        }
        assert(bars.take(i as int) =~= bars);
    }

    fn remove_workspaces(&mut self, bar: u64, scopes: &Vec<LayoutScope>)
        ensures
            final(self)@ == old(self)@.workspaces_removed(bar, scopes@),
    {
        let mut i: usize = 0;
        assert(scopes@.take(0) =~= Seq::<LayoutScope>::empty());
        while i < scopes.len()
            invariant
                i <= scopes.len(),
                self@ == old(self)@.workspaces_removed(bar, scopes@.take(i as int)),
            decreases scopes.len() - i,
        {
            assert(scopes@.take(i + 1).drop_last() =~= scopes@.take(i as int));
            self.emit(Effect::RemoveWorkspace { bar, scope: scopes[i] });
            i += 1;
        }
        assert(scopes@.take(i as int) =~= scopes@);
    }

    /// Makes one bar forget an output, and tells it so.
    fn forget_output(&mut self, bar: usize, output: OutputId)
        requires
            bar < old(self)@.bars.len(),
        ensures
            final(self)@ == ({
                let model = old(self)@.bars[bar as int];
                if has_key(model.groups, output) {
                    World {
                        bars: old(self)@.bars.update(
                            bar as int,
                            World::bar_without(model, output),
                        ),
                        ..old(self)@
                    }.workspaces_removed(model.id, scopes_there(model.workspaces, output)).emit(
                        Effect::RemoveGroup { bar: model.id, output },
                    ).emit(Effect::WorkspaceDone { bar: model.id })
                } else {
                    old(self)@
                }
            }),
    {
        let ghost bars = self@.bars;
        let ghost model = bars[bar as int];
        assert(self.workspace_manager.instances@[bar as int]@ == model);
        let instance = &mut self.workspace_manager.instances[bar];
        let id = instance.id;
        let Some(slot) = group_slot(&instance.groups, output) else {
            assert(self@.bars =~= bars);
            return;
        };
        proof {
            lemma_files_at(model.groups, output, slot as int);
        }
        instance.groups.remove(slot);
        let (there, elsewhere) = split_scopes(&instance.workspaces, output);
        instance.workspaces = elsewhere;
        assert(self@.bars =~= bars.update(bar as int, World::bar_without(model, output)));
        self.remove_workspaces(id, &there);
        self.emit(Effect::RemoveGroup { bar: id, output });
        self.emit(Effect::WorkspaceDone { bar: id });
    }

    /// Tells every bar that an output is gone.
    pub fn workspace_output_removed(&mut self, output: OutputId)
        ensures
            final(self)@ == old(self)@.output_gone_from(output, old(self)@.bars.len()),
    {
        let n = self.workspace_manager.instances.len();
        let ghost bars = self@.bars;
        let mut i: usize = 0;
        while i < n
            invariant
                i <= n,
                n == bars.len(),
                bars == old(self)@.bars,
                self@.bars.len() == n,
                forall|j: int| i <= j < n ==> self@.bars[j] == #[trigger] bars[j],
                self@ == old(self)@.output_gone_from(output, i as nat),
            decreases n - i,
        {
            proof {
                let model = bars[i as int];
                lemma_workspaces_removed(
                    World {
                        bars: self@.bars.update(i as int, World::bar_without(model, output)),
                        ..self@
                    },
                    model.id,
                    scopes_there(model.workspaces, output),
                );
            }
            assert(self@.bars[i as int] == bars[i as int]);
            self.forget_output(i, output);
            i += 1;
        }
    }

    /// Where the bar called `id` stands.
    fn bar_slot(&self, id: u64) -> (slot: Option<usize>)
        ensures
            match slot {
                Some(i) => bar_index(self@.bars, id) == Some(i as int) && i < self@.bars.len()
                    && self@.bars[i as int].id == id,
                None => bar_index(self@.bars, id) == None::<int>,
            },
    {
        let n = self.workspace_manager.instances.len();
        let mut i: usize = 0;
        while i < n
            invariant
                i <= n,
                n == self@.bars.len(),
                forall|j: int| 0 <= j < i ==> (#[trigger] self@.bars[j]).id != id,
            decreases n - i,
        {
            assert(self.workspace_manager.instances@[i as int]@ == self@.bars[i as int]);
            if self.workspace_manager.instances[i].id == id {
                proof {
                    lemma_bar_index(self@.bars, id, i as int);
                }
                return Some(i);
            }
            i += 1;
        }
        None
    }

    /// Takes in a new bar and tells it about every active output.
    pub fn bind_bar(&mut self, bar: u64)
        ensures
            final(self)@ == old(self)@.bar_bound(bar),
    {
        let ids = self.outputs.iter();
        self.workspace_manager.instances.push(
            BoundInstance { id: bar, groups: Vec::new(), workspaces: Vec::new() },
        );
        let ghost bound = World {
            bars: old(self)@.bars.push(
                BarModel { id: bar, groups: Seq::empty(), workspaces: Seq::empty() },
            ),
            ..old(self)@
        };
        assert(self@.bars =~= bound.bars);
        let mut i: usize = 0;
        assert(ids@.take(0) =~= Seq::<OutputId>::empty());
        while i < ids.len()
            invariant
                i <= ids.len(),
                self@ == bound.outputs_announced(bar, ids@.take(i as int)),
            decreases ids.len() - i,
        {
            assert(ids@.take(i + 1).drop_last() =~= ids@.take(i as int));
            self.announce_output(bar, ids[i]);
            i += 1;
        }
        assert(ids@.take(i as int) =~= ids@);
        self.emit(Effect::WorkspaceDone { bar });
    }

    /// Records that a bar was sent the group of an output, and whether it
    /// was told the output with it.
    pub fn group_announced(&mut self, bar: u64, output: OutputId, entered: bool)
        ensures
            final(self)@ == old(self)@.group_announced(bar, output, entered),
    {
        let Some(i) = self.bar_slot(bar) else {
            return;
        };
        let ghost bars = self@.bars;
        let ghost model = bars[i as int];
        assert(self.workspace_manager.instances@[i as int]@ == model);
        let instance = &mut self.workspace_manager.instances[i];
        match group_slot(&instance.groups, output) {
            Some(slot) => {
                proof {
                    lemma_files_at(model.groups, output, slot as int);
                }
                instance.groups.set(slot, (output, entered));
            },
            None => {
                instance.groups.push((output, entered));
            },
        }
        assert(self@.bars =~= bars.update(
            i as int,
            BarModel { groups: filed(model.groups, output, entered), ..model },
        ));
    }

    /// Records that a bar was told the output of a group.
    pub fn group_entered(&mut self, bar: u64, output: OutputId)
        ensures
            final(self)@ == old(self)@.group_entered(bar, output),
    {
        let Some(i) = self.bar_slot(bar) else {
            return;
        };
        let ghost bars = self@.bars;
        let ghost model = bars[i as int];
        assert(self.workspace_manager.instances@[i as int]@ == model);
        let instance = &mut self.workspace_manager.instances[i];
        if let Some(slot) = group_slot(&instance.groups, output) {
            proof {
                lemma_files_at(model.groups, output, slot as int);
            }
            instance.groups.set(slot, (output, true));
        }
        assert(self@.bars =~= old(self)@.group_entered(bar, output).bars);
    }

    /// Records that a bar was sent a workspace.
    pub fn workspace_announced(&mut self, bar: u64, scope: LayoutScope)
        ensures
            final(self)@ == old(self)@.workspace_announced(bar, scope),
    {
        let Some(i) = self.bar_slot(bar) else {
            return;
        };
        let ghost bars = self@.bars;
        let ghost model = bars[i as int];
        assert(self.workspace_manager.instances@[i as int]@ == model);
        let instance = &mut self.workspace_manager.instances[i];
        if !has_scope(&instance.workspaces, scope) {
            instance.workspaces.push(scope);
        }
        assert(self@.bars =~= old(self)@.workspace_announced(bar, scope).bars);
    }

    /// Records that a bar has let go of a workspace.
    pub fn workspace_destroyed(&mut self, bar: u64, scope: LayoutScope)
        ensures
            final(self)@ == old(self)@.workspace_dropped(bar, scope),
    {
        let Some(i) = self.bar_slot(bar) else {
            return;
        };
        let ghost bars = self@.bars;
        let ghost model = bars[i as int];
        assert(self.workspace_manager.instances@[i as int]@ == model);
        let instance = &mut self.workspace_manager.instances[i];
        let kept = scopes_other_than(&instance.workspaces, scope);
        instance.workspaces = kept;
        assert(self@.bars =~= old(self)@.workspace_dropped(bar, scope).bars);
    }

    /// A bar has taken in what it was sent: what it could not be told then it
    /// may be told now.
    pub fn commit_bar(&mut self, bar: u64)
        ensures
            final(self)@ == old(self)@.bar_committed(bar),
    {
        let Some(i) = self.bar_slot(bar) else {
            return;
        };
        self.sync_group_outputs(i);
        self.emit(Effect::WorkspaceDone { bar });
    }

    /// A bar wants to hear no more.
    pub fn stop_bar(&mut self, bar: u64)
        ensures
            final(self)@ == old(self)@.emit(Effect::FinishBar { bar }),
    {
        self.emit(Effect::FinishBar { bar });
    }

    /// Forgets a bar.
    pub fn bar_destroyed(&mut self, bar: u64)
        ensures
            final(self)@ == old(self)@.bar_gone(bar),
    {
        let ghost stays = |model: BarModel| model.id != bar;
        let ghost all = self@.bars;
        let mut rest: Vec<BoundInstance> = Vec::new();
        std::mem::swap(&mut rest, &mut self.workspace_manager.instances);
        let ghost mut done: int = 0;
        proof {
            reveal(Seq::filter);
            assert(all.take(0) =~= Seq::<BarModel>::empty());
            assert(self@.bars =~= all.take(0).filter(stays));
            assert(views(rest@) =~= all.skip(0));
        }
        while rest.len() > 0
            invariant
                0 <= done <= all.len(),
                all == old(self)@.bars,
                stays == (|model: BarModel| model.id != bar),
                views(rest@) == all.skip(done),
                self@ == (World { bars: all.take(done).filter(stays), ..old(self)@ }),
            decreases rest.len(),
        {
            let ghost before = rest@;
            let ghost known = self@.bars;
            assert(views(before).len() == all.skip(done).len());
            assert(views(before)[0] == all.skip(done)[0]);
            let instance = rest.remove(0);
            proof {
                reveal(Seq::filter);
                assert(all.take(done + 1).drop_last() =~= all.take(done));
                assert(views(rest@) =~= all.skip(done + 1)) by {
                    assert forall|j: int| 0 <= j < rest@.len() implies views(rest@)[j]
                        == all.skip(done + 1)[j] by {
                        assert(rest@[j] == before[j + 1]);
                        assert(views(before)[j + 1] == all.skip(done)[j + 1]);
                    }
                }
            }
            if instance.id != bar {
                self.workspace_manager.instances.push(instance);
                assert(self@.bars =~= known.push(all[done]));
            }
            proof {
                done = done + 1;
                assert(self@.bars =~= all.take(done).filter(stays));
            }
        }
        assert(all.take(done) =~= all);
    }

    /// Shows the tag of a workspace; its output is focused first.
    pub fn activate_workspace(&mut self, scope: LayoutScope)
        requires
            old(self)@.wf(),
            old(self)@.outputs.has(scope.output),
            old(self)@.outputs.has(old(self)@.outputs.focused),
        ensures
            final(self)@ == old(self)@.workspace_activated(scope),
            final(self)@.wf(),
            kept(old(self)@, final(self)@),
    {
        self.focus_output(scope.output);
        let ghost focused = self@;
        self.change_tag(scope.tag);
        proof {
            lemma_kept_trans(old(self)@, focused, self@);
        }
    }
}

/// What `instances` stand for.
pub open spec fn views(instances: Seq<BoundInstance>) -> Seq<BarModel> {
    instances.map_values(|instance: BoundInstance| instance@)
}

pub(crate) proof fn lemma_bar_index(bars: Seq<BarModel>, id: u64, i: int)
    requires
        is_first_bar(bars, id, i),
    ensures
        bar_index(bars, id) == Some(i),
{
    let k = choose|k: int| is_first_bar(bars, id, k);
    if k < i {
        assert(bars[k].id != id);
    } else if i < k {
        assert(bars[i].id != id);
    }
}

/// Telling a bar about an output changes nothing but what was requested.
pub proof fn lemma_output_announced(w: World, bar: u64, output: OutputId)
    ensures
        w.output_announced(bar, output) == (World {
            effects: w.output_announced(bar, output).effects,
            ..w
        }),
{
    lemma_workspaces_announced(
        w.emit(Effect::AnnounceGroup { bar, output }),
        bar,
        output,
        NUM_TAGS as nat,
    );
}

proof fn lemma_workspaces_announced(w: World, bar: u64, output: OutputId, n: nat)
    ensures
        ({
            let t = w.workspaces_announced(bar, output, n);
            t == (World { effects: t.effects, ..w })
        }),
    decreases n,
{
    if n > 0 {
        lemma_workspaces_announced(w, bar, output, (n - 1) as nat);
    }
}

pub proof fn lemma_workspaces_removed(w: World, bar: u64, scopes: Seq<LayoutScope>)
    ensures
        ({
            let t = w.workspaces_removed(bar, scopes);
            t == (World { effects: t.effects, ..w })
        }),
    decreases scopes.len(),
{
    if scopes.len() > 0 {
        lemma_workspaces_removed(w, bar, scopes.drop_last());
    }
}

/// Where the group of `output` stands.
fn group_slot(groups: &Vec<(OutputId, bool)>, output: OutputId) -> (slot: Option<usize>)
    ensures
        match slot {
            Some(i) => files_at(groups@, output, i as int),
            None => !has_key(groups@, output),
        },
{
    let mut i: usize = 0;
    while i < groups.len()
        invariant
            i <= groups.len(),
            forall|j: int| 0 <= j < i ==> (#[trigger] groups@[j]).0 != output,
        decreases groups.len() - i,
    {
        if groups[i].0 == output {
            return Some(i);
        }
        i += 1;
    }
    None
}

fn has_scope(scopes: &Vec<LayoutScope>, scope: LayoutScope) -> (r: bool)
    ensures
        r == scopes@.contains(scope),
{
    let mut i: usize = 0;
    while i < scopes.len()
        invariant
            i <= scopes.len(),
            forall|j: int| 0 <= j < i ==> scopes@[j] != scope,
        decreases scopes.len() - i,
    {
        if scopes[i] == scope {
            return true;
        }
        i += 1;
    }
    false
}

/// `scopes` apart by whether they are of `output`.
fn split_scopes(scopes: &Vec<LayoutScope>, output: OutputId) -> (r: (
    Vec<LayoutScope>,
    Vec<LayoutScope>,
))
    ensures
        r.0@ == scopes_there(scopes@, output),
        r.1@ == scopes_elsewhere(scopes@, output),
{
    let mut there: Vec<LayoutScope> = Vec::new();
    let mut elsewhere: Vec<LayoutScope> = Vec::new();
    let mut i: usize = 0;
    proof {
        reveal(Seq::filter);
        assert(scopes@.take(0) =~= Seq::<LayoutScope>::empty());
    }
    while i < scopes.len()
        invariant
            i <= scopes.len(),
            there@ == scopes_there(scopes@.take(i as int), output),
            elsewhere@ == scopes_elsewhere(scopes@.take(i as int), output),
        decreases scopes.len() - i,
    {
        proof {
            reveal(Seq::filter);
            assert(scopes@.take(i + 1).drop_last() =~= scopes@.take(i as int));
        }
        let scope = scopes[i];
        if scope.output == output {
            there.push(scope);
        } else {
            elsewhere.push(scope);
        }
        i += 1;
    }
    assert(scopes@.take(i as int) =~= scopes@);
    (there, elsewhere)
}

fn scopes_other_than(scopes: &Vec<LayoutScope>, scope: LayoutScope) -> (kept: Vec<LayoutScope>)
    ensures
        kept@ == scopes_but(scopes@, scope),
{
    let mut kept: Vec<LayoutScope> = Vec::new();
    let mut i: usize = 0;
    proof {
        reveal(Seq::filter);
        assert(scopes@.take(0) =~= Seq::<LayoutScope>::empty());
    }
    while i < scopes.len()
        invariant
            i <= scopes.len(),
            kept@ == scopes_but(scopes@.take(i as int), scope),
        decreases scopes.len() - i,
    {
        proof {
            reveal(Seq::filter);
            assert(scopes@.take(i + 1).drop_last() =~= scopes@.take(i as int));
        }
        if scopes[i] != scope {
            kept.push(scopes[i]);
        }
        i += 1;
    }
    assert(scopes@.take(i as int) =~= scopes@);
    kept
}

/// Of the tags of an output exactly the one that it shows is active; an
/// active tag is never hidden, and a hidden one has no window.
pub proof fn lemma_one_active_tag(w: World, a: LayoutScope, b: LayoutScope)
    requires
        w.outputs.has(a.output),
        a.output == b.output,
    ensures
        w.tag_active(w.shown(a.output)),
        w.tag_active(a) && w.tag_active(b) ==> a == b,
        w.tag_active(a) ==> !w.tag_hidden(a),
        w.tag_hidden(a) ==> w.windows.rendered(a).len() == 0,
        !w.tag_active(a) && w.windows.rendered(a).len() == 0 ==> w.tag_hidden(a),
{
}

} // verus!
