//! Outputs, their tags, and which layout each tag uses.
use vstd::prelude::*;

use crate::layout::{Fibonacci, Layout, MasterStack, Rect, Tablet, Tile};
use crate::table::{Key, Table};
use crate::window::WindowId;

verus! {

/// Names one of an output's tags.
#[derive(Debug, Clone, Copy, PartialEq, Eq, PartialOrd, Ord, Hash, Structural)]
pub struct TagId(pub u32);

/// Names an output for as long as the compositor runs.
#[derive(Debug, Clone, Copy, PartialEq, Eq, PartialOrd, Ord, Hash, Structural)]
pub struct OutputId(pub u32);

/// One tag of one output: what a layout applies to.
#[derive(Debug, Clone, Copy, PartialEq, Eq, PartialOrd, Ord, Hash, Structural)]
pub struct LayoutScope {
    pub output: OutputId,
    pub tag: TagId,
}

/// A direction on the plane that outputs are laid out on.
#[derive(Debug, Clone, Copy, PartialEq, Eq, Structural)]
pub enum Direction {
    Left,
    Right,
    Up,
    Down,
}

impl Key for OutputId {
    open spec fn packed(self) -> u64 {
        self.0 as u64
    }

    proof fn lemma_packed_injective(a: Self, b: Self) {
    }

    fn pack(&self) -> (code: u64) {
        self.0 as u64
    }
}

impl Key for LayoutScope {
    open spec fn packed(self) -> u64 {
        (self.output.0 * 0x1_0000_0000 + self.tag.0) as u64
    }

    proof fn lemma_packed_injective(a: Self, b: Self) {
    }

    fn pack(&self) -> (code: u64) {
        self.output.0 as u64 * 0x1_0000_0000 + self.tag.0 as u64
    }
}

/// What the compositor keeps about an output.
pub struct OutputInfo {
    pub name: String,
    pub id: OutputId,
    pub current_tag: TagId,
    pub active: bool,
}

/// What an [`OutputInfo`] stands for.
pub struct OutputModel {
    pub name: Seq<char>,
    pub id: OutputId,
    pub current_tag: TagId,
    pub active: bool,
}

impl View for OutputInfo {
    type V = OutputModel;

    open spec fn view(&self) -> OutputModel {
        OutputModel {
            name: self.name@,
            id: self.id,
            current_tag: self.current_tag,
            active: self.active,
        }
    }
}

impl OutputInfo {
    /// An active output on its first tag.
    pub fn new(name: String, id: OutputId) -> (info: Self)
        ensures
            info@ == (OutputModel { name: name@, id, current_tag: TagId(0), active: true }),
    {
        OutputInfo { name, id, current_tag: TagId(0), active: true }
    }
}

/// Every output that was ever connected, under an id that is its index.
pub struct Outputs {
    outputs: Vec<OutputInfo>,
    focused_output: OutputId,
}

/// What an [`Outputs`] stands for.
#[verifier::ext_equal]
pub struct OutputsModel {
    pub infos: Seq<OutputModel>,
    pub focused: OutputId,
}

impl View for Outputs {
    type V = OutputsModel;

    closed spec fn view(&self) -> OutputsModel {
        OutputsModel {
            infos: self.outputs@.map_values(|info: OutputInfo| info@),
            focused: self.focused_output,
        }
    }
}

impl OutputsModel {
    /// Ids are indices, names are distinct, and the focused output exists
    /// once any output does.
    pub open spec fn wf(self) -> bool {
        &&& self.infos.len() <= u32::MAX
        &&& forall|i: int|
            0 <= i < self.infos.len() ==> (#[trigger] self.infos[i]).id == OutputId(i as u32)
        &&& forall|i: int, j: int|
            0 <= i < j < self.infos.len() ==> (#[trigger] self.infos[i]).name != (
            #[trigger] self.infos[j]).name
        &&& self.focused.0 < self.infos.len() || self.focused.0 == 0
    }

    /// Output `id` exists.
    pub open spec fn has(self, id: OutputId) -> bool {
        id.0 < self.infos.len()
    }

    /// The output with id `id`.
    pub open spec fn at(self, id: OutputId) -> OutputModel {
        self.infos[id.0 as int]
    }

    /// Output `i` is the first one called `name`.
    pub open spec fn is_first_named(self, name: Seq<char>, i: int) -> bool {
        &&& 0 <= i < self.infos.len()
        &&& self.infos[i].name == name
        &&& forall|j: int| 0 <= j < i ==> (#[trigger] self.infos[j]).name != name
    }

    /// The index of the output called `name`.
    pub open spec fn named(self, name: Seq<char>) -> Option<int> {
        if exists|i: int| self.is_first_named(name, i) {
            Some(choose|i: int| self.is_first_named(name, i))
        } else {
            None
        }
    }

    /// The tag that output `id` shows.
    pub open spec fn tag_of(self, id: OutputId) -> Option<TagId> {
        if self.has(id) {
            Some(self.at(id).current_tag)
        } else {
            None
        }
    }

    /// The tag that the focused output shows.
    pub open spec fn current_tag(self) -> Option<TagId> {
        self.tag_of(self.focused)
    }

    /// Output `id` turned to `tag`.
    pub open spec fn turned(self, id: OutputId, tag: TagId) -> OutputsModel {
        if self.has(id) {
            OutputsModel {
                infos: self.infos.update(
                    id.0 as int,
                    OutputModel { current_tag: tag, ..self.at(id) },
                ),
                ..self
            }
        } else {
            self
        }
    }

    /// The focused output turned to `tag`.
    pub open spec fn turned_to(self, tag: TagId) -> OutputsModel {
        self.turned(self.focused, tag)
    }

    /// With an output called `name`: the one that was already called so, on
    /// the tag it showed, or a new one.
    pub open spec fn inserted(self, name: Seq<char>) -> OutputsModel {
        match self.named(name) {
            Some(i) => OutputsModel {
                infos: self.infos.update(i, OutputModel { active: true, ..self.infos[i] }),
                ..self
            },
            None => OutputsModel {
                infos: self.infos.push(
                    OutputModel {
                        name,
                        id: OutputId(self.infos.len() as u32),
                        current_tag: TagId(0),
                        active: true,
                    },
                ),
                ..self
            },
        }
    }

    /// The id under which `inserted` files `name`.
    pub open spec fn inserted_id(self, name: Seq<char>) -> OutputId {
        match self.named(name) {
            Some(i) => self.infos[i].id,
            None => OutputId(self.infos.len() as u32),
        }
    }

    /// With the output called `name` no longer active.
    pub open spec fn deactivated(self, name: Seq<char>) -> OutputsModel {
        match self.named(name) {
            Some(i) => OutputsModel {
                infos: self.infos.update(i, OutputModel { active: false, ..self.infos[i] }),
                ..self
            },
            None => self,
        }
    }

    /// The ids of the active ones among the first `n` outputs, in order.
    pub open spec fn active_ids(self, n: nat) -> Seq<OutputId>
        decreases n,
    {
        if n == 0 {
            Seq::empty()
        } else {
            let before = self.active_ids((n - 1) as nat);
            if self.infos[n - 1].active {
                before.push(self.infos[n - 1].id)
            } else {
                before
            }
        }
    }
}

/// The first output of a name is found by its index.
pub proof fn lemma_named(outputs: OutputsModel, name: Seq<char>, i: int)
    requires
        outputs.is_first_named(name, i),
    ensures
        outputs.named(name) == Some(i),
{
    let k = choose|k: int| outputs.is_first_named(name, k);
    if k < i {
        assert(outputs.infos[k].name != name);
    } else if i < k {
        assert(outputs.infos[i].name != name);
    }
}

/// A name that no output has is not found.
pub proof fn lemma_not_named(outputs: OutputsModel, name: Seq<char>)
    requires
        forall|j: int| 0 <= j < outputs.infos.len() ==> (#[trigger] outputs.infos[j]).name != name,
    ensures
        outputs.named(name) == None::<int>,
{
}

/// A name that is not found belongs to no output.
pub proof fn lemma_unnamed(outputs: OutputsModel, name: Seq<char>, i: int)
    requires
        outputs.named(name) is None,
        0 <= i < outputs.infos.len(),
    ensures
        outputs.infos[i].name != name,
    decreases i,
{
    if outputs.infos[i].name == name {
        assert forall|j: int| 0 <= j < i implies (#[trigger] outputs.infos[j]).name != name by {
            lemma_unnamed(outputs, name, j);
        }
        assert(outputs.is_first_named(name, i));
    }
}

/// Every change to the outputs keeps ids equal to indices and names
/// distinct.
pub proof fn lemma_outputs_stay_wf(outputs: OutputsModel, name: Seq<char>, tag: TagId)
    requires
        outputs.wf(),
        outputs.named(name) is None ==> outputs.infos.len() < u32::MAX,
    ensures
        outputs.inserted(name).wf(),
        outputs.deactivated(name).wf(),
        outputs.turned_to(tag).wf(),
        outputs.inserted(name).has(outputs.inserted_id(name)),
        outputs.inserted(name).at(outputs.inserted_id(name)).name == name,
{
    match outputs.named(name) {
        Some(i) => {
            assert(outputs.is_first_named(name, i));
        },
        None => {
            assert forall|i: int| 0 <= i < outputs.infos.len() implies (
            #[trigger] outputs.infos[i]).name != name by {
                lemma_unnamed(outputs, name, i);
            }
        },
    }
}

/// A new output takes the next id and shows the first tag; one whose name is
/// known keeps its id and the tag that it showed, and no entry is added. Either
/// way it is found under its name and active, every other output is as it
/// was, and adding it once more changes nothing.
pub proof fn lemma_output_inserted(outputs: OutputsModel, name: Seq<char>, other: OutputId)
    requires
        outputs.wf(),
        outputs.named(name) is None ==> outputs.infos.len() < u32::MAX,
    ensures
        ({
            let after = outputs.inserted(name);
            let id = outputs.inserted_id(name);
            &&& match outputs.named(name) {
                None => {
                    &&& id == OutputId(outputs.infos.len() as u32)
                    &&& id.0 == outputs.infos.len()
                    &&& after.infos.len() == outputs.infos.len() + 1
                    &&& after.at(id).current_tag == TagId(0)
                },
                Some(i) => {
                    &&& id == outputs.infos[i].id
                    &&& id.0 == i
                    &&& after.infos.len() == outputs.infos.len()
                    &&& after.at(id).current_tag == outputs.infos[i].current_tag
                },
            }
            &&& after.wf()
            &&& after.named(name) == Some(id.0 as int)
            &&& after.at(id).id == id
            &&& after.at(id).name == name
            &&& after.at(id).active
            &&& after.focused == outputs.focused
            &&& outputs.has(other) && other != id ==> after.has(other) && after.at(other)
                == outputs.at(other)
            &&& after.inserted_id(name) == id
            &&& after.inserted(name) == after
        }),
{
    let after = outputs.inserted(name);
    let id = outputs.inserted_id(name);
    lemma_outputs_stay_wf(outputs, name, TagId(0));
    match outputs.named(name) {
        Some(i) => {
            assert(outputs.is_first_named(name, i));
        },
        None => {
            assert forall|j: int| 0 <= j < outputs.infos.len() implies (
            #[trigger] outputs.infos[j]).name != name by {
                lemma_unnamed(outputs, name, j);
            }
        },
    }
    assert(after.is_first_named(name, id.0 as int));
    lemma_named(after, name, id.0 as int);
    assert(after.inserted(name).infos =~= after.infos);
}

/// The outputs once those called `names` were added, in this order, to none.
pub open spec fn grown(names: Seq<Seq<char>>) -> OutputsModel
    decreases names.len(),
{
    if names.len() == 0 {
        OutputsModel { infos: Seq::empty(), focused: OutputId(0) }
    } else {
        grown(names.drop_last()).inserted(names.last())
    }
}

/// There is one output for each name that was added, however often, so that a
/// new one gets the number of distinct names before it as its id.
pub proof fn lemma_grown(names: Seq<Seq<char>>)
    requires
        names.len() <= u32::MAX,
    ensures
        grown(names).wf(),
        grown(names).infos.len() == names.to_set().len(),
        grown(names).infos.len() <= names.len(),
        forall|name: Seq<char>| #[trigger]
            grown(names).named(name) is Some <==> names.contains(name),
{
    lemma_grown_names(names);
    let listed = grown(names).infos.map_values(|info: OutputModel| info.name);
    assert(listed.no_duplicates()) by {
        assert forall|i: int, j: int| 0 <= i < j < listed.len() implies listed[i] != listed[j] by {
            assert(grown(names).infos[i].name != grown(names).infos[j].name);
        }
    }
    listed.unique_seq_to_set();
    assert(listed.to_set() =~= names.to_set()) by {
        assert forall|name: Seq<char>| listed.to_set().contains(name) <==> names.to_set().contains(
            name,
        ) by {
            if listed.contains(name) {
                let i = choose|i: int| 0 <= i < listed.len() && listed[i] == name;
                if grown(names).named(name) is None {
                    lemma_unnamed(grown(names), name, i);
                }
            }
            if names.contains(name) {
                let i = grown(names).named(name)->0;
                assert(grown(names).is_first_named(name, i));
                assert(listed[i] == name);
            }
        }
    }
}

/// The outputs that were added are those that are found.
proof fn lemma_grown_names(names: Seq<Seq<char>>)
    requires
        names.len() <= u32::MAX,
    ensures
        grown(names).wf(),
        grown(names).infos.len() <= names.len(),
        forall|name: Seq<char>| #[trigger]
            grown(names).named(name) is Some <==> names.contains(name),
    decreases names.len(),
{
    if names.len() > 0 {
        let front = names.drop_last();
        let last = names.last();
        let before = grown(front);
        let after = grown(names);
        lemma_grown_names(front);
        lemma_output_inserted(before, last, OutputId(0));
        assert forall|name: Seq<char>| #[trigger] after.named(name) is Some <==> names.contains(
            name,
        ) by {
            assert(names.contains(name) <==> front.contains(name) || name == last) by {
                if names.contains(name) && name != last {
                    let k = choose|k: int| 0 <= k < names.len() && names[k] == name;
                    assert(front[k] == name);
                }
                if front.contains(name) {
                    let k = choose|k: int| 0 <= k < front.len() && front[k] == name;
                    assert(names[k] == name);
                }
                assert(names[names.len() - 1] == last);
            }
            if name != last {
                if before.named(name) is Some {
                    let i = before.named(name)->0;
                    assert(before.is_first_named(name, i));
                    assert forall|j: int| 0 <= j < i implies (#[trigger] after.infos[j]).name
                        != name by {
                        assert(before.infos[j].name != name);
                    }
                    assert(after.is_first_named(name, i));
                } else {
                    assert forall|j: int| 0 <= j < after.infos.len() implies (
                    #[trigger] after.infos[j]).name != name by {
                        if j < before.infos.len() {
                            lemma_unnamed(before, name, j);
                        }
                    }
                    lemma_not_named(after, name);
                }
            }
        }
    } else {
        assert forall|name: Seq<char>| #[trigger] grown(names).named(name) is Some
            <==> names.contains(name) by {
            lemma_not_named(grown(names), name);
        }
    }
}

/// Connecting an output again under its name brings back the tag it showed.
pub proof fn lemma_reconnected_output_keeps_tag(outputs: OutputsModel, name: Seq<char>)
    requires
        outputs.wf(),
        outputs.named(name) is Some,
    ensures
        ({
            let back = outputs.deactivated(name).inserted(name);
            &&& back.infos.len() == outputs.infos.len()
            &&& outputs.deactivated(name).inserted_id(name) == outputs.inserted_id(name)
            &&& back.tag_of(outputs.inserted_id(name)) == outputs.tag_of(outputs.inserted_id(name))
            &&& back.at(outputs.inserted_id(name)).active
        }),
{
    let i = outputs.named(name)->0;
    assert(outputs.is_first_named(name, i));
    let gone = outputs.deactivated(name);
    assert(gone.is_first_named(name, i));
    lemma_named(gone, name, i);
}

/// The active outputs are listed once each, in the order of their ids.
pub proof fn lemma_active_once(outputs: OutputsModel, n: nat)
    requires
        outputs.wf(),
        n <= outputs.infos.len(),
    ensures
        outputs.active_ids(n).no_duplicates(),
        forall|a: int, b: int|
            0 <= a < b < outputs.active_ids(n).len() ==> (#[trigger] outputs.active_ids(n)[a]).0 < (
            #[trigger] outputs.active_ids(n)[b]).0,
    decreases n,
{
    if n > 0 {
        lemma_active_once(outputs, (n - 1) as nat);
        lemma_active_ids(outputs, (n - 1) as nat, 0);
    }
}

/// Listing the active outputs names each of them.
pub proof fn lemma_active_ids(outputs: OutputsModel, n: nat, i: int)
    requires
        outputs.wf(),
        n <= outputs.infos.len(),
    ensures
        forall|k: int|
            0 <= k < outputs.active_ids(n).len() ==> {
                let id = #[trigger] outputs.active_ids(n)[k];
                id.0 < n && outputs.has(id) && outputs.at(id).active
            },
        0 <= i < n && outputs.infos[i].active ==> outputs.active_ids(n).contains(
            OutputId(i as u32),
        ),
    decreases n,
{
    if n > 0 {
        lemma_active_ids(outputs, (n - 1) as nat, i);
        let before = outputs.active_ids((n - 1) as nat);
        let now = outputs.active_ids(n);
        if 0 <= i < n && outputs.infos[i].active {
            if i < n - 1 {
                let k = choose|k: int| 0 <= k < before.len() && before[k] == OutputId(i as u32);
                assert(now[k] == OutputId(i as u32));
            } else {
                assert(now[now.len() - 1] == OutputId(i as u32));
            }
        }
        assert forall|k: int| 0 <= k < now.len() implies {
            let id = #[trigger] now[k];
            id.0 < n && outputs.has(id) && outputs.at(id).active
        } by {
            if k < before.len() {
                assert(now[k] == before[k]);
            }
        }
    }
}

impl Outputs {
    pub fn new() -> (outputs: Self)
        ensures
            outputs@ == (OutputsModel { infos: Seq::empty(), focused: OutputId(0) }),
            outputs@.wf(),
    {
        let outputs = Outputs { outputs: Vec::with_capacity(3), focused_output: OutputId(0) };
        assert(outputs@ =~= (OutputsModel { infos: Seq::empty(), focused: OutputId(0) }));
        outputs
    }

    pub fn len(&self) -> (n: usize)
        ensures
            n == self@.infos.len(),
    {
        self.outputs.len()
    }

    fn find(&self, name: &str) -> (slot: Option<usize>)
        ensures
            match slot {
                Some(i) => self@.is_first_named(name@, i as int),
                None => forall|j: int|
                    0 <= j < self@.infos.len() ==> (#[trigger] self@.infos[j]).name != name@,
            },
    {
        let wanted = name.to_owned();
        let mut i: usize = 0;
        while i < self.outputs.len()
            invariant
                wanted@ == name@,
                i <= self.outputs.len(),
                forall|j: int| 0 <= j < i ==> (#[trigger] self@.infos[j]).name != name@,
            decreases self.outputs.len() - i,
        {
            assert(self@.infos[i as int].name == self.outputs@[i as int].name@);
            if self.outputs[i].name == wanted {
                return Some(i);
            }
            i += 1;
        }
        None
    }

    /// Adds an output, or brings back the one of that name on the tag that
    /// it showed.
    pub fn insert(&mut self, name: String) -> (id: OutputId)
        requires
            old(self)@.wf(),
            old(self)@.named(name@) is None ==> old(self)@.infos.len() < u32::MAX,
        ensures
            id == old(self)@.inserted_id(name@),
            final(self)@ == old(self)@.inserted(name@),
            final(self)@.wf(),
    {
        proof {
            lemma_outputs_stay_wf(self@, name@, TagId(0));
        }
        match self.find(name.as_str()) {
            Some(i) => {
                proof {
                    lemma_named(self@, name@, i as int);
                }
                assert(self@.infos[i as int].id == self.outputs@[i as int].id);
                let id = self.outputs[i].id;
                let tag = self.outputs[i].current_tag;
                let mut info = OutputInfo::new(name, id);
                info.current_tag = tag;
                self.outputs.set(i, info);
                assert(self@ =~= old(self)@.inserted(name@));
                id
            },
            None => {
                proof {
                    lemma_not_named(self@, name@);
                }
                let index = self.outputs.len() as u32;
                self.outputs.push(OutputInfo::new(name, OutputId(index)));
                assert(self@ =~= old(self)@.inserted(name@));
                OutputId(index)
            },
        }
    }

    pub fn get(&self, name: &str) -> (info: Option<&OutputInfo>)
        ensures
            match (info, self@.named(name@)) {
                (Some(info), Some(i)) => info@ == self@.infos[i],
                (None, None) => true,
                _ => false,
            },
    {
        match self.find(name) {
            Some(i) => {
                proof {
                    lemma_named(self@, name@, i as int);
                }
                Some(&self.outputs[i])
            },
            None => {
                proof {
                    lemma_not_named(self@, name@);
                }
                None
            },
        }
    }

    pub fn has(&self, id: OutputId) -> (known: bool)
        ensures
            known == self@.has(id),
    {
        (id.0 as usize) < self.outputs.len()
    }

    pub fn get_id(&self, id: OutputId) -> (info: &OutputInfo)
        requires
            self@.has(id),
        ensures
            info@ == self@.at(id),
    {
        &self.outputs[id.0 as usize]
    }

    pub fn get_focused(&self) -> (info: &OutputInfo)
        requires
            self@.has(self@.focused),
        ensures
            info@ == self@.at(self@.focused),
    {
        &self.outputs[self.focused_output.0 as usize]
    }

    /// The tag that output `id` shows.
    pub fn get_focused_tag(&self, id: OutputId) -> (tag: Option<TagId>)
        ensures
            tag == self@.tag_of(id),
    {
        if self.has(id) {
            assert(self@.at(id) == self.outputs@[id.0 as int]@);
            Some(self.outputs[id.0 as usize].current_tag)
        } else {
            None
        }
    }

    /// The tag that the focused output shows.
    pub fn current_focused_tag(&self) -> (tag: Option<TagId>)
        ensures
            tag == self@.current_tag(),
    {
        self.get_focused_tag(self.focused_output)
    }

    pub fn change_focus(&mut self, id: OutputId)
        ensures
            final(self)@ == (OutputsModel { focused: id, ..old(self)@ }),
    {
        self.focused_output = id;
    }

    /// Turns the focused output to `tag`.
    pub fn change_tag(&mut self, tag: TagId)
        ensures
            final(self)@ == old(self)@.turned_to(tag),
    {
        self.turn(self.focused_output, tag);
    }

    /// Turns output `id` to `tag`.
    pub fn turn(&mut self, id: OutputId, tag: TagId)
        ensures
            final(self)@ == old(self)@.turned(id, tag),
    {
        if self.has(id) {
            let i = id.0 as usize;
            assert(self@.infos[i as int] == self.outputs@[i as int]@);
            self.outputs[i].current_tag = tag;
        }
        assert(self@ =~= old(self)@.turned(id, tag));
    }

    /// Marks the output called `name` as gone; its id and tag are kept.
    pub fn deactivate(&mut self, name: &str)
        ensures
            final(self)@ == old(self)@.deactivated(name@),
    {
        match self.find(name) {
            Some(i) => {
                proof {
                    lemma_named(self@, name@, i as int);
                }
                assert(self@.infos[i as int] == self.outputs@[i as int]@);
                self.outputs[i].active = false;
            },
            None => {
                proof {
                    lemma_not_named(self@, name@);
                }
            },
        }
        assert(self@ =~= old(self)@.deactivated(name@));
    }

    /// The ids of the active outputs, in order.
    pub fn iter(&self) -> (ids: Vec<OutputId>)
        ensures
            ids@ == self@.active_ids(self@.infos.len()),
    {
        let mut ids: Vec<OutputId> = Vec::new();
        let mut i: usize = 0;
        while i < self.outputs.len()
            invariant
                i <= self.outputs.len(),
                self@.infos.len() == self.outputs.len(),
                ids@ == self@.active_ids(i as nat),
            decreases self.outputs.len() - i,
        {
            assert(self@.infos[i as int] == self.outputs@[i as int]@);
            if self.outputs[i].active {
                ids.push(self.outputs[i].id);
            }
            i += 1;
        }
        ids
    }
}

/// One of the layouts that the compositor knows.
#[derive(Debug, Clone, Copy, PartialEq, Eq, Structural)]
pub enum LayoutKind {
    MasterStack,
    Fibonacci,
    Tablet,
}

impl View for LayoutKind {
    type V = LayoutKind;

    open spec fn view(&self) -> LayoutKind {
        *self
    }
}

impl Layout for LayoutKind {
    open spec fn title(&self) -> Seq<char> {
        match self {
            LayoutKind::MasterStack => MasterStack.title(),
            LayoutKind::Fibonacci => Fibonacci.title(),
            LayoutKind::Tablet => Tablet.title(),
        }
    }

    open spec fn wide_tiles(&self, area: Tile, n: nat, gap: int) -> Seq<Tile> {
        match self {
            LayoutKind::MasterStack => MasterStack.wide_tiles(area, n, gap),
            LayoutKind::Fibonacci => Fibonacci.wide_tiles(area, n, gap),
            LayoutKind::Tablet => Tablet.wide_tiles(area, n, gap),
        }
    }

    open spec fn wide_fits(&self, area: Tile, n: nat, gap: int) -> bool {
        match self {
            LayoutKind::MasterStack => MasterStack.wide_fits(area, n, gap),
            LayoutKind::Fibonacci => Fibonacci.wide_fits(area, n, gap),
            LayoutKind::Tablet => Tablet.wide_fits(area, n, gap),
        }
    }

    open spec fn tall_tiles(&self, area: Tile, n: nat, gap: int) -> Seq<Tile> {
        match self {
            LayoutKind::MasterStack => MasterStack.tall_tiles(area, n, gap),
            LayoutKind::Fibonacci => Fibonacci.tall_tiles(area, n, gap),
            LayoutKind::Tablet => Tablet.tall_tiles(area, n, gap),
        }
    }

    open spec fn tall_fits(&self, area: Tile, n: nat, gap: int) -> bool {
        match self {
            LayoutKind::MasterStack => MasterStack.tall_fits(area, n, gap),
            LayoutKind::Fibonacci => Fibonacci.tall_fits(area, n, gap),
            LayoutKind::Tablet => Tablet.tall_fits(area, n, gap),
        }
    }

    fn name(&self) -> (name: &'static str) {
        match self {
            LayoutKind::MasterStack => MasterStack.name(),
            LayoutKind::Fibonacci => Fibonacci.name(),
            LayoutKind::Tablet => Tablet.name(),
        }
    }

    fn arrange_horizontal(&self, area: Rect, windows: &[WindowId], gap_size: i32) -> (rects: Vec<
        Rect,
    >) {
        match self {
            LayoutKind::MasterStack => MasterStack.arrange_horizontal(area, windows, gap_size),
            LayoutKind::Fibonacci => Fibonacci.arrange_horizontal(area, windows, gap_size),
            LayoutKind::Tablet => Tablet.arrange_horizontal(area, windows, gap_size),
        }
    }

    fn arrange_vertical(&self, area: Rect, windows: &[WindowId], gap_size: i32) -> (rects: Vec<
        Rect,
    >) {
        match self {
            LayoutKind::MasterStack => MasterStack.arrange_vertical(area, windows, gap_size),
            LayoutKind::Fibonacci => Fibonacci.arrange_vertical(area, windows, gap_size),
            LayoutKind::Tablet => Tablet.arrange_vertical(area, windows, gap_size),
        }
    }
}

/// The layout called `name`.
pub open spec fn layout_named(name: Seq<char>) -> Option<LayoutKind> {
    if name == "MasterStack"@ {
        Some(LayoutKind::MasterStack)
    } else if name == "Fibonacci"@ {
        Some(LayoutKind::Fibonacci)
    } else if name == "Tablet"@ {
        Some(LayoutKind::Tablet)
    } else {
        None
    }
}

/// Every layout is found under its own name, and no other under it.
pub proof fn lemma_layout_named(kind: LayoutKind)
    ensures
        layout_named(kind.title()) == Some(kind),
{
    reveal_strlit("MasterStack");
    reveal_strlit("Fibonacci");
    reveal_strlit("Tablet");
    assert("MasterStack"@[0] == 'M');
    assert("Fibonacci"@[0] == 'F');
    assert("Tablet"@[0] == 'T');
}

/// Looks a layout up by its name.
pub fn find_layout(name: &str) -> (kind: Option<LayoutKind>)
    ensures
        kind == layout_named(name@),
{
    let name = name.to_owned();
    if name == "MasterStack".to_owned() {
        Some(LayoutKind::MasterStack)
    } else if name == "Fibonacci".to_owned() {
        Some(LayoutKind::Fibonacci)
    } else if name == "Tablet".to_owned() {
        Some(LayoutKind::Tablet)
    } else {
        None
    }
}

/// Which layout each tag uses.
pub struct LayoutRegistry {
    active: Table<LayoutScope, LayoutKind>,
}

impl View for LayoutRegistry {
    type V = Map<LayoutScope, LayoutKind>;

    /// The scopes that were given a layout of their own.
    closed spec fn view(&self) -> Map<LayoutScope, LayoutKind> {
        self.active@
    }
}

/// The layout that `scope` uses: its own, or else [`MasterStack`].
pub open spec fn layout_of(active: Map<LayoutScope, LayoutKind>, scope: LayoutScope) -> LayoutKind {
    if active.contains_key(scope) {
        active[scope]
    } else {
        LayoutKind::MasterStack
    }
}

impl LayoutRegistry {
    pub fn new() -> (registry: Self)
        ensures
            registry@ == Map::<LayoutScope, LayoutKind>::empty(),
    {
        LayoutRegistry { active: Table::new() }
    }

    pub fn get_layout(&self, scope: &LayoutScope) -> (layout: LayoutKind)
        ensures
            layout == layout_of(self@, *scope),
    {
        match self.active.get(*scope) {
            Some(kind) => *kind,
            None => LayoutKind::MasterStack,
        }
    }

    pub fn set_active(&mut self, scope: LayoutScope, name: &str)
        requires
            layout_named(name@) is Some,
        ensures
            final(self)@ == old(self)@.insert(scope, layout_named(name@)->0),
    {
        if let Some(kind) = find_layout(name) {
            self.active.insert(scope, kind);
        }
    }
}

/// A scope uses the layout that it was last given, and no other scope
/// notices.
pub proof fn lemma_set_layout(
    active: Map<LayoutScope, LayoutKind>,
    scope: LayoutScope,
    other: LayoutScope,
    kind: LayoutKind,
)
    ensures
        layout_of(active.insert(scope, kind), scope) == kind,
        other != scope ==> layout_of(active.insert(scope, kind), other) == layout_of(active, other),
{
}

} // verus!
