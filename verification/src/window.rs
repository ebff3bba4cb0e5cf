//! Windows, the stacks they are ordered in, and the registry of both.
use vstd::prelude::*;

use crate::layout::Rect;
use crate::output::{LayoutScope, OutputId, TagId};
use crate::scalar::Scalar;
use crate::table::{Key, Table};

verus! {

/// Names a window for as long as it is registered; ids of removed windows
/// are handed out again.
#[derive(Debug, Clone, Copy, PartialOrd, Ord, PartialEq, Eq, Hash, Structural)]
pub struct WindowId(pub u64);

impl WindowId {
    /// Hands out this id and moves on to the one after it.
    pub fn next(&mut self) -> (out: WindowId)
        requires
            old(self).0 < u64::MAX,
        ensures
            out == *old(self),
            final(self).0 == old(self).0 + 1,
    {
        let out = *self;
        self.0 += 1;
        out
    }
}

impl Key for WindowId {
    open spec fn packed(self) -> u64 {
        self.0
    }

    proof fn lemma_packed_injective(a: Self, b: Self) {
    }

    fn pack(&self) -> (code: u64) {
        self.0
    }
}

impl View for WindowId {
    type V = WindowId;

    open spec fn view(&self) -> WindowId {
        *self
    }
}

/// Names a client surface for as long as the compositor runs.
#[derive(Debug, Clone, Copy, PartialOrd, Ord, PartialEq, Eq, Hash, Structural)]
pub struct SurfaceId(pub u64);

impl Key for SurfaceId {
    open spec fn packed(self) -> u64 {
        self.0
    }

    proof fn lemma_packed_injective(a: Self, b: Self) {
    }

    fn pack(&self) -> (code: u64) {
        self.0
    }
}

impl View for SurfaceId {
    type V = SurfaceId;

    open spec fn view(&self) -> SurfaceId {
        *self
    }
}

/// A toplevel window: the surface that it is known by and the size of what
/// the client last committed (zero before its first buffer).
#[derive(Debug, Clone, Copy, PartialEq, Eq, Structural)]
pub struct Window {
    pub surface: SurfaceId,
    pub width: i32,
    pub height: i32,
}

/// What the compositor keeps about a window.
#[derive(Debug, Clone, Copy)]
pub struct WindowInfo {
    pub tag: TagId,
    pub output: OutputId,
    pub window: Window,
    pub fullscreen: bool,
    /// A transient window (a dialog): it is kept out of the tiling grid.
    pub floating: bool,
    /// The rectangle and fullscreen flag of the last configure that the
    /// window was sent; a configure that would repeat them is not sent.
    pub last_configured: Option<(Rect, bool)>,
    /// The fractional scale that the window was last told about.
    pub last_fractional_scale: Option<Scalar>,
}

impl View for WindowInfo {
    type V = WindowInfo;

    open spec fn view(&self) -> WindowInfo {
        *self
    }
}

impl WindowInfo {
    /// The scope that the window is tiled in.
    pub open spec fn home(self) -> LayoutScope {
        LayoutScope { output: self.output, tag: self.tag }
    }

    pub fn scope(&self) -> (scope: LayoutScope)
        ensures
            scope == self.home(),
    {
        LayoutScope { output: self.output, tag: self.tag }
    }

    pub fn new(tag: TagId, output: OutputId, window: Window, floating: bool) -> (info: Self)
        ensures
            info == (WindowInfo {
                tag,
                output,
                window,
                fullscreen: false,
                floating,
                last_configured: None,
                last_fractional_scale: None,
            }),
    {
        WindowInfo {
            tag,
            output,
            window,
            fullscreen: false,
            floating,
            last_configured: None,
            last_fractional_scale: None,
        }
    }
}

/// The windows of one scope, bottom first, and which of them has the focus.
pub struct LayoutInfo {
    stack: Vec<WindowId>,
    focused_window: usize,
}

/// What a [`LayoutInfo`] stands for.
#[verifier::ext_equal]
pub struct Stack {
    pub ids: Seq<WindowId>,
    pub focus: nat,
}

impl View for LayoutInfo {
    type V = Stack;

    closed spec fn view(&self) -> Stack {
        Stack { ids: self.stack@, focus: self.focused_window as nat }
    }
}

/// `s` with the elements at `i` and `j` exchanged.
pub open spec fn exchanged<A>(s: Seq<A>, i: int, j: int) -> Seq<A> {
    s.update(i, s[j]).update(j, s[i])
}

impl Stack {
    /// The focus is on one of the windows, or at zero when there are none.
    pub open spec fn wf(self) -> bool {
        self.focus < self.ids.len() || (self.ids.len() == 0 && self.focus == 0)
    }

    /// The stack of `ids` with the focus on the last of them.
    pub open spec fn of(ids: Seq<WindowId>) -> Stack {
        Stack {
            ids,
            focus: if ids.len() == 0 {
                0
            } else {
                (ids.len() - 1) as nat
            },
        }
    }

    /// `focus`, or the one below it if it lies beyond the last window.
    pub open spec fn settled(ids: Seq<WindowId>, focus: nat) -> Stack {
        Stack {
            ids,
            focus: if focus >= ids.len() && focus > 0 {
                (focus - 1) as nat
            } else {
                focus
            },
        }
    }

    pub open spec fn focused(self) -> Option<WindowId> {
        if self.focus < self.ids.len() {
            Some(self.ids[self.focus as int])
        } else {
            None
        }
    }

    /// The index after `focus`, round the end.
    pub open spec fn above(self) -> nat {
        if self.focus + 1 == self.ids.len() {
            0
        } else {
            self.focus + 1
        }
    }

    /// The index before `focus`, round the start.
    pub open spec fn below(self) -> nat {
        if self.focus == 0 {
            (self.ids.len() - 1) as nat
        } else {
            (self.focus - 1) as nat
        }
    }

    pub open spec fn focused_up(self) -> Stack {
        Stack { focus: self.above(), ..self }
    }

    pub open spec fn focused_down(self) -> Stack {
        Stack { focus: self.below(), ..self }
    }

    /// The focused window exchanged with the one above it, still focused.
    pub open spec fn moved_up(self) -> Stack {
        Stack {
            ids: exchanged(self.ids, self.focus as int, self.above() as int),
            focus: self.above(),
        }
    }

    /// The focused window exchanged with the one below it, still focused.
    pub open spec fn moved_down(self) -> Stack {
        Stack {
            ids: exchanged(self.ids, self.focus as int, self.below() as int),
            focus: self.below(),
        }
    }

    /// Without the first occurrence of `id`.
    pub open spec fn without(self, id: WindowId) -> Stack {
        if self.ids.contains(id) {
            Stack::settled(self.ids.remove(self.ids.index_of_first(id)->0), self.focus)
        } else {
            self
        }
    }

    /// With the focus on the first occurrence of `id`.
    pub open spec fn focused_on(self, id: WindowId) -> Stack {
        match self.ids.index_of_first(id) {
            Some(i) => Stack { focus: i as nat, ..self },
            None => self,
        }
    }

    /// With `a` and `b` exchanged; the focus stays on the window that had
    /// it.
    pub open spec fn swapped(self, a: WindowId, b: WindowId) -> Stack {
        match (self.ids.index_of_first(a), self.ids.index_of_first(b)) {
            (Some(i), Some(j)) => if a == b {
                self
            } else {
                Stack {
                    ids: exchanged(self.ids, i, j),
                    focus: if self.focus == i {
                        j as nat
                    } else if self.focus == j {
                        i as nat
                    } else {
                        self.focus
                    },
                }
            },
            _ => self,
        }
    }
}

impl LayoutInfo {
    pub fn new(stack: Vec<WindowId>) -> (info: Self)
        ensures
            info@ == Stack::of(stack@),
            info@.wf(),
    {
        let focused_window = stack.len().saturating_sub(1);
        LayoutInfo { stack, focused_window }
    }

    pub fn len(&self) -> (n: usize)
        ensures
            n == self@.ids.len(),
    {
        self.stack.len()
    }

    /// The window at index `i` of the stack, bottom first.
    pub fn at(&self, i: usize) -> (id: WindowId)
        requires
            i < self@.ids.len(),
        ensures
            id == self@.ids[i as int],
    {
        self.stack[i]
    }

    pub fn push(&mut self, id: WindowId)
        ensures
            final(self)@ == Stack::of(old(self)@.ids.push(id)),
            final(self)@.wf(),
    {
        self.stack.push(id);
        self.focused_window = self.stack.len().saturating_sub(1);
    }

    pub fn pop(&mut self) -> (out: Option<WindowId>)
        ensures
            old(self)@.ids.len() == 0 ==> {
                &&& out == None::<WindowId>
                &&& final(self)@ == Stack::settled(old(self)@.ids, old(self)@.focus)
            },
            old(self)@.ids.len() > 0 ==> {
                &&& out == Some(old(self)@.ids.last())
                &&& final(self)@ == Stack::settled(old(self)@.ids.drop_last(), old(self)@.focus)
            },
            old(self)@.wf() ==> final(self)@.wf(),
    {
        let out = self.stack.pop();
        if self.focused_window >= self.stack.len() {
            self.focused_window = self.focused_window.saturating_sub(1);
        }
        proof {
            if old(self)@.ids.len() > 0 {
                assert(self.stack@ =~= old(self)@.ids.drop_last());
            }
        }
        out
    }

    pub fn focused(&self) -> (id: Option<WindowId>)
        ensures
            id == self@.focused(),
    {
        if self.focused_window < self.stack.len() {
            Some(self.stack[self.focused_window])
        } else {
            None
        }
    }

    pub fn focus_up(&mut self)
        requires
            old(self)@.wf(),
            old(self)@.ids.len() > 0,
        ensures
            final(self)@ == old(self)@.focused_up(),
            final(self)@.wf(),
    {
        let n = self.stack.len();
        proof {
            if self.focused_window + 1 < n {
                vstd::arithmetic::div_mod::lemma_small_mod(
                    (self.focused_window + 1) as nat,
                    n as nat,
                );
            } else {
                vstd::arithmetic::div_mod::lemma_mod_self_0(n as int);
            }
        }
        self.focused_window = (self.focused_window + 1) % n;
    }

    pub fn focus_down(&mut self)
        requires
            old(self)@.wf(),
            old(self)@.ids.len() > 0,
        ensures
            final(self)@ == old(self)@.focused_down(),
            final(self)@.wf(),
    {
        let new = self.focused_window.saturating_sub(1);
        if new == self.focused_window {
            self.focused_window = self.stack.len() - 1;
        } else {
            self.focused_window = new;
        }
    }

    fn exchange(&mut self, i: usize, j: usize)
        requires
            i < old(self)@.ids.len(),
            j < old(self)@.ids.len(),
        ensures
            final(self)@ == (Stack {
                ids: exchanged(old(self)@.ids, i as int, j as int),
                ..old(self)@
            }),
    {
        let first = self.stack[i];
        let second = self.stack[j];
        self.stack.set(i, second);
        self.stack.set(j, first);
    }

    pub fn move_up(&mut self)
        requires
            old(self)@.wf(),
            old(self)@.ids.len() > 0,
        ensures
            final(self)@ == old(self)@.moved_up(),
            final(self)@.wf(),
    {
        let n = self.stack.len();
        let next: usize = if self.focused_window + 1 == n {
            0
        } else {
            self.focused_window + 1
        };
        self.exchange(self.focused_window, next);
        self.focus_up();
    }

    pub fn move_down(&mut self)
        requires
            old(self)@.wf(),
            old(self)@.ids.len() > 0,
        ensures
            final(self)@ == old(self)@.moved_down(),
            final(self)@.wf(),
    {
        let next = self.focused_window.saturating_sub(1);
        let next = if next == self.focused_window {
            self.stack.len() - 1
        } else {
            next
        };
        self.exchange(self.focused_window, next);
        self.focus_down();
    }

    fn position(&self, id: WindowId) -> (slot: Option<usize>)
        ensures
            match (slot, self@.ids.index_of_first(id)) {
                (Some(i), Some(j)) => i == j && self@.ids.contains(id) && i < self@.ids.len()
                    && self@.ids[i as int] == id,
                (None, None) => !self@.ids.contains(id),
                _ => false,
            },
    {
        proof {
            self@.ids.index_of_first_ensures(id);
        }
        let mut i: usize = 0;
        while i < self.stack.len()
            invariant
                i <= self.stack.len(),
                forall|j: int| 0 <= j < i ==> self@.ids[j] != id,
            decreases self.stack.len() - i,
        {
            if self.stack[i] == id {
                proof {
                    lemma_index_of_first(self@.ids, id, i as int);
                }
                return Some(i);
            }
            i += 1;
        }
        None
    }

    pub fn remove_window(&mut self, id: WindowId)
        ensures
            final(self)@ == old(self)@.without(id),
            old(self)@.wf() ==> final(self)@.wf(),
    {
        if let Some(index) = self.position(id) {
            self.stack.remove(index);
            if self.focused_window >= self.stack.len() {
                self.focused_window = self.focused_window.saturating_sub(1);
            }
        }
    }

    pub fn change_focus(&mut self, id: WindowId)
        ensures
            final(self)@ == old(self)@.focused_on(id),
            old(self)@.wf() ==> final(self)@.wf(),
    {
        if let Some(index) = self.position(id) {
            self.focused_window = index;
        }
    }

    /// Exchanges the stack positions of `a` and `b`; does nothing if they
    /// are the same window or either is not in this stack. Whichever window
    /// had the focus keeps it.
    pub fn swap_ids(&mut self, a: WindowId, b: WindowId)
        ensures
            final(self)@ == old(self)@.swapped(a, b),
            old(self)@.wf() ==> final(self)@.wf(),
    {
        if a == b {
            return;
        }
        let Some(ai) = self.position(a) else {
            return;
        };
        let Some(bi) = self.position(b) else {
            return;
        };
        self.exchange(ai, bi);
        if self.focused_window == ai {
            self.focused_window = bi;
        } else if self.focused_window == bi {
            self.focused_window = ai;
        }
    }
}

/// The first occurrence of an element is found by its index.
pub proof fn lemma_index_of_first<A>(s: Seq<A>, a: A, i: int)
    requires
        0 <= i < s.len(),
        s[i] == a,
        forall|j: int| 0 <= j < i ==> s[j] != a,
    ensures
        s.contains(a),
        s.index_of_first(a) == Some(i),
{
    s.index_of_first_ensures(a);
}

/// Every window, the order of the windows of each scope, and the focus.
pub struct WindowRegistry {
    map: Table<WindowId, WindowInfo>,
    /// The registered ids, in the order of their registration.
    roll: Vec<WindowId>,
    available_ids: Vec<WindowId>,
    next_window_id: WindowId,
    order: Table<LayoutScope, LayoutInfo>,
    focused_window: Option<WindowId>,
    /// The window that each surface belongs to.
    surface_index: Table<SurfaceId, WindowId>,
}

/// What a [`WindowRegistry`] stands for.
#[verifier::ext_equal]
pub struct Registry {
    pub infos: Map<WindowId, WindowInfo>,
    pub roll: Seq<WindowId>,
    pub free: Seq<WindowId>,
    pub next: WindowId,
    pub stacks: Map<LayoutScope, Stack>,
    pub focused: Option<WindowId>,
    pub index: Map<SurfaceId, WindowId>,
}

impl View for WindowRegistry {
    type V = Registry;

    closed spec fn view(&self) -> Registry {
        Registry {
            infos: self.map@,
            roll: self.roll@,
            free: self.available_ids@,
            next: self.next_window_id,
            stacks: self.order@,
            focused: self.focused_window,
            index: self.surface_index@,
        }
    }
}

/// `s` without the first occurrence of `a`.
pub open spec fn dropped<A>(s: Seq<A>, a: A) -> Seq<A> {
    match s.index_of_first(a) {
        Some(i) => s.remove(i),
        None => s,
    }
}

impl Registry {
    pub open spec fn empty() -> Registry {
        Registry {
            infos: Map::empty(),
            roll: Seq::empty(),
            free: Seq::empty(),
            next: WindowId(0),
            stacks: Map::empty(),
            focused: None,
            index: Map::empty(),
        }
    }

    /// Each window stands exactly once in the stack of its own scope and in
    /// no other, is found by its own surface alone, and has an id that is
    /// not up for reuse.
    pub open spec fn wf(self) -> bool {
        &&& self.roll.no_duplicates()
        &&& forall|id: WindowId| self.infos.contains_key(id) <==> #[trigger] self.roll.contains(id)
        &&& forall|id: WindowId| #[trigger]
            self.infos.contains_key(id) ==> {
                &&& id.0 < self.next.0
                &&& self.stacks.contains_key(self.infos[id].home())
                &&& self.stacks[self.infos[id].home()].ids.contains(id)
                &&& self.index.contains_key(self.infos[id].window.surface)
                &&& self.index[self.infos[id].window.surface] == id
            }
        &&& forall|scope: LayoutScope| #[trigger]
            self.stacks.contains_key(scope) ==> {
                &&& self.stacks[scope].wf()
                &&& self.stacks[scope].ids.no_duplicates()
            }
        &&& forall|scope: LayoutScope, id: WindowId|
            self.stacks.contains_key(scope) && #[trigger] self.stacks[scope].ids.contains(id) ==> {
                &&& self.infos.contains_key(id)
                &&& self.infos[id].home() == scope
            }
        &&& forall|surface: SurfaceId| #[trigger]
            self.index.contains_key(surface) ==> {
                &&& self.infos.contains_key(self.index[surface])
                &&& self.infos[self.index[surface]].window.surface == surface
            }
        &&& self.free.no_duplicates()
        &&& forall|id: WindowId| #[trigger]
            self.free.contains(id) ==> !self.infos.contains_key(id) && id.0 < self.next.0
        &&& self.focused matches Some(id) ==> self.infos.contains_key(id)
    }

    /// The windows of `scope` in render order: top of the stack first.
    pub open spec fn rendered(self, scope: LayoutScope) -> Seq<WindowId> {
        if self.stacks.contains_key(scope) {
            self.stacks[scope].ids.reverse()
        } else {
            Seq::empty()
        }
    }

    /// The stack of `scope`.
    pub open spec fn stack(self, scope: LayoutScope) -> Option<Stack> {
        if self.stacks.contains_key(scope) {
            Some(self.stacks[scope])
        } else {
            None
        }
    }

    /// The window of `scope` that has the scope's focus.
    pub open spec fn stack_focus(self, scope: LayoutScope) -> Option<WindowId> {
        if self.stacks.contains_key(scope) {
            self.stacks[scope].focused()
        } else {
            None
        }
    }

    pub open spec fn info(self, id: WindowId) -> Option<WindowInfo> {
        if self.infos.contains_key(id) {
            Some(self.infos[id])
        } else {
            None
        }
    }

    /// Window `i` of the roll is the first with `surface`.
    pub open spec fn is_first_with(self, surface: SurfaceId, i: int) -> bool {
        &&& 0 <= i < self.roll.len()
        &&& self.owns(self.roll[i], surface)
        &&& forall|j: int| 0 <= j < i ==> !self.owns(#[trigger] self.roll[j], surface)
    }

    /// Window `id` is known by `surface`.
    pub open spec fn owns(self, id: WindowId, surface: SurfaceId) -> bool {
        self.infos.contains_key(id) && self.infos[id].window.surface == surface
    }

    /// The first registered window with `surface`.
    pub open spec fn found(self, surface: SurfaceId) -> Option<WindowId> {
        if exists|i: int| self.is_first_with(surface, i) {
            Some(self.roll[choose|i: int| self.is_first_with(surface, i)])
        } else {
            None
        }
    }

    /// The window that the index gives for `surface`.
    pub open spec fn indexed(self, surface: SurfaceId) -> Option<WindowId> {
        if self.index.contains_key(surface) {
            Some(self.index[surface])
        } else {
            None
        }
    }

    /// The id that the next window gets.
    pub open spec fn fresh_id(self) -> WindowId {
        if self.free.len() > 0 {
            self.free.last()
        } else {
            self.next
        }
    }

    /// With `id` on top of the stack of `scope`, focused there.
    pub open spec fn stacked(self, scope: LayoutScope, id: WindowId) -> Registry {
        Registry {
            stacks: self.stacks.insert(
                scope,
                if self.stacks.contains_key(scope) {
                    Stack::of(self.stacks[scope].ids.push(id))
                } else {
                    Stack::of(seq![id])
                },
            ),
            ..self
        }
    }

    /// With a window for `info`: on top of its scope's stack, and focused.
    pub open spec fn inserted(self, info: WindowInfo) -> Registry {
        let id = self.fresh_id();
        Registry {
            infos: self.infos.insert(id, info),
            roll: if self.infos.contains_key(id) {
                self.roll
            } else {
                self.roll.push(id)
            },
            free: if self.free.len() > 0 {
                self.free.drop_last()
            } else {
                self.free
            },
            next: if self.free.len() > 0 {
                self.next
            } else {
                WindowId((self.next.0 + 1) as u64)
            },
            stacks: self.stacked(info.home(), id).stacks,
            focused: Some(id),
            index: self.index.insert(info.window.surface, id),
        }
    }

    /// With the stack of `scope`, if it has one, replaced by `stack`.
    pub open spec fn restacked(self, scope: LayoutScope, stack: Stack) -> Registry {
        if self.stacks.contains_key(scope) {
            Registry { stacks: self.stacks.insert(scope, stack), ..self }
        } else {
            self
        }
    }

    /// Without window `id`, whose id is up for reuse.
    pub open spec fn removed(self, id: WindowId) -> Registry {
        let gone = Registry {
            infos: self.infos.remove(id),
            roll: dropped(self.roll, id),
            free: self.free.push(id),
            focused: if self.focused == Some(id) {
                None
            } else {
                self.focused
            },
            ..self
        };
        if self.infos.contains_key(id) {
            let home = self.infos[id].home();
            Registry {
                index: self.index.remove(self.infos[id].window.surface),
                ..gone.restacked(home, self.stacks[home].without(id))
            }
        } else {
            gone
        }
    }

    /// With `info` in place of what was kept about window `id`.
    pub open spec fn updated(self, id: WindowId, info: WindowInfo) -> Registry {
        Registry { infos: self.infos.insert(id, info), ..self }
    }

    pub open spec fn focused_on(self, id: Option<WindowId>) -> Registry {
        Registry { focused: id, ..self }
    }

    /// What is kept about the focused window.
    pub open spec fn focused_info(self) -> Option<WindowInfo> {
        match self.focused {
            Some(id) => self.info(id),
            None => None,
        }
    }

    /// Window `id` is floating.
    pub open spec fn floats(self, id: WindowId) -> bool {
        self.infos.contains_key(id) && self.infos[id].floating
    }

    /// The first of `ids` that is not floating.
    pub open spec fn first_tiled(self, ids: Seq<WindowId>) -> Option<WindowId>
        decreases ids.len(),
    {
        if ids.len() == 0 {
            None
        } else if !self.floats(ids[0]) {
            Some(ids[0])
        } else {
            self.first_tiled(ids.skip(1))
        }
    }

    /// The window that the layout of `scope` puts in its first tile.
    pub open spec fn master(self, scope: LayoutScope) -> Option<WindowId> {
        self.first_tiled(self.rendered(scope))
    }

    /// Window `id` is fullscreen.
    pub open spec fn covers(self, id: WindowId) -> bool {
        self.infos.contains_key(id) && self.infos[id].fullscreen
    }

    /// The first of `ids` that is fullscreen.
    pub open spec fn first_covering(self, ids: Seq<WindowId>) -> Option<WindowId>
        decreases ids.len(),
    {
        if ids.len() == 0 {
            None
        } else if self.covers(ids[0]) {
            Some(ids[0])
        } else {
            self.first_covering(ids.skip(1))
        }
    }
}

impl WindowRegistry {
    pub fn new() -> (registry: Self)
        ensures
            registry@ == Registry::empty(),
            registry@.wf(),
    {
        let registry = WindowRegistry {
            map: Table::new(),
            roll: Vec::new(),
            available_ids: Vec::new(),
            next_window_id: WindowId(0),
            order: Table::new(),
            focused_window: None,
            surface_index: Table::new(),
        };
        assert(registry@ =~= Registry::empty());
        registry
    }

    /// The number of registered windows.
    pub fn len(&self) -> (n: usize)
        ensures
            n == self@.roll.len(),
    {
        self.roll.len()
    }

    /// Puts `id` on top of the stack of `scope`, which is made if there was
    /// none.
    pub fn stack_entry(&mut self, scope: LayoutScope, id: WindowId)
        ensures
            final(self)@ == old(self)@.stacked(scope, id),
    {
        if self.order.contains(scope) {
            if let Some(stack) = self.order.get_mut(scope) {
                stack.push(id);
            }
        } else {
            let mut ids: Vec<WindowId> = Vec::new();
            ids.push(id);
            assert(ids@ =~= seq![id]);
            self.order.insert(scope, LayoutInfo::new(ids));
        }
        assert(self@ =~= old(self)@.stacked(scope, id));
    }

    /// Registers a window, on top of its scope's stack and focused.
    pub fn insert(&mut self, info: WindowInfo) -> (id: WindowId)
        requires
            old(self)@.free.len() == 0 ==> old(self)@.next.0 < u64::MAX,
        ensures
            id == old(self)@.fresh_id(),
            final(self)@ == old(self)@.inserted(info),
    {
        let id = if self.available_ids.len() > 0 {
            let last = self.available_ids.len() - 1;
            let id = self.available_ids[last];
            self.available_ids.pop();
            assert(self.available_ids@ =~= old(self)@.free.drop_last());
            id
        } else {
            self.next_window_id.next()
        };
        self.stack_entry(info.scope(), id);
        self.surface_index.insert(info.window.surface, id);
        if !self.map.contains(id) {
            self.roll.push(id);
        }
        self.map.insert(id, info);
        self.focused_window = Some(id);
        assert(self@ =~= old(self)@.inserted(info));
        id
    }

    fn strike(&mut self, id: WindowId)
        ensures
            final(self)@ == (Registry { roll: dropped(old(self)@.roll, id), ..old(self)@ }),
    {
        proof {
            self@.roll.index_of_first_ensures(id);
        }
        let mut i: usize = 0;
        while i < self.roll.len()
            invariant
                *self == *old(self),
                i <= self.roll.len(),
                forall|j: int| 0 <= j < i ==> self@.roll[j] != id,
            decreases self.roll.len() - i,
        {
            if self.roll[i] == id {
                proof {
                    lemma_index_of_first(self@.roll, id, i as int);
                }
                self.roll.remove(i);
                return;
            }
            i += 1;
        }
    }

    /// Forgets a window; its id may be handed out again.
    pub fn remove(&mut self, id: WindowId)
        ensures
            final(self)@ == old(self)@.removed(id),
    {
        let info = self.map.remove(id);
        self.strike(id);
        self.available_ids.push(id);
        if let Some(info) = info {
            self.surface_index.remove(info.window.surface);
            if let Some(layout) = self.order.get_mut(info.scope()) {
                layout.remove_window(id);
            }
        }
        if self.focused_window == Some(id) {
            self.focused_window = None;
        }
        assert(self@ =~= old(self)@.removed(id));
    }

    /// The windows of `scope` in render order.
    pub fn filter(&self, scope: &LayoutScope) -> (ids: Vec<WindowId>)
        ensures
            ids@ == self@.rendered(*scope),
    {
        let mut ids: Vec<WindowId> = Vec::new();
        if let Some(ordering) = self.order.get(*scope) {
            let n = ordering.len();
            let mut i: usize = 0;
            while i < n
                invariant
                    i <= n,
                    n == ordering@.ids.len(),
                    ids@.len() == i,
                    forall|j: int| 0 <= j < i ==> ids@[j] == ordering@.ids[n - 1 - j],
                decreases n - i,
            {
                ids.push(ordering.at(n - 1 - i));
                i += 1;
            }
        }
        assert(ids@ =~= self@.rendered(*scope));
        ids
    }

    /// The registered window with the same surface as `window`.
    pub fn find(&self, window: Window) -> (id: Option<WindowId>)
        ensures
            id == self@.found(window.surface),
    {
        let mut i: usize = 0;
        while i < self.roll.len()
            invariant
                i <= self.roll.len(),
                forall|j: int| 0 <= j < i ==> !self@.owns(#[trigger] self@.roll[j], window.surface),
            decreases self.roll.len() - i,
        {
            if let Some(info) = self.map.get(self.roll[i]) {
                if info.window.surface == window.surface {
                    proof {
                        lemma_found(self@, window.surface, i as int);
                    }
                    return Some(self.roll[i]);
                }
            }
            i += 1;
        }
        None
    }

    pub fn get(&self, id: &WindowId) -> (info: Option<&WindowInfo>)
        ensures
            match info {
                Some(info) => self@.info(*id) == Some(*info),
                None => self@.info(*id) == None::<WindowInfo>,
            },
    {
        self.map.get(*id)
    }

    pub fn get_mut(&mut self, id: &WindowId) -> (info: Option<&mut WindowInfo>)
        ensures
            match info {
                Some(info) => {
                    &&& old(self)@.info(*id) == Some(*info)
                    &&& final(self)@ == old(self)@.updated(*id, *final(info))
                },
                None => {
                    &&& old(self)@.info(*id) == None::<WindowInfo>
                    &&& final(self)@ == old(self)@
                },
            },
    {
        self.map.get_mut(*id)
    }

    /// The registered ids, in the order of their registration.
    pub fn iter(&self) -> (ids: Vec<WindowId>)
        ensures
            ids@ == self@.roll,
    {
        let mut ids: Vec<WindowId> = Vec::new();
        let mut i: usize = 0;
        while i < self.roll.len()
            invariant
                i <= self.roll.len(),
                ids@ == self.roll@.take(i as int),
            decreases self.roll.len() - i,
        {
            ids.push(self.roll[i]);
            assert(self.roll@.take(i + 1) =~= self.roll@.take(i as int).push(self.roll@[i as int]));
            i += 1;
        }
        assert(self.roll@.take(i as int) =~= self.roll@);
        ids
    }

    pub fn get_stack(&self, scope: &LayoutScope) -> (stack: Option<&LayoutInfo>)
        ensures
            match stack {
                Some(stack) => self@.stack(*scope) == Some(stack@),
                None => self@.stack(*scope) == None::<Stack>,
            },
    {
        self.order.get(*scope)
    }

    pub fn get_stack_mut(&mut self, scope: &LayoutScope) -> (stack: Option<&mut LayoutInfo>)
        ensures
            match stack {
                Some(stack) => {
                    &&& old(self)@.stack(*scope) == Some((*stack)@)
                    &&& final(self)@ == old(self)@.restacked(*scope, (*final(stack))@)
                },
                None => {
                    &&& old(self)@.stack(*scope) == None::<Stack>
                    &&& final(self)@ == old(self)@
                },
            },
    {
        self.order.get_mut(*scope)
    }

    pub fn change_focus(&mut self, id: Option<WindowId>)
        ensures
            final(self)@ == old(self)@.focused_on(id),
    {
        self.focused_window = id;
    }

    /// The focused window, if any.
    pub fn focused_id(&self) -> (id: Option<WindowId>)
        ensures
            id == self@.focused,
    {
        self.focused_window
    }

    pub fn focused_window(&self) -> (id: Option<WindowId>)
        ensures
            id == self@.focused,
    {
        self.focused_window
    }

    pub fn get_focused(&self) -> (info: Option<&WindowInfo>)
        ensures
            match info {
                Some(info) => self@.focused_info() == Some(*info),
                None => self@.focused_info() == None::<WindowInfo>,
            },
    {
        match self.focused_window {
            Some(id) => self.get(&id),
            None => None,
        }
    }

    pub fn get_focused_mut(&mut self) -> (info: Option<&mut WindowInfo>)
        ensures
            match info {
                Some(info) => {
                    &&& old(self)@.focused is Some
                    &&& old(self)@.focused_info() == Some(*info)
                    &&& final(self)@ == old(self)@.updated(old(self)@.focused->0, *final(info))
                },
                None => {
                    &&& old(self)@.focused_info() == None::<WindowInfo>
                    &&& final(self)@ == old(self)@
                },
            },
    {
        match self.focused_window {
            Some(id) => self.get_mut(&id),
            None => None,
        }
    }

    /// The window whose own surface is `surface`.
    pub fn find_by_surface(&self, surface: &SurfaceId) -> (id: Option<WindowId>)
        ensures
            id == self@.indexed(*surface),
    {
        match self.surface_index.get(*surface) {
            Some(id) => Some(*id),
            None => None,
        }
    }

    /// The window in the first tile of `scope`: the first in render order
    /// that is not floating.
    pub fn master(&self, scope: &LayoutScope) -> (id: Option<WindowId>)
        ensures
            id == self@.master(*scope),
    {
        let ids = self.filter(scope);
        let mut i: usize = 0;
        assert(ids@.skip(0) =~= ids@);
        while i < ids.len()
            invariant
                i <= ids.len(),
                ids@ == self@.rendered(*scope),
                self@.master(*scope) == self@.first_tiled(ids@.skip(i as int)),
            decreases ids.len() - i,
        {
            assert(ids@.skip(i as int).skip(1) =~= ids@.skip(i + 1));
            let floating = match self.get(&ids[i]) {
                Some(info) => info.floating,
                None => false,
            };
            if !floating {
                return Some(ids[i]);
            }
            i += 1;
        }
        None
    }

    /// The first window of `scope` in render order that is fullscreen.
    pub fn fullscreen_window_for_output(&self, scope: &LayoutScope) -> (window: Option<Window>)
        ensures
            window == match self@.first_covering(self@.rendered(*scope)) {
                Some(id) => Some(self@.infos[id].window),
                None => None,
            },
    {
        let ids = self.filter(scope);
        let mut i: usize = 0;
        assert(ids@.skip(0) =~= ids@);
        while i < ids.len()
            invariant
                i <= ids.len(),
                ids@ == self@.rendered(*scope),
                self@.first_covering(ids@) == self@.first_covering(ids@.skip(i as int)),
            decreases ids.len() - i,
        {
            assert(ids@.skip(i as int).skip(1) =~= ids@.skip(i + 1));
            if let Some(info) = self.get(&ids[i]) {
                if info.fullscreen {
                    return Some(info.window);
                }
            }
            i += 1;
        }
        None
    }
}

/// The first window with a surface is found by its place on the roll.
pub proof fn lemma_found(r: Registry, surface: SurfaceId, i: int)
    requires
        r.is_first_with(surface, i),
    ensures
        r.found(surface) == Some(r.roll[i]),
{
    let k = choose|k: int| r.is_first_with(surface, k);
    if k < i {
        assert(!r.owns(r.roll[k], surface));
    } else if i < k {
        assert(!r.owns(r.roll[i], surface));
    }
}

} // verus!
