//! The session lock.
use vstd::prelude::*;

use crate::effect::Effect;
use crate::output::OutputId;
use crate::state::Alice;
use crate::window::SurfaceId;
use crate::world::World;

verus! {

impl Alice {
    fn is_blanked(&self, id: OutputId) -> (r: bool)
        ensures
            r == self@.blanked.contains(id),
    {
        let mut i: usize = 0;
        while i < self.blanked_outputs.len()
            invariant
                i <= self.blanked_outputs.len(),
                forall|j: int| 0 <= j < i ==> self@.blanked[j] != id,
            decreases self.blanked_outputs.len() - i,
        {
            if self.blanked_outputs[i] == id {
                assert(self@.blanked[i as int] == id);
                return true;
            }
            i += 1;
        }
        false
    }

    /// Confirms the lock once every mapped output shows nothing but it.
    pub fn try_lock(&mut self)
        ensures
            final(self)@ == old(self)@.lock_tried(),
    {
        if !self.locked {
            return;
        }
        let mut i: usize = 0;
        while i < self.space.outputs.len()
            invariant
                i <= self@.screens.len(),
                self@ == old(self)@,
                self@.locked,
                forall|j: int|
                    0 <= j < i ==> self@.blanked.contains((#[trigger] self@.screens[j]).0),
            decreases self@.screens.len() - i,
        {
            let (id, _) = self.space.outputs.at(i);
            if !self.is_blanked(id) {
                assert(!self@.blanked.contains(self@.screens[i as int].0));
                return;
            }
            i += 1;
        }
        assert(self@.all_blanked());
        if self.pending_locker {
            self.pending_locker = false;
            self.emit(Effect::ConfirmLock);
        }
    }

    /// Locks the session; the lock is confirmed once every mapped output is
    /// blanked.
    pub fn lock(&mut self)
        ensures
            final(self)@ == old(self)@.locked_session(),
    {
        self.locked = true;
        self.pending_locker = true;
        self.try_lock();
    }

    /// Records that output `id` has shown a frame. Of a locked session that
    /// is one with nothing but the lock.
    pub fn output_presented(&mut self, id: OutputId)
        ensures
            final(self)@ == old(self)@.blanked_output(id),
    {
        if self.locked {
            if !self.is_blanked(id) {
                self.blanked_outputs.push(id);
            }
            self.try_lock();
        }
    }

    /// Unlocks the session and gives the keyboard back to the focused window.
    pub fn try_unlock(&mut self)
        ensures
            final(self)@ == old(self)@.unlocked_session(),
    {
        if !self.locked {
            return;
        }
        self.locked = false;
        self.blanked_outputs.clear();
        self.lock_surfaces.clear();
        self.lock_focus_output = None;
        let target = match self.window_registry.get_focused() {
            Some(info) => Some(info.window.surface),
            None => None,
        };
        self.emit(Effect::Focus(target));
        self.emit(Effect::Render);
        assert(self@ =~= old(self)@.unlocked_session());
    }

    pub fn unlock(&mut self)
        ensures
            final(self)@ == old(self)@.unlocked_session(),
    {
        self.try_unlock();
    }

    /// Takes over the surface that covers output `id` while the session is
    /// locked.
    pub fn new_lock_surface(&mut self, id: OutputId, surface: SurfaceId)
        ensures
            final(self)@ == (World {
                lock_surfaces: old(self)@.lock_surfaces.insert(id, surface),
                ..old(self)@
            }),
    {
        self.lock_surfaces.insert(id, surface);
    }
}

/// A lock is confirmed only when every mapped output is blanked, and only
/// once.
pub proof fn lemma_lock_confirmed_once(w: World)
    ensures
        w.lock_tried().effects != w.effects ==> w.locked && w.all_blanked() && w.pending_locker
            && w.lock_tried().effects == w.effects.push(Effect::ConfirmLock),
        w.lock_tried().lock_tried() == w.lock_tried(),
{
}

/// Locking waits for the outputs: with an output that is mapped and not
/// blanked nothing is confirmed, and blanking the last such output confirms.
pub proof fn lemma_lock_waits(w: World, id: OutputId)
    requires
        w.locked,
        w.pending_locker,
    ensures
        !w.all_blanked() ==> w.lock_tried() == w,
        (forall|i: int|
            0 <= i < w.screens.len() ==> (#[trigger] w.screens[i]).0 == id || w.blanked.contains(
                w.screens[i].0,
            )) ==> !w.blanked_output(id).pending_locker,
{
    let marked = World {
        blanked: if w.blanked.contains(id) {
            w.blanked
        } else {
            w.blanked.push(id)
        },
        ..w
    };
    if forall|i: int|
        0 <= i < w.screens.len() ==> (#[trigger] w.screens[i]).0 == id || w.blanked.contains(
            w.screens[i].0,
        ) {
        assert forall|i: int| 0 <= i < marked.screens.len() implies marked.blanked.contains(
            (#[trigger] marked.screens[i]).0,
        ) by {
            if w.screens[i].0 == id {
                if !w.blanked.contains(id) {
                    assert(marked.blanked[w.blanked.len() as int] == id);
                }
            } else {
                let k = choose|k: int| 0 <= k < w.blanked.len() && w.blanked[k] == w.screens[i].0;
                assert(marked.blanked[k] == w.screens[i].0);
            }
        }
    }
}

/// Unlocking a locked session leaves nothing of the lock behind.
pub proof fn lemma_unlock(w: World)
    ensures
        !w.unlocked_session().locked,
        w.locked ==> {
            &&& w.unlocked_session().blanked.len() == 0
            &&& w.unlocked_session().lock_surfaces == Map::<OutputId, SurfaceId>::empty()
        },
        w.unlocked_session().windows == w.windows,
        w.unlocked_session().elements == w.elements,
{
}

} // verus!
