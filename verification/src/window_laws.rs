//! Laws of stacks and of the window registry.
use vstd::prelude::*;

use crate::output::LayoutScope;
use crate::window::{
    dropped, exchanged, lemma_found, lemma_index_of_first, Registry, Stack, SurfaceId, WindowId,
    WindowInfo,
};

verus! {

/// Focusing up and focusing down undo each other.
pub proof fn lemma_focus_round_trip(stack: Stack)
    requires
        stack.wf(),
        stack.ids.len() > 0,
    ensures
        stack.focused_up().focused_down() == stack,
        stack.focused_down().focused_up() == stack,
{
}

/// Moving up and moving down undo each other.
pub proof fn lemma_move_round_trip(stack: Stack)
    requires
        stack.wf(),
        stack.ids.len() > 0,
    ensures
        stack.moved_up().moved_down() == stack,
        stack.moved_down().moved_up() == stack,
{
    assert(stack.moved_up().moved_down() =~= stack);
    assert(stack.moved_down().moved_up() =~= stack);
}

/// Exchanging two elements keeps which elements there are.
pub proof fn lemma_exchanged<A>(s: Seq<A>, i: int, j: int)
    requires
        0 <= i < s.len(),
        0 <= j < s.len(),
    ensures
        exchanged(s, i, j).to_multiset() == s.to_multiset(),
        forall|a: A| exchanged(s, i, j).contains(a) <==> s.contains(a),
        s.no_duplicates() ==> exchanged(s, i, j).no_duplicates(),
{
    broadcast use vstd::seq_lib::group_to_multiset_ensures;

    let t = exchanged(s, i, j);
    vstd::seq_lib::to_multiset_update(s, i, s[j]);
    vstd::seq_lib::to_multiset_update(s.update(i, s[j]), j, s[i]);
    assert(s.to_multiset().contains(s[i]));
    assert(s.to_multiset().contains(s[j]));
    assert(t.to_multiset() =~= s.to_multiset());
    assert forall|a: A| t.contains(a) <==> s.contains(a) by {
        if s.contains(a) {
            let k = choose|k: int| 0 <= k < s.len() && s[k] == a;
            if k == i {
                assert(t[j] == a);
            } else if k == j {
                assert(t[i] == a);
            } else {
                assert(t[k] == a);
            }
        }
        if t.contains(a) {
            let k = choose|k: int| 0 <= k < t.len() && t[k] == a;
            if k == j {
                assert(s[i] == a);
            } else if k == i {
                assert(s[j] == a);
            } else {
                assert(s[k] == a);
            }
        }
    }
}

/// Moving and swapping reorder the windows of a stack but neither add nor
/// lose one, and the focus stays on the window that had it.
pub proof fn lemma_reordering(stack: Stack, a: WindowId, b: WindowId)
    requires
        stack.wf(),
        stack.ids.len() > 0,
    ensures
        stack.moved_up().ids.to_multiset() == stack.ids.to_multiset(),
        stack.moved_down().ids.to_multiset() == stack.ids.to_multiset(),
        stack.swapped(a, b).ids.to_multiset() == stack.ids.to_multiset(),
        stack.moved_up().focused() == stack.focused(),
        stack.moved_down().focused() == stack.focused(),
        stack.swapped(a, b).focused() == stack.focused(),
        stack.moved_up().wf(),
        stack.moved_down().wf(),
        stack.swapped(a, b).wf(),
        forall|id: WindowId| stack.moved_up().ids.contains(id) <==> stack.ids.contains(id),
        forall|id: WindowId| stack.moved_down().ids.contains(id) <==> stack.ids.contains(id),
        forall|id: WindowId| stack.swapped(a, b).ids.contains(id) <==> stack.ids.contains(id),
        stack.ids.no_duplicates() ==> {
            &&& stack.moved_up().ids.no_duplicates()
            &&& stack.moved_down().ids.no_duplicates()
            &&& stack.swapped(a, b).ids.no_duplicates()
        },
{
    lemma_exchanged(stack.ids, stack.focus as int, stack.above() as int);
    lemma_exchanged(stack.ids, stack.focus as int, stack.below() as int);
    stack.ids.index_of_first_ensures(a);
    stack.ids.index_of_first_ensures(b);
    match (stack.ids.index_of_first(a), stack.ids.index_of_first(b)) {
        (Some(i), Some(j)) => {
            lemma_exchanged(stack.ids, i, j);
        },
        _ => {},
    }
}

/// Swapping the same two windows twice changes nothing.
pub proof fn lemma_swap_twice(stack: Stack, a: WindowId, b: WindowId)
    requires
        stack.ids.no_duplicates(),
    ensures
        stack.swapped(a, b).swapped(a, b) == stack,
{
    let t = stack.swapped(a, b);
    stack.ids.index_of_first_ensures(a);
    stack.ids.index_of_first_ensures(b);
    match (stack.ids.index_of_first(a), stack.ids.index_of_first(b)) {
        (Some(i), Some(j)) => {
            if a != b {
                assert forall|k: int| 0 <= k < t.ids.len() && k != j implies t.ids[k] != a by {
                    assert(stack.ids[i] == a);
                }
                assert forall|k: int| 0 <= k < t.ids.len() && k != i implies t.ids[k] != b by {
                    assert(stack.ids[j] == b);
                }
                lemma_index_of_first(t.ids, a, j);
                lemma_index_of_first(t.ids, b, i);
                assert(t.swapped(a, b) =~= stack);
            }
        },
        _ => {},
    }
}

/// A window that was pushed has the focus; popping it again gives it back
/// and leaves the windows that were there.
pub proof fn lemma_push_pop(stack: Stack, id: WindowId)
    ensures
        Stack::of(stack.ids.push(id)).focused() == Some(id),
        Stack::of(stack.ids.push(id)).ids.last() == id,
        Stack::of(stack.ids.push(id)).ids.drop_last() == stack.ids,
{
    assert(stack.ids.push(id).drop_last() =~= stack.ids);
}

/// What is left of a list without duplicates once `a` was dropped: all but
/// `a`, in the same order.
pub proof fn lemma_dropped<A>(s: Seq<A>, a: A)
    requires
        s.no_duplicates(),
    ensures
        dropped(s, a).no_duplicates(),
        forall|b: A| #[trigger] dropped(s, a).contains(b) <==> s.contains(b) && b != a,
        dropped(s, a).len() == s.len() - if s.contains(a) {
            1int
        } else {
            0int
        },
{
    s.index_of_first_ensures(a);
    let t = dropped(s, a);
    match s.index_of_first(a) {
        Some(i) => {
            assert forall|b: A| #[trigger] t.contains(b) <==> s.contains(b) && b != a by {
                if t.contains(b) {
                    let k = choose|k: int| 0 <= k < t.len() && t[k] == b;
                    if k < i {
                        assert(s[k] == b);
                    } else {
                        assert(s[k + 1] == b);
                    }
                }
                if s.contains(b) && b != a {
                    let k = choose|k: int| 0 <= k < s.len() && s[k] == b;
                    if k < i {
                        assert(t[k] == b);
                    } else {
                        assert(t[k - 1] == b);
                    }
                }
            }
        },
        None => {
            assert forall|b: A| #[trigger] t.contains(b) <==> s.contains(b) && b != a by {
                if s.contains(b) && b == a {
                    assert(false);
                }
            }
        },
    }
}

/// Removing a window takes it alone out of a stack.
pub proof fn lemma_without(stack: Stack, id: WindowId)
    requires
        stack.wf(),
        stack.ids.no_duplicates(),
    ensures
        stack.without(id).wf(),
        stack.without(id).ids.no_duplicates(),
        forall|other: WindowId| #[trigger]
            stack.without(id).ids.contains(other) <==> stack.ids.contains(other) && other != id,
{
    stack.ids.index_of_first_ensures(id);
    lemma_dropped(stack.ids, id);
    if stack.ids.contains(id) {
        assert(stack.without(id).ids == dropped(stack.ids, id));
    }
}

/// In a sound registry the index and the search agree: each surface has at
/// most one window.
pub proof fn lemma_found_is_indexed(r: Registry, surface: SurfaceId)
    requires
        r.wf(),
    ensures
        r.found(surface) == r.indexed(surface),
{
    if r.index.contains_key(surface) {
        let id = r.index[surface];
        assert(r.roll.contains(id));
        let i = choose|i: int| 0 <= i < r.roll.len() && r.roll[i] == id;
        assert forall|j: int| 0 <= j < i implies !r.owns(#[trigger] r.roll[j], surface) by {
            if r.owns(r.roll[j], surface) {
                assert(r.index[surface] == r.roll[j]);
            }
        }
        assert(r.is_first_with(surface, i));
        lemma_found(r, surface, i);
    } else {
        assert forall|i: int| !r.is_first_with(surface, i) by {
            if r.is_first_with(surface, i) {
                assert(r.infos.contains_key(r.roll[i]));
            }
        }
    }
}

/// Registering a window of a new surface keeps the registry sound.
pub proof fn lemma_inserted_wf(r: Registry, info: WindowInfo)
    requires
        r.wf(),
        r.free.len() == 0 ==> r.next.0 < u64::MAX,
        !r.index.contains_key(info.window.surface),
    ensures
        r.inserted(info).wf(),
        r.inserted(info).info(r.fresh_id()) == Some(info),
        r.inserted(info).indexed(info.window.surface) == Some(r.fresh_id()),
        r.inserted(info).focused == Some(r.fresh_id()),
        !r.infos.contains_key(r.fresh_id()),
        r.inserted(info).roll.len() == r.roll.len() + 1,
        forall|id: WindowId|
            r.infos.contains_key(id) ==> r.inserted(info).info(id) == #[trigger] r.info(id),
        r.inserted(info).stack_focus(info.home()) == Some(r.fresh_id()),
{
    let id = r.fresh_id();
    let t = r.inserted(info);
    let home = info.home();
    if r.free.len() > 0 {
        assert(r.free.contains(r.free.last()));
    }
    assert(!r.infos.contains_key(id));
    assert(!r.roll.contains(id));
    assert(t.roll == r.roll.push(id));
    assert forall|w: WindowId| t.infos.contains_key(w) <==> #[trigger] t.roll.contains(w) by {
        if r.roll.contains(w) {
            let k = choose|k: int| 0 <= k < r.roll.len() && r.roll[k] == w;
            assert(t.roll[k] == w);
        }
        if w == id {
            assert(t.roll[r.roll.len() as int] == w);
        }
        if t.roll.contains(w) && w != id {
            let k = choose|k: int| 0 <= k < t.roll.len() && t.roll[k] == w;
            assert(r.roll[k] == w);
        }
        assert(r.infos.contains_key(w) <==> r.roll.contains(w));
    }
    let before = if r.stacks.contains_key(home) {
        r.stacks[home].ids
    } else {
        Seq::empty()
    };
    assert(!before.contains(id));
    assert(t.stacks[home].ids =~= before.push(id));
    assert forall|w: WindowId| t.stacks[home].ids.contains(w) <==> before.contains(w) || w
        == id by {
        if before.contains(w) {
            let k = choose|k: int| 0 <= k < before.len() && before[k] == w;
            assert(t.stacks[home].ids[k] == w);
        }
        if w == id {
            assert(t.stacks[home].ids[before.len() as int] == w);
        }
        if t.stacks[home].ids.contains(w) && w != id {
            let k = choose|k: int|
                0 <= k < t.stacks[home].ids.len() && t.stacks[home].ids[k] == w;
            assert(before[k] == w);
        }
    }
    assert forall|w: WindowId| #[trigger] t.infos.contains_key(w) implies {
        &&& w.0 < t.next.0
        &&& t.stacks.contains_key(t.infos[w].home())
        &&& t.stacks[t.infos[w].home()].ids.contains(w)
        &&& t.index.contains_key(t.infos[w].window.surface)
        &&& t.index[t.infos[w].window.surface] == w
    } by {
        if w != id {
            assert(r.infos.contains_key(w));
            assert(r.infos[w].window.surface != info.window.surface);
        }
    }
    assert forall|scope: LayoutScope, w: WindowId|
        t.stacks.contains_key(scope) && #[trigger] t.stacks[scope].ids.contains(w) implies {
        &&& t.infos.contains_key(w)
        &&& t.infos[w].home() == scope
    } by {
        if scope == home {
            if w != id {
                assert(r.stacks[scope].ids.contains(w));
            }
        } else {
            assert(r.stacks[scope].ids.contains(w));
        }
    }
    assert forall|surface: SurfaceId| #[trigger] t.index.contains_key(surface) implies {
        &&& t.infos.contains_key(t.index[surface])
        &&& t.infos[t.index[surface]].window.surface == surface
    } by {
        if surface != info.window.surface {
            assert(r.index.contains_key(surface));
        }
    }
    assert forall|w: WindowId| #[trigger] t.free.contains(w) implies !t.infos.contains_key(w) && w.0
        < t.next.0 by {
        let k = choose|k: int| 0 <= k < t.free.len() && t.free[k] == w;
        assert(r.free[k] == w);
        assert(r.free.contains(w));
    }
}

/// Removing a registered window keeps the registry sound; no other window
/// is touched.
pub proof fn lemma_removed_wf(r: Registry, id: WindowId)
    requires
        r.wf(),
        r.infos.contains_key(id),
    ensures
        r.removed(id).wf(),
        r.removed(id).info(id) == None::<WindowInfo>,
        r.removed(id).indexed(r.infos[id].window.surface) == None::<WindowId>,
        forall|other: WindowId|
            other != id ==> r.removed(id).info(other) == #[trigger] r.info(other),
        r.removed(id).roll.len() == r.roll.len() - 1,
        r.removed(id).fresh_id() == id,
{
    let t = r.removed(id);
    let home = r.infos[id].home();
    lemma_dropped(r.roll, id);
    lemma_without(r.stacks[home], id);
    assert(r.roll.contains(id));
    assert forall|w: WindowId| t.infos.contains_key(w) <==> #[trigger] t.roll.contains(w) by {
        assert(r.infos.contains_key(w) <==> r.roll.contains(w));
    }
    assert forall|w: WindowId| #[trigger] t.infos.contains_key(w) implies {
        &&& w.0 < t.next.0
        &&& t.stacks.contains_key(t.infos[w].home())
        &&& t.stacks[t.infos[w].home()].ids.contains(w)
        &&& t.index.contains_key(t.infos[w].window.surface)
        &&& t.index[t.infos[w].window.surface] == w
    } by {
        assert(r.infos.contains_key(w));
        if r.infos[w].window.surface == r.infos[id].window.surface {
            assert(w == id);
        }
    }
    assert forall|scope: LayoutScope, w: WindowId|
        t.stacks.contains_key(scope) && #[trigger] t.stacks[scope].ids.contains(w) implies {
        &&& t.infos.contains_key(w)
        &&& t.infos[w].home() == scope
    } by {
        assert(r.stacks[scope].ids.contains(w));
        if w == id {
            assert(scope == home);
        }
    }
    assert forall|surface: SurfaceId| #[trigger] t.index.contains_key(surface) implies {
        &&& t.infos.contains_key(t.index[surface])
        &&& t.infos[t.index[surface]].window.surface == surface
    } by {
        assert(r.index.contains_key(surface));
    }
    assert forall|w: WindowId| #[trigger] t.free.contains(w) implies !t.infos.contains_key(w) && w.0
        < t.next.0 by {
        let k = choose|k: int| 0 <= k < t.free.len() && t.free[k] == w;
        if k < r.free.len() {
            assert(r.free[k] == w);
            assert(r.free.contains(w));
        }
    }
    assert(!r.free.contains(id));
    assert(t.free.no_duplicates());
}

/// A window with another scope: taken out of the stack it was in and put on
/// top of the one it is in now.
pub open spec fn relocated(r: Registry, id: WindowId, to: LayoutScope) -> Registry {
    let info = r.infos[id];
    r.restacked(info.home(), r.stacks[info.home()].without(id)).stacked(to, id).updated(
        id,
        WindowInfo { output: to.output, tag: to.tag, ..info },
    )
}

/// Relocating a window keeps the registry sound.
pub proof fn lemma_relocated_wf(r: Registry, id: WindowId, to: LayoutScope)
    requires
        r.wf(),
        r.infos.contains_key(id),
    ensures
        relocated(r, id, to).wf(),
        relocated(r, id, to).roll == r.roll,
        relocated(r, id, to).infos[id].home() == to,
        relocated(r, id, to).stack_focus(to) == Some(id),
{
    let from = r.infos[id].home();
    let mid = r.restacked(from, r.stacks[from].without(id));
    let t = relocated(r, id, to);
    lemma_without(r.stacks[from], id);
    let before = if mid.stacks.contains_key(to) {
        mid.stacks[to].ids
    } else {
        Seq::empty()
    };
    let rest = r.stacks[from].without(id).ids;
    assert(mid.stacks[from].ids == rest);
    assert forall|w: WindowId| before.contains(w) implies r.stacks.contains_key(to)
        && r.stacks[to].ids.contains(w) by {
        if to == from {
            assert(rest.contains(w));
        }
    }
    assert forall|w: WindowId|
        w != id && r.stacks.contains_key(to) && r.stacks[to].ids.contains(
            w,
        ) implies before.contains(w) by {
        if to == from {
            assert(rest.contains(w));
        }
    }
    assert(!before.contains(id)) by {
        if before.contains(id) {
            if to == from {
                assert(!rest.contains(id));
            } else {
                assert(r.stacks[to].ids.contains(id));
            }
        }
    }
    assert(t.stacks[to].ids =~= before.push(id));
    assert forall|w: WindowId| t.stacks[to].ids.contains(w) <==> before.contains(w) || w == id by {
        if before.contains(w) {
            let k = choose|k: int| 0 <= k < before.len() && before[k] == w;
            assert(t.stacks[to].ids[k] == w);
        }
        if w == id {
            assert(t.stacks[to].ids[before.len() as int] == w);
        }
        if t.stacks[to].ids.contains(w) && w != id {
            let k = choose|k: int| 0 <= k < t.stacks[to].ids.len() && t.stacks[to].ids[k] == w;
            assert(before[k] == w);
        }
    }
    assert forall|w: WindowId| t.infos.contains_key(w) <==> #[trigger] t.roll.contains(w) by {
        assert(r.infos.contains_key(w) <==> r.roll.contains(w));
    }
    assert forall|w: WindowId| #[trigger] t.infos.contains_key(w) implies {
        &&& w.0 < t.next.0
        &&& t.stacks.contains_key(t.infos[w].home())
        &&& t.stacks[t.infos[w].home()].ids.contains(w)
        &&& t.index.contains_key(t.infos[w].window.surface)
        &&& t.index[t.infos[w].window.surface] == w
    } by {
        assert(r.infos.contains_key(w));
        if w != id {
            let home = r.infos[w].home();
            assert(r.stacks[home].ids.contains(w));
            if home == to {
                assert(before.contains(w));
            } else if home == from {
                assert(rest.contains(w));
            }
        }
    }
    assert forall|scope: LayoutScope, w: WindowId|
        t.stacks.contains_key(scope) && #[trigger] t.stacks[scope].ids.contains(w) implies {
        &&& t.infos.contains_key(w)
        &&& t.infos[w].home() == scope
    } by {
        if scope == to {
            if w != id {
                assert(before.contains(w));
                assert(r.stacks[scope].ids.contains(w));
            }
        } else {
            if scope == from {
                assert(rest.contains(w));
            }
            assert(r.stacks[scope].ids.contains(w));
            if w == id {
                assert(scope == from);
            }
        }
    }
    assert forall|surface: SurfaceId| #[trigger] t.index.contains_key(surface) implies {
        &&& t.infos.contains_key(t.index[surface])
        &&& t.infos[t.index[surface]].window.surface == surface
    } by {
        assert(r.index.contains_key(surface));
    }
    assert forall|w: WindowId| #[trigger] t.free.contains(w) implies !t.infos.contains_key(w) && w.0
        < t.next.0 by {
        assert(r.free.contains(w));
    }
}

/// A change to what is kept about a window that leaves its place and its
/// surface alone keeps the registry sound.
pub proof fn lemma_updated_wf(r: Registry, id: WindowId, info: WindowInfo)
    requires
        r.wf(),
        r.infos.contains_key(id),
        info.home() == r.infos[id].home(),
        info.window.surface == r.infos[id].window.surface,
    ensures
        r.updated(id, info).wf(),
{
    let t = r.updated(id, info);
    assert forall|w: WindowId| t.infos.contains_key(w) <==> #[trigger] t.roll.contains(w) by {
        assert(r.infos.contains_key(w) <==> r.roll.contains(w));
    }
    assert forall|w: WindowId| #[trigger] t.infos.contains_key(w) implies {
        &&& w.0 < t.next.0
        &&& t.stacks.contains_key(t.infos[w].home())
        &&& t.stacks[t.infos[w].home()].ids.contains(w)
        &&& t.index.contains_key(t.infos[w].window.surface)
        &&& t.index[t.infos[w].window.surface] == w
    } by {
        assert(r.infos.contains_key(w));
    }
    assert forall|scope: LayoutScope, w: WindowId|
        t.stacks.contains_key(scope) && #[trigger] t.stacks[scope].ids.contains(w) implies {
        &&& t.infos.contains_key(w)
        &&& t.infos[w].home() == scope
    } by {
        assert(r.stacks[scope].ids.contains(w));
    }
    assert forall|surface: SurfaceId| #[trigger] t.index.contains_key(surface) implies {
        &&& t.infos.contains_key(t.index[surface])
        &&& t.infos[t.index[surface]].window.surface == surface
    } by {
        assert(r.index.contains_key(surface));
    }
    assert forall|w: WindowId| #[trigger] t.free.contains(w) implies !t.infos.contains_key(w) && w.0
        < t.next.0 by {
        assert(r.free.contains(w));
    }
}

/// Reordering or refocusing a stack keeps the registry sound.
pub proof fn lemma_restacked_wf(r: Registry, scope: LayoutScope, stack: Stack)
    requires
        r.wf(),
        r.stacks.contains_key(scope),
        stack.wf(),
        stack.ids.no_duplicates(),
        forall|id: WindowId| stack.ids.contains(id) <==> r.stacks[scope].ids.contains(id),
    ensures
        r.restacked(scope, stack).wf(),
{
    let t = r.restacked(scope, stack);
    assert forall|w: WindowId| #[trigger] t.infos.contains_key(w) implies {
        &&& w.0 < t.next.0
        &&& t.stacks.contains_key(t.infos[w].home())
        &&& t.stacks[t.infos[w].home()].ids.contains(w)
        &&& t.index.contains_key(t.infos[w].window.surface)
        &&& t.index[t.infos[w].window.surface] == w
    } by {
        assert(r.infos.contains_key(w));
    }
    assert forall|other: LayoutScope, w: WindowId|
        t.stacks.contains_key(other) && #[trigger] t.stacks[other].ids.contains(w) implies {
        &&& t.infos.contains_key(w)
        &&& t.infos[w].home() == other
    } by {
        assert(r.stacks[other].ids.contains(w));
    }
}

/// No stack holds more windows than are registered.
pub proof fn lemma_stack_len(r: Registry, scope: LayoutScope)
    requires
        r.wf(),
    ensures
        r.rendered(scope).len() <= r.roll.len(),
{
    if r.stacks.contains_key(scope) {
        let ids = r.stacks[scope].ids;
        ids.unique_seq_to_set();
        r.roll.unique_seq_to_set();
        assert(ids.to_set().subset_of(r.roll.to_set())) by {
            assert forall|id: WindowId| ids.to_set().contains(id) implies r.roll.to_set().contains(
                id,
            ) by {
                assert(r.stacks[scope].ids.contains(id));
                assert(r.roll.contains(id));
            }
        }
        vstd::set_lib::lemma_len_subset(ids.to_set(), r.roll.to_set());
    }
}

/// A window stands in exactly one stack: that of its own scope.
pub proof fn lemma_one_stack(r: Registry, id: WindowId, scope: LayoutScope)
    requires
        r.wf(),
        r.infos.contains_key(id),
    ensures
        r.rendered(scope).contains(id) <==> scope == r.infos[id].home(),
        r.rendered(scope).no_duplicates(),
{
    if r.stacks.contains_key(scope) {
        let ids = r.stacks[scope].ids;
        let rev = ids.reverse();
        if rev.contains(id) {
            let k = choose|k: int| 0 <= k < rev.len() && rev[k] == id;
            assert(ids[ids.len() - 1 - k] == id);
            assert(r.stacks[scope].ids.contains(id));
        }
        if scope == r.infos[id].home() {
            let k = choose|k: int| 0 <= k < ids.len() && ids[k] == id;
            assert(rev[ids.len() - 1 - k] == id);
        }
    }
}

/// The windows of a scope are all registered, and each is at home there.
pub proof fn lemma_rendered(r: Registry, scope: LayoutScope, i: int)
    requires
        r.wf(),
        0 <= i < r.rendered(scope).len(),
    ensures
        r.infos.contains_key(r.rendered(scope)[i]),
        r.infos[r.rendered(scope)[i]].home() == scope,
{
    let ids = r.stacks[scope].ids;
    assert(ids.reverse()[i] == ids[ids.len() - 1 - i]);
    assert(r.stacks[scope].ids.contains(ids[ids.len() - 1 - i]));
}

/// The master is the first window in render order that is not floating:
/// every window before it floats, and without one all of them do.
pub proof fn lemma_first_tiled(r: Registry, ids: Seq<WindowId>)
    ensures
        match r.first_tiled(ids) {
            Some(id) => exists|i: int|
                0 <= i < ids.len() && ids[i] == id && !r.floats(id) && forall|j: int|
                    0 <= j < i ==> r.floats(#[trigger] ids[j]),
            None => forall|j: int| 0 <= j < ids.len() ==> r.floats(#[trigger] ids[j]),
        },
    decreases ids.len(),
{
    if ids.len() > 0 {
        if !r.floats(ids[0]) {
            assert(ids[0] == ids[0] && !r.floats(ids[0]));
        } else {
            let rest = ids.skip(1);
            lemma_first_tiled(r, rest);
            match r.first_tiled(rest) {
                Some(id) => {
                    let i = choose|i: int|
                        0 <= i < rest.len() && rest[i] == id && !r.floats(id) && forall|j: int|
                            0 <= j < i ==> r.floats(#[trigger] rest[j]);
                    assert(ids[i + 1] == id);
                    assert forall|j: int| 0 <= j < i + 1 implies r.floats(#[trigger] ids[j]) by {
                        if j > 0 {
                            assert(ids[j] == rest[j - 1]);
                        }
                    }
                },
                None => {
                    assert forall|j: int| 0 <= j < ids.len() implies r.floats(
                        #[trigger] ids[j],
                    ) by {
                        if j > 0 {
                            assert(ids[j] == rest[j - 1]);
                        }
                    }
                },
            }
        }
    }
}

/// A window that leaves a stack leaves the others in their order, and the
/// focus at its height, unless nothing is left there: then one below.
pub proof fn lemma_taken_out(stack: Stack, i: int)
    requires
        stack.wf(),
        stack.ids.no_duplicates(),
        0 <= i < stack.ids.len(),
    ensures
        ({
            let left = stack.without(stack.ids[i]);
            &&& left.ids.len() == stack.ids.len() - 1
            &&& forall|k: int| 0 <= k < i ==> left.ids[k] == #[trigger] stack.ids[k]
            &&& forall|k: int|
                i < k < stack.ids.len() ==> left.ids[k - 1] == #[trigger] stack.ids[k]
            &&& stack.focus < left.ids.len() ==> left.focus == stack.focus
            &&& stack.focus == left.ids.len() && left.ids.len() > 0 ==> left.focus == stack.focus
                - 1
            &&& left.ids.len() == 0 ==> left.focus == 0
        }),
{
    let id = stack.ids[i];
    assert(stack.ids.contains(id));
    lemma_index_of_first(stack.ids, id, i);
}

/// A window that takes another scope is as it was but for its output and its
/// tag; it stands on top of the stack there, and the others of the stack that
/// it was in are as without it. Every other window is as it was.
pub proof fn lemma_relocated(r: Registry, id: WindowId, to: LayoutScope, other: WindowId)
    requires
        r.wf(),
        r.infos.contains_key(id),
    ensures
        ({
            let t = relocated(r, id, to);
            let was = r.infos[id];
            let from = LayoutScope { output: was.output, tag: was.tag };
            &&& t.infos[id].output == to.output
            &&& t.infos[id].tag == to.tag
            &&& t.infos[id].window == was.window
            &&& t.infos[id].floating == was.floating
            &&& t.infos[id].fullscreen == was.fullscreen
            &&& t.infos[id].last_configured == was.last_configured
            &&& t.infos[id].last_fractional_scale == was.last_fractional_scale
            &&& other != id && r.infos.contains_key(other) ==> t.infos.contains_key(other)
                && t.infos[other] == r.infos[other]
            &&& t.stacks[to].ids.last() == id
            &&& to != from ==> t.stacks[to].ids.drop_last() == if r.stacks.contains_key(to) {
                r.stacks[to].ids
            } else {
                Seq::empty()
            }
            &&& to != from ==> t.stacks[from] == r.stacks[from].without(id)
            &&& to != from ==> !t.stacks[from].ids.contains(id)
            &&& t.focused == r.focused
            &&& t.index == r.index
        }),
{
    let t = relocated(r, id, to);
    let from = r.infos[id].home();
    assert(from == LayoutScope { output: r.infos[id].output, tag: r.infos[id].tag });
    lemma_without(r.stacks[from], id);
    if to != from {
        let before = if r.stacks.contains_key(to) {
            r.stacks[to].ids
        } else {
            Seq::empty()
        };
        assert(t.stacks[to].ids =~= before.push(id));
        assert(before.push(id).drop_last() =~= before);
    }
}

} // verus!
