//! What the session lock, outputs coming and going, the bars, the pointer and
//! the layers come to.
use vstd::prelude::*;

use crate::animation::Point;
use crate::config::Settings;
use crate::effect::Effect;
use crate::handlers::workspace::{
    lemma_bar_index, lemma_output_announced, lemma_workspaces_removed,
};
use crate::laws::lemma_output_gets_focus;
use crate::layer::{is_other_layer, layers_of, lemma_layer_index, LayerEntry};
use crate::layout::Tile;
use crate::output::{
    lemma_active_ids, lemma_named, lemma_output_inserted, LayoutScope, OutputId, TagId,
};
use crate::scalar::Scalar;
use crate::state::backend::{
    audience, lemma_output_told, planned, surfaces_on, widths, LayerKind, SceneItem,
};
use crate::table::{
    filed, files_at, has_key, index_of_key, keys_distinct, lemma_lookup_filed,
    lemma_lookup_unfiled, lemma_some_key, lookup,
};
use crate::window::{SurfaceId, WindowId};
use crate::window_laws::{lemma_one_stack, lemma_rendered};
use crate::world::{first_mapped, moderate, BarModel, World};
use crate::world_events::{holds, layer_size, scopes_but, Anchors};
use crate::world_laws::{
    lemma_bars_told, lemma_broadcast, lemma_groups_entered, lemma_mapped_ids, lemma_outputs_wf,
    lemma_output_focused_wf, lemma_relaid_wf, lemma_tag_focused_wf, lemma_turned_to_wf,
};

verus! {

/// `b` is `a` with more requests behind.
pub open spec fn follows(a: Seq<Effect>, b: Seq<Effect>) -> bool {
    &&& a.len() <= b.len()
    &&& forall|i: int| 0 <= i < a.len() ==> b[i] == #[trigger] a[i]
}

pub(crate) proof fn lemma_requests_stay(a: Seq<Effect>, b: Seq<Effect>)
    requires
        follows(a, b),
    ensures
        forall|e: Effect| #[trigger] a.contains(e) ==> b.contains(e),
{
    assert forall|e: Effect| #[trigger] a.contains(e) implies b.contains(e) by {
        let k = choose|k: int| 0 <= k < a.len() && a[k] == e;
        assert(b[k] == e);
    }
}

/// What a filter lets through is what was there and is let through.
pub(crate) proof fn lemma_filtered<A>(s: Seq<A>, pred: spec_fn(A) -> bool, a: A)
    ensures
        s.filter(pred).contains(a) <==> s.contains(a) && pred(a),
{
    if s.filter(pred).contains(a) {
        s.lemma_filter_contains_rev(pred, a);
        let k = choose|k: int| 0 <= k < s.filter(pred).len() && s.filter(pred)[k] == a;
        s.lemma_filter_pred(pred, k);
    }
    if s.contains(a) && pred(a) {
        let k = choose|k: int| 0 <= k < s.len() && s[k] == a;
        s.lemma_filter_contains(pred, k);
    }
}

// The lock.

/// Every mapped output has shown a frame with nothing but the lock.
pub open spec fn all_dark(w: World) -> bool {
    forall|id: OutputId| #[trigger] has_key(w.screens, id) ==> w.blanked.contains(id)
}

proof fn lemma_all_dark(w: World)
    ensures
        all_dark(w) <==> w.all_blanked(),
{
    if all_dark(w) {
        assert forall|i: int| 0 <= i < w.screens.len() implies w.blanked.contains(
            (#[trigger] w.screens[i]).0,
        ) by {
            lemma_some_key(w.screens, w.screens[i].0, i);
        }
    }
    if w.all_blanked() {
        assert forall|id: OutputId| #[trigger] has_key(w.screens, id) implies w.blanked.contains(
            id,
        ) by {
            let i = index_of_key(w.screens, id);
            assert(files_at(w.screens, id, i));
            assert(w.screens[i].0 == id);
        }
    }
}

/// Locking locks at once, and is confirmed at once only if no mapped output
/// still shows anything else. It changes nothing besides.
pub proof fn lemma_lock_takes_hold(w: World)
    ensures
        ({
            let t = w.locked_session();
            &&& t.locked
            &&& all_dark(w) ==> !t.pending_locker && t.effects == w.effects.push(
                Effect::ConfirmLock,
            )
            &&& !all_dark(w) ==> t.pending_locker && t.effects == w.effects
            &&& t == (World {
                locked: t.locked,
                pending_locker: t.pending_locker,
                effects: t.effects,
                ..w
            })
        }),
{
    lemma_all_dark(w);
    lemma_all_dark(World { locked: true, pending_locker: true, ..w });
}

/// A frame that an output of a locked session has shown counts it as dark,
/// and the lock that waits is confirmed with the last of them. A frame of an
/// open session counts for nothing.
pub proof fn lemma_frame_shown(w: World, id: OutputId, other: OutputId)
    ensures
        ({
            let t = w.blanked_output(id);
            &&& !w.locked ==> t == w
            &&& w.locked ==> t.blanked.contains(id)
            &&& w.locked && other != id ==> (t.blanked.contains(other) <==> w.blanked.contains(
                other,
            ))
            &&& w.locked && w.pending_locker && all_dark(t) ==> !t.pending_locker && t.effects
                == w.effects.push(Effect::ConfirmLock)
            &&& !w.pending_locker || !all_dark(t) ==> t.effects == w.effects && t.pending_locker
                == w.pending_locker
            &&& t.locked == w.locked
        }),
{
    if w.locked {
        let marked = World {
            blanked: if w.blanked.contains(id) {
                w.blanked
            } else {
                w.blanked.push(id)
            },
            ..w
        };
        lemma_all_dark(marked);
        lemma_all_dark(w.blanked_output(id));
        if !w.blanked.contains(id) {
            assert(marked.blanked[w.blanked.len() as int] == id);
            if w.blanked.contains(other) {
                let k = choose|k: int| 0 <= k < w.blanked.len() && w.blanked[k] == other;
                assert(marked.blanked[k] == other);
            }
            if other != id && marked.blanked.contains(other) {
                let k = choose|k: int| 0 <= k < marked.blanked.len() && marked.blanked[k] == other;
                assert(w.blanked[k] == other);
            }
        }
    }
}

/// Unlocking gives the keyboard to the window that has the focus, or to none,
/// and has everything drawn. Without a lock there is nothing to undo.
pub proof fn lemma_unlock_hands_back(w: World)
    ensures
        !w.locked ==> w.unlocked_session() == w,
        w.locked ==> ({
            let t = w.unlocked_session();
            let n = w.effects.len() as int;
            &&& !t.locked
            &&& t.lock_focus is None
            &&& t.effects.len() == n + 2
            &&& t.effects.take(n) == w.effects
            &&& t.effects[n + 1] == Effect::Render
            &&& match w.windows.focused {
                Some(id) => w.windows.infos.contains_key(id) ==> t.effects[n] == Effect::Focus(
                    Some(w.windows.infos[id].window.surface),
                ),
                None => t.effects[n] == Effect::Focus(None),
            }
        }),
{
    assert(w.locked ==> w.unlocked_session().effects.take(w.effects.len() as int) =~= w.effects);
}

/// An output of an open session on which a window is fullscreen shows the
/// layers above everything, the window, and the layers below it; any other
/// shows the whole plane. The pointer comes first and the boxes in motion
/// next, each if it is asked for.
pub proof fn lemma_open_scene(w: World, scope: LayoutScope, cursor: bool, morphs: bool, k: int)
    requires
        !w.locked,
    ensures
        ({
            let items = planned(w, scope, cursor, morphs);
            let lead: int = (if cursor { 1int } else { 0int }) + (if morphs { 1int } else { 0int });
            &&& cursor ==> items[0] == SceneItem::Cursor
            &&& morphs ==> items[lead - 1] == SceneItem::Morphs
            &&& (forall|i: int|
                0 <= i < w.windows.rendered(scope).len() ==> !w.windows.covers(
                    #[trigger] w.windows.rendered(scope)[i],
                )) ==> items.len() == lead + 1 && items[lead] == SceneItem::Plane
            &&& 0 <= k < w.windows.rendered(scope).len() && w.windows.covers(
                w.windows.rendered(scope)[k],
            ) && (forall|i: int|
                0 <= i < k ==> !w.windows.covers(#[trigger] w.windows.rendered(scope)[i])) ==> {
                &&& items.len() == lead + 4
                &&& items[lead] == SceneItem::Layers(LayerKind::Overlay)
                &&& items[lead + 1] == SceneItem::Window(
                    w.windows.infos[w.windows.rendered(scope)[k]].window.surface,
                )
                &&& items[lead + 2] == SceneItem::Layers(LayerKind::Bottom)
                &&& items[lead + 3] == SceneItem::Layers(LayerKind::Background)
            }
        }),
{
    lemma_first_covering(w, w.windows.rendered(scope), k);
}

proof fn lemma_first_covering(w: World, ids: Seq<WindowId>, k: int)
    ensures
        (forall|i: int| 0 <= i < ids.len() ==> !w.windows.covers(#[trigger] ids[i]))
            ==> w.windows.first_covering(ids) is None,
        0 <= k < ids.len() && w.windows.covers(ids[k]) && (forall|i: int|
            0 <= i < k ==> !w.windows.covers(#[trigger] ids[i])) ==> w.windows.first_covering(ids)
            == Some(ids[k]),
    decreases ids.len(),
{
    if ids.len() > 0 {
        let rest = ids.skip(1);
        lemma_first_covering(w, rest, k - 1);
        assert(forall|i: int| 0 <= i < rest.len() ==> #[trigger] rest[i] == ids[i + 1]);
        assert(!w.windows.covers(ids[0]) || w.windows.covers(ids[0]));
    }
}

// Outputs.

/// A connected output is found under its name, active, where it was put and
/// with the zone that it was given; one that was known shows the tag that it
/// showed, and a new one the first. Every other output, the focus and all the
/// windows are as they were.
pub proof fn lemma_output_comes(
    w: World,
    name: Seq<char>,
    geometry: Tile,
    zone: Tile,
    other: OutputId,
)
    requires
        w.wf(),
        w.outputs.infos.len() < u32::MAX,
    ensures
        ({
            let t = w.output_connected(name, geometry, zone);
            let id = w.outputs.inserted_id(name);
            let i = id.0 as int;
            &&& i < t.outputs.infos.len()
            &&& t.outputs.infos[i].name == name
            &&& t.outputs.infos[i].id == id
            &&& t.outputs.infos[i].active
            &&& if i < w.outputs.infos.len() {
                &&& t.outputs.infos.len() == w.outputs.infos.len()
                &&& w.outputs.infos[i].name == name
                &&& t.outputs.infos[i].current_tag == w.outputs.infos[i].current_tag
            } else {
                &&& t.outputs.infos.len() == w.outputs.infos.len() + 1
                &&& t.outputs.infos[i].current_tag.0 == 0
            }
            &&& lookup(t.screens, id) == Some(geometry)
            &&& t.zones.contains_key(id)
            &&& t.zones[id] == zone
            &&& other != id && w.outputs.has(other) ==> t.outputs.infos[other.0 as int]
                == w.outputs.infos[other.0 as int]
            &&& other != id ==> lookup(t.screens, other) == lookup(w.screens, other)
            &&& other != id && w.zones.contains_key(other) ==> t.zones[other] == w.zones[other]
            &&& t.outputs.focused == w.outputs.focused
            &&& t.windows == w.windows
            &&& t.elements == w.elements
            &&& t.bars == w.bars
        }),
{
    let id = w.outputs.inserted_id(name);
    lemma_output_inserted(w.outputs, name, other);
    lemma_lookup_filed(w.screens, id, geometry, other);
    let inserted = World {
        outputs: w.outputs.inserted(name),
        screens: filed(w.screens, id, geometry),
        zones: w.zones.insert(id, zone),
        ..w
    };
    lemma_output_told(inserted, id, w.bars.len());
    assert(w.bars.take(w.bars.len() as int) =~= w.bars);
}

/// A disconnected output is off the plane and inactive, and keeps its name and
/// the tag that it showed. Every other output and all the windows are as they
/// were, and an unknown name changes nothing.
pub proof fn lemma_output_goes(w: World, name: Seq<char>, i: int, other: OutputId)
    requires
        w.outputs.wf(),
        keys_distinct(w.screens),
    ensures
        (forall|k: int| 0 <= k < w.outputs.infos.len() ==> (#[trigger] w.outputs.infos[k]).name
            != name) ==> w.output_disconnected(name) == w,
        0 <= i < w.outputs.infos.len() && w.outputs.infos[i].name == name ==> ({
            let t = w.output_disconnected(name);
            let id = OutputId(i as u32);
            &&& t.outputs.infos.len() == w.outputs.infos.len()
            &&& !t.outputs.infos[i].active
            &&& t.outputs.infos[i].name == name
            &&& t.outputs.infos[i].current_tag == w.outputs.infos[i].current_tag
            &&& lookup(t.screens, id) is None
            &&& other != id && w.outputs.has(other) ==> t.outputs.infos[other.0 as int]
                == w.outputs.infos[other.0 as int]
            &&& other != id ==> lookup(t.screens, other) == lookup(w.screens, other)
            &&& t.outputs.focused == w.outputs.focused
            &&& t.windows == w.windows
            &&& t.elements == w.elements
            &&& t.zones == w.zones
        }),
{
    if 0 <= i < w.outputs.infos.len() && w.outputs.infos[i].name == name {
        let id = OutputId(i as u32);
        assert(w.outputs.is_first_named(name, i));
        lemma_named(w.outputs, name, i);
        lemma_lookup_unfiled(w.screens, id, other);
        lemma_output_told(w, id, w.bars.len());
    }
}

/// A bar that knows an output is told, once the output goes, that its group is
/// gone, and knows nothing of it any more; what it knows of other outputs it
/// keeps. A bar that does not know the output is left as it was.
pub proof fn lemma_output_leaves_bars(w: World, name: Seq<char>, i: int, b: int, scope: LayoutScope)
    requires
        w.wf(),
        0 <= i < w.outputs.infos.len(),
        w.outputs.infos[i].name == name,
        0 <= b < w.bars.len(),
    ensures
        ({
            let t = w.output_disconnected(name);
            let id = OutputId(i as u32);
            &&& t.bars.len() == w.bars.len()
            &&& t.bars[b].id == w.bars[b].id
            &&& !has_key(w.bars[b].groups, id) ==> t.bars[b] == w.bars[b]
            &&& has_key(w.bars[b].groups, id) ==> {
                &&& t.effects.contains(Effect::RemoveGroup { bar: w.bars[b].id, output: id })
                &&& t.effects.contains(Effect::WorkspaceDone { bar: w.bars[b].id })
                &&& t.bars[b].workspaces.contains(scope) <==> w.bars[b].workspaces.contains(scope)
                    && scope.output != id
                &&& w.bars[b].workspaces.contains(scope) && scope.output == id
                    ==> t.effects.contains(
                    Effect::RemoveWorkspace { bar: w.bars[b].id, scope },
                )
            }
        }),
{
    let id = OutputId(i as u32);
    assert(w.outputs.is_first_named(name, i));
    lemma_named(w.outputs, name, i);
    lemma_gone_from(w, id, w.bars.len(), b, scope);
}

proof fn lemma_gone_from(w: World, id: OutputId, n: nat, b: int, scope: LayoutScope)
    requires
        n <= w.bars.len(),
        0 <= b < w.bars.len(),
    ensures
        ({
            let t = w.output_gone_from(id, n);
            &&& t.bars.len() == w.bars.len()
            &&& b >= n ==> t.bars[b] == w.bars[b]
            &&& t.bars[b].id == w.bars[b].id
            &&& !has_key(w.bars[b].groups, id) ==> t.bars[b] == w.bars[b]
            &&& b < n && has_key(w.bars[b].groups, id) ==> {
                &&& t.effects.contains(Effect::RemoveGroup { bar: w.bars[b].id, output: id })
                &&& t.effects.contains(Effect::WorkspaceDone { bar: w.bars[b].id })
                &&& t.bars[b].workspaces.contains(scope) <==> w.bars[b].workspaces.contains(scope)
                    && scope.output != id
                &&& w.bars[b].workspaces.contains(scope) && scope.output == id
                    ==> t.effects.contains(
                    Effect::RemoveWorkspace { bar: w.bars[b].id, scope },
                )
            }
        }),
    decreases n,
{
    if n > 0 {
        let before = w.output_gone_from(id, (n - 1) as nat);
        let bar = w.bars[n - 1];
        let t = w.output_gone_from(id, n);
        lemma_gone_from(w, id, (n - 1) as nat, b, scope);
        if has_key(bar.groups, id) {
            let there = |s: LayoutScope| s.output == id;
            let elsewhere = |s: LayoutScope| s.output != id;
            let gone = bar.workspaces.filter(there);
            let cut = World {
                bars: before.bars.update(n - 1, World::bar_without(bar, id)),
                ..before
            };
            lemma_removed_in_order(cut, bar.id, gone);
            lemma_workspaces_removed(cut, bar.id, gone);
            let removed = cut.workspaces_removed(bar.id, gone);
            assert(t.effects == removed.effects.push(
                Effect::RemoveGroup { bar: bar.id, output: id },
            ).push(Effect::WorkspaceDone { bar: bar.id }));
            assert(t.effects[removed.effects.len() as int] == Effect::RemoveGroup {
                bar: bar.id,
                output: id,
            });
            assert(t.effects[removed.effects.len() as int + 1] == Effect::WorkspaceDone {
                bar: bar.id,
            });
            assert(follows(before.effects, t.effects));
            lemma_requests_stay(before.effects, t.effects);
            lemma_filtered(bar.workspaces, there, scope);
            lemma_filtered(bar.workspaces, elsewhere, scope);
            if b == n - 1 && gone.contains(scope) {
                let k = choose|k: int| 0 <= k < gone.len() && gone[k] == scope;
                assert(removed.effects[before.effects.len() + k] == Effect::RemoveWorkspace {
                    bar: bar.id,
                    scope,
                });
                assert(t.effects[before.effects.len() + k] == Effect::RemoveWorkspace {
                    bar: bar.id,
                    scope,
                });
            }
        }
    }
}

proof fn lemma_removed_in_order(w: World, bar: u64, scopes: Seq<LayoutScope>)
    ensures
        ({
            let t = w.workspaces_removed(bar, scopes);
            &&& t.effects.len() == w.effects.len() + scopes.len()
            &&& follows(w.effects, t.effects)
            &&& forall|j: int|
                0 <= j < scopes.len() ==> #[trigger] t.effects[w.effects.len() + j]
                    == (Effect::RemoveWorkspace { bar, scope: scopes[j] })
        }),
    decreases scopes.len(),
{
    if scopes.len() > 0 {
        lemma_removed_in_order(w, bar, scopes.drop_last());
        let before = w.workspaces_removed(bar, scopes.drop_last());
        let t = w.workspaces_removed(bar, scopes);
        assert forall|j: int| 0 <= j < scopes.len() implies #[trigger] t.effects[w.effects.len()
            + j] == (Effect::RemoveWorkspace { bar, scope: scopes[j] }) by {
            if j < scopes.len() - 1 {
                assert(t.effects[w.effects.len() + j] == before.effects[w.effects.len() + j]);
                assert(scopes.drop_last()[j] == scopes[j]);
            }
        }
    }
}

/// A resized output lies where it is said to, if it is mapped at all, and has
/// the zone that it is given; every other output is as it was.
pub proof fn lemma_output_changes(
    w: World,
    id: OutputId,
    geometry: Tile,
    zone: Tile,
    other: OutputId,
)
    ensures
        ({
            let t = w.output_resized(id, geometry, zone);
            &&& lookup(w.screens, id) is Some ==> lookup(t.screens, id) == Some(geometry)
            &&& lookup(w.screens, id) is None ==> lookup(t.screens, id) is None
            &&& t.zones.contains_key(id)
            &&& t.zones[id] == zone
            &&& other != id ==> lookup(t.screens, other) == lookup(w.screens, other)
            &&& other != id && w.zones.contains_key(other) ==> t.zones[other] == w.zones[other]
            &&& t.outputs == w.outputs
            &&& t.windows == w.windows
        }),
{
    lemma_lookup_filed(w.screens, id, geometry, other);
}

/// Outputs side by side are as wide as all of them together; one alone is as
/// wide as it is, and one that is not mapped takes no room.
pub proof fn lemma_room_taken(w: World, left: Seq<OutputId>, right: Seq<OutputId>, id: OutputId)
    ensures
        widths(w, left + right) == widths(w, left) + widths(w, right),
        lookup(w.screens, id) matches Some(geo) ==> widths(w, seq![id]) == geo.width,
        lookup(w.screens, id) is None ==> widths(w, seq![id]) == 0,
    decreases right.len(),
{
    let one = seq![id];
    assert(one.drop_last() =~= Seq::<OutputId>::empty());
    assert(one.last() == id);
    assert(widths(w, one.drop_last()) == 0);
    if right.len() == 0 {
        assert(left + right =~= left);
    } else {
        assert((left + right).drop_last() =~= left + right.drop_last());
        assert((left + right).last() == right.last());
        lemma_room_taken(w, left, right.drop_last(), id);
    }
}

// The bars.

/// The output of `scope` shows its tag.
pub open spec fn on_show(w: World, scope: LayoutScope) -> bool {
    &&& scope.output.0 < w.outputs.infos.len()
    &&& w.outputs.infos[scope.output.0 as int].current_tag == scope.tag
}

/// No window is on the tag of `scope`.
pub open spec fn deserted(w: World, scope: LayoutScope) -> bool {
    forall|id: WindowId| #[trigger]
        w.windows.infos.contains_key(id) ==> w.windows.infos[id].output != scope.output
            || w.windows.infos[id].tag != scope.tag
}

proof fn lemma_state_of(w: World, scope: LayoutScope)
    requires
        w.wf(),
    ensures
        w.tag_active(scope) == on_show(w, scope),
        w.tag_hidden(scope) == (!on_show(w, scope) && deserted(w, scope)),
{
    let ids = w.windows.rendered(scope);
    if ids.len() > 0 {
        lemma_rendered(w.windows, scope, 0);
        assert(w.windows.infos.contains_key(ids[0]));
    }
    if !deserted(w, scope) {
        let id = choose|id: WindowId| #[trigger]
            w.windows.infos.contains_key(id) && w.windows.infos[id].output == scope.output
                && w.windows.infos[id].tag == scope.tag;
        lemma_one_stack(w.windows, id, scope);
        assert(w.windows.infos[id].home() == scope);
    }
}

/// A bar that is told about an output hears of its group first and then of
/// nine workspaces, numbered from one, in order: active is the one that the
/// output shows, and hidden one that is neither shown nor has a window.
pub proof fn lemma_output_made_known(w: World, bar: u64, output: OutputId)
    requires
        w.wf(),
    ensures
        ({
            let t = w.output_announced(bar, output);
            let n = w.effects.len() as int;
            &&& t.effects.len() == n + 10
            &&& follows(w.effects, t.effects)
            &&& t.effects[n] == Effect::AnnounceGroup { bar, output }
            &&& forall|k: int|
                0 <= k < 9 ==> #[trigger] t.effects[n + 1 + k] == ({
                    let scope = LayoutScope { output, tag: TagId(k as u32) };
                    Effect::AnnounceWorkspace {
                        bar,
                        scope,
                        number: (k + 1) as u32,
                        active: on_show(w, scope),
                        hidden: !on_show(w, scope) && deserted(w, scope),
                    }
                })
        }),
{
    let group = w.emit(Effect::AnnounceGroup { bar, output });
    lemma_workspaces_in_order(group, bar, output, 9);
    let t = w.output_announced(bar, output);
    let n = w.effects.len() as int;
    assert(group.effects[n] == Effect::AnnounceGroup { bar, output });
    assert forall|k: int| 0 <= k < 9 implies #[trigger] t.effects[n + 1 + k] == ({
        let scope = LayoutScope { output, tag: TagId(k as u32) };
        Effect::AnnounceWorkspace {
            bar,
            scope,
            number: (k + 1) as u32,
            active: on_show(w, scope),
            hidden: !on_show(w, scope) && deserted(w, scope),
        }
    }) by {
        let scope = LayoutScope { output, tag: TagId(k as u32) };
        lemma_state_of(w, scope);
        assert(group.tag_active(scope) == w.tag_active(scope));
        assert(group.tag_hidden(scope) == w.tag_hidden(scope));
        assert(t.effects[group.effects.len() + k] == t.effects[n + 1 + k]);
    }
    assert(forall|i: int| 0 <= i < n ==> group.effects[i] == #[trigger] w.effects[i]);
}

proof fn lemma_workspaces_in_order(w: World, bar: u64, output: OutputId, m: nat)
    requires
        m <= 9,
    ensures
        ({
            let t = w.workspaces_announced(bar, output, m);
            &&& t.effects.len() == w.effects.len() + m
            &&& follows(w.effects, t.effects)
            &&& forall|k: int|
                0 <= k < m ==> #[trigger] t.effects[w.effects.len() + k] == ({
                    let scope = LayoutScope { output, tag: TagId(k as u32) };
                    Effect::AnnounceWorkspace {
                        bar,
                        scope,
                        number: (k + 1) as u32,
                        active: w.tag_active(scope),
                        hidden: w.tag_hidden(scope),
                    }
                })
        }),
    decreases m,
{
    if m > 0 {
        lemma_workspaces_in_order(w, bar, output, (m - 1) as nat);
        let before = w.workspaces_announced(bar, output, (m - 1) as nat);
        let t = w.workspaces_announced(bar, output, m);
        assert forall|k: int| 0 <= k < m implies #[trigger] t.effects[w.effects.len() + k] == ({
            let scope = LayoutScope { output, tag: TagId(k as u32) };
            Effect::AnnounceWorkspace {
                bar,
                scope,
                number: (k + 1) as u32,
                active: w.tag_active(scope),
                hidden: w.tag_hidden(scope),
            }
        }) by {
            if k < m - 1 {
                assert(t.effects[w.effects.len() + k] == before.effects[w.effects.len() + k]);
            }
        }
    }
}

/// A new bar is told about each active output, in order and as above, and
/// then that this was all.
pub proof fn lemma_bar_is_told_all(w: World, bar: u64, i: int)
    requires
        w.wf(),
    ensures
        ({
            let t = w.bar_bound(bar);
            let ids = w.outputs.active_ids(w.outputs.infos.len());
            &&& t.bars.len() == w.bars.len() + 1
            &&& t.bars.take(w.bars.len() as int) == w.bars
            &&& t.bars[w.bars.len() as int].id == bar
            &&& t.bars[w.bars.len() as int].groups.len() == 0
            &&& t.bars[w.bars.len() as int].workspaces.len() == 0
            &&& follows(w.effects, t.effects)
            &&& t.effects.len() == w.effects.len() + 10 * ids.len() + 1
            &&& t.effects.last() == Effect::WorkspaceDone { bar }
            &&& 0 <= i < w.outputs.infos.len() && w.outputs.infos[i].active
                ==> t.effects.contains(Effect::AnnounceGroup { bar, output: OutputId(i as u32) })
            &&& t == (World { bars: t.bars, effects: t.effects, ..w })
        }),
{
    let ids = w.outputs.active_ids(w.outputs.infos.len());
    let known = World {
        bars: w.bars.push(BarModel { id: bar, groups: Seq::empty(), workspaces: Seq::empty() }),
        ..w
    };
    assert(known.bars.take(w.bars.len() as int) =~= w.bars);
    lemma_outputs_in_order(known, bar, ids, OutputId(i as u32));
    lemma_active_ids(w.outputs, w.outputs.infos.len(), i);
    let told = known.outputs_announced(bar, ids);
    lemma_requests_stay(told.effects, w.bar_bound(bar).effects);
}

proof fn lemma_outputs_in_order(w: World, bar: u64, ids: Seq<OutputId>, id: OutputId)
    requires
        w.wf(),
    ensures
        ({
            let t = w.outputs_announced(bar, ids);
            &&& t == (World { effects: t.effects, ..w })
            &&& follows(w.effects, t.effects)
            &&& t.effects.len() == w.effects.len() + 10 * ids.len()
            &&& ids.contains(id) ==> t.effects.contains(Effect::AnnounceGroup { bar, output: id })
        }),
    decreases ids.len(),
{
    if ids.len() > 0 {
        let before = w.outputs_announced(bar, ids.drop_last());
        let t = w.outputs_announced(bar, ids);
        lemma_outputs_in_order(w, bar, ids.drop_last(), id);
        lemma_output_made_known(before, bar, ids.last());
        lemma_output_announced(before, bar, ids.last());
        lemma_requests_stay(before.effects, t.effects);
        if ids.contains(id) && id != ids.last() {
            let k = choose|k: int| 0 <= k < ids.len() && ids[k] == id;
            assert(ids.drop_last()[k] == id);
        }
        if id == ids.last() {
            assert(t.effects[before.effects.len() as int] == Effect::AnnounceGroup {
                bar,
                output: id,
            });
        }
    }
}

/// Whenever the bars are told what may have changed, each hears the state of
/// every workspace that it knows, hears of the output of every group that it
/// was not told yet, and of no other, and then that this was all.
pub proof fn lemma_bars_hear(w: World, b: int, scope: LayoutScope, output: OutputId)
    requires
        w.wf(),
        0 <= b < w.bars.len(),
    ensures
        ({
            let t = w.broadcast();
            let bar = w.bars[b];
            &&& follows(w.effects, t.effects)
            &&& t == (World { effects: t.effects, ..w })
            &&& t.effects.contains(Effect::WorkspaceDone { bar: bar.id })
            &&& bar.workspaces.contains(scope) ==> t.effects.contains(
                Effect::WorkspaceState {
                    bar: bar.id,
                    scope,
                    active: on_show(w, scope),
                    hidden: !on_show(w, scope) && deserted(w, scope),
                },
            )
            &&& bar.groups.contains((output, false)) ==> t.effects.contains(
                Effect::EnterGroup { bar: bar.id, output },
            )
        }),
{
    lemma_bars_in_order(w, w.bars, b, scope, output);
}

pub(crate) proof fn lemma_bars_in_order(
    w: World,
    bars: Seq<BarModel>,
    b: int,
    scope: LayoutScope,
    output: OutputId,
)
    requires
        w.wf(),
    ensures
        ({
            let t = w.bars_told(bars);
            &&& follows(w.effects, t.effects)
            &&& t == (World { effects: t.effects, ..w })
            &&& 0 <= b < bars.len() ==> {
                &&& t.effects.contains(Effect::WorkspaceDone { bar: bars[b].id })
                &&& bars[b].workspaces.contains(scope) ==> t.effects.contains(
                    Effect::WorkspaceState {
                        bar: bars[b].id,
                        scope,
                        active: on_show(w, scope),
                        hidden: !on_show(w, scope) && deserted(w, scope),
                    },
                )
                &&& bars[b].groups.contains((output, false)) ==> t.effects.contains(
                    Effect::EnterGroup { bar: bars[b].id, output },
                )
            }
        }),
    decreases bars.len(),
{
    if bars.len() > 0 {
        let rest = bars.drop_last();
        let bar = bars.last();
        let before = w.bars_told(rest);
        lemma_bars_in_order(w, rest, b, scope, output);
        lemma_bars_told(w, bars);
        let entered = before.groups_entered(bar.id, bar.groups);
        lemma_groups_entered(before, bar.id, bar.groups);
        lemma_entered(before, bar.id, bar.groups, output);
        let stated = entered.states_told(bar.id, bar.workspaces);
        lemma_stated(entered, bar.id, bar.workspaces, scope);
        let t = w.bars_told(bars);
        assert(t.effects == stated.effects.push(Effect::WorkspaceDone { bar: bar.id }));
        assert(t.effects[stated.effects.len() as int] == Effect::WorkspaceDone { bar: bar.id });
        assert(follows(stated.effects, t.effects));
        lemma_requests_stay(before.effects, entered.effects);
        lemma_requests_stay(entered.effects, stated.effects);
        lemma_requests_stay(stated.effects, t.effects);
        lemma_state_of(w, scope);
        assert(entered.tag_active(scope) == w.tag_active(scope));
        assert(entered.tag_hidden(scope) == w.tag_hidden(scope));
        if b < rest.len() {
            assert(0 <= b ==> rest[b] == bars[b]);
        }
    }
}

/// The request tells a bar the output of one of `groups` that it was not told
/// yet.
pub open spec fn enters(bar: u64, groups: Seq<(OutputId, bool)>, request: Effect) -> bool {
    exists|k: int|
        0 <= k < groups.len() && !(#[trigger] groups[k]).1 && request == (Effect::EnterGroup {
            bar,
            output: groups[k].0,
        })
}

proof fn lemma_entered(w: World, bar: u64, groups: Seq<(OutputId, bool)>, output: OutputId)
    ensures
        ({
            let t = w.groups_entered(bar, groups);
            &&& follows(w.effects, t.effects)
            &&& groups.contains((output, false)) ==> t.effects.contains(
                Effect::EnterGroup { bar, output },
            )
            &&& forall|i: int|
                w.effects.len() <= i < t.effects.len() ==> enters(
                    bar,
                    groups,
                    #[trigger] t.effects[i],
                )
        }),
    decreases groups.len(),
{
    if groups.len() > 0 {
        let rest = groups.drop_last();
        let before = w.groups_entered(bar, rest);
        let t = w.groups_entered(bar, groups);
        lemma_entered(w, bar, rest, output);
        assert(follows(before.effects, t.effects));
        lemma_requests_stay(before.effects, t.effects);
        if groups.contains((output, false)) {
            let k = choose|k: int| 0 <= k < groups.len() && groups[k] == (output, false);
            if k < rest.len() {
                assert(rest[k] == (output, false));
            } else {
                assert(t.effects[before.effects.len() as int] == Effect::EnterGroup {
                    bar,
                    output,
                });
            }
        }
        assert forall|i: int| w.effects.len() <= i < t.effects.len() implies enters(
            bar,
            groups,
            #[trigger] t.effects[i],
        ) by {
            if i < before.effects.len() {
                assert(enters(bar, rest, before.effects[i]));
                let k = choose|k: int|
                    0 <= k < rest.len() && !(#[trigger] rest[k]).1 && before.effects[i]
                        == (Effect::EnterGroup { bar, output: rest[k].0 });
                assert(groups[k] == rest[k]);
                assert(before.effects[i] == t.effects[i]);
            } else {
                assert(!groups[groups.len() - 1].1);
            }
        }
    }
}

proof fn lemma_stated(w: World, bar: u64, scopes: Seq<LayoutScope>, scope: LayoutScope)
    ensures
        ({
            let t = w.states_told(bar, scopes);
            &&& follows(w.effects, t.effects)
            &&& scopes.contains(scope) ==> t.effects.contains(
                Effect::WorkspaceState {
                    bar,
                    scope,
                    active: w.tag_active(scope),
                    hidden: w.tag_hidden(scope),
                },
            )
        }),
    decreases scopes.len(),
{
    if scopes.len() > 0 {
        let rest = scopes.drop_last();
        let before = w.states_told(bar, rest);
        let t = w.states_told(bar, scopes);
        lemma_stated(w, bar, rest, scope);
        assert(follows(before.effects, t.effects));
        lemma_requests_stay(before.effects, t.effects);
        if scopes.contains(scope) {
            let k = choose|k: int| 0 <= k < scopes.len() && scopes[k] == scope;
            if k < rest.len() {
                assert(rest[k] == scope);
            } else {
                assert(t.effects[before.effects.len() as int] == Effect::WorkspaceState {
                    bar,
                    scope,
                    active: w.tag_active(scope),
                    hidden: w.tag_hidden(scope),
                });
            }
        }
    }
}

/// A bar that has taken in what it was sent hears of the output of each group
/// that it was not told yet, and of no other; a bar that is gone hears
/// nothing.
pub proof fn lemma_commit_is_answered(w: World, bar: u64, b: int, output: OutputId)
    ensures
        (forall|k: int| 0 <= k < w.bars.len() ==> (#[trigger] w.bars[k]).id != bar)
            ==> w.bar_committed(bar) == w,
        0 <= b < w.bars.len() && w.bars[b].id == bar && (forall|k: int|
            0 <= k < b ==> (#[trigger] w.bars[k]).id != bar) ==> ({
            let t = w.bar_committed(bar);
            let n = t.effects.len() - 1;
            &&& follows(w.effects, t.effects)
            &&& w.effects.len() <= n
            &&& t.effects[n] == Effect::WorkspaceDone { bar }
            &&& w.bars[b].groups.contains((output, false)) ==> t.effects.contains(
                Effect::EnterGroup { bar, output },
            )
            &&& forall|i: int|
                w.effects.len() <= i < n ==> enters(
                    bar,
                    w.bars[b].groups,
                    #[trigger] t.effects[i],
                )
        }),
{
    if 0 <= b < w.bars.len() && w.bars[b].id == bar && (forall|k: int|
        0 <= k < b ==> (#[trigger] w.bars[k]).id != bar) {
        lemma_bar_index(w.bars, bar, b);
        let groups = w.bars[b].groups;
        lemma_entered(w, bar, groups, output);
        let entered = w.groups_entered(bar, groups);
        let t = w.bar_committed(bar);
        assert(follows(entered.effects, t.effects));
        lemma_requests_stay(entered.effects, t.effects);
        assert forall|i: int| w.effects.len() <= i < t.effects.len() - 1 implies enters(
            bar,
            groups,
            #[trigger] t.effects[i],
        ) by {
            assert(t.effects[i] == entered.effects[i]);
        }
    }
}

proof fn lemma_scopes_but(scopes: Seq<LayoutScope>, scope: LayoutScope, left: LayoutScope)
    ensures
        scopes_but(scopes, scope).contains(left) <==> scopes.contains(left) && left != scope,
    decreases scopes.len(),
{
    reveal(Seq::filter);
    if scopes.len() > 0 {
        let front = scopes.drop_last();
        let last = scopes.last();
        lemma_scopes_but(front, scope, left);
        assert(scopes =~= front.push(last));
        assert(scopes.contains(left) <==> front.contains(left) || left == last) by {
            lemma_pushed(front, last, left);
        }
        lemma_pushed(scopes_but(front, scope), last, left);
        assert(scopes_but(scopes, scope) == if last != scope {
            scopes_but(front, scope).push(last)
        } else {
            scopes_but(front, scope)
        });
    }
}

proof fn lemma_pushed<A>(s: Seq<A>, a: A, b: A)
    ensures
        s.push(a).contains(b) <==> s.contains(b) || b == a,
{
    let t = s.push(a);
    assert(t[s.len() as int] == a);
    if s.contains(b) {
        let k = choose|k: int| 0 <= k < s.len() && s[k] == b;
        assert(t[k] == b);
    }
    if t.contains(b) && b != a {
        let k = choose|k: int| 0 <= k < t.len() && t[k] == b;
        assert(s[k] == b);
    }
}

/// What a bar is noted to know is what was added to it: a group under its
/// output, a workspace once. Only a group that it knows can be entered, a
/// dropped workspace is gone, and every other group, workspace and bar is as
/// it was.
pub proof fn lemma_bar_notes(
    w: World,
    bar: u64,
    b: int,
    output: OutputId,
    entered: bool,
    scope: LayoutScope,
    other: OutputId,
    kept: LayoutScope,
)
    requires
        0 <= b < w.bars.len(),
        w.bars[b].id == bar,
        forall|k: int| 0 <= k < b ==> (#[trigger] w.bars[k]).id != bar,
    ensures
        ({
            let was = w.bars[b];
            let grouped = w.group_announced(bar, output, entered);
            let told = w.group_entered(bar, output);
            let more = w.workspace_announced(bar, scope);
            let fewer = w.workspace_dropped(bar, scope);
            &&& lookup(grouped.bars[b].groups, output) == Some(entered)
            &&& other != output ==> lookup(grouped.bars[b].groups, other) == lookup(
                was.groups,
                other,
            )
            &&& grouped.bars[b].workspaces == was.workspaces
            &&& lookup(was.groups, output) is Some ==> lookup(told.bars[b].groups, output) == Some(
                true,
            )
            &&& lookup(was.groups, output) is None ==> lookup(told.bars[b].groups, output) is None
            &&& other != output ==> lookup(told.bars[b].groups, other) == lookup(was.groups, other)
            &&& told.bars[b].workspaces == was.workspaces
            &&& more.bars[b].workspaces.contains(scope)
            &&& kept != scope ==> (more.bars[b].workspaces.contains(kept)
                <==> was.workspaces.contains(kept))
            &&& more.bars[b].groups == was.groups
            &&& !fewer.bars[b].workspaces.contains(scope)
            &&& kept != scope ==> (fewer.bars[b].workspaces.contains(kept)
                <==> was.workspaces.contains(kept))
            &&& fewer.bars[b].groups == was.groups
        }),
        forall|k: int|
            0 <= k < w.bars.len() && k != b ==> {
                &&& w.group_announced(bar, output, entered).bars[k] == #[trigger] w.bars[k]
                &&& w.group_entered(bar, output).bars[k] == w.bars[k]
                &&& w.workspace_announced(bar, scope).bars[k] == w.bars[k]
                &&& w.workspace_dropped(bar, scope).bars[k] == w.bars[k]
            },
{
    let was = w.bars[b];
    lemma_bar_index(w.bars, bar, b);
    lemma_lookup_filed(was.groups, output, entered, other);
    lemma_lookup_filed(was.groups, output, true, other);
    lemma_scopes_but(was.workspaces, scope, kept);
    lemma_scopes_but(was.workspaces, scope, scope);
    assert(w.group_announced(bar, output, entered).bars[b].groups == filed(
        was.groups,
        output,
        entered,
    ));
    assert(lookup(was.groups, output) is Some ==> w.group_entered(bar, output).bars[b].groups
        == filed(was.groups, output, true));
    assert(lookup(was.groups, output) is None ==> w.group_entered(bar, output).bars[b] == was);
    assert(w.workspace_dropped(bar, scope).bars[b].workspaces == scopes_but(
        was.workspaces,
        scope,
    ));
    assert(w.workspace_announced(bar, scope).bars[b].workspaces
        == if was.workspaces.contains(scope) {
        was.workspaces
    } else {
        was.workspaces.push(scope)
    });
    lemma_pushed(was.workspaces, scope, kept);
    lemma_pushed(was.workspaces, scope, scope);
}

/// Of the bars those of that name are gone, and no other.
pub proof fn lemma_bar_leaves(w: World, bar: u64, model: BarModel)
    ensures
        w.bar_gone(bar).bars.contains(model) <==> w.bars.contains(model) && model.id != bar,
{
    lemma_filtered(w.bars, |m: BarModel| m.id != bar, model);
}

/// Activating a workspace focuses its output and turns that to its tag, and
/// turns no other.
pub proof fn lemma_workspace_is_shown(w: World, scope: LayoutScope, other: int)
    requires
        w.wf(),
        w.outputs.has(scope.output),
        w.outputs.has(w.outputs.focused),
    ensures
        ({
            let t = w.workspace_activated(scope);
            &&& t.outputs.focused == scope.output
            &&& on_show(t, scope)
            &&& t.outputs.infos.len() == w.outputs.infos.len()
            &&& 0 <= other < w.outputs.infos.len() && other != scope.output.0
                ==> t.outputs.infos[other] == w.outputs.infos[other]
        }),
{
    lemma_output_gets_focus(w, scope.output);
    lemma_output_focused_wf(w, scope.output);
    lemma_turned_at_once(w.output_focused(scope.output), scope.tag);
}

/// Turning the focused output at once changes its tag and nothing else about
/// the outputs.
pub proof fn lemma_turned_at_once(w: World, tag: TagId)
    requires
        w.wf(),
        w.outputs.has(w.outputs.focused),
    ensures
        ({
            let t = w.tag_changed(tag);
            let f = w.outputs.focused.0 as int;
            &&& t.outputs.focused == w.outputs.focused
            &&& t.outputs.infos.len() == w.outputs.infos.len()
            &&& t.outputs.infos[f].current_tag == tag
            &&& t.outputs.infos[f].active == w.outputs.infos[f].active
            &&& t.outputs.infos[f].name == w.outputs.infos[f].name
            &&& forall|i: int|
                0 <= i < w.outputs.infos.len() && i != f ==> t.outputs.infos[i]
                    == #[trigger] w.outputs.infos[i]
        }),
{
    let output = w.outputs.focused;
    let scope = LayoutScope { output, tag };
    let old_tag = w.outputs.current_tag()->0;
    let off = w.windows.rendered(LayoutScope { output, tag: old_tag });
    let on = w.windows.rendered(scope);
    lemma_mapped_ids(w, off);
    lemma_mapped_ids(w.unmapped_ids(off), on);
    let bare = w.unmapped_ids(off).mapped_ids(on);
    lemma_turned_to_wf(w.outputs, tag);
    lemma_outputs_wf(bare, w.outputs.turned_to(tag));
    let turned = World { outputs: w.outputs.turned_to(tag), ..bare };
    lemma_tag_focused_wf(turned, scope);
    let focused = turned.tag_focused(scope);
    lemma_relaid_wf(focused, Some(scope), true);
    lemma_broadcast(focused.relaid(Some(scope), true));
}

// The pointer.

/// The pointer focuses the first active output that it is on, and none if it
/// is on none.
pub proof fn lemma_pointer_focuses(w: World, x: Scalar, y: Scalar, i: int)
    requires
        w.wf(),
        w.outputs.has(w.outputs.focused),
    ensures
        (forall|k: int|
            0 <= k < w.outputs.infos.len() ==> !pointed_at(w, x, y, k)) ==> w.pointer_followed(x, y)
            == w,
        pointed_at(w, x, y, i) && (forall|k: int| 0 <= k < i ==> !pointed_at(w, x, y, k)) ==> ({
            let t = w.pointer_followed(x, y);
            &&& t.outputs.focused.0 == i
            &&& t.outputs.infos == w.outputs.infos
            &&& t == (World { outputs: t.outputs, ..w })
        }),
{
    lemma_around(w, w.outputs.infos.len(), x, y, i);
}

/// Output `k` is active and mapped where the point lies.
pub open spec fn pointed_at(w: World, x: Scalar, y: Scalar, k: int) -> bool {
    &&& 0 <= k < w.outputs.infos.len()
    &&& w.outputs.infos[k].active
    &&& (lookup(w.screens, OutputId(k as u32)) matches Some(geo) && holds(geo, x, y))
}

proof fn lemma_around(w: World, n: nat, x: Scalar, y: Scalar, i: int)
    requires
        w.outputs.wf(),
        n <= w.outputs.infos.len(),
    ensures
        ({
            let found = w.output_around(w.outputs.active_ids(n), x, y);
            &&& (forall|k: int| 0 <= k < n ==> !pointed_at(w, x, y, k)) ==> found is None
            &&& i < n && pointed_at(w, x, y, i) && (forall|k: int|
                0 <= k < i ==> !pointed_at(w, x, y, k)) ==> found == Some(OutputId(i as u32))
        }),
    decreases n,
{
    if n > 0 {
        let before = w.outputs.active_ids((n - 1) as nat);
        lemma_around(w, (n - 1) as nat, x, y, i);
        let id = w.outputs.infos[n - 1].id;
        assert(id == OutputId((n - 1) as u32));
        let found = w.output_around(before, x, y);
        if w.outputs.infos[n - 1].active {
            lemma_around_push(w, before, id, x, y);
            assert(w.outputs.active_ids(n) == before.push(id));
        }
        if pointed_at(w, x, y, n - 1) {
            assert(w.outputs.infos[n - 1].active);
            assert(found is None ==> w.output_around(w.outputs.active_ids(n), x, y) == Some(id));
        } else {
            assert(w.output_around(w.outputs.active_ids(n), x, y) == found);
        }
    }
}

proof fn lemma_around_push(w: World, ids: Seq<OutputId>, id: OutputId, x: Scalar, y: Scalar)
    ensures
        w.output_around(ids.push(id), x, y) == match w.output_around(ids, x, y) {
            Some(found) => Some(found),
            None => match lookup(w.screens, id) {
                Some(geo) => if holds(geo, x, y) {
                    Some(id)
                } else {
                    None
                },
                None => None,
            },
        },
    decreases ids.len(),
{
    let more = ids.push(id);
    if ids.len() == 0 {
        assert(more.skip(1) =~= Seq::<OutputId>::empty());
        assert(more[0] == id);
        assert(w.output_around(more.skip(1), x, y) is None);
    } else {
        assert(more.skip(1) =~= ids.skip(1).push(id));
        assert(more[0] == ids[0]);
        lemma_around_push(w, ids.skip(1), id, x, y);
    }
}

/// A window opens on the output, of those that were mapped the last of all,
/// that the pointer is on; without one, on the focused output. What lies
/// under the pointer is on the first such output.
pub proof fn lemma_where_pointer_is(w: World, x: Scalar, y: Scalar, i: int)
    requires
        w.wf(),
    ensures
        (forall|k: int| 0 <= k < w.screens.len() ==> !holds((#[trigger] w.screens[k]).1, x, y))
            ==> World::screen_at(w.screens, x, y) is None && (w.outputs.has(w.outputs.focused)
            ==> w.birthplace(x, y) == w.outputs.focused),
        0 <= i < w.screens.len() && holds(w.screens[i].1, x, y) && (forall|k: int|
            i < k < w.screens.len() ==> !holds((#[trigger] w.screens[k]).1, x, y))
            ==> w.birthplace(x, y) == w.screens[i].0,
        0 <= i < w.screens.len() && holds(w.screens[i].1, x, y) && (forall|k: int|
            0 <= k < i ==> !holds((#[trigger] w.screens[k]).1, x, y)) ==> World::screen_at(
            w.screens,
            x,
            y,
        ) == Some(w.screens[i].0),
{
    lemma_last_there(w.screens, x, y, i);
    lemma_first_there(w.screens, x, y, i);
}

proof fn lemma_last_there(screens: Seq<(OutputId, Tile)>, x: Scalar, y: Scalar, i: int)
    ensures
        (forall|k: int| 0 <= k < screens.len() ==> !holds((#[trigger] screens[k]).1, x, y))
            ==> World::last_screen_at(screens, x, y) is None,
        0 <= i < screens.len() && holds(screens[i].1, x, y) && (forall|k: int|
            i < k < screens.len() ==> !holds((#[trigger] screens[k]).1, x, y))
            ==> World::last_screen_at(screens, x, y) == Some(screens[i].0),
    decreases screens.len(),
{
    if screens.len() > 0 {
        lemma_last_there(screens.drop_last(), x, y, i);
        assert(screens[screens.len() - 1] == screens.last());
    }
}

proof fn lemma_first_there(screens: Seq<(OutputId, Tile)>, x: Scalar, y: Scalar, i: int)
    ensures
        (forall|k: int| 0 <= k < screens.len() ==> !holds((#[trigger] screens[k]).1, x, y))
            ==> World::screen_at(screens, x, y) is None,
        0 <= i < screens.len() && holds(screens[i].1, x, y) && (forall|k: int|
            0 <= k < i ==> !holds((#[trigger] screens[k]).1, x, y)) ==> World::screen_at(
            screens,
            x,
            y,
        ) == Some(screens[i].0),
    decreases screens.len(),
{
    if screens.len() > 0 {
        let rest = screens.skip(1);
        lemma_first_there(rest, x, y, i - 1);
        assert(forall|k: int| 0 <= k < rest.len() ==> #[trigger] rest[k] == screens[k + 1]);
        assert(holds(screens[0].1, x, y) || !holds(screens[0].1, x, y));
    }
}

// Layers.

/// A layer is told the zone's width if it is anchored to the left and to the
/// right, and the zone's height if to the top and to the bottom; along any
/// other axis it chooses.
pub proof fn lemma_layer_told(anchors: Anchors, zone: Tile)
    ensures
        anchors.left && anchors.right ==> layer_size(anchors, zone).0 == zone.width,
        !anchors.left || !anchors.right ==> layer_size(anchors, zone).0 == 0,
        anchors.top && anchors.bottom ==> layer_size(anchors, zone).1 == zone.height,
        !anchors.top || !anchors.bottom ==> layer_size(anchors, zone).1 == 0,
{
}

/// A new layer stands behind those that were there, not configured yet, and
/// its output has the zone that is left; every other zone is as it was.
pub proof fn lemma_layer_comes(w: World, surface: SurfaceId, id: OutputId, zone: Tile)
    requires
        w.wf(),
        w.outputs.has(id),
        moderate(zone),
    ensures
        ({
            let t = w.layer_opened(surface, id, zone);
            let n = w.layers.len() as int;
            &&& t.layers.len() == n + 1
            &&& t.layers.take(n) == w.layers
            &&& t.layers[n].0 == id
            &&& t.layers[n].1.surface == surface
            &&& !t.layers[n].1.init_config
            &&& t.zones == w.zones.insert(id, zone)
            &&& t.outputs == w.outputs
            &&& t.screens == w.screens
        }),
{
    let more = World {
        layers: w.layers.push((id, LayerEntry { surface, init_config: false })),
        zones: w.zones.insert(id, zone),
        ..w
    };
    assert(more.wf());
    lemma_relaid_wf(more, Some(w.shown(id)), true);
    assert(more.layers.take(w.layers.len() as int) =~= w.layers);
}

/// A layer that goes is gone from its output, every other one stays, and the
/// output has the zone that is left; a surface that is no layer changes
/// nothing.
pub proof fn lemma_layer_goes(
    w: World,
    surface: SurfaceId,
    zone: Tile,
    i: int,
    entry: (OutputId, LayerEntry),
)
    requires
        w.wf(),
        moderate(zone),
    ensures
        (forall|k: int| 0 <= k < w.layers.len() ==> (#[trigger] w.layers[k]).1.surface != surface)
            ==> w.layer_closed(surface, zone) == w,
        0 <= i < w.layers.len() && w.layers[i].1.surface == surface && (forall|k: int|
            0 <= k < i ==> (#[trigger] w.layers[k]).1.surface != surface) ==> ({
            let t = w.layer_closed(surface, zone);
            let id = w.layers[i].0;
            &&& t.layers.contains(entry) <==> w.layers.contains(entry) && !(entry.0 == id
                && entry.1.surface == surface)
            &&& t.zones == w.zones.insert(id, zone)
            &&& t.outputs == w.outputs
            &&& t.screens == w.screens
        }),
{
    if 0 <= i < w.layers.len() && w.layers[i].1.surface == surface && (forall|k: int|
        0 <= k < i ==> (#[trigger] w.layers[k]).1.surface != surface) {
        lemma_layer_index(w.layers, surface, i);
        let id = w.layers[i].0;
        let pred = |e: (OutputId, LayerEntry)| is_other_layer(e, id, surface);
        lemma_filtered(w.layers, pred, entry);
        let fewer = World {
            layers: w.layers.filter(pred),
            zones: w.zones.insert(id, zone),
            ..w
        };
        assert forall|k: int| 0 <= k < fewer.layers.len() implies fewer.outputs.has(
            (#[trigger] fewer.layers[k]).0,
        ) by {
            lemma_filtered(w.layers, pred, fewer.layers[k]);
            assert(fewer.layers.contains(fewer.layers[k]));
        }
        assert(fewer.wf());
        lemma_relaid_wf(fewer, Some(w.shown(id)), true);
    }
}

/// A layer is sent its size with its first commit and never again: where that
/// leaves the zone as it was, this is all that the commit does, and otherwise
/// the output has the new zone.
pub proof fn lemma_layer_commits(
    w: World,
    surface: SurfaceId,
    anchors: Anchors,
    zone: Tile,
    i: int,
)
    requires
        w.wf(),
        moderate(zone),
        0 <= i < w.layers.len(),
        w.layers[i].1.surface == surface,
        forall|k: int| 0 <= k < i ==> (#[trigger] w.layers[k]).1.surface != surface,
    ensures
        ({
            let t = w.layer_committed(surface, anchors, zone);
            let id = w.layers[i].0;
            &&& t.layers.len() == w.layers.len()
            &&& t.layers[i].0 == id
            &&& t.layers[i].1.surface == surface
            &&& t.layers[i].1.init_config
            &&& forall|k: int|
                0 <= k < w.layers.len() && k != i ==> t.layers[k] == #[trigger] w.layers[k]
            &&& t.zones.contains_key(id)
            &&& t.zones[id] == zone
            &&& w.zones.contains_key(id) && w.zones[id] == zone && w.layers[i].1.init_config
                ==> t.effects == w.effects
            &&& w.zones.contains_key(id) && w.zones[id] == zone && !w.layers[i].1.init_config
                ==> t.effects == w.effects.push(
                Effect::ConfigureLayer {
                    surface,
                    width: layer_size(anchors, zone).0 as i32,
                    height: layer_size(anchors, zone).1 as i32,
                },
            )
        }),
{
    lemma_layer_index(w.layers, surface, i);
    let (id, entry) = w.layers[i];
    let told = if entry.init_config {
        w
    } else {
        World {
            layers: w.layers.update(i, (id, LayerEntry { init_config: true, ..entry })),
            ..w
        }.emit(
            Effect::ConfigureLayer {
                surface,
                width: layer_size(anchors, zone).0 as i32,
                height: layer_size(anchors, zone).1 as i32,
            },
        )
    };
    if !(w.zones.contains_key(id) && w.zones[id] == zone) {
        let noted = told.zone_noted(id, zone);
        assert forall|k: int| 0 <= k < noted.layers.len() implies noted.outputs.has(
            (#[trigger] noted.layers[k]).0,
        ) by {
            assert(w.outputs.has(w.layers[k].0));
        }
        assert(noted.wf());
        lemma_relaid_wf(noted, Some(w.shown(id)), true);
    }
}

/// The layers of an output are those that were opened on it.
pub proof fn lemma_layers_of(layers: Seq<(OutputId, LayerEntry)>, id: OutputId, entry: LayerEntry)
    ensures
        layers_of(layers, id).contains(entry) <==> layers.contains((id, entry)),
    decreases layers.len(),
{
    reveal(Seq::filter);
    if layers.len() > 0 {
        let front = layers.drop_last();
        let last = layers.last();
        lemma_layers_of(front, id, entry);
        assert(layers =~= front.push(last));
        lemma_pushed(front, last, (id, entry));
        lemma_pushed(layers_of(front, id), last.1, entry);
        assert(layers_of(layers, id) =~= if last.0 == id {
            layers_of(front, id).push(last.1)
        } else {
            layers_of(front, id)
        });
    }
}

/// Told about a frame of an output are the windows on the plane, the layers of
/// that output and the lock's surface there, and nobody else.
pub proof fn lemma_audience(w: World, id: OutputId, surface: SurfaceId)
    ensures
        audience(w, id).contains(surface) <==> has_key(w.elements, surface) || (exists|
            e: LayerEntry,
        |
            w.layers.contains((id, e)) && #[trigger] e.surface == surface) || (
        w.lock_surfaces.contains_key(id) && w.lock_surfaces[id] == surface),
{
    let mine = layers_of(w.layers, id);
    let windows = surfaces_on(w.elements);
    let layers = mine.map_values(|entry: LayerEntry| entry.surface);
    let shown = windows + layers;
    if has_key(w.elements, surface) {
        let k = index_of_key(w.elements, surface);
        assert(files_at(w.elements, surface, k));
        assert(shown[k] == surface);
    }
    if exists|e: LayerEntry| w.layers.contains((id, e)) && #[trigger] e.surface == surface {
        let e = choose|e: LayerEntry| w.layers.contains((id, e)) && #[trigger] e.surface == surface;
        lemma_layers_of(w.layers, id, e);
        let k = choose|k: int| 0 <= k < mine.len() && mine[k] == e;
        assert(shown[windows.len() + k] == surface);
    }
    if shown.contains(surface) {
        let k = choose|k: int| 0 <= k < shown.len() && shown[k] == surface;
        if k < windows.len() {
            assert(w.elements[k].0 == surface);
            lemma_some_key(w.elements, surface, k);
        } else {
            let e = mine[k - windows.len()];
            assert(mine.contains(e));
            lemma_layers_of(w.layers, id, e);
            assert(e.surface == surface);
        }
    }
    if w.lock_surfaces.contains_key(id) {
        lemma_pushed(shown, w.lock_surfaces[id], surface);
    }
}

// The configuration.

/// Commands that the configuration gives are carried out in their order and
/// before any that still wait, once when the session starts and once more with
/// each new configuration, which also applies the keyboard layout.
pub proof fn lemma_commands_come_first(w: World, config: Settings, i: int)
    ensures
        ({
            let t = w.reconfigured(config);
            let n = config.commands.len() as int;
            &&& t.config == config
            &&& t.effects == w.effects.push(Effect::ApplyKeyboardLayout)
            &&& t.backlog.len() == n + w.backlog.len()
            &&& 0 <= i < n ==> t.backlog[i] == config.commands[i]
            &&& 0 <= i < w.backlog.len() ==> t.backlog[n + i] == w.backlog[i]
            &&& t.windows == w.windows
            &&& t.outputs == w.outputs
        }),
        ({
            let t = w.commands_queued();
            let n = w.config.commands.len() as int;
            &&& 0 <= i < n ==> t.backlog[i] == w.config.commands[i]
            &&& 0 <= i < w.backlog.len() ==> t.backlog[n + i] == w.backlog[i]
            &&& t.backlog.len() == n + w.backlog.len()
            &&& t.effects == w.effects
        }),
{
}

/// A session starts open, with no output, no window, no layer and no bar,
/// nothing in motion and nothing to do but to apply the keyboard layout.
pub proof fn lemma_session_starts(config: Settings, id: WindowId, scope: LayoutScope)
    ensures
        ({
            let w = World::initial(config);
            &&& w.config == config
            &&& !w.locked
            &&& !w.pending_locker
            &&& !w.done_autostart
            &&& w.gesture is None
            &&& w.outputs.infos.len() == 0
            &&& w.screens.len() == 0
            &&& !w.windows.infos.contains_key(id)
            &&& w.windows.focused is None
            &&& !w.layouts.contains_key(scope)
            &&& w.elements.len() == 0
            &&& w.layers.len() == 0
            &&& w.bars.len() == 0
            &&& w.slides.len() == 0
            &&& w.morphs.len() == 0
            &&& w.backlog.len() == 0
            &&& w.effects == seq![Effect::ApplyKeyboardLayout]
        }),
{
}

/// Of what was found under a point, what counts is the first that is on the
/// plane.
pub proof fn lemma_first_on_plane(
    candidates: Seq<SurfaceId>,
    elements: Seq<(SurfaceId, Point)>,
    i: int,
)
    ensures
        (forall|k: int|
            0 <= k < candidates.len() ==> !has_key(elements, #[trigger] candidates[k]))
            ==> first_mapped(candidates, elements) is None,
        0 <= i < candidates.len() && has_key(elements, candidates[i]) && (forall|k: int|
            0 <= k < i ==> !has_key(elements, #[trigger] candidates[k])) ==> first_mapped(
            candidates,
            elements,
        ) == Some(candidates[i]),
    decreases candidates.len(),
{
    if candidates.len() > 0 {
        let rest = candidates.skip(1);
        lemma_first_on_plane(rest, elements, i - 1);
        assert(forall|k: int| 0 <= k < rest.len() ==> #[trigger] rest[k] == candidates[k + 1]);
        assert(has_key(elements, candidates[0]) || !has_key(elements, candidates[0]));
    }
}

} // verus!
