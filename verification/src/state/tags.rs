//! Tags: switching between them, sliding between them, and moving windows.
use vstd::prelude::*;

use crate::animation::{
    shrink_target, shrunk, wrapped, Animation, MorphFinish, Point, Slide, TagSlideAnimation,
    WindowMorph, SLIDE_DURATION,
};
use crate::effect::Effect;
use crate::layout::Rect;
use crate::layout_laws::{within, TILE_LIMIT};
use crate::output::{layout_named, LayoutScope, OutputId, TagId};
use crate::scalar::{Scalar, ZERO};
use crate::state::Alice;
use crate::table::has_key;
use crate::window::{SurfaceId, Window, WindowId};
use crate::window_laws::{lemma_found_is_indexed, relocated};
use crate::world::{sound_slide, sound_slides, World, LAST_TAG};
use crate::world_laws::{
    kept, lemma_broadcast, lemma_focused_found, lemma_mapped_all, lemma_mapped_ids,
    lemma_morphs_advanced_all, lemma_moved_to_tag_wf, lemma_outputs_wf, lemma_relocated_sound,
    lemma_removed_sound, lemma_screen, lemma_slid_wf, lemma_slide_advanced_wf,
    lemma_slide_finalized_wf, lemma_slide_finished_wf, lemma_slides_advanced_wf,
    lemma_tag_changed_wf, lemma_turned_to_wf, lemma_turned_wf, lemma_window_removed_wf,
};

verus! {

broadcast use crate::table::group_keys_distinct;

/// Which way a switch to a tag slides that is asked for by its number: a
/// lower one as if it came next, and a higher one as if it came before.
pub fn tag_direction(from: TagId, to: TagId) -> (direction: i32)
    ensures
        direction == if to.0 > from.0 {
            -1int
        } else {
            1int
        },
{
    if to.0 > from.0 {
        -1
    } else {
        1
    }
}

impl Alice {
    fn map_all(&mut self, places: &Vec<(SurfaceId, Point)>)
        ensures
            final(self)@ == old(self)@.mapped_all(places@),
    {
        let mut i: usize = 0;
        assert(places@.take(0) =~= Seq::<(SurfaceId, Point)>::empty());
        while i < places.len()
            invariant
                i <= places.len(),
                self@ == old(self)@.mapped_all(places@.take(i as int)),
            decreases places.len() - i,
        {
            assert(places@.take(i + 1).drop_last() =~= places@.take(i as int));
            let (surface, at) = places[i];
            self.map_element(surface, at, false);
            i += 1;
        }
        assert(places@.take(i as int) =~= places@);
    }

    fn unmap_all(&mut self, places: &Vec<(SurfaceId, Point)>)
        ensures
            final(self)@ == old(self)@.unmapped_all(places@),
    {
        let mut i: usize = 0;
        assert(places@.take(0) =~= Seq::<(SurfaceId, Point)>::empty());
        while i < places.len()
            invariant
                i <= places.len(),
                self@ == old(self)@.unmapped_all(places@.take(i as int)),
            decreases places.len() - i,
        {
            assert(places@.take(i + 1).drop_last() =~= places@.take(i as int));
            let (surface, _) = places[i];
            self.unmap_elem(surface);
            i += 1;
        }
        assert(places@.take(i as int) =~= places@);
    }

    fn map_ids(&mut self, ids: &Vec<WindowId>)
        ensures
            final(self)@ == old(self)@.mapped_ids(ids@),
    {
        let mut i: usize = 0;
        assert(ids@.take(0) =~= Seq::<WindowId>::empty());
        while i < ids.len()
            invariant
                i <= ids.len(),
                self@ == old(self)@.mapped_ids(ids@.take(i as int)),
            decreases ids.len() - i,
        {
            assert(ids@.take(i + 1).drop_last() =~= ids@.take(i as int));
            let surface = match self.window_registry.get(&ids[i]) {
                Some(info) => Some(info.window.surface),
                None => None,
            };
            if let Some(surface) = surface {
                self.map_element(surface, Point { x: 0, y: 0 }, false);
            }
            i += 1;
        }
        assert(ids@.take(i as int) =~= ids@);
    }

    fn unmap_ids(&mut self, ids: &Vec<WindowId>)
        ensures
            final(self)@ == old(self)@.unmapped_ids(ids@),
    {
        let mut i: usize = 0;
        assert(ids@.take(0) =~= Seq::<WindowId>::empty());
        while i < ids.len()
            invariant
                i <= ids.len(),
                self@ == old(self)@.unmapped_ids(ids@.take(i as int)),
            decreases ids.len() - i,
        {
            assert(ids@.take(i + 1).drop_last() =~= ids@.take(i as int));
            let surface = match self.window_registry.get(&ids[i]) {
                Some(info) => Some(info.window.surface),
                None => None,
            };
            if let Some(surface) = surface {
                self.unmap_elem(surface);
            }
            i += 1;
        }
        assert(ids@.take(i as int) =~= ids@);
    }

    /// Where the windows of `scope` are, but for `excluded`.
    fn snapshot(&self, scope: &LayoutScope, excluded: Option<WindowId>) -> (places: Vec<
        (SurfaceId, Point),
    >)
        ensures
            places@ == self@.snapshot(self@.windows.rendered(*scope), excluded),
    {
        let ids = self.window_registry.filter(scope);
        let mut places: Vec<(SurfaceId, Point)> = Vec::new();
        let mut i: usize = 0;
        assert(ids@.take(0) =~= Seq::<WindowId>::empty());
        while i < ids.len()
            invariant
                i <= ids.len(),
                places@ == self@.snapshot(ids@.take(i as int), excluded),
            decreases ids.len() - i,
        {
            assert(ids@.take(i + 1).drop_last() =~= ids@.take(i as int));
            let id = ids[i];
            i += 1;
            if excluded == Some(id) {
                continue;
            }
            let Some(info) = self.window_registry.get(&id) else {
                continue;
            };
            let Some(at) = self.space.elements.get(info.window.surface) else {
                continue;
            };
            places.push((info.window.surface, *at));
        }
        assert(ids@.take(i as int) =~= ids@);
        places
    }

    /// Turns the focused output to `tag`, at once.
    pub fn change_tag(&mut self, tag: TagId) -> (done: Option<()>)
        requires
            old(self)@.wf(),
        ensures
            final(self)@ == old(self)@.tag_changed(tag),
            final(self)@.wf(),
            kept(old(self)@, final(self)@),
            done is Some <==> old(self)@.outputs.has(old(self)@.outputs.focused),
    {
        proof {
            lemma_tag_changed_wf(self@, tag);
        }
        let Some(old_tag) = self.outputs.current_focused_tag() else {
            return None;
        };
        let output = self.outputs.get_focused().id;
        let scope = LayoutScope { output, tag };
        let off = self.window_registry.filter(&LayoutScope { output, tag: old_tag });
        let on = self.window_registry.filter(&scope);
        proof {
            lemma_mapped_ids(self@, off@);
            lemma_mapped_ids(self@.unmapped_ids(off@), on@);
            lemma_turned_to_wf(self@.outputs, tag);
        }
        self.unmap_ids(&off);
        self.map_ids(&on);
        proof {
            lemma_outputs_wf(self@, self@.outputs.turned_to(tag));
        }
        self.outputs.change_tag(tag);
        self.apply_tag_focus(scope);
        self.relayout(Some(scope));
        self.broadcast_workspace_state();
        Some(())
    }

    /// Turns the focused output to `tag`, with the windows of both tags
    /// sliding across it.
    pub fn slide_tag(&mut self, tag: TagId, direction: i32) -> (done: Option<()>)
        requires
            old(self)@.wf(),
            direction == 1 || direction == -1,
        ensures
            final(self)@ == old(self)@.slid(tag, direction, None),
            final(self)@.wf(),
            kept(old(self)@, final(self)@),
            done is Some <==> old(self)@.outputs.has(old(self)@.outputs.focused),
    {
        self.slide_tag_impl(tag, direction, None)
    }

    /// `places` moved sideways.
    fn offset_places(places: &Vec<(SurfaceId, Point)>, offset: i32) -> (moved: Vec<
        (SurfaceId, Point),
    >)
        ensures
            moved@ == World::offset_places(places@, offset as int),
    {
        let mut moved: Vec<(SurfaceId, Point)> = Vec::new();
        let mut i: usize = 0;
        while i < places.len()
            invariant
                i <= places.len(),
                moved@.len() == i,
                forall|j: int|
                    0 <= j < i ==> moved@[j] == (
                        places@[j].0,
                        Point { x: wrapped(places@[j].1.x + offset), y: places@[j].1.y },
                    ),
            decreases places.len() - i,
        {
            let (surface, at) = places[i];
            moved.push((surface, Point { x: at.x.wrapping_add(offset), y: at.y }));
            i += 1;
        }
        assert(moved@ =~= World::offset_places(places@, offset as int));
        moved
    }

    fn slide_tag_impl(&mut self, tag: TagId, direction: i32, excluded: Option<WindowId>) -> (done:
        Option<()>)
        requires
            old(self)@.wf(),
            direction == 1 || direction == -1,
        ensures
            final(self)@ == old(self)@.slid(tag, direction, excluded),
            final(self)@.wf(),
            kept(old(self)@, final(self)@),
            done is Some <==> old(self)@.outputs.has(old(self)@.outputs.focused),
    {
        proof {
            lemma_slid_wf(self@, tag, direction, excluded);
        }
        let Some(old_tag) = self.outputs.current_focused_tag() else {
            return None;
        };
        if old_tag == tag {
            return Some(());
        }
        let output = self.outputs.get_focused().id;
        let scope = LayoutScope { output, tag };
        let now = self.now;

        // A switch under way on this output is brought to its end first, so
        // that no two run side by side.
        self.finish_tag_animation(output);

        // The windows that leave stay on the plane until the slide is over.
        let outgoing = self.snapshot(&LayoutScope { output, tag: old_tag }, excluded);
        proof {
            lemma_turned_to_wf(self@.outputs, tag);
            lemma_outputs_wf(self@, self@.outputs.turned_to(tag));
        }
        self.outputs.change_tag(tag);
        let on = self.window_registry.filter(&scope);
        proof {
            lemma_mapped_ids(self@, on@);
        }
        self.map_ids(&on);
        self.relayout_unanimated(Some(scope));
        let incoming = self.snapshot(&scope, excluded);
        self.apply_tag_focus(scope);
        proof {
            lemma_broadcast(self@);
        }
        self.broadcast_workspace_state();

        let distance: i32 = match self.space.outputs.get(output) {
            Some(geo) => {
                proof {
                    lemma_screen(self@, output);
                }
                geo.width
            },
            None => 0,
        };
        if distance == 0 {
            self.unmap_all(&outgoing);
            self.emit(Effect::Render);
            return Some(());
        }
        let offset = direction * distance;
        let start = Alice::offset_places(&incoming, offset);
        self.map_all(&start);
        self.tag_animations.insert(
            output,
            TagSlideAnimation {
                direction,
                distance,
                animation: Animation::new(now, SLIDE_DURATION),
                old_tag,
                new_tag: tag,
                outgoing,
                incoming,
                eased: Scalar { bits: ZERO },
                offset,
            },
        );
        self.emit(Effect::Render);
        Some(())
    }

    /// Brings the tag switch on `output`, if there is one, to its end: to
    /// the tag that it was headed to.
    fn finish_tag_animation(&mut self, output: OutputId)
        requires
            old(self)@.wf(),
        ensures
            final(self)@ == old(self)@.slide_finished(output),
            final(self)@.wf(),
            kept(old(self)@, final(self)@),
    {
        proof {
            lemma_slide_finished_wf(self@, output);
        }
        let Some(slide) = self.tag_animations.remove(output) else {
            return;
        };
        proof {
            let i = crate::table::index_of_key(old(self)@.slides, output);
            assert(crate::table::files_at(old(self)@.slides, output, i));
            assert(sound_slide(old(self)@.slides[i].1));
            assert forall|j: int| 0 <= j < self@.slides.len() implies {
                &&& self@.outputs.has((#[trigger] self@.slides[j]).0)
                &&& sound_slide(self@.slides[j].1)
            } by {
                if j < i {
                    assert(self@.slides[j] == old(self)@.slides[j]);
                } else {
                    assert(self@.slides[j] == old(self)@.slides[j + 1]);
                }
            }
        }
        let arrived = slide.is_headed();
        self.finalize_tag_animation(output, &slide, arrived);
    }

    /// Makes the end of a tag switch stick: the new tag if it has arrived, or
    /// else the old one.
    fn finalize_tag_animation(
        &mut self,
        output: OutputId,
        slide: &TagSlideAnimation,
        arrived: bool,
    )
        requires
            old(self)@.wf(),
        ensures
            final(self)@ == old(self)@.slide_finalized(output, slide@, arrived),
            final(self)@.wf(),
            kept(old(self)@, final(self)@),
    {
        proof {
            lemma_slide_finalized_wf(self@, output, slide@, arrived);
        }
        if arrived {
            self.unmap_all(&slide.outgoing);
            self.map_all(&slide.incoming);
        } else {
            proof {
                lemma_mapped_all(self@, slide.incoming@);
                lemma_mapped_all(self@.unmapped_all(slide.incoming@), slide.outgoing@);
                lemma_turned_wf(self@.outputs, output, slide.old_tag);
            }
            self.unmap_all(&slide.incoming);
            self.map_all(&slide.outgoing);
            proof {
                lemma_outputs_wf(self@, self@.outputs.turned(output, slide.old_tag));
            }
            self.outputs.turn(output, slide.old_tag);
            self.apply_tag_focus(LayoutScope { output, tag: slide.old_tag });
            self.broadcast_workspace_state();
        }
    }

    /// Where the windows of both tags of a switch are drawn.
    fn slide_places(slide: &TagSlideAnimation) -> (places: Vec<(SurfaceId, Point)>)
        requires
            sound_slide(slide@),
        ensures
            places@ == World::slide_places(slide@),
    {
        let mut places: Vec<(SurfaceId, Point)> = Vec::new();
        let n = slide.outgoing.len();
        let mut i: usize = 0;
        while i < n
            invariant
                i <= n,
                n == slide.outgoing@.len(),
                sound_slide(slide@),
                places@.len() == i,
                forall|j: int|
                    0 <= j < i ==> places@[j] == (
                        slide.outgoing@[j].0,
                        slide@.outgoing_at(slide.outgoing@[j].1),
                    ),
            decreases n - i,
        {
            let (surface, base) = slide.outgoing[i];
            places.push((surface, slide.place_outgoing(base)));
            i += 1;
        }
        let m = slide.incoming.len();
        i = 0;
        while i < m
            invariant
                i <= m,
                n == slide.outgoing@.len(),
                m == slide.incoming@.len(),
                places@.len() == n + i,
                forall|j: int|
                    0 <= j < n ==> places@[j] == (
                        slide.outgoing@[j].0,
                        slide@.outgoing_at(slide.outgoing@[j].1),
                    ),
                forall|j: int|
                    0 <= j < i ==> places@[n + j] == (
                        slide.incoming@[j].0,
                        slide@.incoming_at(slide.incoming@[j].1),
                    ),
            decreases m - i,
        {
            let (surface, rest) = slide.incoming[i];
            places.push((surface, slide.place_incoming(rest)));
            i += 1;
        }
        assert(places@ =~= World::slide_places(slide@)) by {
            assert forall|j: int| 0 <= j < places@.len() implies places@[j]
                == World::slide_places(slide@)[j] by {
                if j >= n {
                    assert(places@[n + (j - n)] == places@[j]);
                }
            }
        }
        places
    }

    /// Carries every tag switch on by a frame.
    pub fn advance_tag_animations(&mut self)
        requires
            old(self)@.wf(),
        ensures
            final(self)@ == old(self)@.slides_advanced(),
            final(self)@.wf(),
            kept(old(self)@, final(self)@),
    {
        proof {
            lemma_slides_advanced_wf(self@);
        }
        let mut slides = self.tag_animations.drain();
        let ghost all = old(self)@.slides;
        let ghost empty = self@;
        let ghost mut done: int = 0;
        assert(all.take(0) =~= Seq::<(OutputId, Slide)>::empty());
        assert(slides@.map_values(|e: (OutputId, TagSlideAnimation)| (e.0, e.1@)) =~= all.skip(0));
        while slides.len() > 0
            invariant
                0 <= done <= all.len(),
                empty.wf(),
                self@.wf(),
                self@.outputs.infos.len() == empty.outputs.infos.len(),
                sound_slides(all, empty.outputs),
                slides@.map_values(|e: (OutputId, TagSlideAnimation)| (e.0, e.1@)) == all.skip(
                    done,
                ),
                self@ == empty.slides_advanced_all(all.take(done)),
            decreases slides.len(),
        {
            let ghost before = slides@;
            let ghost view = |e: (OutputId, TagSlideAnimation)| (e.0, e.1@);
            assert(before.map_values(view).len() == all.skip(done).len());
            assert(before.map_values(view)[0] == all.skip(done)[0]);
            assert(all[done] == (before[0].0, before[0].1@));
            let (output, slide) = slides.remove(0);
            proof {
                assert(empty.outputs.has(all[done].0) && sound_slide(all[done].1));
                lemma_slide_advanced_wf(self@, output, slide@);
                assert(all.take(done + 1).drop_last() =~= all.take(done));
                assert(slides@.map_values(view) =~= all.skip(done + 1)) by {
                    assert forall|j: int| 0 <= j < slides@.len() implies slides@.map_values(view)[j]
                        == all.skip(done + 1)[j] by {
                        assert(slides@[j] == before[j + 1]);
                        assert(before.map_values(view)[j + 1] == all.skip(done)[j + 1]);
                    }
                }
            }
            if slide.is_finished(self.now) {
                let arrived = slide.completed();
                self.finalize_tag_animation(output, &slide, arrived);
            } else {
                let places = Alice::slide_places(&slide);
                self.map_all(&places);
                self.tag_animations.insert(output, slide);
            }
            proof {
                done = done + 1;
            }
        }
        assert(all.take(done) =~= all);
    }

    /// Carries every box on by a frame of output `id`: those whose time has
    /// passed, or whose window is among the `dead`, arrive. Returns the boxes
    /// that the frame draws.
    pub fn advance_window_morphs(&mut self, id: OutputId, dead: &Vec<SurfaceId>) -> (drawn: Vec<
        WindowMorph,
    >)
        requires
            old(self)@.wf(),
        ensures
            final(self)@ == old(self)@.morphs_advanced(id, dead@),
            final(self)@.wf(),
            drawn@ == old(self)@.boxes_drawn(id, dead@).map_values(
                |entry: (SurfaceId, WindowMorph)| entry.1,
            ),
    {
        let mut morphs = self.window_morphs.drain();
        let mut drawn: Vec<WindowMorph> = Vec::new();
        let ghost all = old(self)@.morphs;
        let ghost empty = self@;
        let ghost shows = |entry: (SurfaceId, WindowMorph)| old(self)@.draws(id, dead@, entry.1);
        let ghost only = |entry: (SurfaceId, WindowMorph)| entry.1;
        let ghost mut done: int = 0;
        proof {
            reveal(Seq::filter);
            assert(all.take(0) =~= Seq::<(SurfaceId, WindowMorph)>::empty());
            assert(drawn@ =~= all.take(0).filter(shows).map_values(only));
            assert(morphs@.map_values(|e: (SurfaceId, WindowMorph)| (e.0, e.1@)) =~= morphs@);
            assert(morphs@ =~= all.skip(0));
            lemma_morphs_advanced_all(empty, id, dead@, all);
        }
        while morphs.len() > 0
            invariant
                0 <= done <= all.len(),
                empty == (World { morphs: Seq::empty(), ..old(self)@ }),
                shows == (|entry: (SurfaceId, WindowMorph)|
                    old(self)@.draws(id, dead@, entry.1)),
                only == (|entry: (SurfaceId, WindowMorph)| entry.1),
                morphs@ == all.skip(done),
                self@ == empty.morphs_advanced_all(id, dead@, all.take(done)),
                drawn@ == all.take(done).filter(shows).map_values(only),
            decreases morphs.len(),
        {
            let ghost before = morphs@;
            assert(before[0] == all[done]);
            let (key, morph) = morphs.remove(0);
            proof {
                reveal(Seq::filter);
                assert(all.take(done + 1).drop_last() =~= all.take(done));
                assert(morphs@ =~= all.skip(done + 1));
                lemma_morphs_advanced_all(empty, id, dead@, all.take(done));
            }
            let ghost known = all.take(done).filter(shows);
            if morph.output != id {
                self.window_morphs.insert(key, morph);
                assert(all.take(done + 1).filter(shows) =~= known);
            } else if is_among(dead, morph.window.surface) || morph.is_finished(self.now) {
                self.apply_morph_finish(morph.window.surface, morph.to, morph.on_finish);
                assert(all.take(done + 1).filter(shows) =~= known);
            } else {
                drawn.push(morph);
                self.window_morphs.insert(key, morph);
                assert(all.take(done + 1).filter(shows) =~= known.push((key, morph)));
            }
            proof {
                done = done + 1;
                assert(drawn@ =~= all.take(done).filter(shows).map_values(only));
            }
        }
        assert(all.take(done) =~= all);
        drawn
    }

    /// Moves the focused window to `tag` of its output and follows it there.
    /// The others slide; the window itself is carried over.
    pub fn move_to_tag(&mut self, tag: TagId, direction: i32) -> (done: Option<()>)
        requires
            old(self)@.wf(),
            direction == 1 || direction == -1,
        ensures
            final(self)@ == old(self)@.moved_to_tag(tag, direction),
            final(self)@.wf(),
            final(self)@.outputs.infos.len() == old(self)@.outputs.infos.len(),
            done is Some <==> (match old(self)@.windows.focused_info() {
                Some(info) => info.tag == tag || old(self)@.outputs.has(
                    old(self)@.outputs.focused,
                ),
                None => false,
            }),
    {
        proof {
            lemma_moved_to_tag_wf(self@, tag, direction);
        }
        let info = match self.window_registry.get_focused() {
            Some(info) => *info,
            None => return None,
        };
        if info.tag == tag {
            return Some(());
        }
        proof {
            lemma_focused_found(self@);
        }
        let home = info.scope();
        let Some(id) = self.window_registry.find(info.window) else {
            return None;
        };
        if let Some(stack) = self.window_registry.get_stack_mut(&home) {
            stack.remove_window(id);
        } else {
            return None;
        }
        let scope = LayoutScope { output: info.output, tag };
        self.window_registry.stack_entry(scope, id);
        if let Some(kept) = self.window_registry.get_mut(&id) {
            kept.tag = tag;
        }
        proof {
            assert(self@.windows =~= relocated(old(self)@.windows, id, scope));
            lemma_relocated_sound(old(self)@, id, scope);
        }
        if self.slide_tag_impl(tag, direction, Some(id)).is_none() {
            return None;
        }
        let new_rect = match self.window_registry.get(&id) {
            Some(moved) => match moved.last_configured {
                Some((rect, _)) => Some(rect),
                None => None,
            },
            None => None,
        };
        if let Some((old_rect, _)) = info.last_configured {
            if let Some(new_rect) = new_rect {
                self.start_window_morph(info.window, info.output, old_rect, new_rect);
            }
        }
        Some(())
    }

    /// Steps to the tag after the one shown, unless that is the last.
    pub fn focus_next_tag(&mut self) -> (done: Option<()>)
        requires
            old(self)@.wf(),
            old(self)@.can_step(),
        ensures
            final(self)@ == old(self)@.next_tag_focused(),
            final(self)@.wf(),
            kept(old(self)@, final(self)@),
            done is Some <==> old(self)@.outputs.current_tag() is Some,
    {
        let Some(tag) = self.outputs.current_focused_tag() else {
            return None;
        };
        if tag.0 != LAST_TAG {
            self.slide_tag(TagId(tag.0 + 1), 1);
        }
        Some(())
    }

    /// Steps to the tag before the one shown, unless that is the first.
    pub fn focus_prevous_tag(&mut self) -> (done: Option<()>)
        requires
            old(self)@.wf(),
        ensures
            final(self)@ == old(self)@.previous_tag_focused(),
            final(self)@.wf(),
            kept(old(self)@, final(self)@),
            done is Some <==> old(self)@.outputs.current_tag() is Some,
    {
        let Some(tag) = self.outputs.current_focused_tag() else {
            return None;
        };
        let new_tag = tag.0.saturating_sub(1);
        if tag.0 != new_tag {
            self.slide_tag(TagId(new_tag), -1);
        }
        Some(())
    }

    /// Moves the focused window to the tag after the one shown, unless that
    /// is the last.
    pub fn move_next_tag(&mut self) -> (done: Option<()>)
        requires
            old(self)@.wf(),
            old(self)@.can_step(),
        ensures
            final(self)@ == old(self)@.moved_to_next_tag(),
            final(self)@.wf(),
            final(self)@.outputs.infos.len() == old(self)@.outputs.infos.len(),
            done is Some <==> old(self)@.outputs.current_tag() is Some,
    {
        let Some(tag) = self.outputs.current_focused_tag() else {
            return None;
        };
        if tag.0 != LAST_TAG {
            self.move_to_tag(TagId(tag.0 + 1), 1);
        }
        Some(())
    }

    /// Moves the focused window to the tag before the one shown, unless that
    /// is the first.
    pub fn move_prevous_tag(&mut self) -> (done: Option<()>)
        requires
            old(self)@.wf(),
        ensures
            final(self)@ == old(self)@.moved_to_previous_tag(),
            final(self)@.wf(),
            final(self)@.outputs.infos.len() == old(self)@.outputs.infos.len(),
            done is Some <==> old(self)@.outputs.current_tag() is Some,
    {
        let Some(tag) = self.outputs.current_focused_tag() else {
            return None;
        };
        let new_tag = tag.0.saturating_sub(1);
        if tag.0 != new_tag {
            self.move_to_tag(TagId(new_tag), -1);
        }
        Some(())
    }

    /// Whether the tag that the focused output shows has one after it.
    pub fn can_step(&self) -> (r: bool)
        ensures
            r == self@.can_step(),
    {
        match self.outputs.current_focused_tag() {
            Some(tag) => tag.0 < u32::MAX,
            None => true,
        }
    }

    /// Gives the tag that the focused output shows the layout called `name`.
    pub fn change_layout(&mut self, name: &str) -> (done: Option<()>)
        requires
            old(self)@.wf(),
            old(self)@.outputs.has(old(self)@.outputs.focused),
            layout_named(name@) is Some,
        ensures
            final(self)@ == old(self)@.layout_changed(name@),
            final(self)@.wf(),
            done is Some,
    {
        let output = self.outputs.get_focused().id;
        let Some(tag) = self.outputs.get_focused_tag(output) else {
            return None;
        };
        self.layout_registry.set_active(LayoutScope { output, tag }, name);
        Some(())
    }

    /// The window of `surface`, if it is on the plane.
    pub fn get_window(&self, surface: SurfaceId) -> (r: Option<(WindowId, Window)>)
        requires
            self@.wf(),
        ensures
            r == match self@.windows.found(surface) {
                Some(id) => if has_key(self@.elements, surface) {
                    Some((id, self@.windows.infos[id].window))
                } else {
                    None
                },
                None => None,
            },
    {
        if !self.space.elements.contains(surface) {
            return None;
        }
        let Some(id) = self.window_registry.find(Window { surface, width: 0, height: 0 }) else {
            return None;
        };
        proof {
            lemma_found_is_indexed(self@.windows, surface);
        }
        match self.window_registry.get(&id) {
            Some(info) => Some((id, info.window)),
            None => None,
        }
    }

    /// Starts the reverse of the motion with which a window opens: it
    /// shrinks, and is then gone for good.
    fn start_window_close_morph(&mut self, window: Window, output: OutputId, from: Rect)
        requires
            within(from@, TILE_LIMIT as int),
        ensures
            final(self)@ == old(self)@.morphed(
                window,
                output,
                from,
                shrunk(from@).rect(),
                MorphFinish::Unmap,
            ),
    {
        let to = shrink_target(from);
        assert(to == shrunk(from@).rect());
        self.start_window_morph_impl(window, output, from, to, MorphFinish::Unmap);
    }

    /// Removes the window of `surface`, and returns the scope that it was
    /// in.
    pub fn remove_window(&mut self, surface: SurfaceId) -> (scope: Option<LayoutScope>)
        requires
            old(self)@.wf(),
        ensures
            final(self)@ == old(self)@.window_removed(surface),
            final(self)@.wf(),
            final(self)@.outputs == old(self)@.outputs,
            scope == match old(self)@.windows.indexed(surface) {
                Some(id) => Some(old(self)@.windows.infos[id].home()),
                None => None,
            },
            scope matches Some(scope) ==> final(self)@.outputs.has(scope.output),
    {
        proof {
            lemma_window_removed_wf(self@, surface);
        }
        let Some(id) = self.window_registry.find_by_surface(&surface) else {
            return None;
        };
        let info = match self.window_registry.get(&id) {
            Some(info) => *info,
            None => return None,
        };
        proof {
            lemma_removed_sound(self@, id);
        }
        let scope = info.scope();
        let was_focused = self.window_registry.focused_window() == Some(id);
        self.window_registry.remove(id);
        match info.last_configured {
            Some((rect, _)) => {
                self.start_window_close_morph(info.window, info.output, rect);
            },
            None => {
                self.unmap_elem(info.window.surface);
            },
        }
        proof {
            lemma_broadcast(self@);
        }
        self.broadcast_workspace_state();
        if !was_focused {
            return Some(scope);
        }
        match self.focus_of_scope(&scope) {
            Some((next, next_info)) => {
                self.change_focus(next, next_info.window.surface);
            },
            None => {
                self.emit(Effect::Focus(None));
            },
        }
        Some(scope)
    }
}

/// Whether `surface` is among `surfaces`.
pub fn is_among(surfaces: &Vec<SurfaceId>, surface: SurfaceId) -> (r: bool)
    ensures
        r == surfaces@.contains(surface),
{
    let mut i: usize = 0;
    while i < surfaces.len()
        invariant
            i <= surfaces.len(),
            forall|j: int| 0 <= j < i ==> surfaces@[j] != surface,
        decreases surfaces.len() - i,
    {
        if surfaces[i] == surface {
            return true;
        }
        i += 1;
    }
    false
}

} // verus!
