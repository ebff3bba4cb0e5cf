//! What is measured outside and handed in: the time, what easing yields, and
//! what lies where.
use vstd::prelude::*;

use crate::animation::Slide;
use crate::layout::Rect;
use crate::output::OutputId;
use crate::scalar::Scalar;
use crate::state::Alice;
use crate::table::{files_at, index_of_key, lookup};
use crate::window::SurfaceId;
use crate::world::{sound_slide, World};
use crate::world_laws::lemma_slide_filed_wf;

verus! {

broadcast use crate::table::group_keys_distinct;

impl Alice {
    /// Sets the time.
    pub fn tick(&mut self, now: u64)
        ensures
            final(self)@ == (World { now, ..old(self)@ }),
            old(self)@.wf() ==> final(self)@.wf(),
    {
        self.now = now;
    }

    /// Records what easing yields for the tag switch on `output`.
    pub fn sample_slide(&mut self, output: OutputId, eased: Scalar, offset: i32)
        requires
            old(self)@.wf(),
        ensures
            final(self)@ == old(self)@.slide_sampled(output, eased, offset),
            final(self)@.wf(),
    {
        proof {
            if lookup(self@.slides, output) is Some {
                let slide = lookup(self@.slides, output)->0;
                let i = index_of_key(self@.slides, output);
                assert(files_at(self@.slides, output, i));
                assert(self@.outputs.has(self@.slides[i].0) && sound_slide(self@.slides[i].1));
                lemma_slide_filed_wf(self@, output, Slide { eased, offset, ..slide });
            }
        }
        if let Some(slide) = self.tag_animations.get_mut(output) {
            slide.sample(eased, offset);
        }
    }

    /// Records what easing yields for the box of `surface`.
    pub fn sample_morph(&mut self, surface: SurfaceId, eased: Scalar, current: Rect)
        ensures
            final(self)@ == old(self)@.morph_sampled(surface, eased, current),
            old(self)@.wf() ==> final(self)@.wf(),
    {
        if let Some(morph) = self.window_morphs.get_mut(surface) {
            morph.sample(eased, current);
        }
    }

    /// Records which windows the centre of output `id` lies in, topmost
    /// first.
    pub fn sense_centre(&mut self, id: OutputId, surfaces: Vec<SurfaceId>)
        ensures
            final(self)@ == (World {
                hits: old(self)@.hits.insert(id, surfaces@),
                ..old(self)@
            }),
            old(self)@.wf() ==> final(self)@.wf(),
    {
        self.centre_hits.insert(id, surfaces);
    }
}

} // verus!
