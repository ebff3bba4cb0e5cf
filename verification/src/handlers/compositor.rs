//! Commits of surfaces.
use vstd::prelude::*;

use crate::effect::Effect;
use crate::layout::Rect;
use crate::layout_laws::TILE_LIMIT;
use crate::state::Alice;
use crate::window::SurfaceId;
use crate::world::{moderate, World};
use crate::world_events::Anchors;

verus! {

/// What is known about a surface that was committed.
#[derive(Debug, Clone, Copy)]
pub struct Commit {
    pub surface: SurfaceId,
    /// The surface at the top of the tree that it is part of.
    pub root: SurfaceId,
    /// Whether it waits for its parent to be committed.
    pub sync: bool,
    /// The size of the window that the root belongs to, if it does.
    pub width: i32,
    pub height: i32,
    /// Whether that window was sent its first configure.
    pub configured: bool,
    pub has_parent: bool,
    /// How the surface is anchored, if it is a layer.
    pub anchors: Anchors,
    /// What the layers of its output leave, if it is a layer.
    pub zone: Rect,
}

impl World {
    /// The commit concerns a window of the compositor's.
    pub open spec fn concerns_window(self, commit: Commit) -> bool {
        !commit.sync && self.output_of(commit.root) is Some
    }

    /// With a commit seen to: by the window that it is part of, by the layer
    /// that it is, and by the output that has something new to show.
    pub open spec fn committed(self, commit: Commit) -> World {
        let sized = if commit.sync {
            self
        } else {
            self.size_noted(commit.root, commit.width, commit.height)
        };
        let opened = if self.concerns_window(commit) && commit.root == commit.surface
            && !commit.configured {
            sized.first_committed(commit.surface, commit.has_parent)
        } else {
            sized
        };
        let layered = opened.layer_committed(commit.surface, commit.anchors, commit.zone@);
        if self.concerns_window(commit) {
            layered.emit(Effect::RenderOutput(self.output_of(commit.root)->0))
        } else {
            layered.emit(Effect::Render)
        }
    }
}

impl Alice {
    /// Sees to a commit: notes the window's size, answers its first commit,
    /// lays out for a layer, and draws the one output that is concerned, or
    /// all if none is known to be.
    pub fn commit(&mut self, commit: &Commit)
        requires
            old(self)@.wf(),
            -TILE_LIMIT <= commit.width <= TILE_LIMIT,
            -TILE_LIMIT <= commit.height <= TILE_LIMIT,
            moderate(commit.zone@),
        ensures
            final(self)@ == old(self)@.committed(*commit),
            final(self)@.wf(),
            final(self)@.outputs == old(self)@.outputs,
    {
        let mut output = None;
        if !commit.sync {
            if let Some(id) = self.window_registry.find_by_surface(&commit.root) {
                if let Some(info) = self.window_registry.get(&id) {
                    output = Some(info.output);
                }
            }
            self.note_size(commit.root, commit.width, commit.height);
        }
        if output.is_some() && commit.root == commit.surface && !commit.configured {
            self.first_commit(commit.surface, commit.has_parent);
        }
        self.layer_commit(commit.surface, commit.anchors, commit.zone);
        match output {
            Some(id) => self.emit(Effect::RenderOutput(id)),
            None => self.emit(Effect::Render),
        }
    }
}

} // verus!
