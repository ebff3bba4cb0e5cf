//! What the compositor asks of the world outside.
use vstd::prelude::*;

use crate::animation::Point;
use crate::output::{LayoutScope, OutputId};
use crate::scalar::Scalar;
use crate::window::SurfaceId;

verus! {

/// A request to the window system, the clients, the seat or the display.
/// Requests are carried out in the order in which they were made.
#[derive(Debug, PartialEq, Eq)]
pub enum Effect {
    /// Put a window on the plane, above every other.
    Place { surface: SurfaceId, at: Point, activate: bool },
    /// Take a window off the plane.
    Unplace { surface: SurfaceId },
    /// Send a window a size (or none, for the client to choose) and whether
    /// it is fullscreen.
    Configure { surface: SurfaceId, size: Option<(i32, i32)>, fullscreen: bool },
    /// Send a window its pending state for the first time.
    FirstConfigure { surface: SurfaceId },
    /// Tell a window that it is on an output.
    EnterOutput { surface: SurfaceId, output: OutputId },
    /// Give the keyboard to a surface, or to none.
    Focus(Option<SurfaceId>),
    /// Remember which surface lies under a point.
    Aim(Point),
    /// Move the pointer to a point, onto the surface last remembered.
    Warp(Point),
    /// Draw every output that is not waiting for a frame.
    Render,
    /// Draw one output, unless it is waiting for a frame.
    RenderOutput(OutputId),
    /// Ask a window to close.
    Close(SurfaceId),
    /// Run a shell command.
    Spawn(String),
    /// End the compositor.
    Quit,
    /// Load the configuration anew and hand it over.
    ReloadConfig,
    /// Switch to a virtual terminal.
    ChangeVt(i32),
    /// Apply the configured keyboard layout to the seat.
    ApplyKeyboardLayout,
    /// Compute the master ratio plus an amount and hand it over.
    RaiseMasterRatio(Scalar),
    /// Compute the master ratio minus an amount and hand it over.
    LowerMasterRatio(Scalar),
    /// Tell the surfaces of a window or layer about a fractional scale.
    PreferScale { surface: SurfaceId, scale: Scalar },
    /// Confirm the session lock to the client that asked for it.
    ConfirmLock,
    /// Send a layer its size.
    ConfigureLayer { surface: SurfaceId, width: i32, height: i32 },
    /// Make a workspace group for an output known to a bar.
    AnnounceGroup { bar: u64, output: OutputId },
    /// Make a workspace known to a bar, under its number.
    AnnounceWorkspace { bar: u64, scope: LayoutScope, number: u32, active: bool, hidden: bool },
    /// Tell a bar which output a group is on, if the bar knows that output
    /// by now.
    EnterGroup { bar: u64, output: OutputId },
    /// Tell a bar the state of a workspace.
    WorkspaceState { bar: u64, scope: LayoutScope, active: bool, hidden: bool },
    /// Tell a bar that a workspace is gone.
    RemoveWorkspace { bar: u64, scope: LayoutScope },
    /// Tell a bar that a group is gone.
    RemoveGroup { bar: u64, output: OutputId },
    /// Tell a bar that a batch of changes is complete.
    WorkspaceDone { bar: u64 },
    /// Tell a bar that it will hear no more.
    FinishBar { bar: u64 },
}

} // verus!
