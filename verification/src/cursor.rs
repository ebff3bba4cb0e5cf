//! The pointer's image: a small arrow, or what a client has set instead.
use vstd::prelude::*;

use crate::window::SurfaceId;

verus! {

/// How many pixels the arrow's image has each way.
pub const CURSOR_SIZE: usize = 24;

/// How many pixels it has in all.
pub const CURSOR_PIXELS: usize = 576;

/// What the pointer is to look like.
#[derive(Debug, Clone, Copy, PartialEq, Eq)]
pub enum CursorImageStatus {
    /// Nothing is shown.
    Hidden,
    /// The arrow is shown, whatever the name.
    Named,
    /// A client's surface is shown; its hotspot sits on the pointer.
    Surface { surface: SurfaceId, hotspot: (i32, i32) },
}

/// The point of the pointer's image that sits on the pointer's location.
pub fn cursor_hotspot(status: &CursorImageStatus) -> (hotspot: (i32, i32))
    ensures
        hotspot == match *status {
            CursorImageStatus::Surface { hotspot, .. } => hotspot,
            _ => (0i32, 0i32),
        },
{
    match status {
        CursorImageStatus::Surface { hotspot, .. } => *hotspot,
        _ => (0, 0),
    }
}

/// Goes back to the arrow if the surface that is shown is gone.
pub fn reset_cursor_if_dead(status: &mut CursorImageStatus, alive: bool)
    ensures
        *final(status) == if *old(status) is Surface && !alive {
            CursorImageStatus::Named
        } else {
            *old(status)
        },
{
    if let CursorImageStatus::Surface { .. } = status {
        if !alive {
            *status = CursorImageStatus::Named;
        }
    }
}

/// What is drawn for the pointer.
#[derive(Debug, Clone, Copy, PartialEq, Eq, Structural)]
pub enum PointerRenderElement {
    /// A client's surface and all below it.
    Surface(SurfaceId),
    /// The arrow.
    Memory,
}

/// The pointer's image: the arrow, drawn once, and what is shown now.
pub struct PointerElement {
    /// The arrow's pixels, four bytes each: blue, green, red and alpha.
    pub buffer: Vec<u8>,
    pub status: CursorImageStatus,
}

/// A byte of the arrow: `fill` pixels are black, those that are only in the
/// `outline` white, and the others transparent.
pub open spec fn arrow_byte(fill: bool, outline: bool, channel: int) -> u8 {
    if fill {
        if channel == 3 {
            255
        } else {
            0
        }
    } else if outline {
        255
    } else {
        0
    }
}

/// `image` is the arrow with that fill and that outline.
pub open spec fn is_arrow(image: Seq<u8>, fill: Seq<bool>, outline: Seq<bool>) -> bool {
    &&& image.len() == CURSOR_PIXELS * 4
    &&& forall|i: int|
        0 <= i < image.len() ==> #[trigger] image[i] == arrow_byte(
            fill[i / 4],
            outline[i / 4],
            i % 4,
        )
}

/// Draws the arrow: black where it is filled, white where it only has its
/// outline, row by row.
pub fn draw_default_cursor(fill: &Vec<bool>, outline: &Vec<bool>) -> (image: Vec<u8>)
    requires
        fill@.len() == CURSOR_PIXELS,
        outline@.len() == CURSOR_PIXELS,
    ensures
        is_arrow(image@, fill@, outline@),
{
    let mut image: Vec<u8> = Vec::new();
    let mut i: usize = 0;
    while i < CURSOR_PIXELS
        invariant
            i <= CURSOR_PIXELS,
            fill@.len() == CURSOR_PIXELS,
            outline@.len() == CURSOR_PIXELS,
            image@.len() == i * 4,
            forall|k: int|
                0 <= k < image@.len() ==> #[trigger] image@[k] == arrow_byte(
                    fill@[k / 4],
                    outline@[k / 4],
                    k % 4,
                ),
        decreases CURSOR_PIXELS - i,
    {
        let shade: u8 = if fill[i] {
            0
        } else if outline[i] {
            255
        } else {
            0
        };
        let alpha: u8 = if fill[i] || outline[i] {
            255
        } else {
            0
        };
        image.push(shade);
        image.push(shade);
        image.push(shade);
        image.push(alpha);
        i += 1;
    }
    image
}

impl PointerElement {
    /// The arrow with that fill and that outline, shown.
    pub fn new(fill: &Vec<bool>, outline: &Vec<bool>) -> (element: Self)
        requires
            fill@.len() == CURSOR_PIXELS,
            outline@.len() == CURSOR_PIXELS,
        ensures
            is_arrow(element.buffer@, fill@, outline@),
            element.status == CursorImageStatus::Named,
    {
        PointerElement {
            buffer: draw_default_cursor(fill, outline),
            status: CursorImageStatus::Named,
        }
    }

    pub fn set_status(&mut self, status: CursorImageStatus)
        ensures
            *final(self) == (PointerElement { status, ..*old(self) }),
    {
        self.status = status;
    }

    /// What is drawn for the pointer now.
    pub fn render_elements(&self) -> (elements: Vec<PointerRenderElement>)
        ensures
            elements@ == match self.status {
                CursorImageStatus::Hidden => seq![],
                CursorImageStatus::Named => seq![PointerRenderElement::Memory],
                CursorImageStatus::Surface { surface, .. } => seq![
                    PointerRenderElement::Surface(surface),
                ],
            },
    {
        let mut elements: Vec<PointerRenderElement> = Vec::new();
        match self.status {
            CursorImageStatus::Hidden => {},
            CursorImageStatus::Named => {
                elements.push(PointerRenderElement::Memory);
            },
            CursorImageStatus::Surface { surface, .. } => {
                elements.push(PointerRenderElement::Surface(surface));
            },
        }
        assert(elements@ =~= match self.status {
            CursorImageStatus::Hidden => seq![],
            CursorImageStatus::Named => seq![PointerRenderElement::Memory],
            CursorImageStatus::Surface { surface, .. } => seq![
                PointerRenderElement::Surface(surface),
            ],
        });
        elements
    }
}

/// Pixel by pixel the arrow is black where it is filled, white where it only
/// has its outline, and transparent elsewhere.
pub proof fn lemma_arrow(image: Seq<u8>, fill: Seq<bool>, outline: Seq<bool>, row: int, column: int)
    requires
        is_arrow(image, fill, outline),
        0 <= row < 24,
        0 <= column < 24,
    ensures
        ({
            let p = 24 * row + column;
            let pixel = (image[4 * p], image[4 * p + 1], image[4 * p + 2], image[4 * p + 3]);
            &&& image.len() == 4 * 24 * 24
            &&& fill[p] ==> pixel == (0u8, 0u8, 0u8, 255u8)
            &&& !fill[p] && outline[p] ==> pixel == (255u8, 255u8, 255u8, 255u8)
            &&& !fill[p] && !outline[p] ==> pixel == (0u8, 0u8, 0u8, 0u8)
        }),
{
    let p = 24 * row + column;
    assert(image[4 * p] == arrow_byte(fill[(4 * p) / 4], outline[(4 * p) / 4], (4 * p) % 4));
    assert(image[4 * p + 1] == arrow_byte(
        fill[(4 * p + 1) / 4],
        outline[(4 * p + 1) / 4],
        (4 * p + 1) % 4,
    ));
    assert(image[4 * p + 2] == arrow_byte(
        fill[(4 * p + 2) / 4],
        outline[(4 * p + 2) / 4],
        (4 * p + 2) % 4,
    ));
    assert(image[4 * p + 3] == arrow_byte(
        fill[(4 * p + 3) / 4],
        outline[(4 * p + 3) / 4],
        (4 * p + 3) % 4,
    ));
}

} // verus!
