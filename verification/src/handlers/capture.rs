//! Screenshots: which part of an output is captured, and how its pixels get
//! into a client's buffer.
use vstd::prelude::*;

use crate::layout::{in_i32, Rect, Tile};
use crate::output::OutputId;

verus! {

/// The highest version of the protocol that is spoken.
pub const SCREENCOPY_VERSION: u32 = 3;

/// The version from which on the end of the buffer events is announced.
pub const BUFFER_DONE_SINCE: u32 = 2;

/// How many bytes a pixel takes.
pub const PIXEL: usize = 4;

/// What is kept about a frame that a client wants.
#[derive(Debug, Clone, Copy, PartialEq, Eq, Structural)]
pub struct FrameData {
    pub output: OutputId,
    pub overlay_cursor: bool,
    /// The part of the output that is wanted, in its pixels; all of it if
    /// there is none.
    pub region: Option<Rect>,
    /// Whether the frame was copied, or must never be.
    pub copied: bool,
}

/// What a client hears about a frame.
#[derive(Debug, Clone, Copy, PartialEq, Eq, Structural)]
pub enum FrameEvent {
    /// The buffer that it has to provide.
    Buffer { width: u32, height: u32, stride: u32 },
    /// That it knows all of the buffers that would do.
    BufferDone,
    /// That nothing has to be done about the picture.
    Flags,
    /// That the picture is there, and since when.
    Ready { high: u32, low: u32, nanoseconds: u32 },
    /// That there will be no picture.
    Failed,
}

/// `b` shares more than an edge with `a`.
pub open spec fn meets(a: Tile, b: Tile) -> bool {
    &&& a.x < b.x + b.width
    &&& b.x < a.x + a.width
    &&& a.y < b.y + b.height
    &&& b.y < a.y + a.height
}

pub open spec fn greater(a: int, b: int) -> int {
    if a >= b {
        a
    } else {
        b
    }
}

pub open spec fn lesser(a: int, b: int) -> int {
    if a <= b {
        a
    } else {
        b
    }
}

/// What two boxes share.
pub open spec fn common(a: Tile, b: Tile) -> Tile {
    let x = greater(a.x, b.x);
    let y = greater(a.y, b.y);
    Tile {
        x,
        y,
        width: lesser(a.x + a.width, b.x + b.width) - x,
        height: lesser(a.y + a.height, b.y + b.height) - y,
    }
}

/// The box of an output in its own pixels.
pub open spec fn whole(width: int, height: int) -> Tile {
    Tile { x: 0, y: 0, width, height }
}

/// The part of what was requested that is on the output.
pub open spec fn on_output(requested: Tile, width: int, height: int) -> Option<Tile> {
    let part = common(requested, whole(width, height));
    if meets(requested, whole(width, height)) && part.width > 0 && part.height > 0 {
        Some(part)
    } else {
        None
    }
}

/// What is captured lies on the output and within what was requested, and
/// every pixel of both is captured.
pub proof fn lemma_on_output(requested: Tile, width: int, height: int, x: int, y: int)
    requires
        0 <= requested.width,
        0 <= requested.height,
        0 <= width,
        0 <= height,
    ensures
        on_output(requested, width, height) matches Some(part) ==> {
            &&& 0 <= part.x
            &&& 0 <= part.y
            &&& 0 < part.width
            &&& 0 < part.height
            &&& part.x + part.width <= width
            &&& part.y + part.height <= height
            &&& requested.x <= part.x
            &&& part.x + part.width <= requested.x + requested.width
            &&& requested.y <= part.y
            &&& part.y + part.height <= requested.y + requested.height
        },
        ({
            let wanted = requested.x <= x < requested.x + requested.width && requested.y <= y
                < requested.y + requested.height && 0 <= x < width && 0 <= y < height;
            match on_output(requested, width, height) {
                Some(part) => wanted <==> part.x <= x < part.x + part.width && part.y <= y < part.y
                    + part.height,
                None => !wanted,
            }
        }),
{
}

/// The box that a client has asked for; a negative size counts as none.
pub fn requested_box(x: i32, y: i32, width: i32, height: i32) -> (r: Rect)
    ensures
        r@ == (Tile {
            x: x as int,
            y: y as int,
            width: greater(width as int, 0),
            height: greater(height as int, 0),
        }),
{
    Rect {
        x,
        y,
        width: if width >= 0 {
            width
        } else {
            0
        },
        height: if height >= 0 {
            height
        } else {
            0
        },
    }
}

/// The part of a requested box, in pixels, that is on an output.
pub fn clamp_region(requested: Rect, width: i32, height: i32) -> (region: Option<Rect>)
    requires
        in_i32(requested.x + requested.width),
        in_i32(requested.y + requested.height),
        0 <= requested.width,
        0 <= requested.height,
        0 <= width,
        0 <= height,
    ensures
        match (region, on_output(requested@, width as int, height as int)) {
            (Some(region), Some(part)) => region@ == part,
            (None, None) => true,
            _ => false,
        },
{
    let right = requested.x + requested.width;
    let bottom = requested.y + requested.height;
    if !(requested.x < width && 0 < right && requested.y < height && 0 < bottom) {
        return None;
    }
    let x = if requested.x >= 0 {
        requested.x
    } else {
        0
    };
    let y = if requested.y >= 0 {
        requested.y
    } else {
        0
    };
    let part = Rect {
        x,
        y,
        width: (if right <= width {
            right
        } else {
            width
        }) - x,
        height: (if bottom <= height {
            bottom
        } else {
            height
        }) - y,
    };
    if part.width > 0 && part.height > 0 {
        Some(part)
    } else {
        None
    }
}

/// What a client hears about a frame of `width` by `height` pixels.
pub open spec fn offer(width: int, height: int, version: u32) -> Seq<FrameEvent> {
    let buffer = FrameEvent::Buffer {
        width: width as u32,
        height: height as u32,
        stride: (width * PIXEL) as u32,
    };
    if version >= BUFFER_DONE_SINCE {
        seq![buffer, FrameEvent::BufferDone]
    } else {
        seq![buffer]
    }
}

fn offer_buffer(width: i32, height: i32, version: u32) -> (events: Vec<FrameEvent>)
    requires
        0 <= width,
        0 <= height,
        width * PIXEL <= u32::MAX,
    ensures
        events@ == offer(width as int, height as int, version),
{
    let mut events: Vec<FrameEvent> = Vec::new();
    events.push(
        FrameEvent::Buffer {
            width: width as u32,
            height: height as u32,
            stride: width as u32 * PIXEL as u32,
        },
    );
    if version >= BUFFER_DONE_SINCE {
        events.push(FrameEvent::BufferDone);
    }
    assert(events@ =~= offer(width as int, height as int, version));
    events
}

/// Takes in a request for a picture of a whole output.
pub fn capture_output(
    output: OutputId,
    overlay_cursor: bool,
    width: i32,
    height: i32,
    version: u32,
) -> (r: (FrameData, Vec<FrameEvent>))
    requires
        0 <= width,
        0 <= height,
        width * PIXEL <= u32::MAX,
    ensures
        r.0 == (FrameData { output, overlay_cursor, region: None, copied: false }),
        r.1@ == offer(width as int, height as int, version),
{
    (
        FrameData { output, overlay_cursor, region: None, copied: false },
        offer_buffer(width, height, version),
    )
}

/// Takes in a request for a picture of a part of an output, given in its
/// pixels. If nothing of it is on the output the frame fails at once, and is
/// never copied.
pub fn capture_output_region(
    output: OutputId,
    overlay_cursor: bool,
    requested: Rect,
    width: i32,
    height: i32,
    version: u32,
) -> (r: (FrameData, Vec<FrameEvent>))
    requires
        in_i32(requested.x + requested.width),
        in_i32(requested.y + requested.height),
        0 <= requested.width,
        0 <= requested.height,
        0 <= width,
        0 <= height,
        width * PIXEL <= u32::MAX,
    ensures
        match on_output(requested@, width as int, height as int) {
            Some(part) => {
                &&& r.0 == (FrameData {
                    output,
                    overlay_cursor,
                    region: Some(part.rect()),
                    copied: false,
                })
                &&& r.1@ == offer(part.width, part.height, version)
            },
            None => {
                &&& r.0 == (FrameData {
                    output,
                    overlay_cursor: false,
                    region: None,
                    copied: true,
                })
                &&& r.1@ == seq![FrameEvent::Failed]
            },
        },
{
    match clamp_region(requested, width, height) {
        Some(region) => {
            proof {
                lemma_on_output(requested@, width as int, height as int, 0, 0);
            }
            assert(region == region@.rect());
            assert(region.width * PIXEL <= width * PIXEL) by (nonlinear_arith)
                requires
                    region.width <= width,
            ;
            (
                FrameData { output, overlay_cursor, region: Some(region), copied: false },
                offer_buffer(region.width, region.height, version),
            )
        },
        None => {
            let mut events: Vec<FrameEvent> = Vec::new();
            events.push(FrameEvent::Failed);
            assert(events@ =~= seq![FrameEvent::Failed]);
            (FrameData { output, overlay_cursor: false, region: None, copied: true }, events)
        },
    }
}

impl FrameData {
    /// Takes in the request to copy the frame. Only the first one counts, and
    /// none does for a frame that has failed.
    pub fn begin_copy(&mut self) -> (go: bool)
        ensures
            go == !old(self).copied,
            *final(self) == (FrameData { copied: true, ..*old(self) }),
    {
        let go = !self.copied;
        self.copied = true;
        go
    }
}

/// What a client hears once its frame was copied, or could not be; the time
/// is given in seconds and nanoseconds since the epoch.
pub fn copy_events(done: bool, seconds: u64, nanoseconds: u32) -> (events: Vec<FrameEvent>)
    ensures
        events@ == if done {
            seq![
                FrameEvent::Flags,
                FrameEvent::Ready {
                    high: (seconds / 0x1_0000_0000) as u32,
                    low: (seconds % 0x1_0000_0000) as u32,
                    nanoseconds,
                },
            ]
        } else {
            seq![FrameEvent::Failed]
        },
{
    let mut events: Vec<FrameEvent> = Vec::new();
    if done {
        events.push(FrameEvent::Flags);
        events.push(
            FrameEvent::Ready {
                high: (seconds / 0x1_0000_0000) as u32,
                low: (seconds % 0x1_0000_0000) as u32,
                nanoseconds,
            },
        );
        assert(events@ =~= seq![
            FrameEvent::Flags,
            FrameEvent::Ready {
                high: (seconds / 0x1_0000_0000) as u32,
                low: (seconds % 0x1_0000_0000) as u32,
                nanoseconds,
            },
        ]);
    } else {
        events.push(FrameEvent::Failed);
        assert(events@ =~= seq![FrameEvent::Failed]);
    }
    events
}

/// The two halves of the time make up the whole of it.
pub proof fn lemma_time_halves(seconds: u64)
    ensures
        (seconds / 0x1_0000_0000) as u32 * 0x1_0000_0000 + (seconds % 0x1_0000_0000) as u32
            == seconds,
{
}

/// A client's buffer, as it describes it.
#[derive(Debug, Clone, Copy, PartialEq, Eq, Structural)]
pub struct BufferInfo {
    pub width: i32,
    pub height: i32,
    pub stride: i32,
}

/// Why a picture does not go into a buffer.
#[derive(Debug, Clone, Copy, PartialEq, Eq, Structural)]
pub enum CopyError {
    /// It is larger than the buffer says to be.
    TooLarge,
    /// The buffer is shorter than it says to be.
    TooShort,
    /// The picture, as it is now, lacks bytes of the wanted part.
    OffPicture,
}

/// What is wanted of an output of `width` by `height` pixels.
pub open spec fn wanted(region: Option<Rect>, width: int, height: int) -> Tile {
    match region {
        Some(region) => region@,
        None => whole(width, height),
    }
}

/// `part` lies on an output of `width` by `height` pixels.
pub open spec fn on_picture(part: Tile, width: int, height: int) -> bool {
    &&& 0 <= part.x
    &&& 0 <= part.y
    &&& 0 <= part.width
    &&& 0 <= part.height
    &&& part.x + part.width <= width
    &&& part.y + part.height <= height
}

/// `buffer` is not one for a picture of the size of `part`.
pub open spec fn too_large(part: Tile, buffer: BufferInfo) -> bool {
    ||| part.width < 0
    ||| part.height < 0
    ||| part.width > buffer.width
    ||| part.height > buffer.height
}

/// The rows of `part` do not fit into `room` bytes.
pub open spec fn too_short(part: Tile, buffer: BufferInfo, room: int) -> bool {
    if buffer.stride < 0 {
        part.height > 0
    } else {
        buffer.stride * part.height > room
    }
}

/// How many bytes of each row are copied.
pub open spec fn row_length(part: Tile, buffer: BufferInfo) -> int {
    lesser(part.width * PIXEL, buffer.stride as int)
}

/// Byte `k` of row `row` of `part`, of an output that is `width` pixels wide.
pub open spec fn source(part: Tile, width: int, row: int, k: int) -> int {
    (part.y + row) * (width * PIXEL) + part.x * PIXEL + k
}

/// Every byte that is copied of `part` is among the `available` bytes of a
/// picture that is `width` pixels wide. What sticks out of the picture to the
/// right goes on in its next row.
pub open spec fn readable(part: Tile, width: int, buffer: BufferInfo, available: int) -> bool {
    forall|row: int, k: int|
        0 <= row < part.height && 0 <= k < row_length(part, buffer) ==> 0 <= #[trigger] source(
            part,
            width,
            row,
            k,
        ) < available
}

/// `after` is `before` with the first `rows` rows of `part` in it, and the
/// first `n` bytes of the one after them, and otherwise as it was.
pub open spec fn filled(
    before: Seq<u8>,
    after: Seq<u8>,
    pixels: Seq<u8>,
    part: Tile,
    width: int,
    buffer: BufferInfo,
    rows: int,
    n: int,
) -> bool {
    &&& after.len() == before.len()
    &&& forall|i: int|
        0 <= i < after.len() ==> #[trigger] after[i] == byte_at(
            before,
            pixels,
            part,
            width,
            buffer,
            rows,
            n,
            i,
        )
}

/// Byte `i` of a buffer with the first rows of a picture in it.
pub open spec fn byte_at(
    before: Seq<u8>,
    pixels: Seq<u8>,
    part: Tile,
    width: int,
    buffer: BufferInfo,
    rows: int,
    n: int,
    i: int,
) -> u8 {
    if buffer.stride <= 0 {
        before[i]
    } else {
        let row = i / buffer.stride as int;
        let k = i % buffer.stride as int;
        if k < row_length(part, buffer) && (row < rows || (row == rows && k < n)) {
            pixels[source(part, width, row, k)]
        } else {
            before[i]
        }
    }
}

/// What is copied of a part that lies on the picture is in the picture.
pub proof fn lemma_on_picture(part: Tile, width: int, height: int, buffer: BufferInfo)
    requires
        on_picture(part, width, height),
    ensures
        readable(part, width, buffer, width * height * PIXEL),
{
    assert forall|row: int, k: int|
        0 <= row < part.height && 0 <= k < row_length(part, buffer) implies 0 <= #[trigger] source(
        part,
        width,
        row,
        k,
    ) < width * height * PIXEL by {
        assert(0 <= (part.y + row) * (width * PIXEL) + part.x * PIXEL + k && (part.y + row) * (width
            * PIXEL) + part.x * PIXEL + k < width * height * PIXEL) by (nonlinear_arith)
            requires
                0 <= part.x,
                0 <= part.y,
                0 <= row < part.height,
                0 <= k < part.width * PIXEL,
                part.x + part.width <= width,
                part.y + part.height <= height,
        ;
    }
}

/// A part is in the picture if its first and its last byte are.
proof fn lemma_readable(part: Tile, width: int, buffer: BufferInfo, available: int)
    requires
        0 <= width,
        0 < part.height,
        0 < row_length(part, buffer),
    ensures
        readable(part, width, buffer, available) <==> 0 <= source(part, width, 0, 0) && source(
            part,
            width,
            part.height - 1,
            row_length(part, buffer) - 1,
        ) < available,
{
    let last = part.height - 1;
    let end = row_length(part, buffer) - 1;
    assert forall|row: int, k: int| 0 <= row <= last && 0 <= k <= end implies source(
        part,
        width,
        0,
        0,
    ) <= #[trigger] source(part, width, row, k) <= source(part, width, last, end) by {
        assert((part.y + 0) * (width * PIXEL) <= (part.y + row) * (width * PIXEL) && (part.y + row)
            * (width * PIXEL) <= (part.y + last) * (width * PIXEL)) by (nonlinear_arith)
            requires
                0 <= row <= last,
                0 <= width,
        ;
    }
    assert(source(part, width, 0, 0) <= source(part, width, last, end));
}

/// Where row `row` of `part` starts in a picture that is `width` pixels wide.
fn row_start(part: Rect, width: i32, row: usize) -> (at: i128)
    requires
        0 <= width,
        row <= i32::MAX,
    ensures
        at == source(part@, width as int, row as int, 0),
        -0x10_0000_0000_0000_0000_0000 <= at <= 0x10_0000_0000_0000_0000_0000,
{
    let pixel: i128 = PIXEL as u64 as i128;
    assert(pixel == 4);
    let line: i128 = width as i128 * pixel;
    let top: i128 = part.y as i128 + row as i128;
    assert(-0x1_0000_0000_0000_0000_0000 <= top * line <= 0x1_0000_0000_0000_0000_0000)
        by (nonlinear_arith)
        requires
            -0x1_0000_0000 <= top <= 0x1_0000_0000,
            0 <= line <= 0x2_0000_0000,
    ;
    top * line + part.x as i128 * pixel
}

/// A byte of a row lies where its row starts.
proof fn lemma_target(row: int, k: int, stride: int)
    requires
        0 <= row,
        0 <= k < stride,
    ensures
        (row * stride + k) / stride == row,
        (row * stride + k) % stride == k,
{
    vstd::arithmetic::div_mod::lemma_fundamental_div_mod_converse(row * stride + k, stride, row, k);
}

/// Copies one row of a picture into a buffer.
fn copy_row(
    pixels: &[u8],
    contents: &mut [u8],
    Ghost(before): Ghost<Seq<u8>>,
    Ghost(part): Ghost<Tile>,
    Ghost(width): Ghost<int>,
    Ghost(buffer): Ghost<BufferInfo>,
    row: usize,
    from: usize,
    to: usize,
    length: usize,
)
    requires
        buffer.stride > 0,
        to == row * buffer.stride,
        from == source(part, width, row as int, 0),
        length == row_length(part, buffer),
        from + length <= pixels@.len(),
        to + buffer.stride <= old(contents)@.len(),
        filled(before, old(contents)@, pixels@, part, width, buffer, row as int, 0),
    ensures
        filled(before, final(contents)@, pixels@, part, width, buffer, row + 1, 0),
{
    let available = pixels.len();
    let room = contents.len();
    let mut k: usize = 0;
    while k < length
        invariant
            k <= length,
            available == pixels@.len(),
            room == contents@.len(),
            buffer.stride > 0,
            to == row * buffer.stride,
            from == source(part, width, row as int, 0),
            length == row_length(part, buffer),
            from + length <= pixels@.len(),
            to + buffer.stride <= contents@.len(),
            filled(before, contents@, pixels@, part, width, buffer, row as int, k as int),
        decreases length - k,
    {
        let ghost known = contents@;
        proof {
            lemma_target(row as int, k as int, buffer.stride as int);
        }
        let byte = pixels[from + k];
        contents[to + k] = byte;
        assert(source(part, width, row as int, k as int) == from + k);
        proof {
            assert forall|i: int| 0 <= i < contents@.len() implies #[trigger] contents@[i]
                == byte_at(before, pixels@, part, width, buffer, row as int, k + 1, i) by {
                vstd::arithmetic::div_mod::lemma_fundamental_div_mod(i, buffer.stride as int);
                if i == to + k {
                } else {
                    assert(contents@[i] == known[i]);
                    if i / buffer.stride as int == row && i % buffer.stride as int == k {
                        assert(i == row * buffer.stride + k) by (nonlinear_arith)
                            requires
                                i == buffer.stride as int * (i / buffer.stride as int) + (i
                                    % buffer.stride as int),
                                i / buffer.stride as int == row,
                                i % buffer.stride as int == k,
                        ;
                    }
                }
            }
        }
        k += 1;
    }
    proof {
        assert forall|i: int| 0 <= i < contents@.len() implies #[trigger] contents@[i] == byte_at(
            before,
            pixels@,
            part,
            width,
            buffer,
            row + 1,
            0,
            i,
        ) by {
            vstd::arithmetic::div_mod::lemma_fundamental_div_mod(i, buffer.stride as int);
            assert(contents@[i] == byte_at(
                before,
                pixels@,
                part,
                width,
                buffer,
                row as int,
                length as int,
                i,
            ));
            vstd::arithmetic::div_mod::lemma_mod_bound(i, buffer.stride as int);
        }
    }
}

/// A part without bytes fills nothing.
proof fn lemma_nothing_filled(
    before: Seq<u8>,
    pixels: Seq<u8>,
    part: Tile,
    width: int,
    buffer: BufferInfo,
)
    requires
        buffer.stride > 0,
        0 <= part.width,
        part.height == 0 || part.width == 0,
    ensures
        filled(before, before, pixels, part, width, buffer, part.height, 0),
{
    assert forall|i: int| 0 <= i < before.len() implies #[trigger] before[i] == byte_at(
        before,
        pixels,
        part,
        width,
        buffer,
        part.height,
        0,
        i,
    ) by {
        vstd::arithmetic::div_mod::lemma_mod_bound(i, buffer.stride as int);
        vstd::arithmetic::div_mod::lemma_div_pos_is_pos(i, buffer.stride as int);
    }
}

/// Copies what is wanted of a picture of a whole output, `width` by `height`
/// pixels, into a client's buffer. The output may have changed since the
/// region was asked for, and the buffer may be any: the buffer is held to what
/// it says of itself, and the region to the bytes of the picture, before a
/// byte is written.
pub fn copy_frame(
    pixels: &[u8],
    width: i32,
    height: i32,
    region: Option<Rect>,
    contents: &mut [u8],
    buffer: BufferInfo,
) -> (r: Result<(), CopyError>)
    requires
        0 <= width,
    ensures
        ({
            let part = wanted(region, width as int, height as int);
            let room = old(contents)@.len() as int;
            match r {
                Err(CopyError::TooLarge) => too_large(part, buffer),
                Err(CopyError::TooShort) => {
                    &&& !too_large(part, buffer)
                    &&& too_short(part, buffer, room)
                },
                Err(CopyError::OffPicture) => {
                    &&& !too_large(part, buffer)
                    &&& !too_short(part, buffer, room)
                    &&& !readable(part, width as int, buffer, pixels@.len() as int)
                },
                Ok(()) => {
                    &&& !too_large(part, buffer)
                    &&& !too_short(part, buffer, room)
                    &&& readable(part, width as int, buffer, pixels@.len() as int)
                    &&& filled(
                        old(contents)@,
                        final(contents)@,
                        pixels@,
                        part,
                        width as int,
                        buffer,
                        part.height,
                        0,
                    )
                },
            }
        }),
        r is Err ==> final(contents)@ == old(contents)@,
        width * height * PIXEL <= pixels@.len() && on_picture(
            wanted(region, width as int, height as int),
            width as int,
            height as int,
        ) ==> r != Err::<(), CopyError>(CopyError::OffPicture),
{
    let part = match region {
        Some(part) => part,
        None => Rect { x: 0, y: 0, width, height },
    };
    if part.width < 0 || part.height < 0 || part.width > buffer.width || part.height
        > buffer.height {
        return Err(CopyError::TooLarge);
    }
    let ghost before = contents@;
    if buffer.stride < 0 {
        if part.height > 0 {
            return Err(CopyError::TooShort);
        }
    } else {
        assert(0 <= buffer.stride * part.height <= 0x7FFF_FFFF * 0x7FFF_FFFF) by (nonlinear_arith)
            requires
                0 <= buffer.stride <= 0x7FFF_FFFF,
                0 <= part.height <= 0x7FFF_FFFF,
        ;
        if buffer.stride as u64 * part.height as u64 > contents.len() as u64 {
            return Err(CopyError::TooShort);
        }
    }
    let ghost all = pixels@.len() as int;
    proof {
        if on_picture(part@, width as int, height as int) {
            lemma_on_picture(part@, width as int, height as int, buffer);
        }
    }
    if part.height == 0 || part.width == 0 || buffer.stride <= 0 {
        assert(readable(part@, width as int, buffer, all));
        assert(filled(before, contents@, pixels@, part@, width as int, buffer, part@.height, 0)) by {
            if buffer.stride > 0 {
                lemma_nothing_filled(before, pixels@, part@, width as int, buffer);
            }
        }
        return Ok(());
    }
    let stride = buffer.stride as usize;
    let rows = part.height as usize;
    let available = pixels.len();
    let room = contents.len();
    let length: usize = if part.width as u64 * PIXEL as u64 <= stride as u64 {
        part.width as usize * PIXEL
    } else {
        stride
    };
    proof {
        lemma_readable(part@, width as int, buffer, all);
    }
    if row_start(part, width, 0) < 0 || row_start(part, width, rows - 1) + length as i128
        > available as i128 {
        return Err(CopyError::OffPicture);
    }
    let mut row: usize = 0;
    while row < rows
        invariant
            row <= rows,
            rows == part.height,
            stride == buffer.stride,
            stride > 0,
            0 <= width,
            available == pixels@.len(),
            room == contents@.len(),
            length == row_length(part@, buffer),
            length > 0,
            stride * rows <= contents@.len(),
            readable(part@, width as int, buffer, pixels@.len() as int),
            filled(before, contents@, pixels@, part@, width as int, buffer, row as int, 0),
        decreases rows - row,
    {
        proof {
            assert(0 <= source(part@, width as int, row as int, 0));
            assert(source(part@, width as int, row as int, length - 1) < pixels@.len());
            assert((row + 1) * stride <= stride * rows) by (nonlinear_arith)
                requires
                    row + 1 <= rows,
                    stride > 0,
            ;
            assert((row + 1) * stride == row * stride + stride) by (nonlinear_arith);
            assert(0 <= row * stride) by (nonlinear_arith);
        }
        let from = row_start(part, width, row) as usize;
        copy_row(
            pixels,
            contents,
            Ghost(before),
            Ghost(part@),
            Ghost(width as int),
            Ghost(buffer),
            row,
            from,
            row * stride,
            length,
        );
        row += 1;
    }
    Ok(())
}

/// A picture in a buffer is the wanted part of the output, row by row, and no
/// byte besides is touched.
pub proof fn lemma_picture(
    before: Seq<u8>,
    after: Seq<u8>,
    pixels: Seq<u8>,
    part: Tile,
    width: int,
    buffer: BufferInfo,
    row: int,
    k: int,
)
    requires
        filled(before, after, pixels, part, width, buffer, part.height, 0),
        0 <= row,
        0 <= k < buffer.stride,
        row * buffer.stride + k < after.len(),
    ensures
        after[row * buffer.stride + k] == if row < part.height && k < part.width * PIXEL {
            pixels[(part.y + row) * (width * PIXEL) + part.x * PIXEL + k]
        } else {
            before[row * buffer.stride + k]
        },
{
    lemma_target(row, k, buffer.stride as int);
    assert(0 <= row * buffer.stride + k) by (nonlinear_arith)
        requires
            0 <= row,
            0 <= k,
            0 <= buffer.stride,
    ;
}

/// A client is offered a buffer of the frame's own size, with four bytes to
/// the pixel and rows that follow each other without a gap; from the second
/// version on it hears that this was all.
pub proof fn lemma_offer(width: int, height: int, version: u32)
    requires
        0 <= width,
        0 <= height <= u32::MAX,
        width * 4 <= u32::MAX,
    ensures
        offer(width, height, version).len() == if version >= 2 {
            2int
        } else {
            1int
        },
        (offer(width, height, version)[0] matches FrameEvent::Buffer {
            width: w,
            height: h,
            stride,
        } && w == width && h == height && stride == 4 * width),
        version >= 2 ==> offer(width, height, version)[1] == FrameEvent::BufferDone,
{
}

/// Pixel by pixel, what is in the buffer is what is on the output at the same
/// place of the wanted part.
pub proof fn lemma_pixels(
    before: Seq<u8>,
    after: Seq<u8>,
    pixels: Seq<u8>,
    part: Tile,
    width: int,
    buffer: BufferInfo,
    x: int,
    y: int,
    channel: int,
)
    requires
        filled(before, after, pixels, part, width, buffer, part.height, 0),
        0 <= x < part.width,
        0 <= y < part.height,
        0 <= channel < 4,
        4 * x + channel < buffer.stride,
        y * buffer.stride + 4 * x + channel < after.len(),
    ensures
        after[y * buffer.stride + 4 * x + channel] == pixels[4 * ((part.y + y) * width + part.x + x)
            + channel],
{
    lemma_picture(before, after, pixels, part, width, buffer, y, 4 * x + channel);
    assert((part.y + y) * (width * 4) == 4 * ((part.y + y) * width)) by (nonlinear_arith);
}

/// A buffer that is at least as wide and as high as the wanted part, and has
/// room for all of its rows, takes it.
pub proof fn lemma_takes(part: Tile, buffer: BufferInfo, room: int)
    requires
        0 <= part.width,
        0 <= part.height,
        0 <= buffer.stride,
    ensures
        too_large(part, buffer) <==> part.width > buffer.width || part.height > buffer.height,
        too_short(part, buffer, room) <==> buffer.stride * part.height > room,
{
}

} // verus!
