//! Decoded video frames and the single slot through which the decode loop
//! hands them to the display.
//!
//! The slot keeps the latest frame only. Publishing replaces a frame that was
//! not fetched yet, fetching empties the slot, and nothing is ever queued: the
//! display may redraw slower or faster than frames are decoded without either
//! side waiting for the other.

use vstd::arithmetic::div_mod::{
    lemma_fundamental_div_mod_converse_div,
    lemma_fundamental_div_mod_converse_mod,
};
use vstd::prelude::*;

verus! {

/// Bytes per RGBA pixel.
pub const BYTES_PER_PIXEL: usize = 4;

/// What a frame is: its size in pixels and its RGBA bytes, row after row
/// without padding.
pub struct FrameView {
    pub width: nat,
    pub height: nat,
    pub pixels: Seq<u8>,
}

/// One decoded picture: unpremultiplied RGBA, `width * height` pixels.
#[derive(Debug)]
pub struct DecodedFrame {
    width: usize,
    height: usize,
    pixels: Vec<u8>,
}

impl View for DecodedFrame {
    type V = FrameView;

    closed spec fn view(&self) -> FrameView {
        FrameView { width: self.width as nat, height: self.height as nat, pixels: self.pixels@ }
    }
}

/// Whether a plane of `len` bytes, whose rows start `stride` bytes apart,
/// holds `height` rows of `width` pixels. The last row needs no padding.
pub open spec fn plane_fits(width: nat, height: nat, stride: nat, len: nat) -> bool {
    &&& width * 4 <= stride
    &&& height > 0 ==> (height - 1) * stride + width * 4 <= len
}

/// The pixel bytes of a plane with the padding between rows left out.
pub open spec fn packed_pixels(width: nat, height: nat, stride: nat, plane: Seq<u8>) -> Seq<u8> {
    Seq::new(
        height * (width * 4),
        |k: int| plane[(k / (width * 4) as int) * stride + k % (width * 4) as int],
    )
}

impl DecodedFrame {
    #[verifier::type_invariant]
    spec fn well_formed(self) -> bool {
        self.pixels@.len() == self.height * (self.width * 4)
    }

    /// Takes a picture out of the plane a colour converter filled. Rows in
    /// the plane start `stride` bytes apart; the frame keeps the pixels and
    /// drops the padding. A plane too small for the claimed size gives
    /// nothing.
    pub fn from_plane(width: usize, height: usize, stride: usize, plane: &[u8]) -> (frame: Option<
        DecodedFrame,
    >)
        ensures
            frame is Some <==> plane_fits(
                width as nat,
                height as nat,
                stride as nat,
                plane@.len(),
            ),
            frame is Some ==> frame->Some_0@ == (FrameView {
                width: width as nat,
                height: height as nat,
                pixels: packed_pixels(width as nat, height as nat, stride as nat, plane@),
            }),
    {
        let available: usize = plane.len();
        let row_len: usize = match width.checked_mul(BYTES_PER_PIXEL) {
            Some(row_len) => row_len,
            None => {
                return None;
            },
        };
        if row_len > stride {
            return None;
        }
        let ghost rows = height as int;
        let ghost step = stride as int;
        if height > 0 {
            let rows_before: usize = height - 1;
            assert(rows_before * stride == (rows - 1) * step) by (nonlinear_arith)
                requires
                    rows_before == rows - 1,
                    stride == step,
            ;
            let last_row: usize = match rows_before.checked_mul(stride) {
                Some(last_row) => last_row,
                None => {
                    return None;
                },
            };
            match last_row.checked_add(row_len) {
                Some(needed) => {
                    if needed > available {
                        return None;
                    }
                },
                None => {
                    return None;
                },
            }
        }
        let mut pixels: Vec<u8> = Vec::new();
        let mut row: usize = 0;
        while row < height
            invariant
                row <= height,
                rows == height,
                step == stride,
                row_len == width * 4,
                row_len <= stride,
                available == plane@.len(),
                rows > 0 ==> (rows - 1) * step + row_len <= available,
                pixels@.len() == row * row_len,
                forall|k: int|
                    0 <= k < pixels@.len() ==> pixels@[k] == plane@[(k / row_len as int) * step + k
                        % row_len as int],
            decreases height - row,
        {
            assert(0 <= row * step <= (rows - 1) * step) by (nonlinear_arith)
                requires
                    0 <= row <= rows - 1,
                    0 <= step,
            ;
            assert(row * stride == row * step) by (nonlinear_arith)
                requires
                    stride == step,
            ;
            let start: usize = row * stride;
            let mut column: usize = 0;
            while column < row_len
                invariant
                    row < height,
                    column <= row_len,
                    step == stride,
                    start == row * step,
                    available == plane@.len(),
                    start + row_len <= available,
                    pixels@.len() == row * row_len + column,
                    forall|k: int|
                        0 <= k < pixels@.len() ==> pixels@[k] == plane@[(k / row_len as int)
                            * step + k % row_len as int],
                decreases row_len - column,
            {
                proof {
                    let k = row * row_len + column;
                    lemma_fundamental_div_mod_converse_div(
                        k,
                        row_len as int,
                        row as int,
                        column as int,
                    );
                    lemma_fundamental_div_mod_converse_mod(
                        k,
                        row_len as int,
                        row as int,
                        column as int,
                    );
                }
                pixels.push(plane[start + column]);
                column = column + 1;
            }
            assert(row * row_len + row_len == (row + 1) * row_len) by (nonlinear_arith);
            row = row + 1;
        }
        assert(pixels@.len() == height * (width * 4)) by (nonlinear_arith)
            requires
                pixels@.len() == row * row_len,
                row == height,
                row_len == width * 4,
        ;
        assert(pixels@ =~= packed_pixels(width as nat, height as nat, stride as nat, plane@));
        Some(DecodedFrame { width, height, pixels })
    }

    /// The width in pixels.
    pub fn width(&self) -> (width: usize)
        ensures
            width == self@.width,
    {
        self.width
    }

    /// The height in pixels.
    pub fn height(&self) -> (height: usize)
        ensures
            height == self@.height,
    {
        self.height
    }

    /// The RGBA bytes, four for each pixel, row after row.
    pub fn pixels(&self) -> (pixels: &Vec<u8>)
        ensures
            pixels@ == self@.pixels,
            pixels@.len() == self@.height * (self@.width * 4),
    {
        proof {
            use_type_invariant(self);
        }
        &self.pixels
    }
}

/// What a slot holds: the latest frame that nobody fetched yet, and whether
/// the display still listens.
pub struct SlotView {
    pub latest: Option<FrameView>,
    pub open: bool,
}

impl SlotView {
    /// The slot after a frame was offered to it: an open slot holds that
    /// frame and forgets any other, a closed slot takes nothing.
    pub open spec fn published(self, frame: FrameView) -> SlotView {
        if self.open {
            SlotView { latest: Some(frame), open: true }
        } else {
            self
        }
    }

    /// The slot after the display fetched from it.
    pub open spec fn fetched(self) -> SlotView {
        SlotView { latest: None, open: self.open }
    }

    /// The slot after the display went away.
    pub open spec fn closed(self) -> SlotView {
        SlotView { latest: None, open: false }
    }
}

/// The mailbox between the video decode loop and the display.
#[derive(Debug)]
pub struct FrameSlot {
    latest: Option<DecodedFrame>,
    open: bool,
}

impl View for FrameSlot {
    type V = SlotView;

    closed spec fn view(&self) -> SlotView {
        SlotView {
            latest: match self.latest {
                Some(frame) => Some(frame@),
                None => None,
            },
            open: self.open,
        }
    }
}

impl FrameSlot {
    /// An empty slot with a listening display.
    pub fn new() -> (slot: FrameSlot)
        ensures
            slot@ == (SlotView { latest: None, open: true }),
    {
        FrameSlot { latest: None, open: true }
    }

    /// Whether the display still listens.
    pub fn is_open(&self) -> (open: bool)
        ensures
            open == self@.open,
    {
        self.open
    }

    /// Offers a frame. While the display listens the frame replaces whatever
    /// the slot held and the answer is `true`; once the display is gone the
    /// frame is dropped and the answer is `false`, which tells the producer to
    /// stop.
    pub fn publish(&mut self, frame: DecodedFrame) -> (accepted: bool)
        ensures
            accepted == old(self)@.open,
            final(self)@ == old(self)@.published(frame@),
    {
        if self.open {
            self.latest = Some(frame);
            true
        } else {
            false
        }
    }

    /// Fetches the latest frame, if one arrived since the last fetch, and
    /// leaves the slot empty.
    pub fn take(&mut self) -> (frame: Option<DecodedFrame>)
        ensures
            frame is Some <==> old(self)@.latest is Some,
            frame is Some ==> Some(frame->Some_0@) == old(self)@.latest,
            final(self)@ == old(self)@.fetched(),
    {
        self.latest.take()
    }

    /// Marks the display as gone. A frame still in the slot is dropped.
    pub fn close(&mut self)
        ensures
            final(self)@ == old(self)@.closed(),
    {
        self.latest = None;
        self.open = false;
    }
}

/// Of two frames published one after the other, the display finds the later
/// one, whether or not it looked in between.
pub proof fn lemma_latest_frame_wins(slot: SlotView, earlier: FrameView, later: FrameView)
    requires
        slot.open,
    ensures
        slot.published(earlier).published(later).latest == Some(later),
        slot.published(earlier).fetched().published(later).latest == Some(later),
        slot.published(earlier).published(later) == slot.published(later),
{
}

/// A frame is handed out at most once: right after a fetch the slot is empty,
/// and stays empty until the next frame is published.
pub proof fn lemma_frame_fetched_once(slot: SlotView)
    ensures
        slot.fetched().latest is None,
        slot.fetched().fetched() == slot.fetched(),
{
}

/// Once the display is gone no frame is accepted and none is kept.
pub proof fn lemma_closed_slot_stays_empty(slot: SlotView, frame: FrameView)
    ensures
        !slot.closed().open,
        slot.closed().published(frame) == slot.closed(),
        slot.closed().published(frame).latest is None,
{
}

} // verus!
