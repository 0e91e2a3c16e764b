//! Background frames that arrive on the bus: a length-prefixed tag, the
//! image's width and height, then its RGBA pixels.
use vstd::prelude::*;
use crate::bytes::{le_u32, read_u32_le};

verus! {

/// A background frame, borrowing its parts from the message bytes.
pub struct Frame<'a> {
    tag: &'a [u8],
    width: u32,
    height: u32,
    pixels: &'a [u8],
}

/// The parts of a frame.
pub struct FrameView {
    pub tag: Seq<u8>,
    pub width: u32,
    pub height: u32,
    pub pixels: Seq<u8>,
}

impl<'a> View for Frame<'a> {
    type V = FrameView;

    closed spec fn view(&self) -> FrameView {
        FrameView { tag: self.tag@, width: self.width, height: self.height, pixels: self.pixels@ }
    }
}

/// Whether `d` can be parsed without running off its end: a tag length
/// that is read must fit in what follows it.
pub open spec fn frame_fits(d: Seq<u8>) -> bool {
    d.len() >= 4 ==> le_u32(d) <= d.len() - 4
}

/// The frame that message bytes `d` hold: a little-endian `u32` tag
/// length and the tag, then little-endian `u32` width and height; the rest
/// is pixels. `None` where a number is cut short.
pub open spec fn frame_parse(d: Seq<u8>) -> Option<FrameView> {
    if d.len() < 4 {
        None
    } else {
        let len = le_u32(d);
        let r1 = d.skip(4 + len);
        if r1.len() < 4 {
            None
        } else {
            let r2 = r1.skip(4);
            if r2.len() < 4 {
                None
            } else {
                Some(
                    FrameView {
                        tag: d.subrange(4, 4 + len),
                        width: le_u32(r1) as u32,
                        height: le_u32(r2) as u32,
                        pixels: r2.skip(4),
                    },
                )
            }
        }
    }
}

/// Whether parsing `data` stays within it (see `frame_fits`).
pub fn fits(data: &[u8]) -> (b: bool)
    ensures
        b == frame_fits(data@),
{
    if data.len() < 4 {
        true
    } else {
        (read_u32_le(data) as usize) <= data.len() - 4
    }
}

impl<'a> Frame<'a> {
    /// Parses a background frame from message bytes.
    pub fn parse(data: &'a [u8]) -> (r: Option<Self>)
        requires
            frame_fits(data@),
        ensures
            match r {
                Some(f) => frame_parse(data@) == Some(f@),
                None => frame_parse(data@) is None,
            },
    {
        if data.len() < 4 {
            return None;
        }
        let len = read_u32_le(data) as usize;
        let (_, rest) = data.split_at(4);
        let (tag, r1) = rest.split_at(len);
        assert(tag@ =~= data@.subrange(4, 4 + len));
        assert(r1@ =~= data@.skip(4 + len));
        if r1.len() < 4 {
            return None;
        }
        let width = read_u32_le(r1);
        let (_, r2) = r1.split_at(4);
        assert(r2@ =~= r1@.skip(4));
        if r2.len() < 4 {
            return None;
        }
        let height = read_u32_le(r2);
        let (_, pixels) = r2.split_at(4);
        assert(pixels@ =~= r2@.skip(4));
        Some(Frame { tag, width, height, pixels })
    }

    /// The frame's tag.
    pub fn tag(&self) -> (t: &'a [u8])
        ensures
            t@ == self@.tag,
    {
        self.tag
    }

    /// The image width.
    pub fn width(&self) -> (w: u32)
        ensures
            w == self@.width,
    {
        self.width
    }

    /// The image height.
    pub fn height(&self) -> (h: u32)
        ensures
            h == self@.height,
    {
        self.height
    }

    /// The RGBA pixel bytes.
    pub fn pixels(&self) -> (p: &'a [u8])
        ensures
            p@ == self@.pixels,
    {
        self.pixels
    }
}

} // verus!
