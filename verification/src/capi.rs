//! What the C interface decides on plain values: the settings as C has
//! them, and frames in the pixel layouts that C callers hold.

use crate::color::{RGB8, RGBA8};
use crate::error::GifskiError;
use crate::img::ImgVec;
use crate::settings::{Repeat, Settings};
use vstd::prelude::*;

verus! {

/// Settings for creating a new encoder instance.
#[derive(Clone, Copy)]
pub struct GifskiSettings {
    /// Resize to max this width if non-0.
    pub width: u32,
    /// Resize to max this height if width is non-0. Note that aspect ratio is not preserved.
    pub height: u32,
    /// 1-100, but useful range is 50-100. Recommended to set to 90.
    pub quality: u8,
    /// Lower quality, but faster encode.
    pub fast: bool,
    /// If negative, looping is disabled. The number of times the sequence is repeated. 0 to loop forever.
    pub repeat: i16,
}

/// A pixel with its alpha first.
#[derive(Clone, Copy)]
pub struct ARGB8 {
    pub a: u8,
    pub r: u8,
    pub g: u8,
    pub b: u8,
}

/// Opaque handle that C callers hold.
pub struct GifskiHandle {
    pub _opaque: usize,
}

/// How often the animation is played, for the number that C gives: -1
/// stands for once, 0 for ever, and any other number for so many times,
/// a negative one read as the number without sign that has its bits.
pub open spec fn repeat_spec(repeat: i16) -> Repeat {
    if repeat == -1 {
        Repeat::Finite(0)
    } else if repeat == 0 {
        Repeat::Infinite
    } else if repeat > 0 {
        Repeat::Finite(repeat as u16)
    } else {
        Repeat::Finite((repeat + 65536) as u16)
    }
}

pub fn repeat_from_c(repeat: i16) -> (r: Repeat)
    ensures
        r == repeat_spec(repeat),
{
    if repeat == -1 {
        Repeat::Finite(0)
    } else if repeat == 0 {
        Repeat::Infinite
    } else if repeat > 0 {
        Repeat::Finite(repeat as u16)
    } else {
        Repeat::Finite((repeat as i32 + 65536) as u16)
    }
}

impl GifskiSettings {
    /// The settings of the encoder for those that C gives: a side of 0
    /// stands for no limit.
    pub fn to_settings(&self) -> (s: Settings)
        ensures
            s.width == (if self.width > 0 { Some(self.width) } else { None }),
            s.height == (if self.height > 0 { Some(self.height) } else { None }),
            s.quality == self.quality,
            s.fast == self.fast,
            s.repeat == repeat_spec(self.repeat),
    {
        Settings {
            width: if self.width > 0 { Some(self.width) } else { None },
            height: if self.height > 0 { Some(self.height) } else { None },
            quality: self.quality,
            fast: self.fast,
            repeat: repeat_from_c(self.repeat),
        }
    }
}

/// The most that a side of a frame can be.
pub const MAX_SIDE: u32 = 0xFFFF;

/// A frame of the given size can be taken from rows of `stride` pixels.
pub open spec fn frame_size_ok(width: u32, height: u32, stride: int) -> bool {
    stride >= width && 0 < width <= MAX_SIDE && 0 < height <= MAX_SIDE
}

/// How many pixels a row holds, and how many pixels have to be there for
/// a frame, where its rows are `bytes_per_row` bytes apart and a pixel
/// takes `pixel_size` bytes. The last row need not be filled up.
pub fn frame_layout(width: u32, height: u32, bytes_per_row: u32, pixel_size: u32) -> (res: Result<
    (usize, usize),
    GifskiError,
>)
    requires
        0 < pixel_size <= 4,
    ensures
        res is Ok <==> frame_size_ok(width, height, bytes_per_row as int / pixel_size as int)
            && bytes_per_row as int / pixel_size as int <= usize::MAX && (bytes_per_row as int
            / pixel_size as int) * (height - 1) + width <= usize::MAX,
        res matches Err(e) ==> e == GifskiError::INVALID_INPUT,
        res matches Ok((stride, len)) ==> stride == bytes_per_row / pixel_size && len == stride * (
        height - 1) + width,
{
    let stride = (bytes_per_row / pixel_size) as u64;
    if stride < width as u64 || width == 0 || height == 0 || width > MAX_SIDE || height
        > MAX_SIDE {
        return Err(GifskiError::INVALID_INPUT);
    }
    assert(stride * (height - 1) <= 0xffff_ffff * 0xffff) by (nonlinear_arith)
        requires
            stride <= 0xffff_ffff,
            0 < height <= 0xffff,
    ;
    let len: u64 = stride * (height as u64 - 1) + width as u64;
    if stride > usize::MAX as u64 || len > usize::MAX as u64 {
        return Err(GifskiError::INVALID_INPUT);
    }
    Ok((stride as usize, len as usize))
}

/// The frame that lies in pixels with the alpha first, in rows of
/// `stride` pixels.
pub fn argb_frame(pixels: &[ARGB8], width: usize, height: usize, stride: usize) -> (res: Option<
    ImgVec<RGBA8>,
>)
    ensures
        res is Some <==> width <= stride && height >= 1 && width >= 1 && stride * (height - 1)
            + width <= pixels@.len() && width * height <= usize::MAX,
        res matches Some(img) ==> {
            &&& img.wf()
            &&& img.width == width
            &&& img.height == height
            &&& forall|x: int, y: int|
                0 <= x < width && 0 <= y < height ==> #[trigger] img.at(x, y) == (RGBA8 {
                    r: pixels@[y * stride + x].r,
                    g: pixels@[y * stride + x].g,
                    b: pixels@[y * stride + x].b,
                    a: pixels@[y * stride + x].a,
                })
        },
{
    let total = pixels.len();
    if width > stride || height < 1 || width < 1 {
        return None;
    }
    let rows = match stride.checked_mul(height - 1) {
        Some(rows) => rows,
        None => {
            assert(stride * (height - 1) + width > pixels@.len());
            return None;
        },
    };
    let needed = match rows.checked_add(width) {
        Some(needed) => needed,
        None => {
            assert(stride * (height - 1) + width > pixels@.len());
            return None;
        },
    };
    if needed > total {
        return None;
    }
    assert(width * height <= stride * (height - 1) + width) by (nonlinear_arith)
        requires
            width <= stride,
            height >= 1,
    ;
    let clear = RGBA8 { r: 0, g: 0, b: 0, a: 0 };
    let mut img = ImgVec { buf: vec![clear; width * height], width, height };
    let mut y: usize = 0;
    while y < height
        invariant
            img.wf(),
            img.width == width,
            img.height == height,
            width <= stride,
            y <= height,
            total == pixels@.len(),
            stride * (height - 1) + width <= pixels@.len(),
            forall|x2: int, y2: int|
                0 <= x2 < width && 0 <= y2 < y ==> #[trigger] img.at(x2, y2) == (RGBA8 {
                    r: pixels@[y2 * stride + x2].r,
                    g: pixels@[y2 * stride + x2].g,
                    b: pixels@[y2 * stride + x2].b,
                    a: pixels@[y2 * stride + x2].a,
                }),
        decreases height - y,
    {
        assert(y * stride <= stride * (height - 1)) by (nonlinear_arith)
            requires
                0 <= y <= height - 1,
                stride >= 0,
        ;
        let row = y * stride;
        let mut x: usize = 0;
        while x < width
            invariant
                img.wf(),
                img.width == width,
                img.height == height,
                y < height,
                x <= width,
                row == y * stride,
                total == pixels@.len(),
                row + width <= pixels@.len(),
                forall|x2: int, y2: int|
                    0 <= x2 < width && (0 <= y2 < y || (y2 == y && x2 < x)) ==> #[trigger] img.at(
                        x2,
                        y2,
                    ) == (RGBA8 {
                        r: pixels@[y2 * stride + x2].r,
                        g: pixels@[y2 * stride + x2].g,
                        b: pixels@[y2 * stride + x2].b,
                        a: pixels@[y2 * stride + x2].a,
                    }),
            decreases width - x,
        {
            let p = pixels[row + x];
            img.set_pixel(x, y, RGBA8 { r: p.r, g: p.g, b: p.b, a: p.a });
            x += 1;
        }
        y += 1;
    }
    Some(img)
}

/// The frame that lies in pixels without alpha, in rows of `stride`
/// pixels. Every pixel is opaque.
pub fn rgb_frame(pixels: &[RGB8], width: usize, height: usize, stride: usize) -> (res: Option<
    ImgVec<RGBA8>,
>)
    ensures
        res is Some <==> width <= stride && height >= 1 && width >= 1 && stride * (height - 1)
            + width <= pixels@.len() && width * height <= usize::MAX,
        res matches Some(img) ==> {
            &&& img.wf()
            &&& img.width == width
            &&& img.height == height
            &&& forall|x: int, y: int|
                0 <= x < width && 0 <= y < height ==> #[trigger] img.at(x, y)
                    == crate::screen::opaque(pixels@[y * stride + x])
        },
{
    let total = pixels.len();
    if width > stride || height < 1 || width < 1 {
        return None;
    }
    let rows = match stride.checked_mul(height - 1) {
        Some(rows) => rows,
        None => {
            assert(stride * (height - 1) + width > pixels@.len());
            return None;
        },
    };
    let needed = match rows.checked_add(width) {
        Some(needed) => needed,
        None => {
            assert(stride * (height - 1) + width > pixels@.len());
            return None;
        },
    };
    if needed > total {
        return None;
    }
    assert(width * height <= stride * (height - 1) + width) by (nonlinear_arith)
        requires
            width <= stride,
            height >= 1,
    ;
    let clear = RGBA8 { r: 0, g: 0, b: 0, a: 0 };
    let mut img = ImgVec { buf: vec![clear; width * height], width, height };
    let mut y: usize = 0;
    while y < height
        invariant
            img.wf(),
            img.width == width,
            img.height == height,
            width <= stride,
            y <= height,
            total == pixels@.len(),
            stride * (height - 1) + width <= pixels@.len(),
            forall|x2: int, y2: int|
                0 <= x2 < width && 0 <= y2 < y ==> #[trigger] img.at(x2, y2)
                    == crate::screen::opaque(pixels@[y2 * stride + x2]),
        decreases height - y,
    {
        assert(y * stride <= stride * (height - 1)) by (nonlinear_arith)
            requires
                0 <= y <= height - 1,
                stride >= 0,
        ;
        let row = y * stride;
        let mut x: usize = 0;
        while x < width
            invariant
                img.wf(),
                img.width == width,
                img.height == height,
                y < height,
                x <= width,
                row == y * stride,
                total == pixels@.len(),
                row + width <= pixels@.len(),
                forall|x2: int, y2: int|
                    0 <= x2 < width && (0 <= y2 < y || (y2 == y && x2 < x)) ==> #[trigger] img.at(
                        x2,
                        y2,
                    ) == crate::screen::opaque(pixels@[y2 * stride + x2]),
            decreases width - x,
        {
            img.set_pixel(x, y, pixels[row + x].alpha(255));
            x += 1;
        }
        y += 1;
    }
    Some(img)
}

} // verus!
