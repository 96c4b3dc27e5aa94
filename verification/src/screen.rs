//! The virtual screen: what a GIF decoder shows after the frames written so
//! far, and the cropping of a new frame to the part that changes it.

use crate::color::{RGB8, RGBA8};
use crate::img::ImgVec;
use vstd::prelude::*;

verus! {

/// What becomes of a frame's pixels before the next frame is drawn.
#[derive(Clone, Copy, Debug, PartialEq, Eq, Structural)]
pub enum DisposalMethod {
    /// The pixels are left where they are.
    Keep,
    /// The frame's rectangle is cleared to transparent.
    Background,
}

pub open spec fn in_rect(x: int, y: int, left: int, top: int, width: int, height: int) -> bool {
    left <= x < left + width && top <= y < top + height
}

/// The colour of a palette index. Indices past the end of the palette are black.
pub open spec fn palette_color(pal: Seq<RGB8>, index: u8) -> RGB8 {
    if index < pal.len() {
        pal[index as int]
    } else {
        RGB8 { r: 0, g: 0, b: 0 }
    }
}

pub open spec fn opaque(c: RGB8) -> RGBA8 {
    RGBA8 { r: c.r, g: c.g, b: c.b, a: 255 }
}

/// What a screen pixel shows once a frame's pixel with palette index `src`
/// is drawn over `bg`: transparent pixels leave the screen as it is.
pub open spec fn blit_pixel(bg: RGBA8, src: u8, pal: Seq<RGB8>, transparent: Option<u8>) -> RGBA8 {
    if transparent == Some(src) {
        bg
    } else {
        opaque(palette_color(pal, src))
    }
}

/// What the screen shows at `(x, y)` once `image` is drawn over `bg` with
/// its corner at `(left, top)`.
pub open spec fn blitted_pixel(
    bg: &ImgVec<RGBA8>,
    pal: Seq<RGB8>,
    image: &ImgVec<u8>,
    left: int,
    top: int,
    transparent: Option<u8>,
    x: int,
    y: int,
) -> RGBA8 {
    if in_rect(x, y, left, top, image.width as int, image.height as int) {
        blit_pixel(bg.at(x, y), image.at(x - left, y - top), pal, transparent)
    } else {
        bg.at(x, y)
    }
}

/// The canvas of an animation with the disposal that the last frame left behind.
pub struct Screen {
    pub pixels: ImgVec<RGBA8>,
    /// How the last frame is disposed of.
    pub dispose: DisposalMethod,
    /// The rectangle of the last frame.
    pub left: usize,
    pub top: usize,
    pub width: usize,
    pub height: usize,
}

impl Screen {
    /// The last frame's rectangle lies inside the canvas.
    pub open spec fn wf(&self) -> bool {
        &&& self.pixels.wf()
        &&& self.left + self.width <= self.pixels.width
        &&& self.top + self.height <= self.pixels.height
    }

    /// What the screen shows at `(x, y)` once the last frame is disposed of.
    pub open spec fn disposed_pixel(&self, x: int, y: int) -> RGBA8 {
        if self.dispose == DisposalMethod::Background && in_rect(
            x,
            y,
            self.left as int,
            self.top as int,
            self.width as int,
            self.height as int,
        ) {
            RGBA8 { r: 0, g: 0, b: 0, a: 0 }
        } else {
            self.pixels.at(x, y)
        }
    }

    /// A canvas that is transparent all over, with nothing to dispose of.
    pub fn new(width: usize, height: usize) -> (s: Screen)
        requires
            width * height <= usize::MAX,
        ensures
            s.wf(),
            s.pixels.width == width,
            s.pixels.height == height,
            s.dispose == DisposalMethod::Keep,
            s.width == 0 && s.height == 0,
            forall|i: int| 0 <= i < s.pixels.buf.len() ==> #[trigger] s.pixels.buf@[i] == (RGBA8 { r: 0, g: 0, b: 0, a: 0 }),
    {
        let clear = RGBA8 { r: 0, g: 0, b: 0, a: 0 };
        Screen {
            pixels: ImgVec { buf: vec![clear; width * height], width, height },
            dispose: DisposalMethod::Keep,
            left: 0,
            top: 0,
            width: 0,
            height: 0,
        }
    }

    /// The pixels that are shown now.
    pub fn pixels_rgba(&self) -> (p: &ImgVec<RGBA8>)
        ensures
            *p == self.pixels,
    {
        &self.pixels
    }

    /// Disposes of the last frame.
    pub fn dispose_only(&mut self)
        requires
            old(self).wf(),
        ensures
            final(self).wf(),
            final(self).pixels.width == old(self).pixels.width,
            final(self).pixels.height == old(self).pixels.height,
            final(self).dispose == old(self).dispose,
            final(self).left == old(self).left && final(self).top == old(self).top,
            final(self).width == old(self).width && final(self).height == old(self).height,
            forall|x: int, y: int|
                0 <= x < old(self).pixels.width && 0 <= y < old(self).pixels.height
                    ==> #[trigger] final(self).pixels.at(x, y) == old(self).disposed_pixel(x, y),
    {
        if self.dispose == DisposalMethod::Keep {
            return ;
        }
        let mut y: usize = 0;
        while y < self.height
            invariant
                self.wf(),
                y <= self.height,
                self.pixels.width == old(self).pixels.width,
                self.pixels.height == old(self).pixels.height,
                self.dispose == old(self).dispose,
                self.dispose == DisposalMethod::Background,
                self.left == old(self).left && self.top == old(self).top,
                self.width == old(self).width && self.height == old(self).height,
                forall|x2: int, y2: int|
                    0 <= x2 < self.pixels.width && 0 <= y2 < self.pixels.height
                        ==> #[trigger] self.pixels.at(x2, y2) == (if y2 < self.top + y {
                        old(self).disposed_pixel(x2, y2)
                    } else {
                        old(self).pixels.at(x2, y2)
                    }),
            decreases self.height - y,
        {
            let mut x: usize = 0;
            while x < self.width
                invariant
                    self.wf(),
                    y < self.height,
                    x <= self.width,
                    self.pixels.width == old(self).pixels.width,
                    self.pixels.height == old(self).pixels.height,
                    self.dispose == old(self).dispose,
                    self.dispose == DisposalMethod::Background,
                    self.left == old(self).left && self.top == old(self).top,
                    self.width == old(self).width && self.height == old(self).height,
                    forall|x2: int, y2: int|
                        0 <= x2 < self.pixels.width && 0 <= y2 < self.pixels.height
                            ==> #[trigger] self.pixels.at(x2, y2) == (if y2 < self.top + y || (y2
                            == self.top + y && x2 < self.left + x) {
                            old(self).disposed_pixel(x2, y2)
                        } else {
                            old(self).pixels.at(x2, y2)
                        }),
                decreases self.width - x,
            {
                self.pixels.set_pixel(self.left + x, self.top + y, RGBA8 { r: 0, g: 0, b: 0, a: 0 });
                x += 1;
            }
            y += 1;
        }
    }

    /// Draws a frame over the canvas, and notes how it is to be disposed of.
    pub fn then_blit(
        &mut self,
        pal: &Vec<RGB8>,
        method: DisposalMethod,
        left: u16,
        top: u16,
        image: &ImgVec<u8>,
        transparent: Option<u8>,
    )
        requires
            old(self).wf(),
            image.wf(),
            left + image.width <= old(self).pixels.width,
            top + image.height <= old(self).pixels.height,
        ensures
            final(self).wf(),
            final(self).pixels.width == old(self).pixels.width,
            final(self).pixels.height == old(self).pixels.height,
            final(self).dispose == method,
            final(self).left == left && final(self).top == top,
            final(self).width == image.width && final(self).height == image.height,
            forall|x: int, y: int|
                0 <= x < old(self).pixels.width && 0 <= y < old(self).pixels.height
                    ==> #[trigger] final(self).pixels.at(x, y) == blitted_pixel(
                    &old(self).pixels,
                    pal@,
                    image,
                    left as int,
                    top as int,
                    transparent,
                    x,
                    y,
                ),
    {
        self.dispose = method;
        self.left = left as usize;
        self.top = top as usize;
        self.width = image.width;
        self.height = image.height;
        let mut y: usize = 0;
        while y < image.height
            invariant
                self.wf(),
                image.wf(),
                y <= image.height,
                left + image.width <= self.pixels.width,
                top + image.height <= self.pixels.height,
                self.pixels.width == old(self).pixels.width,
                self.pixels.height == old(self).pixels.height,
                self.dispose == method,
                self.left == left && self.top == top,
                self.width == image.width && self.height == image.height,
                forall|x2: int, y2: int|
                    0 <= x2 < self.pixels.width && 0 <= y2 < self.pixels.height
                        ==> #[trigger] self.pixels.at(x2, y2) == (if y2 < top + y {
                        blitted_pixel(
                            &old(self).pixels,
                            pal@,
                            image,
                            left as int,
                            top as int,
                            transparent,
                            x2,
                            y2,
                        )
                    } else {
                        old(self).pixels.at(x2, y2)
                    }),
            decreases image.height - y,
        {
            let mut x: usize = 0;
            while x < image.width
                invariant
                    self.wf(),
                    image.wf(),
                    y < image.height,
                    x <= image.width,
                    left + image.width <= self.pixels.width,
                    top + image.height <= self.pixels.height,
                    self.pixels.width == old(self).pixels.width,
                    self.pixels.height == old(self).pixels.height,
                    self.dispose == method,
                    self.left == left && self.top == top,
                    self.width == image.width && self.height == image.height,
                    forall|x2: int, y2: int|
                        0 <= x2 < self.pixels.width && 0 <= y2 < self.pixels.height
                            ==> #[trigger] self.pixels.at(x2, y2) == (if y2 < top + y || (y2 == top
                            + y && x2 < left + x) {
                            blitted_pixel(
                                &old(self).pixels,
                                pal@,
                                image,
                                left as int,
                                top as int,
                                transparent,
                                x2,
                                y2,
                            )
                        } else {
                            old(self).pixels.at(x2, y2)
                        }),
                decreases image.width - x,
            {
                let src = *image.pixel(x, y);
                if !is_index(transparent, src) {
                    let color = if (src as usize) < pal.len() {
                        pal[src as usize]
                    } else {
                        RGB8 { r: 0, g: 0, b: 0 }
                    };
                    self.pixels.set_pixel(left as usize + x, top as usize + y, color.alpha(255));
                }
                x += 1;
            }
            y += 1;
        }
    }
}

/// Whether `px` is the transparent index.
pub fn is_index(transparent: Option<u8>, px: u8) -> (b: bool)
    ensures
        b == (transparent == Some(px)),
{
    match transparent {
        Some(t) => t == px,
        None => false,
    }
}

} // verus!
