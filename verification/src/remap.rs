//! The remapping of every frame to its palette against the screen as it
//! stands, and the cropping of the frame to what changes the screen.

use crate::color::{RGB8, RGBA8};
use crate::crop::{crop, is_changed_rect, all_match, trim_image, Backdrop};
use crate::error::Error;
use crate::img::ImgVec;
use crate::palette::{is_first_transparent, transparent_index_from_palette, written_color, written_index};
use crate::quantize::{
    image_height, image_width, liq_image_height, liq_image_width, liq_new_image, liq_remap,
    liq_set_background, quant_err, RemapMessage,
};
use crate::screen::{blitted_pixel, DisposalMethod, Screen};
use vstd::prelude::*;

verus! {

/// A frame as it is written: a part of the screen in palette indices.
pub struct GIFFrame {
    pub left: u16,
    pub top: u16,
    pub image: ImgVec<u8>,
    pub pal: Vec<RGB8>,
    pub dispose: DisposalMethod,
    pub transparent_index: Option<u8>,
}

/// A frame after it is remapped.
pub struct FrameMessage {
    /// From 0.
    pub frame_index: usize,
    /// From 1.
    pub ordinal_frame_number: usize,
    pub end_pts: i64,
    pub frame: GIFFrame,
    pub screen_width: u16,
    pub screen_height: u16,
}

impl GIFFrame {
    /// The frame lies within a screen of the given size, and its palette
    /// can be written.
    pub open spec fn fits(&self, screen_width: int, screen_height: int) -> bool {
        &&& self.image.wf()
        &&& self.image.width >= 1
        &&& self.image.height >= 1
        &&& self.left + self.image.width <= screen_width
        &&& self.top + self.image.height <= screen_height
        &&& self.pal.len() <= 256
    }
}

/// The stage that owns the screen.
pub struct Remapper {
    pub screen: Screen,
    /// How many frames have been remapped.
    pub frame_index: usize,
}

impl Remapper {
    pub open spec fn wf(&self) -> bool {
        &&& self.screen.wf()
        &&& 1 <= self.screen.pixels.width <= 0xffff
        &&& 1 <= self.screen.pixels.height <= 0xffff
    }

    /// The stage before the first frame, with a screen of the size of the
    /// frames that is transparent all over. The sides of the screen have to
    /// be from 1 to 65535 pixels.
    pub fn new(width: usize, height: usize) -> (res: Result<Remapper, Error>)
        ensures
            res is Ok <==> 1 <= width <= 0xffff && 1 <= height <= 0xffff,
            res matches Err(e) ==> e is WrongSize,
            res matches Ok(r) ==> {
                &&& r.wf()
                &&& r.frame_index == 0
                &&& r.screen.pixels.width == width
                &&& r.screen.pixels.height == height
                &&& r.screen.dispose == DisposalMethod::Keep
                &&& forall|i: int|
                    0 <= i < r.screen.pixels.buf.len() ==> #[trigger] r.screen.pixels.buf@[i] == (
                    RGBA8 { r: 0, g: 0, b: 0, a: 0 })
            },
    {
        if width < 1 || width > 0xffff || height < 1 || height > 0xffff {
            return Err(Error::WrongSize("image size too large".to_string()));
        }
        assert(width * height <= 0xffff * 0xffff) by (nonlinear_arith)
            requires
                width <= 0xffff,
                height <= 0xffff,
        ;
        Ok(Remapper { screen: Screen::new(width, height), frame_index: 0 })
    }

    /// Whether the next frame is remapped over the screen, so that its
    /// pixels can give way to what the screen shows already: every frame
    /// but the first, before which the screen shows nothing.
    pub fn remaps_over_screen(&self) -> (over: bool)
        ensures
            over == (self.frame_index != 0),
    {
        self.frame_index != 0
    }

    /// Remaps a frame to its palette, against the screen where it is not
    /// the first frame.
    fn remap(
        &self,
        msg_liq: imagequant::Attributes,
        msg_remap: imagequant::QuantizationResult,
        msg_image: imagequant::Image<'static>,
        out_buf: Vec<u8>,
    ) -> (res: Result<(ImgVec<u8>, Vec<RGBA8>), Error>)
        requires
            self.wf(),
            image_width(msg_image) == self.screen.pixels.width,
            image_height(msg_image) == self.screen.pixels.height,
        ensures
            res matches Err(e) ==> e is Quant,
            res matches Ok(r) ==> r.0.wf() && r.0.width == self.screen.pixels.width && r.0.height
                == self.screen.pixels.height && r.1.len() <= 256,
    {
        let liq = msg_liq;
        let mut remap = msg_remap;
        let mut img = msg_image;
        let mut pal_img = out_buf;
        if self.remaps_over_screen() {
            let bg = quant_err(
                liq_new_image(
                    &liq,
                    &self.screen.pixels.buf,
                    self.screen.pixels.width,
                    self.screen.pixels.height,
                ),
            )?;
            quant_err(liq_set_background(&mut img, bg))?;
        }
        let pal = quant_err(liq_remap(&mut remap, &mut img, &mut pal_img))?;
        Ok(
            (
                ImgVec {
                    buf: pal_img,
                    width: self.screen.pixels.width,
                    height: self.screen.pixels.height,
                },
                pal,
            ),
        )
    }

    /// Brings a remapped frame onto the screen, from which the frame before
    /// is disposed of already: the transparent colours of the palette are
    /// brought down to one, the frame is cropped to what changes the
    /// screen, and it is drawn. The first frame and a frame that no other
    /// follows are never cropped; of a frame that changes nothing the
    /// pixel in the corner is kept.
    pub fn place_frame(
        &mut self,
        image8: ImgVec<u8>,
        image8_pal: Vec<RGBA8>,
        dispose: DisposalMethod,
        has_next_frame: bool,
        ordinal_frame_number: usize,
        end_pts: i64,
    ) -> (m: FrameMessage)
        requires
            old(self).wf(),
            old(self).frame_index < usize::MAX,
            image8.wf(),
            image8.width == old(self).screen.pixels.width,
            image8.height == old(self).screen.pixels.height,
            image8_pal.len() <= 256,
        ensures
            final(self).wf(),
            final(self).screen.pixels.width == old(self).screen.pixels.width,
            final(self).screen.pixels.height == old(self).screen.pixels.height,
            m.frame_index == old(self).frame_index,
            final(self).frame_index == old(self).frame_index + 1,
            m.ordinal_frame_number == ordinal_frame_number,
            m.end_pts == end_pts,
            m.screen_width == old(self).screen.pixels.width,
            m.screen_height == old(self).screen.pixels.height,
            m.frame.fits(m.screen_width as int, m.screen_height as int),
            is_placed(
                &old(self).screen.pixels,
                &image8,
                image8_pal@,
                dispose,
                is_kept_whole(old(self).frame_index, has_next_frame),
                &m.frame,
            ),
            final(self).screen.dispose == dispose,
            final(self).screen.left == m.frame.left && final(self).screen.top == m.frame.top,
            final(self).screen.width == m.frame.image.width && final(self).screen.height
                == m.frame.image.height,
            forall|x: int, y: int|
                0 <= x < m.screen_width && 0 <= y < m.screen_height ==> #[trigger] final(self).screen.pixels.at(x, y)
                    == blitted_pixel(
                    &old(self).screen.pixels,
                    m.frame.pal@,
                    &m.frame.image,
                    m.frame.left as int,
                    m.frame.top as int,
                    m.frame.transparent_index,
                    x,
                    y,
                ),
    {
        let screen_width = self.screen.pixels.width as u16;
        let screen_height = self.screen.pixels.height as u16;
        let ghost remapped = image8;
        let ghost remapped_pal = image8_pal@;
        let mut image8 = image8;
        let (image8_pal, transparent_index) = transparent_index_from_palette(
            image8_pal,
            &mut image8,
        );
        assert(image8.wf());
        let ghost normal = image8;
        assert(is_normalized(&normal, &remapped, remapped_pal, transparent_index));
        
        let ghost b = Backdrop { pal: image8_pal@, transparent: transparent_index, dispose };

        let mut left: u16 = 0;
        let mut top: u16 = 0;
        if self.frame_index != 0 && has_next_frame {
            let (l, t, new_width, new_height) = match trim_image(
                &image8,
                &image8_pal,
                transparent_index,
                dispose,
                &self.screen.pixels,
            ) {
                Some(r) => r,
                None => (0, 0, 1, 1),
            };
            if new_width != image8.width || new_height != image8.height {
                image8 = crop(&image8, l as usize, t as usize, new_width, new_height);
            }
            left = l;
            top = t;
        }
        self.screen.then_blit(&image8_pal, dispose, left, top, &image8, transparent_index);
        let frame = GIFFrame {
            left,
            top,
            image: image8,
            pal: image8_pal,
            transparent_index,
            dispose,
        };
        assert(is_cut(
            &normal,
            &old(self).screen.pixels,
            b,
            is_kept_whole(old(self).frame_index, has_next_frame),
            &frame,
        ));
        let frame_index = self.frame_index;
        self.frame_index += 1;
        FrameMessage {
            frame_index,
            ordinal_frame_number,
            end_pts,
            screen_width,
            screen_height,
            frame,
        }
    }

    /// Brings one frame onto the screen: disposes of the frame before,
    /// remaps the frame against what is left, brings its transparent colours
    /// down to one, crops it to what changes the screen, and draws it.
    /// The first frame and the last are never cropped.
    ///
    /// A frame of another size than the screen is refused, and leaves the
    /// stage as it was; any other failure is the quantizer's. Afterwards
    /// the screen shows what a GIF decoder shows after the frame: every
    /// pixel is what drawing the frame that is sent on makes of the screen
    /// once the frame before is disposed of.
    pub fn remap_frame(&mut self, msg: RemapMessage) -> (res: Result<FrameMessage, Error>)
        requires
            old(self).wf(),
        ensures
            final(self).wf(),
            final(self).screen.pixels.width == old(self).screen.pixels.width,
            final(self).screen.pixels.height == old(self).screen.pixels.height,
            res matches Err(e) ==> e is Quant || e is WrongSize,
            (res matches Err(e) && e is WrongSize) <==> old(self).refuses(&msg),
            old(self).refuses(&msg) ==> *final(self) == *old(self),
            res matches Ok(m) ==> {
                &&& m.frame_index == old(self).frame_index
                &&& final(self).frame_index == old(self).frame_index + 1
                &&& m.ordinal_frame_number == msg.ordinal_frame_number
                &&& m.end_pts == msg.end_pts
                &&& m.frame.dispose == msg.dispose
                &&& m.screen_width == old(self).screen.pixels.width
                &&& m.screen_height == old(self).screen.pixels.height
                &&& m.frame.fits(m.screen_width as int, m.screen_height as int)
                &&& (old(self).frame_index == 0 || !msg.has_next_frame ==> m.frame.left == 0
                    && m.frame.top == 0 && m.frame.image.width == m.screen_width
                    && m.frame.image.height == m.screen_height)
                &&& exists|disposed: ImgVec<RGBA8>, image: ImgVec<u8>, pal: Seq<RGBA8>| #[trigger]
                    is_remapped_onto(
                        &old(self).screen,
                        &disposed,
                        &image,
                        pal,
                        msg.dispose,
                        is_kept_whole(old(self).frame_index, msg.has_next_frame),
                        &m.frame,
                    )
                &&& final(self).screen.dispose == msg.dispose
                &&& final(self).screen.left == m.frame.left && final(self).screen.top == m.frame.top
                &&& final(self).screen.width == m.frame.image.width && final(self).screen.height
                    == m.frame.image.height
                &&& forall|x: int, y: int|
                    0 <= x < m.screen_width && 0 <= y < m.screen_height ==> #[trigger] final(self).screen.pixels.at(x, y) == blit_pixel_over_disposed(old(self), &m.frame, x, y)
            },
    {
        if msg.width != self.screen.pixels.width || msg.height != self.screen.pixels.height {
            return Err(Error::WrongSize("frame has wrong size".to_string()));
        }
        if liq_image_width(&msg.liq_image) != self.screen.pixels.width || liq_image_height(
            &msg.liq_image,
        ) != self.screen.pixels.height {
            return Err(Error::WrongSize("frame has wrong size".to_string()));
        }
        if self.frame_index == usize::MAX {
            return Err(Error::WrongSize("too many frames".to_string()));
        }
        let ghost before = *old(self);
        self.screen.dispose_only();
        let ghost disposed = self.screen.pixels;

        let RemapMessage {
            ordinal_frame_number,
            frame_index: _,
            end_pts,
            dispose,
            liq,
            remap,
            liq_image,
            out_buf,
            has_next_frame,
            width: _,
            height: _,
        } = msg;
        let (image8, image8_pal) = match self.remap(liq, remap, liq_image, out_buf) {
            Ok(r) => r,
            Err(e) => {
                return Err(e);
            },
        };
        let ghost remapped = image8;
        let ghost remapped_pal = image8_pal@;
        let m = self.place_frame(
            image8,
            image8_pal,
            dispose,
            has_next_frame,
            ordinal_frame_number,
            end_pts,
        );
        proof {
            assert(is_disposed(&disposed, &before.screen));
            assert(is_remapped_onto(
                &before.screen,
                &disposed,
                &remapped,
                remapped_pal,
                dispose,
                is_kept_whole(before.frame_index, has_next_frame),
                &m.frame,
            ));
            assert forall|x: int, y: int|
                0 <= x < m.screen_width && 0 <= y < m.screen_height implies #[trigger] self.screen.pixels.at(
                x,
                y,
            ) == blit_pixel_over_disposed(&before, &m.frame, x, y) by {
                assert(disposed.at(x, y) == before.screen.disposed_pixel(x, y));
            }
        }
        Ok(m)
    }

    /// Whether a frame is refused for its size, or because the frames
    /// cannot be counted any further.
    pub open spec fn refuses(&self, msg: &RemapMessage) -> bool {
        ||| msg.width != self.screen.pixels.width
        ||| msg.height != self.screen.pixels.height
        ||| image_width(msg.liq_image) != self.screen.pixels.width
        ||| image_height(msg.liq_image) != self.screen.pixels.height
        ||| self.frame_index == usize::MAX
    }
}

/// Whether a frame is sent on whole: the first frame and a frame that no
/// other follows are, so that a decoder has the size of the screen from
/// them.
pub open spec fn is_kept_whole(frame_index: usize, has_next_frame: bool) -> bool {
    frame_index == 0 || !has_next_frame
}

/// `normal` is the remapped image with every transparent index brought
/// down to the one that is named.
pub open spec fn is_normalized(
    normal: &ImgVec<u8>,
    image: &ImgVec<u8>,
    pal: Seq<RGBA8>,
    transparent: Option<u8>,
) -> bool {
    &&& normal.wf()
    &&& normal.width == image.width
    &&& normal.height == image.height
    &&& normal.buf.len() == image.buf.len()
    &&& forall|k: int|
        0 <= k < image.buf.len() ==> #[trigger] normal.buf@[k] == written_index(
            pal,
            transparent,
            image.buf@[k],
        )
}

/// The frame is the part of `normal` that is sent on: the whole of it
/// where it must not be cropped, the pixel in the corner where all of it
/// matches the screen, and otherwise the smallest rectangle that holds
/// every pixel that does not match.
pub open spec fn is_cut(
    normal: &ImgVec<u8>,
    screen: &ImgVec<RGBA8>,
    b: Backdrop,
    whole: bool,
    frame: &GIFFrame,
) -> bool {
    let left = frame.left as int;
    let top = frame.top as int;
    let width = frame.image.width as int;
    let height = frame.image.height as int;
    &&& frame.image.wf()
    &&& if whole {
        left == 0 && top == 0 && width == normal.width && height == normal.height
    } else if all_match(normal, screen, b) {
        left == 0 && top == 0 && width == 1 && height == 1
    } else {
        is_changed_rect(normal, screen, b, left, top, width, height)
    }
    &&& left + width <= normal.width
    &&& top + height <= normal.height
    &&& forall|x: int, y: int|
        0 <= x < width && 0 <= y < height ==> #[trigger] frame.image.at(x, y) == normal.at(
            left + x,
            top + y,
        )
}

/// The frame is what a remapped image with its palette is sent on as,
/// against the screen as the frame before left it once disposed of: the
/// palette without alpha, the first of its transparent entries as the
/// transparent index, and the image cut to what changes the screen.
pub open spec fn is_placed(
    screen: &ImgVec<RGBA8>,
    image: &ImgVec<u8>,
    pal: Seq<RGBA8>,
    dispose: DisposalMethod,
    whole: bool,
    frame: &GIFFrame,
) -> bool {
    &&& frame.dispose == dispose
    &&& is_first_transparent(pal, frame.transparent_index)
    &&& frame.pal.len() == pal.len()
    &&& forall|i: int| 0 <= i < pal.len() ==> #[trigger] frame.pal@[i] == written_color(pal[i])
    &&& exists|normal: ImgVec<u8>| #[trigger]
        is_normalized(&normal, image, pal, frame.transparent_index) && is_cut(
            &normal,
            screen,
            Backdrop { pal: frame.pal@, transparent: frame.transparent_index, dispose },
            whole,
            frame,
        )
}

/// `disposed` is the screen once its last frame is disposed of.
pub open spec fn is_disposed(disposed: &ImgVec<RGBA8>, screen: &Screen) -> bool {
    &&& disposed.wf()
    &&& disposed.width == screen.pixels.width
    &&& disposed.height == screen.pixels.height
    &&& forall|x: int, y: int|
        0 <= x < disposed.width && 0 <= y < disposed.height ==> #[trigger] disposed.at(x, y)
            == screen.disposed_pixel(x, y)
}

/// The frame is what some image of the screen's size with some palette of
/// up to 256 colours is sent on as, once the frame before is disposed of.
/// Which image and palette is the quantizer's choice.
pub open spec fn is_remapped_onto(
    screen: &Screen,
    disposed: &ImgVec<RGBA8>,
    image: &ImgVec<u8>,
    pal: Seq<RGBA8>,
    dispose: DisposalMethod,
    whole: bool,
    frame: &GIFFrame,
) -> bool {
    &&& is_disposed(disposed, screen)
    &&& image.wf()
    &&& image.width == screen.pixels.width
    &&& image.height == screen.pixels.height
    &&& pal.len() <= 256
    &&& is_placed(disposed, image, pal, dispose, whole, frame)
}

/// What the screen shows at `(x, y)` once the frame before is disposed
/// of and the frame is drawn.
pub open spec fn blit_pixel_over_disposed(before: &Remapper, frame: &GIFFrame, x: int, y: int) -> RGBA8 {
    let bg = before.screen.disposed_pixel(x, y);
    if crate::screen::in_rect(
        x,
        y,
        frame.left as int,
        frame.top as int,
        frame.image.width as int,
        frame.image.height as int,
    ) {
        crate::screen::blit_pixel(
            bg,
            frame.image.at(x - frame.left, y - frame.top),
            frame.pal@,
            frame.transparent_index,
        )
    } else {
        bg
    }
}

} // verus!
