//! The choice of a palette for every frame, which is left to the
//! `imagequant` crate, and what it is asked for.

use crate::color::{RGB8, RGBA8};
use crate::diff::QuantizeMessage;
use crate::error::Error;
use crate::img::ImgVec;
use crate::screen::DisposalMethod;
use crate::settings::SettingsExt;
use vstd::prelude::*;

verus! {

/// The settings of the quantizer.
#[verifier::external_type_specification]
#[verifier::external_body]
pub struct ExAttributes(imagequant::Attributes);

/// A palette that the quantizer has chosen.
#[verifier::external_type_specification]
#[verifier::external_body]
pub struct ExQuantizationResult(imagequant::QuantizationResult);

/// An image as the quantizer holds it.
#[verifier::external_type_specification]
#[verifier::external_body]
pub struct ExImage<'pixels>(imagequant::Image<'pixels>);

/// The width of an image that the quantizer holds, as `Image::width`
/// gives it. An image keeps the size that it was made with.
pub uninterp spec fn image_width(img: imagequant::Image<'static>) -> int;

/// The height of an image that the quantizer holds, as `Image::height`
/// gives it.
pub uninterp spec fn image_height(img: imagequant::Image<'static>) -> int;

/// The colours that are fixed for an image of the quantizer, in the order
/// in which `Image::add_fixed_color` was given them.
pub uninterp spec fn image_fixed_colors(img: imagequant::Image<'static>) -> Seq<RGBA8>;

/// An image of the quantizer has the size and the fixed colours of
/// another.
pub open spec fn is_kept(a: imagequant::Image<'static>, b: imagequant::Image<'static>) -> bool {
    image_width(a) == image_width(b) && image_height(a) == image_height(b) && image_fixed_colors(a)
        == image_fixed_colors(b)
}

/// Calls `Image::width`.
#[verifier::external_body]
pub(crate) fn liq_image_width(img: &imagequant::Image<'static>) -> (w: usize)
    ensures
        w == image_width(*img),
{
    img.width()
}

/// Calls `Image::height`.
#[verifier::external_body]
pub(crate) fn liq_image_height(img: &imagequant::Image<'static>) -> (h: usize)
    ensures
        h == image_height(*img),
{
    img.height()
}

/// Calls `Attributes::new`, which gives the quantizer's default settings.
#[verifier::external_body]
fn liq_attributes() -> imagequant::Attributes {
    imagequant::Attributes::new()
}

/// Calls `Attributes::set_speed`, which takes the speeds from 1 to 10 and
/// refuses every other.
#[verifier::external_body]
fn liq_set_speed(liq: &mut imagequant::Attributes, value: i32) -> (r: Result<
    (),
    imagequant::liq_error,
>)
    ensures
        r is Ok <==> 1 <= value <= 10,
{
    liq.set_speed(value)
}

/// Calls `Attributes::set_quality`, which takes a target up to 100 that is
/// no less than the minimum, and refuses every other.
#[verifier::external_body]
fn liq_set_quality(liq: &mut imagequant::Attributes, minimum: u8, target: u8) -> (r: Result<
    (),
    imagequant::liq_error,
>)
    ensures
        r is Ok <==> minimum <= target <= 100,
{
    liq.set_quality(minimum, target)
}

/// Calls `Attributes::set_max_colors`, which takes from 2 to 256 colours
/// and refuses every other number.
#[verifier::external_body]
fn liq_set_max_colors(liq: &mut imagequant::Attributes, colors: u32) -> (r: Result<
    (),
    imagequant::liq_error,
>)
    ensures
        r is Ok <==> 2 <= colors <= 256,
{
    liq.set_max_colors(colors)
}

/// Calls `Attributes::new_image` with a copy of the pixels and the gamma
/// left at its default, which stands for sRGB. It refuses an image
/// without pixels, and an image that it makes has the size asked for and
/// no fixed colours; nothing else is claimed of the result.
#[verifier::external_body]
pub(crate) fn liq_new_image(liq: &imagequant::Attributes, pixels: &Vec<RGBA8>, width: usize, height: usize) -> (r:
    Result<imagequant::Image<'static>, imagequant::liq_error>)
    ensures
        width == 0 || height == 0 ==> r is Err,
        r matches Ok(img) ==> image_width(img) == width && image_height(img) == height
            && image_fixed_colors(img) == Seq::<RGBA8>::empty(),
{
    let px: Vec<rgb::RGBA8> = pixels.iter().map(|p| rgb::RGBA8::new(p.r, p.g, p.b, p.a)).collect();
    liq.new_image(px, width, height, Default::default())
}

/// Calls `Image::set_importance_map` with a copy of the map. The image
/// keeps its size and its fixed colours; nothing is claimed of the result.
#[verifier::external_body]
fn liq_set_importance_map(img: &mut imagequant::Image<'static>, map: &Vec<u8>) -> (r: Result<
    (),
    imagequant::liq_error,
>)
    ensures
        is_kept(*final(img), *old(img)),
{
    img.set_importance_map(map.as_slice())
}

/// Calls `Image::add_fixed_color`, which puts the colour last among the
/// fixed colours where it succeeds, and leaves them as they were where
/// it fails. The image keeps its size.
#[verifier::external_body]
fn liq_add_fixed_color(img: &mut imagequant::Image<'static>, color: RGBA8) -> (r: Result<
    (),
    imagequant::liq_error,
>)
    ensures
        image_width(*final(img)) == image_width(*old(img)),
        image_height(*final(img)) == image_height(*old(img)),
        image_fixed_colors(*final(img)) == (if r is Ok {
            image_fixed_colors(*old(img)).push(color)
        } else {
            image_fixed_colors(*old(img))
        }),
{
    img.add_fixed_color(rgb::RGBA8::new(color.r, color.g, color.b, color.a))
}

/// Calls `Attributes::quantize`, which chooses a palette for the image.
/// The image keeps its size and its fixed colours; nothing is claimed of
/// the result.
#[verifier::external_body]
fn liq_quantize(liq: &imagequant::Attributes, img: &mut imagequant::Image<'static>) -> (r: Result<
    imagequant::QuantizationResult,
    imagequant::liq_error,
>)
    ensures
        is_kept(*final(img), *old(img)),
{
    liq.quantize(img)
}

/// Calls `QuantizationResult::palette_len`. Nothing is claimed of the result.
#[verifier::external_body]
fn liq_palette_len(res: &mut imagequant::QuantizationResult) -> usize {
    res.palette_len()
}

/// Calls `QuantizationResult::optionally_prepare_for_dithering_with_background_set`
/// on a new buffer with room for `area` indices, and gives the buffer back
/// with nothing in it. The room has to be that of the image's pixels:
/// the rows of the image are looked up by the rows of the buffer. The
/// image keeps its size and its fixed colours.
#[verifier::external_body]
fn liq_prepare(res: &mut imagequant::QuantizationResult, img: &mut imagequant::Image<'static>, area: usize) -> (r:
    Result<Vec<u8>, imagequant::liq_error>)
    requires
        area == image_width(*old(img)) * image_height(*old(img)),
    ensures
        r matches Ok(out) ==> out.len() == 0,
        is_kept(*final(img), *old(img)),
{
    let mut out = Vec::new();
    out.try_reserve_exact(area)?;
    res.optionally_prepare_for_dithering_with_background_set(img, &mut out.spare_capacity_mut()[..area])?;
    Ok(out)
}

/// Calls `Image::set_background`. The image keeps its size and its fixed
/// colours; nothing is claimed of the result.
#[verifier::external_body]
pub(crate) fn liq_set_background(img: &mut imagequant::Image<'static>, background: imagequant::Image<'static>) -> (r:
    Result<(), imagequant::liq_error>)
    ensures
        is_kept(*final(img), *old(img)),
{
    img.set_background(background)
}

/// Calls `QuantizationResult::remap_into_vec`, which fills the buffer with
/// a palette index for every pixel of the image and gives the palette.
/// The palette has 256 colours at most. The image keeps its size and its
/// fixed colours.
#[verifier::external_body]
pub(crate) fn liq_remap(res: &mut imagequant::QuantizationResult, img: &mut imagequant::Image<'static>, buf: &mut Vec<u8>) -> (r:
    Result<Vec<RGBA8>, imagequant::liq_error>)
    ensures
        r matches Ok(pal) ==> pal.len() <= 256 && final(buf).len() == image_width(*old(img))
            * image_height(*old(img)),
        is_kept(*final(img), *old(img)),
{
    let pal = res.remap_into_vec(img, buf)?;
    Ok(pal.iter().map(|p| RGBA8 { r: p.r, g: p.g, b: p.b, a: p.a }).collect())
}

/// The least power of two that is no less than `n`, for `n` up to 512.
pub open spec fn next_power_of_two_spec(n: int) -> int {
    if n <= 1 {
        1
    } else if n <= 2 {
        2
    } else if n <= 4 {
        4
    } else if n <= 8 {
        8
    } else if n <= 16 {
        16
    } else if n <= 32 {
        32
    } else if n <= 64 {
        64
    } else if n <= 128 {
        128
    } else if n <= 256 {
        256
    } else {
        512
    }
}

pub fn next_power_of_two(n: u32) -> (p: u32)
    requires
        n <= 512,
    ensures
        p == next_power_of_two_spec(n as int),
        n <= p,
{
    if n <= 1 {
        1
    } else if n <= 2 {
        2
    } else if n <= 4 {
        4
    } else if n <= 8 {
        8
    } else if n <= 16 {
        16
    } else if n <= 32 {
        32
    } else if n <= 64 {
        64
    } else if n <= 128 {
        128
    } else if n <= 256 {
        256
    } else {
        512
    }
}

/// The speed that the quantizer is set to, where it is not left at its
/// default: the fastest for all frames but the first where the encoding
/// is to be fast, the slowest where extra effort is asked for.
pub open spec fn quantizer_speed_spec(s: &SettingsExt, first_frame: bool) -> Option<i32> {
    if s.s.fast && !first_frame {
        Some(10)
    } else if s.extra_effort {
        Some(1)
    } else {
        None
    }
}

pub fn quantizer_speed(s: &SettingsExt, first_frame: bool) -> (speed: Option<i32>)
    ensures
        speed == quantizer_speed_spec(s, first_frame),
        speed matches Some(v) ==> 1 <= v <= 10,
{
    if s.s.fast && !first_frame {
        Some(10)
    } else if s.extra_effort {
        Some(1)
    } else {
        None
    }
}

/// The quality that the quantizer aims at: the best for the first frame,
/// which matters too much to be spoilt.
pub fn quantizer_quality(s: &SettingsExt, first_frame: bool) -> (q: u8)
    ensures
        q == (if first_frame { 100 } else { crate::settings::min_of(s.s.quality * 4 / 3, 100) }),
        q <= 100,
{
    if !first_frame {
        s.s.color_quality()
    } else {
        100
    }
}

/// The most colours that the quantizer may use, where the quality is so
/// low that fewer than 256 are enough: twice the quality, but room for the
/// fixed colours, and a power of two.
pub open spec fn max_colors_spec(quality: u8, fixed_colors: int) -> Option<int> {
    if quality < 50 {
        let wanted = if quality * 2 > 5 + fixed_colors {
            quality * 2
        } else {
            5 + fixed_colors
        };
        Some(crate::settings::min_of(next_power_of_two_spec(wanted), 256))
    } else {
        None
    }
}

pub fn max_colors(quality: u8, fixed_colors: usize) -> (m: Option<u32>)
    requires
        fixed_colors <= 255,
    ensures
        m matches Some(v) ==> 8 <= v <= 256,
        (match m {
            Some(v) => Some(v as int),
            None => None,
        }) == max_colors_spec(quality, fixed_colors as int),
{
    if quality < 50 {
        let min_colors: u32 = 5 + fixed_colors as u32;
        let twice: u32 = quality as u32 * 2;
        let wanted = if twice > min_colors { twice } else { min_colors };
        let p = next_power_of_two(wanted);
        Some(if p < 256 { p } else { 256 })
    } else {
        None
    }
}

/// The number of colours that the palette is chosen anew for, where a
/// palette of `len` colours would leave much of its written size unused:
/// the next power of two, unless `len` is one already or lies from 128
/// to 220.
pub open spec fn rounded_palette_spec(len: int) -> Option<int> {
    if (len < 128 || len > 220) && len != next_power_of_two_spec(len) {
        Some(next_power_of_two_spec(len))
    } else {
        None
    }
}

pub fn rounded_palette(len: usize) -> (m: Option<u32>)
    ensures
        len <= 512 ==> (match m {
            Some(v) => Some(v as int),
            None => None,
        }) == rounded_palette_spec(len as int),
        len > 512 ==> m is None,
        m matches Some(v) ==> 1 <= v <= 512,
{
    if len > 512 {
        return None;
    }
    let p = next_power_of_two(len as u32);
    if (len < 128 || len > 220) && len as u32 != p {
        Some(p)
    } else {
        None
    }
}

/// The colours that are fixed for a frame: transparency first where the
/// frame needs it, then the colours that are to be kept, each opaque.
pub open spec fn fixed_for(needs_transparency: bool, fixed_colors: Seq<RGB8>) -> Seq<RGBA8> {
    (if needs_transparency {
        seq![RGBA8 { r: 0, g: 0, b: 0, a: 0 }]
    } else {
        Seq::empty()
    }) + Seq::new(fixed_colors.len(), |i: int| crate::screen::opaque(fixed_colors[i]))
}

/// Whether the quantizer is given the importance map of a frame: for the
/// first frame, and where the frame before is kept on the screen. After a
/// frame that is cleared, only the remapping knows which pixels the
/// clearing has changed, so the map may be wrong there.
pub fn gives_importance_map(first_frame: bool, prev_frame_keeps: bool) -> (gives: bool)
    ensures
        gives == (first_frame || prev_frame_keeps),
{
    first_frame || prev_frame_keeps
}

/// What the quantizer has made of a frame, before the frame is remapped.
pub struct Quantized {
    pub liq: imagequant::Attributes,
    pub res: imagequant::QuantizationResult,
    pub img: imagequant::Image<'static>,
    pub out: Vec<u8>,
}

pub(crate) fn quant_err<T>(r: Result<T, imagequant::liq_error>) -> (res: Result<T, Error>)
    ensures
        res is Ok <==> r is Ok,
        res matches Ok(v) ==> r == Ok::<T, imagequant::liq_error>(v),
        res matches Err(e) ==> e is Quant,
{
    match r {
        Ok(v) => Ok(v),
        Err(e) => Err(Error::Quant(e)),
    }
}

/// Has a palette chosen for a frame. The importance map is given to the
/// quantizer for the first frame and where the frame before is kept on
/// the screen; transparency is kept among the colours where it is needed,
/// and so are the fixed colours. With extra effort the palette is chosen
/// anew for a power of two of colours where that fits better. A frame
/// without pixels is refused; of any other the quantizer decides.
pub fn quantize(
    settings: &SettingsExt,
    fixed_colors: &Vec<RGB8>,
    image: ImgVec<RGBA8>,
    importance_map: &Vec<u8>,
    first_frame: bool,
    needs_transparency: bool,
    prev_frame_keeps: bool,
) -> (res: Result<Quantized, Error>)
    requires
        image.wf(),
        fixed_colors.len() <= 255,
    ensures
        res matches Err(e) ==> e is Quant,
        res matches Ok(q) ==> q.out.len() == 0 && image_width(q.img) == image.width
            && image_height(q.img) == image.height,
        res matches Ok(q) ==> image_fixed_colors(q.img) == fixed_for(
            needs_transparency,
            fixed_colors@,
        ),
        image.width == 0 || image.height == 0 ==> res is Err,
{
    let mut liq = liq_attributes();
    match quantizer_speed(settings, first_frame) {
        Some(speed) => {
            quant_err(liq_set_speed(&mut liq, speed))?;
        },
        None => {},
    }
    quant_err(liq_set_quality(&mut liq, 0, quantizer_quality(settings, first_frame)))?;
    match max_colors(settings.s.quality, fixed_colors.len()) {
        Some(colors) => {
            quant_err(liq_set_max_colors(&mut liq, colors))?;
        },
        None => {},
    }
    let mut img = quant_err(liq_new_image(&liq, &image.buf, image.width, image.height))?;
    if gives_importance_map(first_frame, prev_frame_keeps) {
        quant_err(liq_set_importance_map(&mut img, importance_map))?;
    }
    if needs_transparency {
        quant_err(liq_add_fixed_color(&mut img, RGBA8 { r: 0, g: 0, b: 0, a: 0 }))?;
    }
    let ghost first = fixed_for(needs_transparency, Seq::empty());
    assert(image_fixed_colors(img) =~= first);
    let mut i: usize = 0;
    while i < fixed_colors.len()
        invariant
            i <= fixed_colors.len(),
            image_width(img) == image.width,
            image_height(img) == image.height,
            first == fixed_for(needs_transparency, Seq::empty()),
            image_fixed_colors(img) == first + Seq::new(
                i as nat,
                |k: int| crate::screen::opaque(fixed_colors@[k]),
            ),
        decreases fixed_colors.len() - i,
    {
        let color = fixed_colors[i];
        let ghost before = image_fixed_colors(img);
        quant_err(liq_add_fixed_color(&mut img, color.alpha(255)))?;
        assert(image_fixed_colors(img) =~= first + Seq::new(
            (i + 1) as nat,
            |k: int| crate::screen::opaque(fixed_colors@[k]),
        ));
        i += 1;
    }
    assert(image_fixed_colors(img) =~= fixed_for(needs_transparency, fixed_colors@));
    let mut res = quant_err(liq_quantize(&liq, &mut img))?;
    // a GIF stores palettes of a power of two of colours only
    if settings.extra_effort {
        let len = liq_palette_len(&mut res);
        match rounded_palette(len) {
            Some(colors) => {
                quant_err(liq_set_max_colors(&mut liq, colors))?;
                quant_err(liq_set_quality(&mut liq, 0, 100))?;
                res = quant_err(liq_quantize(&liq, &mut img))?;
            },
            None => {},
        }
    }
    let out = quant_err(liq_prepare(&mut res, &mut img, image.buf.len()))?;
    Ok(Quantized { liq, res, img, out })
}

/// A frame after its palette is chosen, before it is remapped.
pub struct RemapMessage {
    /// From 1.
    pub ordinal_frame_number: usize,
    /// From 0.
    pub frame_index: u32,
    pub end_pts: i64,
    pub dispose: DisposalMethod,
    pub liq: imagequant::Attributes,
    pub remap: imagequant::QuantizationResult,
    pub liq_image: imagequant::Image<'static>,
    pub out_buf: Vec<u8>,
    pub has_next_frame: bool,
    pub width: usize,
    pub height: usize,
}

/// How many of five frames in a row leave the pixels of the background to
/// the quantizer, for a quality: none up to 83, one more for every four
/// above 80.
pub open spec fn bg_keep_likelihood(quality: u8) -> int {
    if quality > 80 {
        (quality - 80) / 4
    } else {
        0
    }
}

/// Whether the pixels that do not matter are cleared before the palette
/// is chosen, which leaves the quantizer more room: where the frame before
/// is kept on the screen, and the encoding is fast or it is not the
/// frame's turn to improve the background.
pub open spec fn clears_unimportant(s: &SettingsExt, frame_index: u32, prev_frame_keeps: bool) -> bool {
    prev_frame_keeps && (s.s.fast || (s.s.quality < 100 && frame_index % 5 >= bg_keep_likelihood(
        s.s.quality,
    )))
}

/// The pixels as they are given to the quantizer.
pub open spec fn cleared_pixel(px: RGBA8, importance: u8, clears: bool) -> RGBA8 {
    if clears && importance == 0 {
        RGBA8 { r: 0, g: 0, b: 0, a: 0 }
    } else {
        px
    }
}

/// Clears the pixels that do not matter where that is asked for.
pub fn clear_unimportant(
    image: &mut ImgVec<RGBA8>,
    importance_map: &Vec<u8>,
    settings: &SettingsExt,
    frame_index: u32,
    prev_frame_keeps: bool,
)
    requires
        old(image).wf(),
        importance_map.len() == old(image).buf.len(),
    ensures
        final(image).wf(),
        final(image).width == old(image).width,
        final(image).height == old(image).height,
        forall|i: int|
            0 <= i < old(image).buf.len() ==> #[trigger] final(image).buf@[i] == cleared_pixel(
                old(image).buf@[i],
                importance_map@[i],
                clears_unimportant(settings, frame_index, prev_frame_keeps),
            ),
{
    if !prev_frame_keeps {
        return ;
    }
    let likelihood: u32 = if settings.s.quality > 80 {
        ((settings.s.quality - 80) / 4) as u32
    } else {
        0
    };
    if !(settings.s.fast || (settings.s.quality < 100 && frame_index % 5 >= likelihood)) {
        return ;
    }
    let len = image.buf.len();
    let mut i: usize = 0;
    while i < len
        invariant
            image.wf(),
            image.width == old(image).width,
            image.height == old(image).height,
            len == image.buf.len(),
            len == importance_map.len(),
            i <= len,
            forall|k: int|
                0 <= k < i ==> #[trigger] image.buf@[k] == cleared_pixel(
                    old(image).buf@[k],
                    importance_map@[k],
                    true,
                ),
            forall|k: int| i <= k < len ==> #[trigger] image.buf@[k] == old(image).buf@[k],
        decreases len - i,
    {
        if importance_map[i] == 0 {
            image.buf.set(i, RGBA8 { r: 0, g: 0, b: 0, a: 0 });
        }
        i += 1;
    }
}

/// Whether transparency is kept among the colours of a frame: in every
/// frame but the first, and in the first where it has transparent pixels.
pub open spec fn needs_transparency_spec(frame_index: u32, first_frame_has_transparency: bool) -> bool {
    frame_index > 0 || first_frame_has_transparency
}

/// Whether transparency is kept among the colours of a frame.
pub fn needs_transparency(frame_index: u32, first_frame_has_transparency: bool) -> (needs: bool)
    ensures
        needs == needs_transparency_spec(frame_index, first_frame_has_transparency),
{
    frame_index > 0 || first_frame_has_transparency
}

/// Whether a frame is the first that is written. Its palette is chosen
/// with the most care, since the frames after it are drawn over it.
pub fn is_first_frame(frame_index: u32) -> (first: bool)
    ensures
        first == (frame_index == 0),
{
    frame_index == 0
}

/// Has the palette of a frame chosen, and passes on what the frame is
/// written with.
pub fn quantize_message(msg: QuantizeMessage, settings: &SettingsExt, fixed_colors: &Vec<RGB8>) -> (res:
    Result<RemapMessage, Error>)
    requires
        msg.image.wf(),
        msg.importance_map.len() == msg.image.buf.len(),
        fixed_colors.len() <= 255,
    ensures
        res matches Err(e) ==> e is Quant,
        res matches Ok(m) ==> {
            &&& m.ordinal_frame_number == msg.ordinal_frame_number
            &&& m.frame_index == msg.frame_index
            &&& m.end_pts == msg.end_pts
            &&& m.dispose == msg.dispose
            &&& m.has_next_frame == msg.has_next_frame
            &&& m.width == msg.image.width
            &&& m.height == msg.image.height
            &&& m.out_buf.len() == 0
            &&& image_width(m.liq_image) == m.width
            &&& image_height(m.liq_image) == m.height
            &&& image_fixed_colors(m.liq_image) == fixed_for(
                needs_transparency_spec(msg.frame_index, msg.first_frame_has_transparency),
                fixed_colors@,
            )
        },
{
    let QuantizeMessage {
        end_pts,
        image,
        importance_map,
        ordinal_frame_number,
        frame_index,
        dispose,
        first_frame_has_transparency,
        prev_frame_keeps,
        has_next_frame,
    } = msg;
    let mut image = image;
    let width = image.width;
    let height = image.height;
    clear_unimportant(&mut image, &importance_map, settings, frame_index, prev_frame_keeps);
    let q = quantize(
        settings,
        fixed_colors,
        image,
        &importance_map,
        is_first_frame(frame_index),
        needs_transparency(frame_index, first_frame_has_transparency),
        prev_frame_keeps,
    )?;
    Ok(
        RemapMessage {
            ordinal_frame_number,
            frame_index,
            end_pts,
            dispose,
            liq: q.liq,
            remap: q.res,
            liq_image: q.img,
            out_buf: q.out,
            has_next_frame,
            width,
            height,
        },
    )
}

} // verus!
