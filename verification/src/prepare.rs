//! What is done to every frame before the frames are compared: decoding,
//! resizing, and bringing the alpha channel down to fully transparent and
//! fully opaque.

use crate::blur::{less_smart_blur, neighbour, smart_blur, is_companion};
use crate::color::{RGB8, RGBA8};
use crate::error::Error;
use crate::img::{lemma_px_index_split, ImgVec};
use crate::settings::{dimensions_for_image, dimensions_spec, SettingsExt, DEFAULT_AREA};
use vstd::prelude::*;

verus! {

/// Thresholds of the ordered dither of alpha, for the 8 by 8 pixels that
/// the pattern is repeated in.
pub open spec fn dither_pattern() -> Seq<u8> {
    seq![
        8u8, 104, 32, 128, 14, 110, 38, 134,
        72, 40, 96, 64, 78, 46, 102, 70,
        24, 120, 16, 112, 30, 126, 22, 118,
        88, 56, 80, 48, 94, 62, 86, 54,
        12, 108, 36, 132, 10, 106, 34, 130,
        76, 44, 100, 68, 74, 42, 98, 66,
        28, 124, 20, 116, 26, 122, 18, 114,
        92, 60, 84, 52, 90, 58, 82, 50,
    ]
}

/// Alpha below this is transparent at the edge of a shape.
pub const EDGE_THRESHOLD: u8 = 89;

/// One of two alphas is nearly transparent, the other nearly opaque.
pub open spec fn is_edge(a: u8, b: u8) -> bool {
    (a < 12 && b >= 240) || (b < 12 && a >= 240)
}

/// The pixel at `(x, y)` is half transparent on the edge between a
/// transparent and an opaque side, along a row, a column or a diagonal.
pub open spec fn is_anti_aliased(image: &ImgVec<RGBA8>, x: int, y: int) -> bool {
    let a = image.at(x, y).a;
    &&& a != 255 && a != 0
    &&& (is_edge(neighbour(image, x, y, 1).a, neighbour(image, x, y, 7).a) || is_edge(
        neighbour(image, x, y, 3).a,
        neighbour(image, x, y, 5).a,
    ) || is_edge(neighbour(image, x, y, 0).a, neighbour(image, x, y, 8).a) || is_edge(
        neighbour(image, x, y, 2).a,
        neighbour(image, x, y, 6).a,
    ))
}

/// The alpha that the pixel at `(x, y)` is left with: opaque pixels stay
/// opaque; on an anti-aliased edge one threshold holds for all, which
/// keeps the edge from becoming fuzzy; elsewhere the threshold follows the
/// dither pattern.
pub open spec fn binary_alpha_at(image: &ImgVec<RGBA8>, x: int, y: int) -> u8 {
    let a = image.at(x, y).a;
    let threshold = if is_anti_aliased(image, x, y) {
        EDGE_THRESHOLD
    } else {
        dither_pattern()[(y % 8) * 8 + x % 8]
    };
    if a == 255 || a >= threshold {
        255
    } else {
        0
    }
}

/// The pixel at place `i` of the buffer once the alpha is dithered.
pub open spec fn dithered_at(image: &ImgVec<RGBA8>, i: int) -> RGBA8 {
    let x = i % (image.width as int);
    let y = i / (image.width as int);
    RGBA8 { a: binary_alpha_at(image, x, y), ..image.buf@[i] }
}

fn edge(a: u8, b: u8) -> (e: bool)
    ensures
        e == is_edge(a, b),
{
    (a < 12 && b >= 240) || (b < 12 && a >= 240)
}

fn dither_threshold(x: usize, y: usize) -> (t: u8)
    ensures
        t == dither_pattern()[(y % 8) * 8 + x % 8],
{
    let pattern: [u8; 64] = [
        8, 104, 32, 128, 14, 110, 38, 134,
        72, 40, 96, 64, 78, 46, 102, 70,
        24, 120, 16, 112, 30, 126, 22, 118,
        88, 56, 80, 48, 94, 62, 86, 54,
        12, 108, 36, 132, 10, 106, 34, 130,
        76, 44, 100, 68, 74, 42, 98, 66,
        28, 124, 20, 116, 26, 122, 18, 114,
        92, 60, 84, 52, 90, 58, 82, 50,
    ];
    assert(pattern@ =~= dither_pattern());
    pattern[(y % 8) * 8 + x % 8]
}

fn anti_aliased(image: &ImgVec<RGBA8>, x: usize, y: usize) -> (aa: bool)
    requires
        image.wf(),
        x < image.width,
        y < image.height,
    ensures
        aa == is_anti_aliased(image, x as int, y as int),
{
    let a = image.pixel(x, y).a;
    if a == 255 || a == 0 {
        return false;
    }
    let x0 = if x > 0 { x - 1 } else { 0 };
    let x2 = if x + 1 < image.width { x + 1 } else { x };
    let y0 = if y > 0 { y - 1 } else { 0 };
    let y2 = if y + 1 < image.height { y + 1 } else { y };
    edge(image.pixel(x, y0).a, image.pixel(x, y2).a) || edge(
        image.pixel(x0, y).a,
        image.pixel(x2, y).a,
    ) || edge(image.pixel(x0, y0).a, image.pixel(x2, y2).a) || edge(
        image.pixel(x2, y0).a,
        image.pixel(x0, y2).a,
    )
}

/// Makes the transparency of an image binary by ordered dithering.
pub fn dither_image(image: &mut ImgVec<RGBA8>)
    requires
        old(image).wf(),
    ensures
        final(image).wf(),
        final(image).width == old(image).width,
        final(image).height == old(image).height,
        forall|i: int|
            0 <= i < old(image).buf.len() ==> #[trigger] final(image).buf@[i] == dithered_at(
                old(image),
                i,
            ),
        forall|i: int|
            0 <= i < old(image).buf.len() ==> (#[trigger] final(image).buf@[i]).a == 0 || final(image).buf@[i].a == 255,
{
    let len = image.buf.len();
    // the edges are looked for in the image as it was
    let mut alphas: Vec<u8> = Vec::with_capacity(len);
    let mut i: usize = 0;
    while i < len
        invariant
            image.wf(),
            *image == *old(image),
            len == image.buf.len(),
            i <= len,
            alphas.len() == i,
            forall|k: int| 0 <= k < i ==> #[trigger] alphas@[k] == dithered_at(old(image), k).a,
        decreases len - i,
    {
        assert(image.width > 0) by (nonlinear_arith)
            requires
                image.width * image.height > 0,
        ;
        proof {
            lemma_px_index_split(image.width as int, image.height as int, i as int);
        }
        let x = i % image.width;
        let y = i / image.width;
        let a = image.buf[i].a;
        let threshold = if anti_aliased(image, x, y) {
            EDGE_THRESHOLD
        } else {
            dither_threshold(x, y)
        };
        alphas.push(if a == 255 || a >= threshold { 255 } else { 0 });
        i += 1;
    }
    let mut i: usize = 0;
    while i < len
        invariant
            image.wf(),
            image.width == old(image).width,
            image.height == old(image).height,
            len == image.buf.len(),
            len == old(image).buf.len(),
            i <= len,
            alphas.len() == len,
            forall|k: int| 0 <= k < len ==> #[trigger] alphas@[k] == dithered_at(old(image), k).a,
            forall|k: int| 0 <= k < i ==> #[trigger] image.buf@[k] == dithered_at(old(image), k),
            forall|k: int| i <= k < len ==> #[trigger] image.buf@[k] == old(image).buf@[k],
        decreases len - i,
    {
        let px = image.buf[i];
        image.buf.set(i, RGBA8 { r: px.r, g: px.g, b: px.b, a: alphas[i] });
        i += 1;
    }
}

/// One channel of a colour over a background, for an alpha below 255.
pub open spec fn blend_channel(c: u8, m: u8, alpha: u8) -> u8 {
    ((c * alpha + m * (255 - alpha)) / 255) as u8
}

/// A pixel over a background of the colour `matte`: pixels that are
/// neither opaque nor fully transparent become opaque with the
/// background showing through.
pub open spec fn matted(px: RGBA8, matte: RGB8) -> RGBA8 {
    if 0 < px.a < 255 {
        RGBA8 {
            r: blend_channel(px.r, matte.r, px.a),
            g: blend_channel(px.g, matte.g, px.a),
            b: blend_channel(px.b, matte.b, px.a),
            a: 255,
        }
    } else {
        px
    }
}

fn blend(c: u8, m: u8, alpha: u8) -> (v: u8)
    ensures
        v == blend_channel(c, m, alpha),
{
    let a: u16 = alpha as u16;
    let inv: u16 = 255 - a;
    assert(c * a + m * inv <= 255 * 255) by (nonlinear_arith)
        requires
            c <= 255,
            m <= 255,
            a + inv == 255,
            0 <= a,
            0 <= inv,
    ;
    ((c as u16 * a + m as u16 * inv) / 255) as u8
}

/// Lays the half transparent pixels of an image over a background colour.
pub fn apply_matte(image: &mut ImgVec<RGBA8>, matte: RGB8)
    requires
        old(image).wf(),
    ensures
        final(image).wf(),
        final(image).width == old(image).width,
        final(image).height == old(image).height,
        forall|i: int|
            0 <= i < old(image).buf.len() ==> #[trigger] final(image).buf@[i] == matted(
                old(image).buf@[i],
                matte,
            ),
        forall|i: int|
            0 <= i < old(image).buf.len() ==> (#[trigger] final(image).buf@[i]).a == 0 || final(image).buf@[i].a == 255,
{
    let len = image.buf.len();
    let mut i: usize = 0;
    while i < len
        invariant
            image.wf(),
            image.width == old(image).width,
            image.height == old(image).height,
            len == image.buf.len(),
            len == old(image).buf.len(),
            i <= len,
            forall|k: int| 0 <= k < i ==> #[trigger] image.buf@[k] == matted(old(image).buf@[k], matte),
            forall|k: int| i <= k < len ==> #[trigger] image.buf@[k] == old(image).buf@[k],
        decreases len - i,
    {
        let px = image.buf[i];
        if px.a < 255 && px.a > 0 {
            image.buf.set(
                i,
                RGBA8 {
                    r: blend(px.r, matte.r, px.a),
                    g: blend(px.g, matte.g, px.a),
                    b: blend(px.b, matte.b, px.a),
                    a: 255,
                },
            );
        }
        i += 1;
    }
}

/// `out` is `image` with its alpha made binary: over the matte where there
/// is one, else by dithering.
pub open spec fn is_binary_alpha_of(image: &ImgVec<RGBA8>, matte: Option<RGB8>, out: &ImgVec<RGBA8>) -> bool {
    &&& out.wf()
    &&& out.width == image.width
    &&& out.height == image.height
    &&& forall|i: int|
        0 <= i < image.buf.len() ==> #[trigger] out.buf@[i] == (match matte {
            Some(m) => matted(image.buf@[i], m),
            None => dithered_at(image, i),
        })
}

/// Every pixel is either fully transparent or fully opaque.
pub open spec fn has_binary_alpha(image: &ImgVec<RGBA8>) -> bool {
    forall|i: int|
        0 <= i < image.buf.len() ==> (#[trigger] image.buf@[i]).a == 0 || image.buf@[i].a == 255
}

/// Makes the alpha of an image binary. With a matte colour the half
/// transparent pixels are laid over it, and nothing is dithered.
pub fn binary_alpha(image: ImgVec<RGBA8>, matte: Option<RGB8>) -> (out: ImgVec<RGBA8>)
    requires
        image.wf(),
    ensures
        is_binary_alpha_of(&image, matte, &out),
        has_binary_alpha(&out),
{
    let mut out = image;
    match matte {
        Some(m) => apply_matte(&mut out, m),
        None => dither_image(&mut out),
    }
    out
}

/// What `lodepng::decode32` makes of the bytes of a PNG image: the red,
/// green, blue and alpha of every pixel row by row, the width and the
/// height; or nothing where the bytes cannot be decoded.
pub uninterp spec fn decoded_png(data: Seq<u8>) -> Option<(Seq<RGBA8>, int, int)>;

/// Calls `lodepng::decode32` on the bytes of a PNG image. The result is
/// what `decoded_png` names; a failure comes back as a message that names
/// where the bytes came from.
#[verifier::external_body]
fn decode_png(data: &Vec<u8>, origin: &str) -> (res: Result<(Vec<RGBA8>, usize, usize), String>)
    ensures
        match res {
            Ok(img) => decoded_png(data@) == Some((img.0@, img.1 as int, img.2 as int)),
            Err(_) => decoded_png(data@) is None,
        },
{
    match lodepng::decode32(data) {
        Ok(img) => Ok(
            (
                img.buffer.iter().map(|p| RGBA8 { r: p.r, g: p.g, b: p.b, a: p.a }).collect(),
                img.width,
                img.height,
            ),
        ),
        Err(err) => Err(format!("Can't load {origin}: {err}")),
    }
}

/// What `resize::new` and `Resizer::resize` make of the pixels of an image
/// of one size for another size, with the Lanczos filter of three lobes
/// on pixels with premultiplied alpha. There is nothing where the
/// resizer refuses the sizes.
pub uninterp spec fn resized(
    src: Seq<RGBA8>,
    src_width: int,
    src_height: int,
    dst_width: int,
    dst_height: int,
) -> Option<Seq<RGBA8>>;

/// Calls `resize::new` and `Resizer::resize` with the Lanczos filter of
/// three lobes on pixels with premultiplied alpha. `dst_area` pixels come
/// back where it succeeds; a failure comes back as its message. The
/// colours are the resizer's.
#[verifier::external_body]
fn resize_lanczos3(
    src: &Vec<RGBA8>,
    src_width: usize,
    src_height: usize,
    dst_width: usize,
    dst_height: usize,
    dst_area: usize,
) -> (res: Result<Vec<RGBA8>, String>)
    requires
        src.len() == src_width * src_height,
        dst_area == dst_width * dst_height,
    ensures
        res matches Ok(dst) ==> dst.len() == dst_area,
        (match res {
            Ok(dst) => Some(dst@),
            Err(_) => None,
        }) == resized(
            src@,
            src_width as int,
            src_height as int,
            dst_width as int,
            dst_height as int,
        ),
{
    let src: Vec<rgb::RGBA8> = src.iter().map(|p| rgb::RGBA8::new(p.r, p.g, p.b, p.a)).collect();
    let mut dst = vec![rgb::RGBA8::new(0, 0, 0, 0); dst_area];
    resize::new(src_width, src_height, dst_width, dst_height, resize::Pixel::RGBA8P, resize::Type::Lanczos3)
        .and_then(|mut r| r.resize(&src, &mut dst))
        .map_err(|err| format!("{err}"))?;
    Ok(dst.iter().map(|p| RGBA8 { r: p.r, g: p.g, b: p.b, a: p.a }).collect())
}

/// Where the pixels of a frame come from.
pub enum FrameSource {
    Pixels(ImgVec<RGBA8>),
    /// The bytes of a PNG image.
    PngData(Vec<u8>),
    /// The bytes of a PNG file, with the path that they were read from.
    PngFile { data: Vec<u8>, path: String },
}

/// A frame as it is given to the encoder.
pub struct InputFrame {
    /// The pixels to resize and encode.
    pub frame: FrameSource,
    /// When the frame is shown, in millionths of a second.
    pub presentation_timestamp: i64,
    pub frame_index: usize,
}

/// A frame that is ready to be compared with its neighbours.
pub struct InputFrameResized {
    /// The pixels to encode.
    pub frame: ImgVec<RGBA8>,
    /// The same, smoothed for the denoiser.
    pub frame_blurred: ImgVec<RGB8>,
    /// When the frame is shown, in millionths of a second.
    pub presentation_timestamp: i64,
}

/// An image can be resized: it is not empty, and its pixels can be counted.
pub open spec fn can_resize(image: &ImgVec<RGBA8>) -> bool {
    image.width > 0 && image.height > 0 && image.width * image.height + DEFAULT_AREA / 2
        <= usize::MAX
}

/// The size that the settings give an image.
pub open spec fn prepared_size(image: &ImgVec<RGBA8>, width: Option<u32>, height: Option<u32>) -> (
    int,
    int,
) {
    dimensions_spec(image.width as int, image.height as int, width, height)
}

/// The image keeps its size under the settings.
pub open spec fn keeps_size(image: &ImgVec<RGBA8>, width: Option<u32>, height: Option<u32>) -> bool {
    prepared_size(image, width, height) == (image.width as int, image.height as int)
}

/// `other` is the image brought to another size by the resizer.
pub open spec fn is_resized(image: &ImgVec<RGBA8>, other: &ImgVec<RGBA8>) -> bool {
    other.wf() && resized(
        image.buf@,
        image.width as int,
        image.height as int,
        other.width as int,
        other.height as int,
    ) == Some(other.buf@)
}

/// An image can be brought to the size that the settings give it: it can
/// be resized, and it keeps its size or the resizer takes the sizes.
pub open spec fn can_prepare(image: &ImgVec<RGBA8>, width: Option<u32>, height: Option<u32>) -> bool {
    let size = prepared_size(image, width, height);
    can_resize(image) && (keeps_size(image, width, height) || resized(
        image.buf@,
        image.width as int,
        image.height as int,
        size.0,
        size.1,
    ) is Some)
}

/// `out` is what a frame is encoded as: it has the size that the settings
/// give the frame and binary alpha. Where the size of the frame is kept,
/// its pixels are those of the frame but for their alpha; otherwise they are
/// those that the resizer makes of the frame, but for their alpha.
pub open spec fn is_prepared(
    image: &ImgVec<RGBA8>,
    width: Option<u32>,
    height: Option<u32>,
    matte: Option<RGB8>,
    out: &ImgVec<RGBA8>,
) -> bool {
    &&& out.wf()
    &&& has_binary_alpha(out)
    &&& (out.width as int, out.height as int) == dimensions_spec(
        image.width as int,
        image.height as int,
        width,
        height,
    )
    &&& if out.width == image.width && out.height == image.height {
        is_binary_alpha_of(image, matte, out)
    } else {
        exists|other: ImgVec<RGBA8>|
            is_resized(image, &other) && #[trigger] is_binary_alpha_of(&other, matte, out)
    }
}

/// Resizes an image to the size that the settings ask for, and makes its
/// alpha binary. An image is refused where it is empty or too large, and
/// where the resizer refuses the sizes; one that keeps its size is never
/// given to the resizer.
pub fn resized_binary_alpha(
    image: ImgVec<RGBA8>,
    width: Option<u32>,
    height: Option<u32>,
    matte: Option<RGB8>,
) -> (res: Result<ImgVec<RGBA8>, Error>)
    requires
        image.wf(),
    ensures
        match res {
            Ok(out) => can_resize(&image) && is_prepared(&image, width, height, matte, &out),
            Err(e) => e is WrongSize,
        },
        res is Ok <==> can_prepare(&image, width, height),
{
    if image.width == 0 || image.height == 0 {
        return Err(Error::WrongSize("frame is empty".to_string()));
    }
    if image.buf.len() > usize::MAX - DEFAULT_AREA / 2 {
        return Err(Error::WrongSize("frame is too large".to_string()));
    }
    let (width, height) = dimensions_for_image((image.width, image.height), (width, height));
    let resized = if width != image.width || height != image.height {
        assert(width * height <= image.width * image.height) by (nonlinear_arith)
            requires
                width <= image.width,
                height <= image.height,
        ;
        let dst = match resize_lanczos3(
            &image.buf,
            image.width,
            image.height,
            width,
            height,
            width * height,
        ) {
            Ok(dst) => dst,
            Err(msg) => {
                return Err(Error::WrongSize(msg));
            },
        };
        ImgVec { buf: dst, width, height }
    } else {
        image
    };
    Ok(binary_alpha(resized, matte))
}

/// The pixels of a frame before it is resized.
pub open spec fn is_source_image(source: &FrameSource, image: &ImgVec<RGBA8>) -> bool {
    match source {
        FrameSource::Pixels(img) => *image == *img,
        FrameSource::PngData(data) => decoded_png(data@) == Some(
            (image.buf@, image.width as int, image.height as int),
        ),
        FrameSource::PngFile { data, path } => decoded_png(data@) == Some(
            (image.buf@, image.width as int, image.height as int),
        ),
    }
}

/// The bytes are those of a PNG image that has as many pixels as its
/// width and height say.
pub open spec fn is_png(data: Seq<u8>) -> bool {
    decoded_png(data) matches Some(d) && d.0.len() == d.1 * d.2
}

/// The pixels of a frame can be had: they are given, or the bytes given
/// are those of a PNG image.
pub open spec fn can_decode(source: &FrameSource) -> bool {
    match source {
        FrameSource::Pixels(_) => true,
        FrameSource::PngData(data) => is_png(data@),
        FrameSource::PngFile { data, path } => is_png(data@),
    }
}

/// Decodes a frame where it has to be decoded.
pub fn decode_frame(source: FrameSource) -> (res: Result<ImgVec<RGBA8>, Error>)
    requires
        source matches FrameSource::Pixels(img) ==> img.wf(),
    ensures
        match res {
            Ok(image) => image.wf() && is_source_image(&source, &image),
            Err(e) => e is PNG && !(source is Pixels),
        },
        res is Ok <==> can_decode(&source),
{
    let decoded = match source {
        FrameSource::Pixels(image) => {
            return Ok(image);
        },
        FrameSource::PngData(data) => decode_png(&data, "PNG"),
        FrameSource::PngFile { data, path } => decode_png(&data, path.as_str()),
    };
    match decoded {
        Ok((buf, width, height)) => match ImgVec::new(buf, width, height) {
            Some(image) => Ok(image),
            None => Err(Error::PNG("PNG has wrong size".to_string())),
        },
        Err(msg) => Err(Error::PNG(msg)),
    }
}

/// Whether an image can be brought to its size depends on its pixels and
/// its size alone, so every image that a source stands for can be if one
/// of them can.
proof fn lemma_same_source(
    source: &FrameSource,
    image: &ImgVec<RGBA8>,
    width: Option<u32>,
    height: Option<u32>,
)
    requires
        is_source_image(source, image),
    ensures
        forall|other: ImgVec<RGBA8>|
            is_source_image(source, &other) && #[trigger] can_prepare(&other, width, height)
                ==> can_prepare(image, width, height),
{
    assert forall|other: ImgVec<RGBA8>|
        is_source_image(source, &other) && #[trigger] can_prepare(
            &other,
            width,
            height,
        ) implies can_prepare(image, width, height) by {
        assert(other.buf@ == image.buf@);
        assert(other.width == image.width && other.height == image.height);
    }
}

/// Prepares one frame: decodes it, brings it to the size that the
/// settings ask for with binary alpha, and makes its smoothed companion.
/// The frame keeps its place among the frames and its time. It fails
/// where the frame cannot be decoded or cannot be brought to its size.
pub fn resize_frame(frame: InputFrame, settings: &SettingsExt) -> (res: Result<
    (usize, InputFrameResized),
    Error,
>)
    requires
        frame.frame matches FrameSource::Pixels(img) ==> img.wf(),
    ensures
        res is Ok <==> exists|image: ImgVec<RGBA8>|
            image.wf() && is_source_image(&frame.frame, &image) && #[trigger] can_prepare(
                &image,
                settings.s.width,
                settings.s.height,
            ),
        match res {
            Ok((index, resized)) => {
                &&& index == frame.frame_index
                &&& resized.presentation_timestamp == frame.presentation_timestamp
                &&& resized.frame.wf()
                &&& has_binary_alpha(&resized.frame)
                &&& is_companion(&resized.frame, &resized.frame_blurred, settings.extra_effort)
                &&& exists|image: ImgVec<RGBA8>|
                    is_source_image(&frame.frame, &image) && #[trigger] is_prepared(
                        &image,
                        settings.s.width,
                        settings.s.height,
                        settings.matte,
                        &resized.frame,
                    )
            },
            Err(e) => e is PNG || e is WrongSize,
        },
{
    let image = match decode_frame(frame.frame) {
        Ok(image) => image,
        Err(e) => {
            return Err(e);
        },
    };
    let ghost source = image;
    proof {
        lemma_same_source(&frame.frame, &source, settings.s.width, settings.s.height);
    }
    let prepared = match resized_binary_alpha(
        image,
        settings.s.width,
        settings.s.height,
        settings.matte,
    ) {
        Ok(prepared) => prepared,
        Err(e) => {
            return Err(e);
        },
    };
    let resized = prepared;
    assert(is_source_image(&frame.frame, &source) && can_prepare(
        &source,
        settings.s.width,
        settings.s.height,
    ));
    let frame_blurred = if settings.extra_effort {
        smart_blur(&resized)
    } else {
        less_smart_blur(&resized)
    };
    proof {
        assert(is_prepared(
            &source,
            settings.s.width,
            settings.s.height,
            settings.matte,
            &resized,
        ));
    }
    Ok(
        (
            frame.frame_index,
            InputFrameResized {
                frame: resized,
                frame_blurred,
                presentation_timestamp: frame.presentation_timestamp,
            },
        ),
    )
}


} // verus!
