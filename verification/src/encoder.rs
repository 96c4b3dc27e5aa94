//! The compression of the frames and the bytes of the GIF file, for which
//! the `gif` crate is called.

use crate::color::RGB8;
use crate::error::{Error, IoErrorKind};
use crate::gifsicle::{is_lossy_lzw, min_code_size_spec, GiflossyImage, GiflossyWriter, Tolerance};
use crate::palette::{padded_len, palette_bytes, palette_bytes_spec};
use crate::remap::GIFFrame;
use crate::screen::DisposalMethod;
use crate::settings::{Repeat, Settings, SettingsExt};
use vstd::prelude::*;

verus! {

/// What went wrong while a GIF was written.
#[verifier::external_type_specification]
#[verifier::external_body]
pub struct ExEncodingError(gif::EncodingError);

/// The kinds of failed input and output that std tells apart.
#[verifier::external_type_specification]
#[verifier::external_body]
pub struct ExErrorKind(std::io::ErrorKind);

/// The encoder of the `gif` crate, writing into memory.
#[verifier::external_body]
pub struct GifStream {
    enc: gif::Encoder<Vec<u8>>,
}

/// The bytes that the encoder has written and that have not been taken
/// from it.
pub uninterp spec fn stream_bytes(stream: GifStream) -> Seq<u8>;

/// What `Frame::make_lzw_pre_encoded` makes of the palette indices of a
/// frame: the least width of the codes, then the LZW codes.
pub uninterp spec fn lzw_data(pixels: Seq<u8>) -> Seq<u8>;

/// A number in two bytes, the lower first.
pub open spec fn le16(v: u16) -> Seq<u8> {
    seq![(v % 256) as u8, (v / 256) as u8]
}

/// The head of a GIF file for a screen of the given size: the signature
/// and the size, with no palette for the whole file. The colour behind
/// the frames is the first, and the pixels are square.
pub open spec fn screen_header(width: u16, height: u16) -> Seq<u8> {
    seq![71u8, 73, 70, 56, 57, 97] + le16(width) + le16(height) + seq![0u8, 0, 0]
}

/// How many bytes the head of a file has without a palette.
pub const HEAD_LEN: usize = 13;

/// The place of the byte in the head that tells of a palette for the
/// whole file.
pub const HEAD_FLAGS: usize = 10;

/// The head as `Encoder::new` writes it where it is given no palette: it
/// announces a palette of two colours all the same, and two black colours
/// follow the head.
pub open spec fn encoder_head(width: u16, height: u16) -> Seq<u8> {
    seq![71u8, 73, 70, 56, 57, 97] + le16(width) + le16(height) + seq![
        128u8, 0, 0,
        0, 0, 0,
        0, 0, 0,
    ]
}

/// The extension that tells how often the animation is played. None is
/// written where it is played once.
pub open spec fn repeat_extension(repeat: Repeat) -> Seq<u8> {
    match repeat {
        Repeat::Finite(0) => Seq::empty(),
        Repeat::Finite(n) => seq![33u8, 255, 11, 78, 69, 84, 83, 67, 65, 80, 69, 50, 46, 48, 3, 1]
            + le16(n) + seq![0u8],
        Repeat::Infinite => seq![
            33u8, 255, 11, 78, 69, 84, 83, 67, 65, 80, 69, 50, 46, 48, 3, 1, 0, 0, 0,
        ],
    }
}

/// The comment that names the encoder.
pub open spec fn comment_extension() -> Seq<u8> {
    seq![33u8, 254, 7, 103, 105, 102, 46, 115, 107, 105, 0]
}

/// Data in blocks of 255 bytes at most, each after a byte with its length.
pub open spec fn sub_blocks(data: Seq<u8>) -> Seq<u8>
    decreases data.len(),
{
    if data.len() == 0 {
        Seq::empty()
    } else if data.len() <= 255 {
        seq![data.len() as u8] + data
    } else {
        seq![255u8] + data.subrange(0, 255) + sub_blocks(data.skip(255))
    }
}

/// The end of a GIF file.
pub const TRAILER: u8 = 59;

/// A compressed frame as it is written.
pub struct LzwFrame {
    pub left: u16,
    pub top: u16,
    pub width: u16,
    pub height: u16,
    pub dispose: DisposalMethod,
    pub transparent: Option<u8>,
    /// Red, green and blue of every colour.
    pub palette: Vec<u8>,
    /// The least width of the codes, then the LZW codes.
    pub buffer: Vec<u8>,
}

impl LzwFrame {
    /// The frame can be written: its palette has a power of two of colours
    /// from 2 to 256, and its codes begin with a width from 2 to 8.
    pub open spec fn wf(&self) -> bool {
        &&& exists|n: int| 0 <= n <= 256 && self.palette.len() == 3 * #[trigger] padded_len(n)
        &&& self.buffer.len() >= 1
        &&& 2 <= self.buffer@[0] <= 8
    }

    /// The number by which the size of the palette is written.
    pub open spec fn table_size(&self) -> u8 {
        let colors = self.palette.len() / 3;
        if colors <= 2 {
            0
        } else if colors <= 4 {
            1
        } else if colors <= 8 {
            2
        } else if colors <= 16 {
            3
        } else if colors <= 32 {
            4
        } else if colors <= 64 {
            5
        } else if colors <= 128 {
            6
        } else {
            7
        }
    }

    /// The bytes of the frame in the file: the extension that tells how
    /// the frame is shown, with its delay in hundredths of a second; the
    /// place and size of the frame; its palette; and its codes in blocks.
    pub open spec fn bytes(&self, delay: u16) -> Seq<u8> {
        let shown = (match self.dispose {
            DisposalMethod::Keep => 4int,
            DisposalMethod::Background => 8int,
        } + if self.transparent is Some { 1int } else { 0int }) as u8;
        let trns = match self.transparent {
            Some(t) => t,
            None => 0,
        };
        seq![33u8, 249, 4, shown] + le16(delay) + seq![trns, 0u8, 44u8] + le16(self.left) + le16(
            self.top,
        ) + le16(self.width) + le16(self.height) + seq![(128 + self.table_size()) as u8]
            + self.palette@ + seq![self.buffer@[0]] + sub_blocks(self.buffer@.skip(1)) + seq![0u8]
    }
}

/// Calls `Encoder::new` with a buffer in memory and an empty palette. It
/// writes the head of the file, which cannot fail in memory.
#[verifier::external_body]
fn stream_new(width: u16, height: u16) -> (res: Result<GifStream, gif::EncodingError>)
    ensures
        res is Ok,
        res matches Ok(s) ==> stream_bytes(s) == encoder_head(width, height),
{
    Ok(GifStream { enc: gif::Encoder::new(Vec::new(), width, height, &[])? })
}

/// Calls `Encoder::write_extension` with the repetitions, which adds the
/// looping extension unless the animation is played once only.
#[verifier::external_body]
fn stream_write_repeat(stream: &mut GifStream, repeat: Repeat) -> (res: Result<
    (),
    gif::EncodingError,
>)
    ensures
        res is Ok,
        stream_bytes(*final(stream)) == stream_bytes(*old(stream)) + repeat_extension(repeat),
{
    stream.enc.write_extension(
        gif::ExtensionData::Repetitions(
            match repeat {
                Repeat::Finite(n) => gif::Repeat::Finite(n),
                Repeat::Infinite => gif::Repeat::Infinite,
            },
        ),
    )
}

/// Calls `Encoder::write_raw_extension` with a comment of the encoder's name.
#[verifier::external_body]
fn stream_write_comment(stream: &mut GifStream) -> (res: Result<(), std::io::ErrorKind>)
    ensures
        res is Ok,
        stream_bytes(*final(stream)) == stream_bytes(*old(stream)) + comment_extension(),
{
    stream.enc.write_raw_extension(gif::Extension::Comment.into(), &[b"gif.ski"]).map_err(
        |e| e.kind(),
    )
}

/// Calls `Encoder::write_lzw_pre_encoded_frame`, which adds the frame to
/// the file. It refuses a palette of more than 256 colours and codes that
/// begin with a width outside 2 to 11.
#[verifier::external_body]
fn stream_write_frame(stream: &mut GifStream, frame: &LzwFrame, delay: u16) -> (res: Result<
    (),
    gif::EncodingError,
>)
    ensures
        frame.wf() ==> res is Ok,
        res is Ok && frame.wf() ==> stream_bytes(*final(stream)) == stream_bytes(*old(stream))
            + frame.bytes(delay),
{
    let dispose = match frame.dispose {
        DisposalMethod::Keep => gif::DisposalMethod::Keep,
        DisposalMethod::Background => gif::DisposalMethod::Background,
    };
    let palette = Some(frame.palette.clone());
    let buffer = std::borrow::Cow::Borrowed(frame.buffer.as_slice());
    let (left, top, width, height) = (frame.left, frame.top, frame.width, frame.height);
    let transparent = frame.transparent;
    let f = gif::Frame { delay, dispose, transparent, top, left, width, height, palette, buffer, ..Default::default() };
    stream.enc.write_lzw_pre_encoded_frame(&f)
}

/// Takes out of the encoder's buffer, through `Encoder::get_mut`, what has
/// been written into it.
#[verifier::external_body]
fn stream_take(stream: &mut GifStream) -> (bytes: Vec<u8>)
    ensures
        bytes@ == stream_bytes(*old(stream)),
        stream_bytes(*final(stream)) == Seq::<u8>::empty(),
{
    std::mem::take(stream.enc.get_mut())
}

/// Calls `Encoder::into_inner`, which ends the file and gives the buffer.
#[verifier::external_body]
fn stream_finish(stream: GifStream) -> (res: Result<Vec<u8>, std::io::ErrorKind>)
    ensures
        res is Ok,
        res matches Ok(bytes) ==> bytes@ == stream_bytes(stream).push(TRAILER),
{
    stream.enc.into_inner().map_err(|e| e.kind())
}

/// Calls `Frame::make_lzw_pre_encoded` on a frame of the given palette
/// indices, and gives its codes. They begin with the least width of the
/// codes, which is from 2 to 8.
#[verifier::external_body]
fn gif_lzw(pixels: &Vec<u8>) -> (data: Vec<u8>)
    ensures
        data@ == lzw_data(pixels@),
        data.len() >= 1,
        2 <= data@[0] <= 8,
{
    let mut frame = gif::Frame { buffer: std::borrow::Cow::Borrowed(pixels), ..Default::default() };
    frame.make_lzw_pre_encoded();
    frame.buffer.into_owned()
}

/// What an error of the `gif` crate holds: what the container refuses in
/// a frame, or the kind of the output's failure.
pub uninterp spec fn encoding_error_held(e: gif::EncodingError) -> Result<
    gif::EncodingFormatError,
    std::io::ErrorKind,
>;

/// The kind of the encoder's own that stands for a kind of std: the same
/// by name for the ten kinds that the encoder knows, `Other` for the rest.
pub uninterp spec fn io_kind_held(kind: std::io::ErrorKind) -> IoErrorKind;

/// Tells the two kinds of `gif::EncodingError` apart: the format error
/// that the variant `Format` holds, or what `std::io::Error::kind` says of
/// the error that the variant `Io` holds.
#[verifier::external_body]
fn encoding_error_parts(e: gif::EncodingError) -> (parts: Result<
    gif::EncodingFormatError,
    std::io::ErrorKind,
>)
    ensures
        parts == encoding_error_held(e),
{
    match e {
        gif::EncodingError::Format(f) => Ok(f),
        gif::EncodingError::Io(err) => Err(err.kind()),
    }
}

/// Tells the kinds of `std::io::ErrorKind` apart that the encoder knows.
#[verifier::external_body]
fn io_error_kind(kind: std::io::ErrorKind) -> (k: IoErrorKind)
    ensures
        k == io_kind_held(kind),
{
    match kind {
        std::io::ErrorKind::NotFound => IoErrorKind::NotFound,
        std::io::ErrorKind::PermissionDenied => IoErrorKind::PermissionDenied,
        std::io::ErrorKind::AlreadyExists => IoErrorKind::AlreadyExists,
        std::io::ErrorKind::InvalidInput => IoErrorKind::InvalidInput,
        std::io::ErrorKind::InvalidData => IoErrorKind::InvalidData,
        std::io::ErrorKind::TimedOut => IoErrorKind::TimedOut,
        std::io::ErrorKind::WriteZero => IoErrorKind::WriteZero,
        std::io::ErrorKind::Interrupted => IoErrorKind::Interrupted,
        std::io::ErrorKind::UnexpectedEof => IoErrorKind::UnexpectedEof,
        std::io::ErrorKind::OutOfMemory => IoErrorKind::OutOfMemory,
        _ => IoErrorKind::Other,
    }
}

/// The encoder's error for what an error of the `gif` crate holds: a
/// format error is handed on as it is, a failure of output by its kind.
pub open spec fn gif_error_spec(e: gif::EncodingError) -> Error {
    match encoding_error_held(e) {
        Ok(format) => Error::Gif(format),
        Err(kind) => Error::Io(io_kind_held(kind)),
    }
}

/// The encoder's error for an error of the `gif` crate: a failure of
/// output as such, anything else as a frame that a GIF cannot hold.
pub fn gif_error(e: gif::EncodingError) -> (err: Error)
    ensures
        err == gif_error_spec(e),
        err is Io || err is Gif,
{
    match encoding_error_parts(e) {
        Ok(format) => Error::Gif(format),
        Err(kind) => Error::Io(io_error_kind(kind)),
    }
}

/// The head of a file without the palette that the encoder has put
/// after it: the frames bring their own palettes, so the file has none
/// for all of them.
pub fn without_global_palette(head: Vec<u8>, width: u16, height: u16) -> (plain: Vec<u8>)
    requires
        head@ == encoder_head(width, height),
    ensures
        plain@ == screen_header(width, height),
{
    let mut plain = head;
    plain.truncate(HEAD_LEN);
    plain.set(HEAD_FLAGS, 0);
    assert(plain@ =~= screen_header(width, height));
    plain
}

/// The colours of a palette as it is written, with those that fill it up
/// to a power of two.
pub open spec fn padded_colors(pal: Seq<RGB8>) -> Seq<RGB8> {
    let bytes = palette_bytes_spec(pal);
    Seq::new(
        padded_len(pal.len() as int) as nat,
        |i: int| RGB8 { r: bytes[3 * i], g: bytes[3 * i + 1], b: bytes[3 * i + 2] },
    )
}

/// The compressor of the frames and the writer of the file.
pub struct RustEncoder {
    pub gif_enc: Option<GifStream>,
}

impl RustEncoder {
    /// An encoder that has written nothing.
    pub fn new() -> (enc: RustEncoder)
        ensures
            enc.gif_enc is None,
    {
        RustEncoder { gif_enc: None }
    }

    /// What the lossy compressor goes by for a frame.
    pub open spec fn tolerance(f: &GIFFrame, loss: u32) -> Tolerance {
        Tolerance {
            pal: padded_colors(f.pal@),
            transparent: f.transparent_index,
            max_diff: loss as int,
        }
    }

    /// Compresses the palette indices of a frame with the lossy compressor.
    /// A frame with an index that its palette does not hold is refused.
    pub fn compress_gifsicle(frame: &GIFFrame, palette: &Vec<u8>, loss: u32) -> (res: Result<
        Vec<u8>,
        Error,
    >)
        requires
            frame.image.wf(),
            frame.image.width <= 0xffff,
            frame.image.height <= 0xffff,
            frame.pal.len() <= 256,
            palette@ == palette_bytes_spec(frame.pal@),
        ensures
            res matches Ok(data) ==> is_lossy_lzw(
                Self::tolerance(frame, loss),
                frame.image.buf@,
                min_code_size_spec(padded_len(frame.pal.len() as int)),
                data@,
            ) && data.len() >= 1 && 2 <= data@[0] <= 8,
            res matches Err(e) ==> e matches Error::Io(IoErrorKind::OutOfMemory) || (
            e is Gifsicle && exists|i: int|
                0 <= i < frame.image.buf.len() && #[trigger] frame.image.buf@[i] >= padded_len(
                    frame.pal.len() as int,
                )),
            (exists|i: int|
                0 <= i < frame.image.buf.len() && #[trigger] frame.image.buf@[i] >= padded_len(
                    frame.pal.len() as int,
                )) ==> (res matches Err(e) && e is Gifsicle),
    {
        let colors = palette.len() / 3;
        let mut g_pal: Vec<RGB8> = Vec::with_capacity(colors);
        let mut i: usize = 0;
        while i < colors
            invariant
                i <= colors,
                colors == padded_len(frame.pal.len() as int),
                palette@ == palette_bytes_spec(frame.pal@),
                g_pal.len() == i,
                forall|k: int| 0 <= k < i ==> #[trigger] g_pal@[k] == padded_colors(frame.pal@)[k],
            decreases colors - i,
        {
            g_pal.push(RGB8 { r: palette[3 * i], g: palette[3 * i + 1], b: palette[3 * i + 2] });
            i += 1;
        }
        assert(g_pal@ =~= padded_colors(frame.pal@));
        let mut k: usize = 0;
        while k < frame.image.buf.len()
            invariant
                k <= frame.image.buf.len(),
                g_pal.len() == padded_len(frame.pal.len() as int),
                forall|j: int| 0 <= j < k ==> #[trigger] frame.image.buf@[j] < g_pal.len(),
            decreases frame.image.buf.len() - k,
        {
            if frame.image.buf[k] as usize >= g_pal.len() {
                assert(frame.image.buf@[k as int] >= padded_len(frame.pal.len() as int));
                return Err(Error::Gifsicle);
            }
            k += 1;
        }
        let gif_img = GiflossyImage::new(
            frame.image.buf.as_slice(),
            frame.image.width as u16,
            frame.image.height as u16,
            frame.transparent_index,
            Some(g_pal.as_slice()),
        );
        let mut lossy_writer = GiflossyWriter { loss };
        let data = lossy_writer.write(&gif_img, None)?;
        proof {
            crate::gifsicle::lemma_lossy_lzw_first_byte(
                Self::tolerance(frame, loss),
                frame.image.buf@,
                min_code_size_spec(padded_len(frame.pal.len() as int)),
                data@,
            );
        }
        Ok(data)
    }

    /// Compresses a frame: with the lossy compressor where the settings
    /// allow a loss, else without loss. The palette is filled up to a
    /// power of two of colours.
    pub fn compress_frame(f: GIFFrame, settings: &SettingsExt) -> (res: Result<LzwFrame, Error>)
        requires
            f.image.wf(),
            f.image.width <= 0xffff,
            f.image.height <= 0xffff,
            f.pal.len() <= 256,
        ensures
            settings.giflossy_quality >= 100 ==> res is Ok,
            res matches Ok(out) ==> {
                &&& out.wf()
                &&& out.left == f.left
                &&& out.top == f.top
                &&& out.width == f.image.width
                &&& out.height == f.image.height
                &&& out.dispose == f.dispose
                &&& out.transparent == f.transparent_index
                &&& out.palette@ == palette_bytes_spec(f.pal@)
                &&& out.palette.len() == 3 * padded_len(f.pal.len() as int)
                &&& if settings.giflossy_quality >= 100 {
                    out.buffer@ == lzw_data(f.image.buf@)
                } else {
                    exists|loss: u32|
                        crate::settings::is_gifsicle_loss(settings.giflossy_quality, loss as int)
                            && #[trigger] is_lossy_lzw(
                            Self::tolerance(&f, loss),
                            f.image.buf@,
                            min_code_size_spec(padded_len(f.pal.len() as int)),
                            out.buffer@,
                        )
                }
            },
            res matches Err(e) ==> e matches Error::Io(IoErrorKind::OutOfMemory) || (
            e is Gifsicle && exists|i: int|
                0 <= i < f.image.buf.len() && #[trigger] f.image.buf@[i] >= padded_len(
                    f.pal.len() as int,
                )),
            settings.giflossy_quality < 100 && (exists|i: int|
                0 <= i < f.image.buf.len() && #[trigger] f.image.buf@[i] >= padded_len(
                    f.pal.len() as int,
                )) ==> (res matches Err(e) && e is Gifsicle),
    {
        let palette = palette_bytes(&f.pal);
        let loss = settings.gifsicle_loss();
        let buffer = if loss > 0 {
            Self::compress_gifsicle(&f, &palette, loss)?
        } else {
            gif_lzw(&f.image.buf)
        };
        Ok(
            LzwFrame {
                left: f.left,
                top: f.top,
                width: f.image.width as u16,
                height: f.image.height as u16,
                dispose: f.dispose,
                transparent: f.transparent_index,
                palette,
                buffer,
            },
        )
    }

    /// The bytes that writing a frame adds to the file: before the first
    /// frame the head of the file without a palette, the looping extension
    /// and a comment.
    pub open spec fn written(before: Option<GifStream>, frame: &LzwFrame, delay: u16, screen_width: u16, screen_height: u16, repeat: Repeat) -> Seq<u8> {
        (if before is None {
            screen_header(screen_width, screen_height) + repeat_extension(repeat)
                + comment_extension()
        } else {
            stream_bytes(before->0)
        }) + frame.bytes(delay)
    }

    /// Writes a frame with its delay, and gives the bytes that are to go
    /// into the file for it.
    pub fn write_frame(
        &mut self,
        frame: &LzwFrame,
        delay: u16,
        screen_width: u16,
        screen_height: u16,
        settings: &Settings,
    ) -> (res: Result<Vec<u8>, Error>)
        requires
            frame.wf(),
        ensures
            res is Ok,
            final(self).gif_enc is Some,
            stream_bytes(final(self).gif_enc->0) == Seq::<u8>::empty(),
            res matches Ok(bytes) ==> bytes@ == Self::written(
                old(self).gif_enc,
                frame,
                delay,
                screen_width,
                screen_height,
                settings.repeat,
            ),
    {
        let mut hand: Option<GifStream> = None;
        std::mem::swap(&mut hand, &mut self.gif_enc);
        let mut head: Vec<u8> = Vec::new();
        let mut stream = match hand {
            Some(stream) => stream,
            None => {
                let mut stream = match stream_new(screen_width, screen_height) {
                    Ok(stream) => stream,
                    Err(e) => {
                        return Err(gif_error(e));
                    },
                };
                head = without_global_palette(
                    stream_take(&mut stream),
                    screen_width,
                    screen_height,
                );
                match stream_write_repeat(&mut stream, settings.repeat) {
                    Ok(_) => {},
                    Err(e) => {
                        return Err(gif_error(e));
                    },
                }
                match stream_write_comment(&mut stream) {
                    Ok(_) => {},
                    Err(kind) => {
                        return Err(Error::Io(io_error_kind(kind)));
                    },
                }
                stream
            },
        };
        match stream_write_frame(&mut stream, frame, delay) {
            Ok(_) => {},
            Err(e) => {
                return Err(gif_error(e));
            },
        }
        let mut rest = stream_take(&mut stream);
        self.gif_enc = Some(stream);
        let mut bytes = head;
        bytes.append(&mut rest);
        assert(bytes@ =~= Self::written(
            old(self).gif_enc,
            frame,
            delay,
            screen_width,
            screen_height,
            settings.repeat,
        ));
        Ok(bytes)
    }

    /// Ends the file, and gives the bytes that are to go into it last.
    /// Nothing is written where no frame was.
    pub fn finish(self) -> (res: Result<Vec<u8>, Error>)
        ensures
            res is Ok,
            res matches Ok(bytes) ==> bytes@ == (match self.gif_enc {
                Some(stream) => stream_bytes(stream).push(TRAILER),
                None => Seq::<u8>::empty(),
            }),
    {
        match self.gif_enc {
            Some(stream) => match stream_finish(stream) {
                Ok(bytes) => Ok(bytes),
                Err(kind) => Err(Error::Io(io_error_kind(kind))),
            },
            None => Ok(Vec::new()),
        }
    }
}


} // verus!
