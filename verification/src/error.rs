//! The errors of the encoder, and the merging of the results of its stages.

use vstd::prelude::*;

verus! {

/// Error of the palette quantizer.
#[verifier::external_type_specification]
#[verifier::external_body]
pub struct ExQuantError(imagequant::liq_error);

/// What the GIF container refuses in a frame.
#[verifier::external_type_specification]
#[verifier::external_body]
pub struct ExEncodingFormatError(gif::EncodingFormatError);

/// The kinds of failed input or output that are told apart.
#[derive(Clone, Copy, Debug, PartialEq, Eq, Structural)]
pub enum IoErrorKind {
    NotFound,
    PermissionDenied,
    AlreadyExists,
    InvalidInput,
    InvalidData,
    TimedOut,
    WriteZero,
    Interrupted,
    UnexpectedEof,
    OutOfMemory,
    Other,
}

#[derive(Debug)]
pub enum Error {
    /// A stage was lost unexpectedly.
    ThreadSend,
    /// Stopped by the caller, or because another stage failed.
    Aborted,
    /// The lossy compressor failed.
    Gifsicle,
    /// The frame cannot be put into a GIF.
    Gif(gif::EncodingFormatError),
    /// No usable frame was given.
    NoFrames,
    Io(IoErrorKind),
    /// A frame could not be decoded.
    PNG(String),
    /// A setting or the size of a frame is wrong.
    WrongSize(String),
    Quant(imagequant::liq_error),
    /// A frame could not be drawn onto the screen.
    Pal,
}

pub type CatResult<T> = Result<T, Error>;

/// Alias for `Result` with the encoder's `Error`.
pub type GifResult<T> = Result<T, Error>;

/// How much a result tells of what went wrong. When one stage fails, the
/// others stop with errors that only follow from it: least telling is a
/// lost stage, then an abort, then the lack of frames. Success tells nothing.
pub open spec fn cause_rank(res: Result<(), Error>) -> int {
    match res {
        Ok(_) => 0,
        Err(Error::ThreadSend) => 1,
        Err(Error::Aborted) => 2,
        Err(Error::NoFrames) => 3,
        Err(_) => 4,
    }
}

/// The more telling of two results, and the first of two that tell as much.
pub open spec fn combine_res_spec(res1: Result<(), Error>, res2: Result<(), Error>) -> Result<
    (),
    Error,
> {
    if cause_rank(res2) > cause_rank(res1) {
        res2
    } else {
        res1
    }
}

fn rank_of(res: &Result<(), Error>) -> (r: u8)
    ensures
        r == cause_rank(*res),
{
    match res {
        Ok(_) => 0,
        Err(Error::ThreadSend) => 1,
        Err(Error::Aborted) => 2,
        Err(Error::NoFrames) => 3,
        Err(_) => 4,
    }
}

/// Whether the second of two results tells more than the first.
pub fn tells_more(res1: &Result<(), Error>, res2: &Result<(), Error>) -> (more: bool)
    ensures
        more == (cause_rank(*res2) > cause_rank(*res1)),
{
    rank_of(res2) > rank_of(res1)
}

/// Merges the results of two stages into the one that is reported.
pub fn combine_res(res1: Result<(), Error>, res2: Result<(), Error>) -> (res: Result<(), Error>)
    ensures
        res == combine_res_spec(res1, res2),
{
    if tells_more(&res1, &res2) {
        res2
    } else {
        res1
    }
}

/// Merging is associative, so the order in which the stages are joined
/// does not change what is reported as long as they stay in line.
pub proof fn lemma_combine_res_associative(
    a: Result<(), Error>,
    b: Result<(), Error>,
    c: Result<(), Error>,
)
    ensures
        combine_res_spec(combine_res_spec(a, b), c) == combine_res_spec(a, combine_res_spec(b, c)),
{
}

/// A real cause is never given up for an error that only follows from it,
/// and success is reported only where both stages succeeded.
pub proof fn lemma_combine_res_keeps_cause(a: Result<(), Error>, b: Result<(), Error>)
    ensures
        cause_rank(combine_res_spec(a, b)) >= cause_rank(a),
        cause_rank(combine_res_spec(a, b)) >= cause_rank(b),
        combine_res_spec(a, b) is Ok <==> a is Ok && b is Ok,
{
}

/// Result codes of the C interface.
#[allow(non_camel_case_types)]
#[derive(Clone, Copy, Debug, PartialEq, Eq, Structural)]
pub enum GifskiError {
    OK,
    NULL_ARG,
    INVALID_STATE,
    QUANT,
    GIF,
    THREAD_LOST,
    NOT_FOUND,
    PERMISSION_DENIED,
    ALREADY_EXISTS,
    INVALID_INPUT,
    TIMED_OUT,
    WRITE_ZERO,
    INTERRUPTED,
    UNEXPECTED_EOF,
    ABORTED,
    OTHER,
}

impl GifskiError {
    /// The number that stands for a result.
    pub open spec fn code_spec(self) -> int {
        match self {
            GifskiError::OK => 0,
            GifskiError::NULL_ARG => 1,
            GifskiError::INVALID_STATE => 2,
            GifskiError::QUANT => 3,
            GifskiError::GIF => 4,
            GifskiError::THREAD_LOST => 5,
            GifskiError::NOT_FOUND => 6,
            GifskiError::PERMISSION_DENIED => 7,
            GifskiError::ALREADY_EXISTS => 8,
            GifskiError::INVALID_INPUT => 9,
            GifskiError::TIMED_OUT => 10,
            GifskiError::WRITE_ZERO => 11,
            GifskiError::INTERRUPTED => 12,
            GifskiError::UNEXPECTED_EOF => 13,
            GifskiError::ABORTED => 14,
            GifskiError::OTHER => 15,
        }
    }

    pub fn code(self) -> (c: i32)
        ensures
            c == self.code_spec(),
    {
        match self {
            GifskiError::OK => 0,
            GifskiError::NULL_ARG => 1,
            GifskiError::INVALID_STATE => 2,
            GifskiError::QUANT => 3,
            GifskiError::GIF => 4,
            GifskiError::THREAD_LOST => 5,
            GifskiError::NOT_FOUND => 6,
            GifskiError::PERMISSION_DENIED => 7,
            GifskiError::ALREADY_EXISTS => 8,
            GifskiError::INVALID_INPUT => 9,
            GifskiError::TIMED_OUT => 10,
            GifskiError::WRITE_ZERO => 11,
            GifskiError::INTERRUPTED => 12,
            GifskiError::UNEXPECTED_EOF => 13,
            GifskiError::ABORTED => 14,
            GifskiError::OTHER => 15,
        }
    }

    /// The result that a number stands for. Numbers that stand for none
    /// are read as `OTHER`.
    pub fn from_code(res: i32) -> (e: GifskiError)
        ensures
            0 <= res <= 15 ==> e.code_spec() == res,
            !(0 <= res <= 15) ==> e == GifskiError::OTHER,
    {
        if res == 0 {
            GifskiError::OK
        } else if res == 1 {
            GifskiError::NULL_ARG
        } else if res == 2 {
            GifskiError::INVALID_STATE
        } else if res == 3 {
            GifskiError::QUANT
        } else if res == 4 {
            GifskiError::GIF
        } else if res == 5 {
            GifskiError::THREAD_LOST
        } else if res == 6 {
            GifskiError::NOT_FOUND
        } else if res == 7 {
            GifskiError::PERMISSION_DENIED
        } else if res == 8 {
            GifskiError::ALREADY_EXISTS
        } else if res == 9 {
            GifskiError::INVALID_INPUT
        } else if res == 10 {
            GifskiError::TIMED_OUT
        } else if res == 11 {
            GifskiError::WRITE_ZERO
        } else if res == 12 {
            GifskiError::INTERRUPTED
        } else if res == 13 {
            GifskiError::UNEXPECTED_EOF
        } else if res == 14 {
            GifskiError::ABORTED
        } else {
            GifskiError::OTHER
        }
    }

    pub open spec fn from_io_kind_spec(kind: IoErrorKind) -> GifskiError {
        match kind {
            IoErrorKind::NotFound => GifskiError::NOT_FOUND,
            IoErrorKind::PermissionDenied => GifskiError::PERMISSION_DENIED,
            IoErrorKind::AlreadyExists => GifskiError::ALREADY_EXISTS,
            IoErrorKind::InvalidInput => GifskiError::INVALID_INPUT,
            IoErrorKind::InvalidData => GifskiError::INVALID_INPUT,
            IoErrorKind::TimedOut => GifskiError::TIMED_OUT,
            IoErrorKind::WriteZero => GifskiError::WRITE_ZERO,
            IoErrorKind::Interrupted => GifskiError::INTERRUPTED,
            IoErrorKind::UnexpectedEof => GifskiError::UNEXPECTED_EOF,
            IoErrorKind::OutOfMemory => GifskiError::OTHER,
            IoErrorKind::Other => GifskiError::OTHER,
        }
    }

    /// The code for a kind of failed input or output.
    pub fn from_io_kind(kind: IoErrorKind) -> (e: GifskiError)
        ensures
            e == Self::from_io_kind_spec(kind),
    {
        match kind {
            IoErrorKind::NotFound => GifskiError::NOT_FOUND,
            IoErrorKind::PermissionDenied => GifskiError::PERMISSION_DENIED,
            IoErrorKind::AlreadyExists => GifskiError::ALREADY_EXISTS,
            IoErrorKind::InvalidInput => GifskiError::INVALID_INPUT,
            IoErrorKind::InvalidData => GifskiError::INVALID_INPUT,
            IoErrorKind::TimedOut => GifskiError::TIMED_OUT,
            IoErrorKind::WriteZero => GifskiError::WRITE_ZERO,
            IoErrorKind::Interrupted => GifskiError::INTERRUPTED,
            IoErrorKind::UnexpectedEof => GifskiError::UNEXPECTED_EOF,
            IoErrorKind::OutOfMemory => GifskiError::OTHER,
            IoErrorKind::Other => GifskiError::OTHER,
        }
    }

    pub open spec fn from_result_spec(res: Result<(), Error>) -> GifskiError {
        match res {
            Ok(_) => GifskiError::OK,
            Err(Error::Quant(_)) => GifskiError::QUANT,
            Err(Error::Pal) => GifskiError::GIF,
            Err(Error::ThreadSend) => GifskiError::THREAD_LOST,
            Err(Error::Io(kind)) => Self::from_io_kind_spec(kind),
            Err(Error::Aborted) => GifskiError::ABORTED,
            Err(Error::Gifsicle) => GifskiError::GIF,
            Err(Error::Gif(_)) => GifskiError::GIF,
            Err(Error::NoFrames) => GifskiError::INVALID_STATE,
            Err(Error::WrongSize(_)) => GifskiError::INVALID_INPUT,
            Err(Error::PNG(_)) => GifskiError::OTHER,
        }
    }

    /// The code for the result of an encoding.
    pub fn from_result(res: &Result<(), Error>) -> (e: GifskiError)
        ensures
            e == Self::from_result_spec(*res),
            e == GifskiError::OK <==> res is Ok,
    {
        match res {
            Ok(_) => GifskiError::OK,
            Err(Error::Quant(_)) => GifskiError::QUANT,
            Err(Error::Pal) => GifskiError::GIF,
            Err(Error::ThreadSend) => GifskiError::THREAD_LOST,
            Err(Error::Io(kind)) => Self::from_io_kind(*kind),
            Err(Error::Aborted) => GifskiError::ABORTED,
            Err(Error::Gifsicle) => GifskiError::GIF,
            Err(Error::Gif(_)) => GifskiError::GIF,
            Err(Error::NoFrames) => GifskiError::INVALID_STATE,
            Err(Error::WrongSize(_)) => GifskiError::INVALID_INPUT,
            Err(Error::PNG(_)) => GifskiError::OTHER,
        }
    }
}

} // verus!
