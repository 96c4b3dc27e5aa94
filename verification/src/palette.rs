//! The palette of a frame as it is written: one transparent index at most,
//! and a length that is a power of two.

use crate::color::{RGB8, RGBA8};
use crate::img::ImgVec;
use vstd::prelude::*;

verus! {

/// Entries with no more alpha than this stand for transparency.
pub const TRANSPARENT_ALPHA: u8 = 128;

/// The colour that a transparent entry is given in the written palette.
pub open spec fn transparent_filler() -> RGB8 {
    RGB8 { r: 71, g: 80, b: 76 }
}

/// Entry `i` of the palette stands for transparency.
pub open spec fn is_transparent_entry(pal: Seq<RGBA8>, i: int) -> bool {
    0 <= i < pal.len() && pal[i].a <= TRANSPARENT_ALPHA
}

/// `first` is the first transparent entry of the palette, if it has one.
pub open spec fn is_first_transparent(pal: Seq<RGBA8>, first: Option<u8>) -> bool {
    match first {
        Some(t) => is_transparent_entry(pal, t as int) && forall|i: int|
            0 <= i < t ==> !is_transparent_entry(pal, i),
        None => forall|i: int| 0 <= i < pal.len() ==> !is_transparent_entry(pal, i),
    }
}

/// The written colour of a palette entry.
pub open spec fn written_color(c: RGBA8) -> RGB8 {
    if c.a <= TRANSPARENT_ALPHA {
        transparent_filler()
    } else {
        c.rgb_spec()
    }
}

/// The index that a pixel is written with: every transparent entry gives
/// way to the first one.
pub open spec fn written_index(pal: Seq<RGBA8>, first: Option<u8>, px: u8) -> u8 {
    if is_transparent_entry(pal, px as int) && first is Some {
        first->0
    } else {
        px
    }
}

/// Brings the transparent entries of a palette down to one. The palette
/// comes back without alpha, with the index that stands for transparency,
/// and the pixels that pointed at any other transparent entry point at it.
pub fn transparent_index_from_palette(image8_pal: Vec<RGBA8>, image8: &mut ImgVec<u8>) -> (res: (
    Vec<RGB8>,
    Option<u8>,
))
    requires
        image8_pal.len() <= 256,
    ensures
        final(image8).width == old(image8).width,
        final(image8).height == old(image8).height,
        final(image8).buf.len() == old(image8).buf.len(),
        is_first_transparent(image8_pal@, res.1),
        res.0.len() == image8_pal.len(),
        forall|i: int| 0 <= i < image8_pal.len() ==> #[trigger] res.0@[i] == written_color(image8_pal@[i]),
        forall|k: int|
            0 <= k < old(image8).buf.len() ==> #[trigger] final(image8).buf@[k] == written_index(
                image8_pal@,
                res.1,
                old(image8).buf@[k],
            ),
        forall|k: int|
            0 <= k < old(image8).buf.len() && is_transparent_entry(
                image8_pal@,
                #[trigger] final(image8).buf@[k] as int,
            ) ==> res.1 == Some(final(image8).buf@[k]),
{
    let mut transparent_index: Option<u8> = None;
    let mut out: Vec<RGB8> = Vec::with_capacity(image8_pal.len());
    let mut i: usize = 0;
    while i < image8_pal.len()
        invariant
            i <= image8_pal.len() <= 256,
            image8.width == old(image8).width,
            image8.height == old(image8).height,
            image8.buf.len() == old(image8).buf.len(),
            out.len() == i,
            forall|j: int| 0 <= j < i ==> #[trigger] out@[j] == written_color(image8_pal@[j]),
            match transparent_index {
                Some(t) => t < i && is_transparent_entry(image8_pal@, t as int) && forall|j: int|
                    0 <= j < t ==> !is_transparent_entry(image8_pal@, j),
                None => forall|j: int| 0 <= j < i ==> !is_transparent_entry(image8_pal@, j),
            },
            forall|k: int|
                0 <= k < image8.buf.len() ==> #[trigger] image8.buf@[k] == (if old(image8).buf@[k]
                    < i {
                    written_index(image8_pal@, transparent_index, old(image8).buf@[k])
                } else {
                    old(image8).buf@[k]
                }),
        decreases image8_pal.len() - i,
    {
        let p = image8_pal[i];
        if p.a <= TRANSPARENT_ALPHA {
            out.push(RGB8 { r: 71, g: 80, b: 76 });
            let new_index = i as u8;
            match transparent_index {
                Some(old_index) => {
                    replace_index(image8, new_index, old_index);
                },
                None => {
                    transparent_index = Some(new_index);
                },
            }
        } else {
            out.push(p.rgb());
        }
        i += 1;
    }
    (out, transparent_index)
}

/// Writes `to` wherever the image holds `from`.
fn replace_index(image: &mut ImgVec<u8>, from: u8, to: u8)
    ensures
        final(image).width == old(image).width,
        final(image).height == old(image).height,
        final(image).buf.len() == old(image).buf.len(),
        forall|k: int|
            0 <= k < old(image).buf.len() ==> #[trigger] final(image).buf@[k] == (if old(
                image,
            ).buf@[k] == from {
                to
            } else {
                old(image).buf@[k]
            }),
{
    let len = image.buf.len();
    let mut k: usize = 0;
    while k < len
        invariant
            k <= len,
            image.width == old(image).width,
            image.height == old(image).height,
            image.buf.len() == len,
            old(image).buf.len() == len,
            forall|j: int|
                0 <= j < len ==> #[trigger] image.buf@[j] == (if j < k && old(image).buf@[j]
                    == from {
                    to
                } else {
                    old(image).buf@[j]
                }),
        decreases len - k,
    {
        if image.buf[k] == from {
            image.buf.set(k, to);
        }
        k += 1;
    }
}

/// The least power of two that is no less than `n`, and no less than 2.
pub open spec fn padded_len(n: int) -> int {
    if n <= 2 {
        2
    } else if n <= 4 {
        4
    } else if n <= 8 {
        8
    } else if n <= 16 {
        16
    } else if n <= 32 {
        32
    } else if n <= 64 {
        64
    } else if n <= 128 {
        128
    } else {
        256
    }
}

/// Bytes that fill a palette up to its written length.
pub open spec fn filler_byte(k: int) -> u8 {
    let m = k % 7;
    if m == 0 {
        115
    } else if m == 1 {
        107
    } else if m == 2 {
        105
    } else if m == 3 {
        46
    } else if m == 4 {
        103
    } else if m == 5 {
        105
    } else {
        102
    }
}

/// The bytes of the palette as it is written: red, green and blue of
/// every colour, then filler up to a power of two of colours.
pub open spec fn palette_bytes_spec(pal: Seq<RGB8>) -> Seq<u8> {
    Seq::new(
        (3 * padded_len(pal.len() as int)) as nat,
        |k: int|
            if k < 3 * pal.len() {
                let c = pal[k / 3];
                if k % 3 == 0 {
                    c.r
                } else if k % 3 == 1 {
                    c.g
                } else {
                    c.b
                }
            } else {
                filler_byte(k - 3 * pal.len())
            },
    )
}

/// A palette is written with a power of two of colours from 2 to 256,
/// which is the least that holds its colours.
pub proof fn lemma_padded_len_is_power_of_two(n: int)
    requires
        0 <= n <= 256,
    ensures
        n <= padded_len(n),
        padded_len(n) == 2 || padded_len(n) == 4 || padded_len(n) == 8 || padded_len(n) == 16
            || padded_len(n) == 32 || padded_len(n) == 64 || padded_len(n) == 128 || padded_len(n)
            == 256,
        padded_len(n) > 2 ==> padded_len(n) < 2 * n,
{
}

/// Once the transparent entries of a palette are brought down to one, no
/// pixel points at a transparent entry but the one that is named, so that
/// the frame is written with one transparent colour at most.
pub proof fn lemma_one_transparent_index(pal: Seq<RGBA8>, first: Option<u8>, px: u8)
    requires
        pal.len() <= 256,
        is_first_transparent(pal, first),
    ensures
        is_transparent_entry(pal, written_index(pal, first, px) as int) ==> first == Some(
            written_index(pal, first, px),
        ),
        !is_transparent_entry(pal, px as int) ==> written_index(pal, first, px) == px,
{
}

fn pad_to(n: usize) -> (p: usize)
    requires
        n <= 256,
    ensures
        p == padded_len(n as int),
        n <= p,
{
    if n <= 2 {
        2
    } else if n <= 4 {
        4
    } else if n <= 8 {
        8
    } else if n <= 16 {
        16
    } else if n <= 32 {
        32
    } else if n <= 64 {
        64
    } else if n <= 128 {
        128
    } else {
        256
    }
}

/// The palette as the bytes that are written. Their number is three times
/// a power of two from 2 to 256.
pub fn palette_bytes(pal: &Vec<RGB8>) -> (bytes: Vec<u8>)
    requires
        pal.len() <= 256,
    ensures
        bytes@ == palette_bytes_spec(pal@),
        bytes.len() == 3 * padded_len(pal.len() as int),
{
    let filler: [u8; 7] = [115, 107, 105, 46, 103, 105, 102];
    let needed = 3 * pad_to(pal.len());
    let mut bytes: Vec<u8> = Vec::with_capacity(needed);
    let mut i: usize = 0;
    while i < pal.len()
        invariant
            i <= pal.len() <= 256,
            bytes.len() == 3 * i,
            forall|k: int| 0 <= k < 3 * i ==> #[trigger] bytes@[k] == palette_bytes_spec(pal@)[k],
        decreases pal.len() - i,
    {
        let c = pal[i];
        bytes.push(c.r);
        bytes.push(c.g);
        bytes.push(c.b);
        i += 1;
    }
    let mut k: usize = 0;
    while bytes.len() < needed
        invariant
            pal.len() <= 256,
            needed == 3 * padded_len(pal.len() as int),
            bytes.len() == 3 * pal.len() + k,
            bytes.len() <= needed,
            filler@ == seq![115u8, 107u8, 105u8, 46u8, 103u8, 105u8, 102u8],
            forall|j: int| 0 <= j < bytes.len() ==> #[trigger] bytes@[j] == palette_bytes_spec(pal@)[j],
        decreases needed - bytes.len(),
    {
        bytes.push(filler[k % 7]);
        k += 1;
    }
    assert(bytes@ =~= palette_bytes_spec(pal@));
    bytes
}

} // verus!
