//! Lossy LZW compression of a frame's palette indices: instead of the
//! longest string of the table that equals the coming pixels, the longest one
//! is taken whose colours stay within a distance of theirs.

use crate::bits::{code_bits, BitWriter, MAX_BITS};
use crate::color::RGB8;
use crate::error::{Error, IoErrorKind};
use vstd::prelude::*;

verus! {

pub type LzwCode = u16;

pub type NodeId = u16;

/// The error of the colours drawn so far that is carried on to the next pixel.
#[derive(Clone, Copy, Debug, PartialEq, Eq, Structural)]
pub struct RgbDiff {
    pub r: i16,
    pub g: i16,
    pub b: i16,
}

/// The distance of a transparent pixel from one that is not.
pub const TRANSPARENCY_DIFF: u32 = 33554432;

/// No component of a carried error ever leaves this range.
pub const MAX_DITHER: i16 = 1020;

/// Division that rounds towards zero.
pub open spec fn div_towards_zero(a: int, b: int) -> int {
    if a >= 0 {
        a / b
    } else {
        -((-a) / b)
    }
}

pub open spec fn square(d: int) -> int {
    d * d
}

impl RgbDiff {
    pub open spec fn zero() -> RgbDiff {
        RgbDiff { r: 0, g: 0, b: 0 }
    }

    pub open spec fn bounded(self) -> bool {
        &&& -MAX_DITHER <= self.r <= MAX_DITHER
        &&& -MAX_DITHER <= self.g <= MAX_DITHER
        &&& -MAX_DITHER <= self.b <= MAX_DITHER
    }
}

/// Distance of colour `a` from colour `b` once the carried error is taken
/// into account: the lesser of the squared distances with the whole error
/// and with half of it.
pub open spec fn color_diff_spec(
    a: RGB8,
    b: RGB8,
    a_transparent: bool,
    b_transparent: bool,
    dither: RgbDiff,
) -> int {
    if a_transparent != b_transparent {
        TRANSPARENCY_DIFF as int
    } else if a_transparent {
        0
    } else {
        let dith = square(a.r - b.r + dither.r) + square(a.g - b.g + dither.g) + square(
            a.b - b.b + dither.b,
        );
        let undith = square(a.r - b.r + div_towards_zero(dither.r as int, 2)) + square(
            a.g - b.g + div_towards_zero(dither.g as int, 2),
        ) + square(a.b - b.b + div_towards_zero(dither.b as int, 2));
        if dith < undith {
            dith
        } else {
            undith
        }
    }
}

/// The error that is carried on once `b` is drawn in place of `a`: their
/// difference and three quarters of the error carried so far.
pub open spec fn diffused_difference_spec(
    a: RGB8,
    b: RGB8,
    a_transparent: bool,
    b_transparent: bool,
    dither: RgbDiff,
) -> RgbDiff {
    if a_transparent || b_transparent {
        RgbDiff::zero()
    } else {
        RgbDiff {
            r: (a.r - b.r + div_towards_zero(dither.r * 3, 4)) as i16,
            g: (a.g - b.g + div_towards_zero(dither.g * 3, 4)) as i16,
            b: (a.b - b.b + div_towards_zero(dither.b * 3, 4)) as i16,
        }
    }
}

fn div_trunc(x: i32, d: i32) -> (q: i32)
    requires
        -10000 <= x <= 10000,
        0 < d <= 4,
    ensures
        q == div_towards_zero(x as int, d as int),
        -10000 <= q <= 10000,
{
    if x >= 0 {
        x / d
    } else {
        -((-x) / d)
    }
}

fn square_of(x: i32) -> (s: u32)
    requires
        -2000 <= x <= 2000,
    ensures
        s == square(x as int),
        s <= 4000000,
{
    assert(0 <= x * x <= 4000000) by (nonlinear_arith)
        requires
            -2000 <= x <= 2000,
    ;
    (x * x) as u32
}

pub fn color_diff(a: RGB8, b: RGB8, a_transparent: bool, b_transparent: bool, dither: RgbDiff) -> (d: u32)
    requires
        dither.bounded(),
    ensures
        d == color_diff_spec(a, b, a_transparent, b_transparent, dither),
        d <= TRANSPARENCY_DIFF,
{
    if a_transparent != b_transparent {
        return TRANSPARENCY_DIFF;
    }
    if a_transparent {
        return 0;
    }
    let dr: i32 = a.r as i32 - b.r as i32;
    let dg: i32 = a.g as i32 - b.g as i32;
    let db: i32 = a.b as i32 - b.b as i32;
    let dith = square_of(dr + dither.r as i32) + square_of(dg + dither.g as i32) + square_of(
        db + dither.b as i32,
    );
    let undith = square_of(dr + div_trunc(dither.r as i32, 2)) + square_of(
        dg + div_trunc(dither.g as i32, 2),
    ) + square_of(db + div_trunc(dither.b as i32, 2));
    if dith < undith {
        dith
    } else {
        undith
    }
}

pub fn diffused_difference(
    a: RGB8,
    b: RGB8,
    a_transparent: bool,
    b_transparent: bool,
    dither: RgbDiff,
) -> (d: RgbDiff)
    requires
        dither.bounded(),
    ensures
        d == diffused_difference_spec(a, b, a_transparent, b_transparent, dither),
        d.bounded(),
{
    if a_transparent || b_transparent {
        RgbDiff { r: 0, g: 0, b: 0 }
    } else {
        RgbDiff {
            r: (a.r as i32 - b.r as i32 + div_trunc(dither.r as i32 * 3, 4)) as i16,
            g: (a.g as i32 - b.g as i32 + div_trunc(dither.g as i32 * 3, 4)) as i16,
            b: (a.b as i32 - b.b as i32 + div_trunc(dither.b as i32 * 3, 4)) as i16,
        }
    }
}

/// The palette indices of a frame, with what the compressor has to know of
/// their colours.
pub struct GiflossyImage<'data> {
    pub img: &'data [u8],
    pub width: u16,
    pub height: u16,
    pub transparent: Option<u8>,
    pub pal: Option<&'data [RGB8]>,
}

impl<'a> GiflossyImage<'a> {
    pub open spec fn wf(&self) -> bool {
        self.img@.len() == self.width * self.height
    }

    /// The palette index at place `pos` of the frame, if the frame goes that far.
    pub open spec fn pixel_at(&self, pos: int) -> Option<u8> {
        if 0 <= pos < self.img@.len() {
            Some(self.img@[pos])
        } else {
            None
        }
    }

    pub fn new(
        img: &'a [u8],
        width: u16,
        height: u16,
        transparent: Option<u8>,
        pal: Option<&'a [RGB8]>,
    ) -> (image: Self)
        requires
            img@.len() == width * height,
        ensures
            image.wf(),
            image.img@ == img@,
            image.width == width,
            image.height == height,
            image.transparent == transparent,
            image.pal == pal,
    {
        GiflossyImage { img, width, height, transparent, pal }
    }

    pub fn px_at_pos(&self, pos: usize) -> (px: Option<u8>)
        ensures
            px == self.pixel_at(pos as int),
    {
        if pos < self.img.len() {
            Some(self.img[pos])
        } else {
            None
        }
    }
}

/// Two to the power of `n`, for the widths that codes can have.
pub open spec fn pow2(n: int) -> int {
    if n == 0 {
        1
    } else if n == 1 {
        2
    } else if n == 2 {
        4
    } else if n == 3 {
        8
    } else if n == 4 {
        16
    } else if n == 5 {
        32
    } else if n == 6 {
        64
    } else if n == 7 {
        128
    } else if n == 8 {
        256
    } else if n == 9 {
        512
    } else if n == 10 {
        1024
    } else if n == 11 {
        2048
    } else {
        4096
    }
}

fn pow2_of(n: u8) -> (p: u16)
    requires
        n <= 12,
    ensures
        p == pow2(n as int),
        n < 16 ==> p >> (n as u16) == 1,
{
    let p: u16 = 1u16 << (n as u16);
    assert(p == pow2(n as int) && p >> (n as u16) == 1) by {
        assert(1u16 << 0u16 == 1 && 1u16 << 1u16 == 2 && 1u16 << 2u16 == 4 && 1u16 << 3u16 == 8
            && 1u16 << 4u16 == 16 && 1u16 << 5u16 == 32 && 1u16 << 6u16 == 64 && 1u16 << 7u16
            == 128 && 1u16 << 8u16 == 256 && 1u16 << 9u16 == 512 && 1u16 << 10u16 == 1024 && 1u16
            << 11u16 == 2048 && 1u16 << 12u16 == 4096) by (bit_vector);
        assert(1u16 >> 0u16 == 1 && 2u16 >> 1u16 == 1 && 4u16 >> 2u16 == 1 && 8u16 >> 3u16 == 1
            && 16u16 >> 4u16 == 1 && 32u16 >> 5u16 == 1 && 64u16 >> 6u16 == 1 && 128u16 >> 7u16
            == 1 && 256u16 >> 8u16 == 1 && 512u16 >> 9u16 == 1 && 1024u16 >> 10u16 == 1 && 2048u16
            >> 11u16 == 1 && 4096u16 >> 12u16 == 1) by (bit_vector);
    }
    p
}

/// A code below two to the power of `n` has no bits from bit `n` up.
proof fn lemma_code_fits(code: u16, n: u8)
    requires
        n <= 12,
        code < pow2(n as int),
    ensures
        code >> (n as u16) == 0,
{
    assert(code >> (n as u16) == 0) by (bit_vector)
        requires
            n <= 12,
            (n == 0 ==> code < 1) && (n == 1 ==> code < 2) && (n == 2 ==> code < 4) && (n == 3
                ==> code < 8) && (n == 4 ==> code < 16) && (n == 5 ==> code < 32) && (n == 6
                ==> code < 64) && (n == 7 ==> code < 128) && (n == 8 ==> code < 256) && (n == 9
                ==> code < 512) && (n == 10 ==> code < 1024) && (n == 11 ==> code < 2048) && (n
                == 12 ==> code < 4096),
    ;
}

/// The least number of bits, from 2 up, that tell the colours of a palette
/// of `len` colours apart.
pub open spec fn min_code_size_spec(len: int) -> int {
    if len <= 4 {
        2
    } else if len <= 8 {
        3
    } else if len <= 16 {
        4
    } else if len <= 32 {
        5
    } else if len <= 64 {
        6
    } else if len <= 128 {
        7
    } else {
        8
    }
}

pub fn min_code_size_for(len: usize) -> (m: u8)
    requires
        len <= 256,
    ensures
        m == min_code_size_spec(len as int),
        2 <= m <= 8,
        len <= pow2(m as int),
{
    if len <= 4 {
        2
    } else if len <= 8 {
        3
    } else if len <= 16 {
        4
    } else if len <= 32 {
        5
    } else if len <= 64 {
        6
    } else if len <= 128 {
        7
    } else {
        8
    }
}

/// No code is written in more bits than this.
pub const MAX_CODE_BITS: u8 = 12;

/// A reader of LZW codes as the GIF format has them. After the code that
/// clears it, it knows the strings of one pixel only. Every further code
/// stands for a string of pixels that it has seen, and with every code it
/// learns the string before with the first pixel of this one added.
pub struct Decoder {
    /// The strings learnt since the table was cleared. The first of them
    /// has the code after the two codes that clear and end.
    pub table: Seq<Seq<u8>>,
    /// The string of the code before, if there was one since the clearing.
    pub prev: Option<Seq<u8>>,
    /// The width in bits of the next code.
    pub width: int,
    /// The pixels read so far.
    pub out: Seq<u8>,
    /// The code that ends the data has been read.
    pub done: bool,
}

impl Decoder {
    pub open spec fn start(min_code_size: int) -> Decoder {
        Decoder {
            table: Seq::empty(),
            prev: None,
            width: min_code_size + 1,
            out: Seq::empty(),
            done: false,
        }
    }

    /// The code that the next learnt string is given.
    pub open spec fn next_code(self, min_code_size: int) -> int {
        pow2(min_code_size) + 2 + self.table.len()
    }

    /// The string that a code stands for. The code that is learnt next may
    /// come before it is learnt: it is the string before with its own first
    /// pixel added.
    pub open spec fn string_of(self, min_code_size: int, code: int) -> Option<Seq<u8>> {
        let clear = pow2(min_code_size);
        if 0 <= code < clear {
            Some(seq![code as u8])
        } else if clear + 2 <= code < self.next_code(min_code_size) {
            Some(self.table[code - clear - 2])
        } else if code == self.next_code(min_code_size) && self.prev is Some && code < 4096 {
            Some(self.prev->0.push(self.prev->0[0]))
        } else {
            None
        }
    }

    /// The reader after one more code, if the code can come there.
    pub open spec fn step(self, min_code_size: int, code: int) -> Option<Decoder> {
        let clear = pow2(min_code_size);
        if self.done {
            None
        } else if code == clear {
            Some(
                Decoder {
                    table: Seq::empty(),
                    prev: None,
                    width: min_code_size + 1,
                    out: self.out,
                    done: false,
                },
            )
        } else if code == clear + 1 {
            Some(Decoder { done: true, ..self })
        } else {
            match self.string_of(min_code_size, code) {
                None => None,
                Some(s) => {
                    let learns = self.prev is Some && self.next_code(min_code_size) < 4096;
                    let table = if learns {
                        self.table.push(self.prev->0.push(s[0]))
                    } else {
                        self.table
                    };
                    let widens = learns && clear + 2 + table.len() == pow2(self.width) && self.width
                        < MAX_CODE_BITS;
                    Some(
                        Decoder {
                            table,
                            prev: Some(s),
                            width: if widens {
                                self.width + 1
                            } else {
                                self.width
                            },
                            out: self.out + s,
                            done: false,
                        },
                    )
                },
            }
        }
    }

    /// The reader after a sequence of codes.
    pub open spec fn after(min_code_size: int, codes: Seq<int>) -> Option<Decoder>
        decreases codes.len(),
    {
        if codes.len() == 0 {
            Some(Decoder::start(min_code_size))
        } else {
            match Decoder::after(min_code_size, codes.drop_last()) {
                None => None,
                Some(d) => d.step(min_code_size, codes.last()),
            }
        }
    }
}

/// The bits of a sequence of codes, each in the width that the reader
/// expects it in.
pub open spec fn packed(min_code_size: int, codes: Seq<int>) -> Seq<bool>
    decreases codes.len(),
{
    if codes.len() == 0 {
        Seq::empty()
    } else {
        let before = codes.drop_last();
        packed(min_code_size, before) + code_bits(
            codes.last() as u16,
            Decoder::after(min_code_size, before)->0.width,
        )
    }
}

/// The colours that stand behind the palette indices, and how far a pixel
/// may be drawn from its colour.
pub struct Tolerance {
    pub pal: Seq<RGB8>,
    pub transparent: Option<u8>,
    pub max_diff: int,
}

impl Tolerance {
    /// How far the pixel `next` is from the pixel `px` that it is drawn for.
    pub open spec fn step_diff(self, px: u8, next: u8, dither: RgbDiff) -> int {
        if px == next {
            0
        } else {
            color_diff_spec(
                self.pal[px as int],
                self.pal[next as int],
                self.transparent == Some(px),
                self.transparent == Some(next),
                dither,
            )
        }
    }

    /// The error that is carried on from a pixel.
    pub open spec fn step_dither(self, px: u8, next: u8, dither: RgbDiff) -> RgbDiff {
        diffused_difference_spec(
            self.pal[px as int],
            self.pal[next as int],
            self.transparent == Some(px),
            self.transparent == Some(next),
            dither,
        )
    }

    /// The error carried on after the string `s` is drawn for the pixels of
    /// `img` from `pos` on, if it may be drawn for them: its first pixel
    /// is theirs, and every further one is a colour of the palette within
    /// the distance allowed, given the error carried on from the pixels
    /// before it.
    pub open spec fn run_state(self, img: Seq<u8>, pos: int, s: Seq<u8>) -> Option<RgbDiff>
        decreases s.len(),
    {
        if s.len() == 0 || pos < 0 || pos + s.len() > img.len() {
            None
        } else if s.len() == 1 {
            if s[0] == img[pos] {
                Some(RgbDiff::zero())
            } else {
                None
            }
        } else {
            match self.run_state(img, pos, s.drop_last()) {
                None => None,
                Some(d) => {
                    let px = img[pos + s.len() - 1];
                    if s.last() < self.pal.len() && self.step_diff(px, s.last(), d)
                        <= self.max_diff {
                        Some(self.step_dither(px, s.last(), d))
                    } else {
                        None
                    }
                },
            }
        }
    }

    /// The string `s` may be drawn for the pixels of `img` from `pos` on.
    pub open spec fn is_run(self, img: Seq<u8>, pos: int, s: Seq<u8>) -> bool {
        self.run_state(img, pos, s) is Some
    }

    /// The first `n` pixels of `out` are the first `n` pixels of `img` drawn
    /// run by run.
    pub open spec fn is_rendering(self, img: Seq<u8>, out: Seq<u8>, n: int) -> bool
        decreases n,
    {
        if n <= 0 {
            n == 0
        } else {
            n <= img.len() && n <= out.len() && exists|m: int|
                0 <= m < n && self.is_rendering(img, out, m) && #[trigger] self.is_run(
                    img,
                    m,
                    out.subrange(m, n),
                )
        }
    }
}


/// A string of the table: the string of another node with one pixel added.
pub struct Node {
    pub code: LzwCode,
    /// The last pixel of the string.
    pub suffix: u8,
    /// The nodes whose strings are this one with a pixel added.
    pub children: Vec<NodeId>,
}

/// The strings that have codes, as a tree in which every node adds a pixel
/// to the string of the node above it.
pub struct CodeTable {
    pub nodes: Vec<Node>,
    pub links_used: usize,
    pub clear_code: LzwCode,
    /// The string of every node.
    pub strings: Ghost<Seq<Seq<u8>>>,
    /// The node that lists a node, for every node that is listed.
    pub parents: Ghost<Seq<int>>,
}

impl CodeTable {
    /// The nodes below the clear code are the strings of one pixel, and every
    /// other node has the code two above its place and the string of the
    /// node that lists it with its own pixel added.
    pub open spec fn wf(&self) -> bool {
        &&& 4 <= self.clear_code <= 256
        &&& self.clear_code <= self.nodes.len() <= 4094
        &&& self.strings@.len() == self.nodes.len()
        &&& forall|i: int|
            0 <= i < self.clear_code ==> (#[trigger] self.nodes@[i]).code == i && self.nodes@[i].suffix
                == i && self.strings@[i] == seq![i as u8]
        &&& forall|i: int|
            self.clear_code <= i < self.nodes.len() ==> (#[trigger] self.nodes@[i]).code == i + 2
                && self.strings@[i].len() >= 2 && self.strings@[i].last() == self.nodes@[i].suffix
        &&& forall|n: int, k: int|
            0 <= n < self.nodes.len() && 0 <= k < self.nodes@[n].children.len() ==> self.is_child(
                n,
                #[trigger] self.nodes@[n].children@[k] as int,
            )
    }

    /// The string of node `c` is the string of node `n` with a pixel added.
    pub open spec fn is_child(&self, n: int, c: int) -> bool {
        &&& self.clear_code <= c < self.nodes.len()
        &&& self.strings@[c] == self.strings@[n].push(self.nodes@[c].suffix)
    }

    /// Every pixel that was added to a string is below `limit`.
    pub open spec fn suffixes_below(&self, limit: int) -> bool {
        forall|i: int|
            self.clear_code <= i < self.nodes.len() ==> (#[trigger] self.nodes@[i]).suffix < limit
    }

    /// Node `n` lists node `c`.
    pub open spec fn lists(&self, n: int, c: int) -> bool {
        exists|k: int|
            0 <= k < self.nodes@[n].children.len() && #[trigger] self.nodes@[n].children@[k] == c
    }

    /// Every node above the clear code is listed by a node before it, the
    /// one whose string it adds a pixel to.
    #[verifier::opaque]
    pub open spec fn rooted(&self) -> bool {
        &&& self.parents@.len() == self.nodes.len()
        &&& forall|c: int|
            self.clear_code <= c < self.nodes.len() ==> 0 <= #[trigger] self.parents@[c] < c
                && self.is_child(self.parents@[c], c) && self.lists(self.parents@[c], c)
    }

    /// Node `d` is node `n`, or a node whose string adds pixels to the
    /// string of node `n`.
    pub open spec fn reaches(&self, d: int, n: int) -> bool
        decreases d,
    {
        if d == n {
            true
        } else if self.clear_code <= d < self.nodes.len() && 0 <= self.parents@[d] < d {
            self.reaches(self.parents@[d], n)
        } else {
            false
        }
    }

    /// Gives the next code to the string of the node `work_node_id` with
    /// the pixel `suffix` added.
    pub fn define(&mut self, work_node_id: NodeId, suffix: u8, next_code: LzwCode)
        requires
            old(self).wf(),
            work_node_id < old(self).nodes.len(),
            next_code == old(self).nodes.len() + 2,
            old(self).nodes.len() < 4094,
            old(self).rooted(),
        ensures
            final(self).wf(),
            final(self).rooted(),
            final(self).clear_code == old(self).clear_code,
            final(self).nodes.len() == old(self).nodes.len() + 1,
            final(self).strings@ == old(self).strings@.push(
                old(self).strings@[work_node_id as int].push(suffix),
            ),
            final(self).nodes@.last().code == next_code,
            final(self).nodes@.last().suffix == suffix,
            forall|i: int|
                0 <= i < old(self).nodes.len() ==> (#[trigger] final(self).nodes@[i]).code == old(
                    self,
                ).nodes@[i].code && final(self).nodes@[i].suffix == old(self).nodes@[i].suffix,
    {
        let id = self.nodes.len() as u16;
        let ghost added = self.strings@[work_node_id as int].push(suffix);
        self.nodes.push(Node { code: next_code, suffix, children: Vec::new() });
        self.nodes[work_node_id as usize].children.push(id);
        proof {
            self.strings@ = self.strings@.push(added);
            self.parents@ = self.parents@.push(work_node_id as int);
            assert forall|n: int, k: int|
                0 <= n < self.nodes.len() && 0 <= k < self.nodes@[n].children.len() implies self.is_child(
                n,
                #[trigger] self.nodes@[n].children@[k] as int,
            ) by {
                if n == work_node_id && k == self.nodes@[n].children.len() - 1 {
                } else if n == id {
                } else {
                    assert(old(self).is_child(n, old(self).nodes@[n].children@[k] as int));
                }
            }
            reveal(CodeTable::rooted);
            assert forall|c: int| self.clear_code <= c < self.nodes.len() implies 0
                <= #[trigger] self.parents@[c] < c && self.is_child(self.parents@[c], c)
                && self.lists(self.parents@[c], c) by {
                let n = self.parents@[c];
                if c == id {
                    let k = self.nodes@[n].children.len() - 1;
                    assert(self.nodes@[n].children@[k] == c);
                } else {
                    assert(old(self).lists(n, c));
                    let k = choose|k: int|
                        0 <= k < old(self).nodes@[n].children.len() && #[trigger] old(
                            self,
                        ).nodes@[n].children@[k] == c;
                    assert(self.nodes@[n].children@[k] == c);
                    assert(old(self).is_child(n, c));
                }
            }
        }
    }

    /// Forgets every string but those of one pixel.
    pub fn reset(&mut self)
        requires
            4 <= old(self).clear_code <= 256,
        ensures
            final(self).wf(),
            final(self).clear_code == old(self).clear_code,
            final(self).nodes.len() == old(self).clear_code,
            final(self).links_used == 0,
            final(self).rooted(),
    {
        self.links_used = 0;
        self.nodes.clear();
        proof {
            self.strings@ = Seq::empty();
            self.parents@ = Seq::new(self.clear_code as nat, |i: int| -1int);
        }
        let mut i: u16 = 0;
        while i < self.clear_code
            invariant
                i <= self.clear_code,
                4 <= self.clear_code <= 256,
                self.clear_code == old(self).clear_code,
                self.links_used == 0,
                self.nodes.len() == i,
                self.strings@.len() == i,
                self.parents@.len() == self.clear_code,
                forall|j: int|
                    0 <= j < i ==> (#[trigger] self.nodes@[j]).code == j && self.nodes@[j].suffix
                        == j && self.strings@[j] == seq![j as u8] && self.nodes@[j].children.len()
                        == 0,
            decreases self.clear_code - i,
        {
            self.nodes.push(Node { code: i, suffix: #[verifier::truncate] (i as u8), children: Vec::new() });
            proof {
                self.strings@ = self.strings@.push(seq![i as u8]);
            }
            i += 1;
        }
        proof {
            reveal(CodeTable::rooted);
        }
    }
}

/// The string of a node goes on from the string of every node that it
/// reaches: it is longer, and where it may be drawn, so may the other.
pub proof fn lemma_run_of_ancestor(table: &CodeTable, t: Tolerance, img: Seq<u8>, start: int, d: int, n: int)
    requires
        table.wf(),
        table.rooted(),
        0 <= d < table.nodes.len(),
        table.reaches(d, n),
    ensures
        0 <= n <= d,
        d != n ==> table.strings@[d].len() > table.strings@[n].len(),
        t.is_run(img, start, table.strings@[d]) ==> t.is_run(img, start, table.strings@[n]),
    decreases d,
{
    if d != n {
        reveal(CodeTable::rooted);
        let p = table.parents@[d];
        assert(table.is_child(p, d));
        assert(table.strings@[d].drop_last() =~= table.strings@[p]);
        assert(table.nodes@[p].code == table.nodes@[p].code);
        assert(table.strings@[p].len() >= 1) by {
            if p < table.clear_code {
                assert(table.nodes@[p].suffix == p);
            } else {
                assert(table.nodes@[p].code == p + 2);
            }
        }
        lemma_run_of_ancestor(table, t, img, start, p, n);
    }
}

/// A node that reaches another through more pixels reaches one of the
/// nodes that the other lists.
pub proof fn lemma_reaches_child(table: &CodeTable, d: int, n: int)
    requires
        table.wf(),
        table.rooted(),
        0 <= d < table.nodes.len(),
        table.reaches(d, n),
        d != n,
    ensures
        0 <= n < table.nodes.len(),
        exists|k: int|
            0 <= k < table.nodes@[n].children.len() && #[trigger] table.reaches(
                d,
                table.nodes@[n].children@[k] as int,
            ),
    decreases d,
{
    reveal(CodeTable::rooted);
    let p = table.parents@[d];
    if p == n {
        assert(table.lists(n, d));
        let k = choose|k: int|
            0 <= k < table.nodes@[n].children.len() && #[trigger] table.nodes@[n].children@[k] == d;
        assert(table.reaches(d, table.nodes@[n].children@[k] as int));
    } else {
        lemma_reaches_child(table, p, n);
        let k = choose|k: int|
            0 <= k < table.nodes@[n].children.len() && #[trigger] table.reaches(
                p,
                table.nodes@[n].children@[k] as int,
            );
        assert(table.reaches(d, table.nodes@[n].children@[k] as int));
    }
}

/// A node whose string may be drawn for the pixels from `start` on reaches
/// the node of the one pixel at `start`.
pub proof fn lemma_run_reaches_root(table: &CodeTable, t: Tolerance, img: Seq<u8>, start: int, d: int)
    requires
        table.wf(),
        table.rooted(),
        0 <= d < table.nodes.len(),
        t.is_run(img, start, table.strings@[d]),
    ensures
        0 <= start < img.len(),
        img[start] < table.clear_code ==> table.reaches(d, img[start] as int),
    decreases d,
{
    lemma_run_first(t, img, start, table.strings@[d]);
    if d < table.clear_code {
        assert(table.nodes@[d].suffix == d);
        assert(table.strings@[d] == seq![d as u8]);
    } else {
        reveal(CodeTable::rooted);
        let p = table.parents@[d];
        assert(table.is_child(p, d));
        assert(table.nodes@[d].code == d + 2);
        assert(table.strings@[d].drop_last() =~= table.strings@[p]);
        assert(table.reaches(p, p));
        assert(table.reaches(d, p));
        lemma_run_of_ancestor(table, t, img, start, d, p);
        lemma_run_reaches_root(table, t, img, start, p);
        if img[start] < table.clear_code {
            assert(table.reaches(d, img[start] as int));
        }
    }
}

/// The search for the string that goes furthest along the coming pixels.
pub struct Lookup<'a> {
    pub code_table: &'a CodeTable,
    pub pal: &'a [RGB8],
    pub image: &'a GiflossyImage<'a>,
    pub max_diff: u32,
    /// The best node found so far, where its string ends, and how far its
    /// pixels are from the image's in all.
    pub best_node: NodeId,
    pub best_pos: usize,
    pub best_total_diff: u64,
    /// Where the search began.
    pub start: Ghost<int>,
}

impl<'a> Lookup<'a> {
    pub open spec fn tol(&self) -> Tolerance {
        Tolerance {
            pal: self.pal@,
            transparent: self.image.transparent,
            max_diff: self.max_diff as int,
        }
    }

    /// The best node's string begins with the pixel at the start, may be
    /// drawn for the pixels from the start on, and ends at `best_pos`.
    pub open spec fn wf(&self) -> bool {
        &&& self.code_table.wf()
        &&& self.code_table.rooted()
        &&& self.code_table.suffixes_below(self.pal@.len() as int)
        &&& self.pal@.len() <= 256
        &&& self.image.img@.len() < 0x1_0000_0000
        &&& forall|i: int| 0 <= i < self.image.img@.len() ==> #[trigger] self.image.img@[i] < self.pal@.len()
        &&& 0 <= self.start@
        &&& self.best_node < self.code_table.nodes.len()
        &&& self.tol().is_run(
            self.image.img@,
            self.start@,
            self.code_table.strings@[self.best_node as int],
        )
        &&& self.best_pos == self.start@ + self.code_table.strings@[self.best_node as int].len()
    }

    /// The string of node `d` goes no further than the best node's, if it
    /// may be drawn for the pixels from the start on at all.
    pub open spec fn beats(&self, d: int) -> bool {
        self.tol().is_run(self.image.img@, self.start@, self.code_table.strings@[d]) ==> self.start@
            + self.code_table.strings@[d].len() <= self.best_pos
    }

    /// Tries every string that adds a pixel to the string of `node_id`,
    /// which ends before `pos`. Afterwards none of the strings that add
    /// pixels to it goes further than the best node's.
    pub fn lossy_node(&mut self, pos: usize, node_id: NodeId, total_diff: u64, dither: RgbDiff)
        requires
            old(self).wf(),
            node_id < old(self).code_table.nodes.len(),
            old(self).tol().run_state(
                old(self).image.img@,
                old(self).start@,
                old(self).code_table.strings@[node_id as int],
            ) == Some(dither),
            pos == old(self).start@ + old(self).code_table.strings@[node_id as int].len(),
            dither.bounded(),
            total_diff <= pos * 0x1_0000_0000,
        ensures
            final(self).wf(),
            final(self).code_table == old(self).code_table,
            final(self).pal == old(self).pal,
            final(self).image == old(self).image,
            final(self).max_diff == old(self).max_diff,
            final(self).start == old(self).start,
            final(self).best_pos >= old(self).best_pos,
            forall|d: int|
                0 <= d < old(self).code_table.nodes.len() && d != node_id && #[trigger] old(
                    self,
                ).code_table.reaches(d, node_id as int) ==> final(self).beats(d),
        decreases old(self).image.img@.len() - pos, 1int,
    {
        let px = match self.image.px_at_pos(pos) {
            Some(px) => px,
            None => {
                proof {
                    // no string goes past the end of the image
                    assert forall|d: int|
                        0 <= d < self.code_table.nodes.len() && d != node_id
                            && #[trigger] self.code_table.reaches(
                            d,
                            node_id as int,
                        ) implies self.beats(d) by {
                        lemma_run_of_ancestor(
                            self.code_table,
                            self.tol(),
                            self.image.img@,
                            self.start@,
                            d,
                            node_id as int,
                        );
                        if self.tol().is_run(
                            self.image.img@,
                            self.start@,
                            self.code_table.strings@[d],
                        ) {
                            lemma_run_first(
                                self.tol(),
                                self.image.img@,
                                self.start@,
                                self.code_table.strings@[d],
                            );
                        }
                    }
                }
                return ;
            },
        };
        let n = self.code_table.nodes[node_id as usize].children.len();
        let mut k: usize = 0;
        while k < n
            invariant
                self.wf(),
                self.code_table == old(self).code_table,
                self.pal == old(self).pal,
                self.image == old(self).image,
                self.max_diff == old(self).max_diff,
                self.start == old(self).start,
                self.best_pos >= old(self).best_pos,
                node_id < self.code_table.nodes.len(),
                n == self.code_table.nodes@[node_id as int].children.len(),
                self.tol().run_state(
                    self.image.img@,
                    self.start@,
                    self.code_table.strings@[node_id as int],
                ) == Some(dither),
                pos == self.start@ + self.code_table.strings@[node_id as int].len(),
                pos < self.image.img@.len(),
                px == self.image.img@[pos as int],
                dither.bounded(),
                total_diff <= pos * 0x1_0000_0000,
                forall|d: int, j: int|
                    0 <= d < self.code_table.nodes.len() && 0 <= j < k
                        && #[trigger] self.code_table.reaches(
                        d,
                        self.code_table.nodes@[node_id as int].children@[j] as int,
                    ) ==> self.beats(d),
            decreases n - k,
        {
            let child = self.code_table.nodes[node_id as usize].children[k];
            assert(self.code_table.is_child(node_id as int, child as int));
            self.try_node(pos, child, px, dither, total_diff, Ghost(node_id as int));
            k += 1;
        }
        proof {
            assert forall|d: int|
                0 <= d < self.code_table.nodes.len() && d != node_id
                    && #[trigger] self.code_table.reaches(d, node_id as int) implies self.beats(
                d,
            ) by {
                lemma_reaches_child(self.code_table, d, node_id as int);
                let j = choose|j: int|
                    0 <= j < self.code_table.nodes@[node_id as int].children.len()
                        && #[trigger] self.code_table.reaches(
                        d,
                        self.code_table.nodes@[node_id as int].children@[j] as int,
                    );
                assert(self.code_table.reaches(
                    d,
                    self.code_table.nodes@[node_id as int].children@[j] as int,
                ));
            }
        }
    }

    /// Tries the string of `node_id`, which adds a pixel to a string that
    /// ends before `pos`, where the image has the pixel `px`.
    pub fn try_node(
        &mut self,
        pos: usize,
        node_id: NodeId,
        px: u8,
        dither: RgbDiff,
        total_diff: u64,
        parent: Ghost<int>,
    )
        requires
            old(self).wf(),
            0 <= parent@ < old(self).code_table.nodes.len(),
            old(self).code_table.is_child(parent@, node_id as int),
            old(self).tol().run_state(
                old(self).image.img@,
                old(self).start@,
                old(self).code_table.strings@[parent@],
            ) == Some(dither),
            pos == old(self).start@ + old(self).code_table.strings@[parent@].len(),
            pos < old(self).image.img@.len(),
            px == old(self).image.img@[pos as int],
            dither.bounded(),
            total_diff <= pos * 0x1_0000_0000,
        ensures
            final(self).wf(),
            final(self).code_table == old(self).code_table,
            final(self).pal == old(self).pal,
            final(self).image == old(self).image,
            final(self).max_diff == old(self).max_diff,
            final(self).start == old(self).start,
            final(self).best_pos >= old(self).best_pos,
            forall|d: int|
                0 <= d < old(self).code_table.nodes.len() && #[trigger] old(
                    self,
                ).code_table.reaches(d, node_id as int) ==> final(self).beats(d),
        decreases old(self).image.img@.len() - pos, 0int,
    {
        let next_px = self.code_table.nodes[node_id as usize].suffix;
        let px_transparent = crate::screen::is_index(self.image.transparent, px);
        let next_transparent = crate::screen::is_index(self.image.transparent, next_px);
        let diff = if px == next_px {
            0
        } else {
            color_diff(
                self.pal[px as usize],
                self.pal[next_px as usize],
                px_transparent,
                next_transparent,
                dither,
            )
        };
        if diff <= self.max_diff {
            let new_dither = diffused_difference(
                self.pal[px as usize],
                self.pal[next_px as usize],
                px_transparent,
                next_transparent,
                dither,
            );
            let new_pos = pos + 1;
            assert(total_diff + diff <= new_pos * 0x1_0000_0000) by (nonlinear_arith)
                requires
                    total_diff <= pos * 0x1_0000_0000,
                    diff <= 0x1_0000_0000,
                    new_pos == pos + 1,
            ;
            assert(new_pos * 0x1_0000_0000 <= 0x1_0000_0000 * 0x1_0000_0000) by (nonlinear_arith)
                requires
                    new_pos <= 0x1_0000_0000,
            ;
            let new_diff = total_diff + diff as u64;
            proof {
                let s = self.code_table.strings@[node_id as int];
                let sp = self.code_table.strings@[parent@];
                assert(s.drop_last() =~= sp);
                assert(s.last() == next_px);
                assert(self.tol().run_state(self.image.img@, self.start@, s) == Some(new_dither));
            }
            if new_pos > self.best_pos || (new_pos == self.best_pos && new_diff
                < self.best_total_diff) {
                self.best_node = node_id;
                self.best_pos = new_pos;
                self.best_total_diff = new_diff;
            }
            self.lossy_node(new_pos, node_id, new_diff, new_dither);
        } else {
            proof {
                // what adds to a string that may not be drawn may not be drawn
                let s = self.code_table.strings@[node_id as int];
                let sp = self.code_table.strings@[parent@];
                assert(s.drop_last() =~= sp);
                assert(s.last() == next_px);
                assert(!self.tol().is_run(self.image.img@, self.start@, s));
                assert forall|d: int|
                    0 <= d < self.code_table.nodes.len() && #[trigger] self.code_table.reaches(
                        d,
                        node_id as int,
                    ) implies self.beats(d) by {
                    lemma_run_of_ancestor(
                        self.code_table,
                        self.tol(),
                        self.image.img@,
                        self.start@,
                        d,
                        node_id as int,
                    );
                }
            }
        }
    }
}


/// A string that may be drawn begins with the pixel that it is drawn for,
/// and does not go past the end of the image.
pub proof fn lemma_run_first(t: Tolerance, img: Seq<u8>, pos: int, s: Seq<u8>)
    requires
        t.is_run(img, pos, s),
    ensures
        s.len() >= 1,
        0 <= pos,
        pos + s.len() <= img.len(),
        s[0] == img[pos],
    decreases s.len(),
{
    if s.len() > 1 {
        lemma_run_first(t, img, pos, s.drop_last());
    }
}

/// Whether pixels are a rendering rests on these pixels alone.
pub proof fn lemma_rendering_prefix(t: Tolerance, img: Seq<u8>, out1: Seq<u8>, out2: Seq<u8>, n: int)
    requires
        t.is_rendering(img, out1, n),
        n <= out2.len(),
        forall|i: int| 0 <= i < n ==> out1[i] == out2[i],
    ensures
        t.is_rendering(img, out2, n),
    decreases n,
{
    if n > 0 {
        let m = choose|m: int|
            0 <= m < n && t.is_rendering(img, out1, m) && #[trigger] t.is_run(
                img,
                m,
                out1.subrange(m, n),
            );
        lemma_rendering_prefix(t, img, out1, out2, m);
        assert(out1.subrange(m, n) =~= out2.subrange(m, n));
    }
}

/// A rendering with one more run is a rendering.
pub proof fn lemma_rendering_extend(t: Tolerance, img: Seq<u8>, out: Seq<u8>, s: Seq<u8>)
    requires
        t.is_rendering(img, out, out.len() as int),
        t.is_run(img, out.len() as int, s),
    ensures
        t.is_rendering(img, out + s, (out.len() + s.len()) as int),
{
    let n = out.len() as int;
    lemma_run_first(t, img, n, s);
    lemma_rendering_prefix(t, img, out, out + s, n);
    assert((out + s).subrange(n, n + s.len()) =~= s);
}

/// The reader after one more code is the reader before, one step on.
pub proof fn lemma_after_push(min_code_size: int, codes: Seq<int>, code: int)
    ensures
        Decoder::after(min_code_size, codes.push(code)) == (match Decoder::after(
            min_code_size,
            codes,
        ) {
            None => None,
            Some(d) => d.step(min_code_size, code),
        }),
        packed(min_code_size, codes.push(code)) == packed(min_code_size, codes) + code_bits(
            code as u16,
            Decoder::after(min_code_size, codes)->0.width,
        ),
{
    assert(codes.push(code).drop_last() =~= codes);
}

/// What holds of the reader wherever codes are still to come: it has not
/// read the code that ends the data, the strings it knows are not empty, and
/// the width of the codes is enough for the next code that it learns.
pub open spec fn reader_ok(min_code_size: int, d: Decoder) -> bool {
    &&& !d.done
    &&& min_code_size + 1 <= d.width <= MAX_CODE_BITS
    &&& d.next_code(min_code_size) <= 4096
    &&& (d.next_code(min_code_size) < pow2(d.width) || (d.width == MAX_CODE_BITS && d.next_code(
        min_code_size,
    ) == 4096))
    &&& (d.prev matches Some(p) ==> p.len() >= 1)
}

/// The bytes are lossy LZW data for the image: a first byte with the least
/// width of the codes, then the bits of a sequence of codes, each in the
/// width in which the reader expects it, then the code that ends the data,
/// and nothing but clear bits up to the end of the last byte. The first of
/// the codes is the one that clears the table, and it comes again only
/// where the table is all but full. Read by the
/// reader, the codes give as many pixels as the image has, and these are
/// the image's pixels drawn run by run, and every run is the longest that
/// a string with a code could be drawn for.
///
/// The code that ends the data is one bit short where the code before it
/// was the last that fits the width.
pub open spec fn is_lossy_lzw_of(
    t: Tolerance,
    img: Seq<u8>,
    min_code_size: int,
    bytes: Seq<u8>,
    codes: Seq<int>,
    end_width: int,
) -> bool {
    let d = Decoder::after(min_code_size, codes);
    let bits = code_bits(min_code_size as u16, 8) + packed(min_code_size, codes) + code_bits(
        (pow2(min_code_size) + 1) as u16,
        end_width,
    );
    &&& codes.len() > 0
    &&& codes[0] == pow2(min_code_size)
    &&& d is Some
    &&& !d->0.done
    &&& d->0.out.len() == img.len()
    &&& t.is_rendering(img, d->0.out, img.len() as int)
    &&& is_greedy(t, img, min_code_size, codes)
    &&& clears_late(min_code_size, codes)
    &&& (end_width == d->0.width || end_width + 1 == d->0.width)
    &&& bytes.len() == (bits.len() + 7) / 8
    &&& forall|i: int| 0 <= i < bits.len() ==> crate::bits::stream_bit(bytes, i) == bits[i]
    &&& forall|i: int| bits.len() <= i < 8 * bytes.len() ==> !crate::bits::stream_bit(bytes, i)
}

pub open spec fn is_lossy_lzw(t: Tolerance, img: Seq<u8>, min_code_size: int, bytes: Seq<u8>) -> bool {
    exists|codes: Seq<int>, end_width: int|
        is_lossy_lzw_of(t, img, min_code_size, bytes, codes, end_width)
}


/// No two entries of the palette are the same colour.
pub open spec fn has_distinct_colors(pal: Seq<RGB8>) -> bool {
    forall|i: int, j: int| 0 <= i < j < pal.len() ==> pal[i] != pal[j]
}

/// Every pixel is an index of the palette.
pub open spec fn is_indexed_by(img: Seq<u8>, pal: Seq<RGB8>) -> bool {
    forall|i: int| 0 <= i < img.len() ==> #[trigger] img[i] < pal.len()
}

proof fn lemma_no_distance_same_color(a: RGB8, b: RGB8)
    requires
        square(a.r - b.r) + square(a.g - b.g) + square(a.b - b.b) <= 0,
    ensures
        a == b,
{
    let (dr, dg, db) = (a.r - b.r, a.g - b.g, a.b - b.b);
    assert(dr * dr >= 0 && dg * dg >= 0 && db * db >= 0) by (nonlinear_arith);
    assert(dr != 0 ==> dr * dr > 0) by (nonlinear_arith);
    assert(dg != 0 ==> dg * dg > 0) by (nonlinear_arith);
    assert(db != 0 ==> db * db > 0) by (nonlinear_arith);
}

/// Where no distance is allowed and no colour stands twice in the palette,
/// a string that may be drawn for some pixels is these pixels, and no
/// error is carried on from it.
pub proof fn lemma_exact_run(t: Tolerance, img: Seq<u8>, pos: int, s: Seq<u8>)
    requires
        t.max_diff <= 0,
        has_distinct_colors(t.pal),
        is_indexed_by(img, t.pal),
        t.is_run(img, pos, s),
    ensures
        0 <= pos,
        pos + s.len() <= img.len(),
        s == img.subrange(pos, pos + s.len()),
        t.run_state(img, pos, s) == Some(RgbDiff::zero()),
    decreases s.len(),
{
    if s.len() == 1 {
        assert(s =~= img.subrange(pos, pos + 1));
    } else {
        let before = s.drop_last();
        lemma_exact_run(t, img, pos, before);
        let px = img[pos + s.len() - 1];
        let next = s.last();
        assert(px < t.pal.len());
        if px != next {
            if (t.transparent == Some(px)) == (t.transparent == Some(next)) {
                lemma_no_distance_same_color(t.pal[px as int], t.pal[next as int]);
                if px < next {
                    assert(t.pal[px as int] != t.pal[next as int]);
                } else {
                    assert(t.pal[next as int] != t.pal[px as int]);
                }
            }
        }
        assert(s =~= img.subrange(pos, pos + s.len())) by {
            assert forall|i: int| 0 <= i < s.len() implies s[i] == img[pos + i] by {
                if i < s.len() - 1 {
                    assert(before[i] == img.subrange(pos, pos + before.len())[i]);
                }
            }
        }
    }
}

/// Where no distance is allowed and no colour stands twice in the palette,
/// pixels that are the image drawn run by run are the image.
pub proof fn lemma_exact_rendering(t: Tolerance, img: Seq<u8>, out: Seq<u8>, n: int)
    requires
        t.max_diff <= 0,
        has_distinct_colors(t.pal),
        is_indexed_by(img, t.pal),
        t.is_rendering(img, out, n),
    ensures
        0 <= n <= img.len() && n <= out.len(),
        out.subrange(0, n) == img.subrange(0, n),
    decreases n,
{
    if n <= 0 {
        assert(out.subrange(0, n) =~= img.subrange(0, n));
    } else {
        let m = choose|m: int|
            0 <= m < n && t.is_rendering(img, out, m) && #[trigger] t.is_run(
                img,
                m,
                out.subrange(m, n),
            );
        lemma_exact_rendering(t, img, out, m);
        lemma_exact_run(t, img, m, out.subrange(m, n));
        assert(out.subrange(0, n) =~= img.subrange(0, n)) by {
            assert forall|i: int| 0 <= i < n implies out[i] == img[i] by {
                if i < m {
                    assert(out.subrange(0, m)[i] == img.subrange(0, m)[i]);
                } else {
                    assert(out.subrange(m, n)[i - m] == img.subrange(m, n)[i - m]);
                }
            }
        }
    }
}

/// Without loss the compressor keeps every pixel: where no distance is
/// allowed and no colour stands twice in the palette, the data is read
/// back as the pixels of the image and nothing else.
pub proof fn lemma_lossless_is_exact(
    t: Tolerance,
    img: Seq<u8>,
    min_code_size: int,
    bytes: Seq<u8>,
    codes: Seq<int>,
    end_width: int,
)
    requires
        t.max_diff <= 0,
        has_distinct_colors(t.pal),
        is_indexed_by(img, t.pal),
        is_lossy_lzw_of(t, img, min_code_size, bytes, codes, end_width),
    ensures
        Decoder::after(min_code_size, codes) matches Some(d) && d.out == img,
{
    let d = Decoder::after(min_code_size, codes)->0;
    lemma_exact_rendering(t, img, d.out, img.len() as int);
    assert(d.out =~= d.out.subrange(0, img.len() as int));
    assert(img =~= img.subrange(0, img.len() as int));
}

/// The strings that the compressor has a code for when the reader has
/// read some codes and the pixels from `pos` on are to come: those of one
/// pixel, those that the reader has learnt, and the one that the reader
/// learns with the next code, which ends with the pixel at `pos`.
pub open spec fn is_known(d: Decoder, min_code_size: int, img: Seq<u8>, x: Seq<u8>) -> bool {
    let pos = d.out.len() as int;
    ||| (x.len() == 1 && x[0] < pow2(min_code_size))
    ||| (exists|j: int| 0 <= j < d.table.len() && #[trigger] d.table[j] == x)
    ||| (d.prev is Some && d.next_code(min_code_size) < 4096 && pos < img.len() && x
        == d.prev->0.push(img[pos]))
}

/// None of the strings that the compressor has a code for can be drawn
/// for more than `len` of the pixels that are to come.
pub open spec fn is_longest(t: Tolerance, img: Seq<u8>, min_code_size: int, d: Decoder, len: int) -> bool {
    forall|x: Seq<u8>|
        #![trigger t.is_run(img, d.out.len() as int, x)]
        is_known(d, min_code_size, img, x) && t.is_run(img, d.out.len() as int, x) ==> x.len()
            <= len
}

/// The code at place `k` stands for a string that goes as far along the
/// pixels as any string that the compressor had a code for.
pub open spec fn is_greedy_at(t: Tolerance, img: Seq<u8>, min_code_size: int, codes: Seq<int>, k: int) -> bool {
    let d = Decoder::after(min_code_size, codes.subrange(0, k));
    codes[k] != pow2(min_code_size) && codes[k] != pow2(min_code_size) + 1 ==> d is Some
        && d->0.string_of(min_code_size, codes[k]) is Some && is_longest(
        t,
        img,
        min_code_size,
        d->0,
        d->0.string_of(min_code_size, codes[k])->0.len() as int,
    )
}

/// Every code stands for the longest string that could be drawn when it
/// was written.
#[verifier::opaque]
pub open spec fn is_greedy(t: Tolerance, img: Seq<u8>, min_code_size: int, codes: Seq<int>) -> bool {
    forall|k: int| 0 <= k < codes.len() ==> #[trigger] is_greedy_at(t, img, min_code_size, codes, k)
}

/// Codes that are greedy stay so with one more code that is.
pub proof fn lemma_greedy_push(t: Tolerance, img: Seq<u8>, min_code_size: int, codes: Seq<int>, code: int)
    requires
        is_greedy(t, img, min_code_size, codes),
        code != pow2(min_code_size) && code != pow2(min_code_size) + 1 ==> {
            let d = Decoder::after(min_code_size, codes);
            d is Some && d->0.string_of(min_code_size, code) is Some && is_longest(
                t,
                img,
                min_code_size,
                d->0,
                d->0.string_of(min_code_size, code)->0.len() as int,
            )
        },
    ensures
        is_greedy(t, img, min_code_size, codes.push(code)),
{
    reveal(is_greedy);
    let longer = codes.push(code);
    assert forall|k: int| 0 <= k < longer.len() implies #[trigger] is_greedy_at(
        t,
        img,
        min_code_size,
        longer,
        k,
    ) by {
        if k < codes.len() {
            assert(is_greedy_at(t, img, min_code_size, codes, k));
            assert(longer.subrange(0, k) =~= codes.subrange(0, k));
            assert(longer[k] == codes[k]);
        } else {
            assert(longer.subrange(0, k) =~= codes);
        }
    }
}

/// How many codes the reader may have left to learn where the table is
/// cleared anew.
pub const CLEAR_ROOM: u16 = 3;

/// The code at place `k`, where it clears the table and is not the first
/// code, stands where the reader's table is all but full.
pub open spec fn is_late_clear_at(min_code_size: int, codes: Seq<int>, k: int) -> bool {
    let d = Decoder::after(min_code_size, codes.subrange(0, k));
    0 < k && codes[k] == pow2(min_code_size) ==> d is Some && d->0.next_code(min_code_size)
        + CLEAR_ROOM >= 4096
}

/// The table is cleared only before the first code, and where it is all
/// but full.
#[verifier::opaque]
pub open spec fn clears_late(min_code_size: int, codes: Seq<int>) -> bool {
    forall|k: int| 0 <= k < codes.len() ==> #[trigger] is_late_clear_at(min_code_size, codes, k)
}

/// Codes that clear the table late stay so with one more code that does.
pub proof fn lemma_clears_late_push(min_code_size: int, codes: Seq<int>, code: int)
    requires
        clears_late(min_code_size, codes),
        codes.len() > 0 && code == pow2(min_code_size) ==> {
            let d = Decoder::after(min_code_size, codes);
            d is Some && d->0.next_code(min_code_size) + CLEAR_ROOM >= 4096
        },
    ensures
        clears_late(min_code_size, codes.push(code)),
{
    reveal(clears_late);
    let longer = codes.push(code);
    assert forall|k: int| 0 <= k < longer.len() implies #[trigger] is_late_clear_at(
        min_code_size,
        longer,
        k,
    ) by {
        if k < codes.len() {
            assert(is_late_clear_at(min_code_size, codes, k));
            assert(longer.subrange(0, k) =~= codes.subrange(0, k));
            assert(longer[k] == codes[k]);
        } else {
            assert(longer.subrange(0, k) =~= codes);
        }
    }
}

/// No codes clear the table late.
pub proof fn lemma_clears_late_empty(min_code_size: int)
    ensures
        clears_late(min_code_size, Seq::empty()),
{
    reveal(clears_late);
}

/// No codes are greedy.
pub proof fn lemma_greedy_empty(t: Tolerance, img: Seq<u8>, min_code_size: int)
    ensures
        is_greedy(t, img, min_code_size, Seq::empty()),
{
    reveal(is_greedy);
}

/// Where none of the nodes of the table can be drawn for more than `len`
/// pixels, none of the strings can that the compressor has a code for.
pub proof fn lemma_longest_of_table(
    table: &CodeTable,
    t: Tolerance,
    img: Seq<u8>,
    min_code_size: int,
    d: Decoder,
    ahead: int,
    len: int,
)
    requires
        table.clear_code == pow2(min_code_size),
        tables_agree(table, d, ahead),
        0 <= ahead <= 1,
        ahead == 1 <==> d.prev is Some && d.next_code(min_code_size) < 4096 && d.out.len()
            < img.len(),
        ahead == 1 ==> table.strings@[table.clear_code + d.table.len()] == d.prev->0.push(
            img[d.out.len() as int],
        ),
        forall|n: int|
            0 <= n < table.nodes.len() && #[trigger] t.is_run(
                img,
                d.out.len() as int,
                table.strings@[n],
            ) ==> table.strings@[n].len() <= len,
    ensures
        is_longest(t, img, min_code_size, d, len),
{
    let cc = table.clear_code as int;
    assert forall|x: Seq<u8>|
        is_known(d, min_code_size, img, x) && #[trigger] t.is_run(
            img,
            d.out.len() as int,
            x,
        ) implies x.len() <= len by {
        if x.len() == 1 && x[0] < cc {
            let n = x[0] as int;
            assert(table.nodes@[n].code == n);
            assert(table.strings@[n] =~= x);
        } else if exists|j: int| 0 <= j < d.table.len() && #[trigger] d.table[j] == x {
            let j = choose|j: int| 0 <= j < d.table.len() && #[trigger] d.table[j] == x;
            assert(table.strings@[cc + j] == x);
        } else {
            assert(table.strings@[cc + d.table.len()] == x);
        }
    }
}

pub open spec fn one_if(b: bool) -> int {
    if b {
        1
    } else {
        0
    }
}

/// The table of the compressor and the reader agree: the reader knows the
/// first strings that the compressor gave codes to, in the same order, and
/// the compressor is `ahead` strings further.
pub open spec fn tables_agree(table: &CodeTable, d: Decoder, ahead: int) -> bool {
    &&& table.wf()
    &&& table.nodes.len() == table.clear_code + d.table.len() + ahead
    &&& forall|k: int|
        0 <= k < d.table.len() ==> #[trigger] d.table[k] == table.strings@[table.clear_code + k]
}

/// The state before the code of the node `pnode` is written. The reader
/// learns with it the string that the compressor gave a code to when it
/// found the node (`e1`), and the compressor may already have given a code
/// to the node's string with the coming pixel added (`e2`).
pub open spec fn pending_ok(
    min_code_size: int,
    table: &CodeTable,
    d: Decoder,
    pnode: int,
    e1: bool,
    e2: bool,
) -> bool {
    let cc = pow2(min_code_size);
    let e = d.table.len() as int;
    &&& table.clear_code == cc
    &&& tables_agree(table, d, one_if(e1) + one_if(e2))
    &&& 0 <= pnode < cc + e + one_if(e1)
    &&& (e1 ==> d.prev is Some && table.strings@[cc + e] == d.prev->0.push(
        table.strings@[pnode][0],
    ) && cc + 2 + e < 4096)
    &&& (!e1 ==> d.prev is None || cc + 2 + e == 4096)
    &&& (e2 ==> cc + 2 + e + one_if(e1) < 4096)
}

/// Reading the code of the pending node gives the node's string, and
/// leaves the reader in agreement with the compressor.
pub proof fn lemma_consume(
    min_code_size: int,
    table: &CodeTable,
    d: Decoder,
    pnode: int,
    e1: bool,
    e2: bool,
)
    requires
        2 <= min_code_size <= 8,
        reader_ok(min_code_size, d),
        pending_ok(min_code_size, table, d, pnode, e1, e2),
    ensures
        ({
            let cc = pow2(min_code_size);
            let code = table.nodes@[pnode].code as int;
            let d2 = d.step(min_code_size, code);
            &&& code != cc && code != cc + 1
            &&& 0 <= code < pow2(d.width)
            &&& d.string_of(min_code_size, code) == Some(table.strings@[pnode])
            &&& d2 is Some
            &&& reader_ok(min_code_size, d2->0)
            &&& d2->0.out == d.out + table.strings@[pnode]
            &&& d2->0.prev == Some(table.strings@[pnode])
            &&& table.strings@[pnode].len() >= 1
            &&& tables_agree(table, d2->0, one_if(e2))
            &&& d2->0.table.len() == d.table.len() + one_if(e1)
            &&& d2->0.width == (if e1 && cc + 2 + d.table.len() + 1 == pow2(d.width) && d.width
                < MAX_CODE_BITS {
                d.width + 1
            } else {
                d.width
            })
        }),
{
    let cc = pow2(min_code_size);
    let e = d.table.len() as int;
    let code = table.nodes@[pnode].code as int;
    let s = table.strings@[pnode];
    if pnode < cc {
        assert(table.nodes@[pnode].code == pnode);
        assert(s == seq![pnode as u8]);
        assert(d.string_of(min_code_size, code) == Some(s));
    } else {
        assert(table.nodes@[pnode].code == pnode + 2);
        assert(s.len() >= 2);
        if pnode - cc < e {
            assert(d.table[pnode - cc] == table.strings@[cc + (pnode - cc)]);
            assert(d.string_of(min_code_size, code) == Some(s));
        } else {
            assert(e1 && pnode == cc + e);
            let p = d.prev->0;
            assert(s == p.push(s[0]));
            assert(s[0] == p[0]);
            assert(d.string_of(min_code_size, code) == Some(s));
        }
    }
    let d2 = d.step(min_code_size, code)->0;
    assert(tables_agree(table, d2, one_if(e2))) by {
        assert forall|k: int| 0 <= k < d2.table.len() implies #[trigger] d2.table[k]
            == table.strings@[table.clear_code + k] by {
            if k < e {
                assert(d.table[k] == table.strings@[table.clear_code + k]);
            }
        }
    }
}

const RUN_EWMA_WEIGHT: usize = 16;

const RUN_EWMA_SCALE: usize = 19;

const RUN_INV_THRESH: usize = 174;

/// The average of the lengths of the runs once a run of the length `run`
/// is counted in: it moves a sixteenth of the way towards that length,
/// rounded towards where it was. Both are in the scale of the average.
pub open spec fn ewma_spec(run_ewma: int, run: int) -> int {
    if run < run_ewma {
        run_ewma - (run_ewma - run) / 16
    } else {
        run_ewma + (run - run_ewma) / 16
    }
}

/// The average of the lengths of the runs, moved a sixteenth of the way
/// towards the newest length.
fn ewma_update(run_ewma: usize, run: usize) -> (r: usize)
    ensures
        r == ewma_spec(run_ewma as int, run as int),
        r <= run_ewma || r <= run,
{
    if run < run_ewma {
        run_ewma - (run_ewma - run) / RUN_EWMA_WEIGHT
    } else {
        run_ewma + (run - run_ewma) / RUN_EWMA_WEIGHT
    }
}

/// A run of `run` pixels in the scale of the average, in which one pixel
/// is 524288: the scale holds the lengths below 8192, of a longer run it
/// keeps what is left over, and half a sixteenth of the average's step is
/// added so that the average is rounded.
pub open spec fn scaled_run_spec(run: int) -> int {
    (run % 8192) * 524288 + 8
}

/// A run length in the scale of the average.
fn scaled_run(run: usize) -> (r: usize)
    ensures
        r == scaled_run_spec(run as int),
        r <= u32::MAX,
{
    let wide: u64 = run as u64;
    let low: u32 = #[verifier::truncate]
    (wide as u32);
    let shifted: u32 = low << (RUN_EWMA_SCALE as u32);
    assert(shifted <= 0xfff8_0000u32 && shifted == (wide % 8192) * 524288) by (bit_vector)
        requires
            low == wide as u32,
            shifted == low << 19u32,
    ;
    (shifted + 8) as usize
}

/// Whether the table is best cleared, for an average of the lengths of
/// the runs and the number of pixels that are still to be written. It is
/// while pixels are left, and the runs are short: on average under 36
/// pixels divided by the least width of the codes, or under a 3000th of
/// what is left.
pub open spec fn wants_clear_spec(run_ewma: int, pixels_left: int, min_code_size: int) -> bool {
    pixels_left != 0 && (run_ewma < 18874368int / min_code_size || pixels_left > 0xFFFF_FFFFint / 174
        || run_ewma < pixels_left * 174)
}

/// Whether the table is best cleared: the runs have become short,
/// and enough pixels are left to make up for a new table.
fn wants_clear(run_ewma: usize, pixels_left: usize, min_code_size: u8) -> (clear: bool)
    requires
        2 <= min_code_size <= 8,
    ensures
        clear == wants_clear_spec(run_ewma as int, pixels_left as int, min_code_size as int),
{
    assert(36usize << 19usize == 18874368usize) by (bit_vector);
    pixels_left != 0 && (run_ewma < (36usize << RUN_EWMA_SCALE) / (min_code_size as usize)
        || pixels_left > 0xFFFF_FFFFusize / RUN_INV_THRESH || run_ewma < pixels_left
        * RUN_INV_THRESH)
}


/// The lossy compressor, with the distance that a pixel may be drawn from
/// its colour.
#[derive(Clone, Copy)]
pub struct GiflossyWriter {
    pub loss: u32,
}

/// A place at which the data may later be cut and the table cleared.
pub struct ClearPoint {
    pub codes: Seq<int>,
    pub reader: Decoder,
}

impl ClearPoint {
    /// The codes up to the place bring the reader to the full width, with
    /// the first `pos` pixels read, and take `bits` bits of what is written.
    pub open spec fn ok(
        self,
        t: Tolerance,
        img: Seq<u8>,
        min_code_size: int,
        written: Seq<bool>,
        bits: int,
        pos: int,
    ) -> bool {
        &&& Decoder::after(min_code_size, self.codes) == Some(self.reader)
        &&& (self.codes.len() > 0 ==> self.codes[0] == pow2(min_code_size))
        &&& clears_late(min_code_size, self.codes)
        &&& self.reader.next_code(min_code_size) + CLEAR_ROOM >= 4096
        &&& reader_ok(min_code_size, self.reader)
        &&& self.reader.width == MAX_CODE_BITS
        &&& self.reader.out.len() == pos
        &&& t.is_rendering(img, self.reader.out, pos)
        &&& is_greedy(t, img, min_code_size, self.codes)
        &&& self.codes.len() <= 2 * pos
        &&& 0 <= bits <= written.len()
        &&& bits <= 8 + 12 * self.codes.len()
        &&& written.subrange(0, bits) == code_bits(min_code_size as u16, 8) + packed(
            min_code_size,
            self.codes,
        )
    }
}

impl GiflossyWriter {
    pub open spec fn tol(&self, image: &GiflossyImage, pal: &[RGB8]) -> Tolerance {
        Tolerance { pal: pal@, transparent: image.transparent, max_diff: self.loss as int }
    }

    /// Compresses the pixels of the image into `buf`.
    #[verifier::rlimit(100)]
    pub fn encode(&self, image: &GiflossyImage, pal: &[RGB8], buf: Vec<u8>) -> (out: Vec<u8>)
        requires
            buf.len() == 0,
            pal@.len() <= 256,
            image.img@.len() < 0x1_0000_0000,
            forall|i: int| 0 <= i < image.img@.len() ==> #[trigger] image.img@[i] < pal@.len(),
        ensures
            is_lossy_lzw(
                self.tol(image, pal),
                image.img@,
                min_code_size_spec(pal@.len() as int),
                out@,
            ),
    {
        let len = image.img.len();
        let ghost img = image.img@;
        let ghost t = self.tol(image, pal);
        let min_code_size = min_code_size_for(pal.len());
        let ghost mcs = min_code_size as int;
        let clear_code = pow2_of(min_code_size);
        let mut bw = BitWriter { buf, bits: 0 };
        assert(bw@ =~= Seq::<bool>::empty());
        assert((min_code_size as u16) >> 8u16 == 0) by (bit_vector)
            requires
                min_code_size <= 8,
        ;
        bw.write_code(min_code_size as u16, 8);
        assert(bw@ =~= code_bits(min_code_size as u16, 8));

        let mut code_table = CodeTable {
            clear_code,
            links_used: 0,
            nodes: Vec::new(),
            strings: Ghost(Seq::empty()),
            parents: Ghost(Seq::empty()),
        };
        code_table.reset();

        let mut run: usize = 0;
        let mut run_ewma: usize = 0;
        let mut next_code: u16 = 0;
        let mut cur_code_bits: u8 = min_code_size + 1;
        let mut output_code: u16 = clear_code;
        let mut clear_bufpos_bits: u64 = bw.bits;
        let mut pos: usize = 0;
        let mut clear_pos: usize = 0;

        let ghost mut codes: Seq<int> = Seq::empty();
        let ghost mut dec: Decoder = Decoder::start(mcs);
        let ghost mut pnode: int = 0;
        let ghost mut start: int = 0;
        let ghost mut e1: bool = false;
        let ghost mut e2: bool = false;
        let ghost mut floor: int = 0;
        let ghost mut fresh: bool = true;
        let ghost mut cp: ClearPoint = ClearPoint { codes: Seq::empty(), reader: dec };
        let ghost mut end_width: int = 0;
        proof {
            lemma_greedy_empty(t, img, mcs);
            lemma_clears_late_empty(mcs);
        }

        loop
            invariant_except_break
                len == img.len(),
                img == image.img@,
                t == self.tol(image, pal),
                len < 0x1_0000_0000,
                mcs == min_code_size,
                mcs == min_code_size_spec(pal@.len() as int),
                2 <= mcs <= 8,
                clear_code == pow2(mcs),
                pal@.len() <= clear_code,
                forall|i: int| 0 <= i < img.len() ==> #[trigger] img[i] < pal@.len(),
                code_table.clear_code == clear_code,
                code_table.wf(),
                code_table.rooted(),
                code_table.suffixes_below(pal@.len() as int),
                bw.wf(),
                bw@ == code_bits(min_code_size as u16, 8) + packed(mcs, codes),
                bw.bits <= 8 + 12 * codes.len(),
                Decoder::after(mcs, codes) == Some(dec),
                codes.len() > 0 ==> codes[0] == clear_code,
                codes.len() == 0 ==> output_code == clear_code,
                clears_late(mcs, codes),
                output_code == clear_code && codes.len() > 0 ==> dec.next_code(mcs) + CLEAR_ROOM
                    >= 4096,
                reader_ok(mcs, dec),
                dec.out.len() == start,
                0 <= floor <= start <= pos <= len,
                t.is_rendering(img, dec.out, start),
                is_greedy(t, img, mcs, codes),
                codes.len() + (if fresh { 0int } else { 1 }) <= 2 * start + 1,
                fresh ==> dec.table.len() == 0 && dec.prev is None,
                mcs + 1 <= cur_code_bits <= MAX_CODE_BITS,
                output_code == clear_code ==> pos == start && cur_code_bits == dec.width
                    && codes.len() <= 2 * start,
                output_code == clear_code + 1 ==> pos == len && start == len && (cur_code_bits
                    == dec.width || cur_code_bits + 1 == dec.width),
                output_code != clear_code && output_code != clear_code + 1 ==> {
                    &&& pending_ok(mcs, &code_table, dec, pnode, e1, e2)
                    &&& output_code == code_table.nodes@[pnode].code
                    &&& t.is_run(img, start, code_table.strings@[pnode])
                    &&& is_longest(t, img, mcs, dec, code_table.strings@[pnode].len() as int)
                    &&& pos == start + code_table.strings@[pnode].len()
                    &&& cur_code_bits == dec.width
                    &&& (e2 ==> pos < len && code_table.strings@[clear_code + dec.table.len()
                        + one_if(e1)] == code_table.strings@[pnode].push(img[pos as int]))
                    &&& (!e2 ==> pos == len || clear_code + 2 + dec.table.len() + one_if(e1)
                        == 4096)
                    &&& ((next_code == code_table.nodes.len() + 2 && next_code <= 0x1000) || (
                    next_code == 0x1001 && code_table.nodes.len() + 2 == 0x1000))
                    &&& floor + (code_table.nodes.len() - clear_code) <= pos
                    &&& (clear_pos != 0 ==> floor < clear_pos <= start && cp.ok(
                        t,
                        img,
                        mcs,
                        bw@,
                        clear_bufpos_bits as int,
                        clear_pos as int,
                    ))
                },
            ensures
                is_lossy_lzw_of(t, img, mcs, bw.buf@, codes, end_width),
            decreases len - floor, len - pos, (if output_code == clear_code + 1 { 0int } else { 1 }),
        {
            let ghost top_bits = bw@;
            proof {
                if output_code != clear_code && output_code != clear_code + 1 {
                    lemma_consume(mcs, &code_table, dec, pnode, e1, e2);
                }
                lemma_code_fits(output_code, cur_code_bits);
            }
            bw.write_code(output_code, cur_code_bits);
            proof {
                if clear_pos != 0 && output_code != clear_code && output_code != clear_code + 1 {
                    assert(bw@.subrange(0, clear_bufpos_bits as int) =~= top_bits.subrange(
                        0,
                        clear_bufpos_bits as int,
                    ));
                    assert(cp.ok(t, img, mcs, bw@, clear_bufpos_bits as int, clear_pos as int));
                }
            }

            if output_code == clear_code {
                proof {
                    lemma_after_push(mcs, codes, clear_code as int);
                    lemma_greedy_push(t, img, mcs, codes, clear_code as int);
                    lemma_clears_late_push(mcs, codes, clear_code as int);
                    codes = codes.push(clear_code as int);
                    dec = dec.step(mcs, clear_code as int)->0;
                    fresh = true;
                    e1 = false;
                    e2 = false;
                }
                cur_code_bits = min_code_size + 1;
                next_code = clear_code + 2;
                run_ewma = 1usize << RUN_EWMA_SCALE;
                code_table.reset();
                clear_bufpos_bits = 0;
                clear_pos = 0;
                assert(tables_agree(&code_table, dec, 0));
            } else {
                if output_code == clear_code + 1 {
                    proof {
                        end_width = cur_code_bits as int;
                        let bits = code_bits(min_code_size as u16, 8) + packed(mcs, codes)
                            + code_bits((pow2(mcs) + 1) as u16, end_width);
                        assert(bw@ == bits);
                        assert forall|i: int| 0 <= i < bits.len() implies crate::bits::stream_bit(
                            bw.buf@,
                            i,
                        ) == bits[i] by {
                            assert(bw@[i] == bits[i]);
                        }
                    }
                    break ;
                }
                proof {
                    lemma_after_push(mcs, codes, output_code as int);
                    lemma_rendering_extend(t, img, dec.out, code_table.strings@[pnode]);
                    lemma_greedy_push(t, img, mcs, codes, output_code as int);
                    lemma_clears_late_push(mcs, codes, output_code as int);
                    codes = codes.push(output_code as int);
                    dec = dec.step(mcs, output_code as int)->0;
                    fresh = false;
                    start = pos as int;
                }
                let limit = pow2_of(cur_code_bits);
                if next_code > limit && cur_code_bits < MAX_CODE_BITS {
                    cur_code_bits += 1;
                }
                run = scaled_run(run);
                run_ewma = ewma_update(run_ewma, run);
                assert(tables_agree(&code_table, dec, one_if(e2)));
            }
            // the reader has all that is written, and the compressor is at
            // most one string ahead of it
            let ghost ahead = e2;
            assert(bw@ =~= code_bits(min_code_size as u16, 8) + packed(mcs, codes));
            assert(tables_agree(&code_table, dec, one_if(ahead)));
            assert(ahead ==> dec.prev is Some && clear_code + 2 + dec.table.len() < 4096 && pos
                < len && code_table.strings@[clear_code + dec.table.len()] == dec.prev->0.push(
                img[pos as int],
            ));
            assert(!ahead ==> dec.prev is None || clear_code + 2 + dec.table.len() == 4096 || pos
                == len);
            assert(cur_code_bits == dec.width || (pos == len && cur_code_bits + 1 == dec.width));
            assert(dec.out.len() == pos && start == pos);
            assert((next_code == code_table.nodes.len() + 2 && next_code <= 0x1000) || (next_code
                == 0x1001 && code_table.nodes.len() + 2 == 0x1000));

            match image.px_at_pos(pos) {
                Some(px) => {
                    assert(code_table.nodes@[px as int].code == px);
                    assert(code_table.strings@[px as int] == seq![px]);
                    let mut l = Lookup {
                        code_table: &code_table,
                        pal,
                        image,
                        max_diff: self.loss,
                        best_node: px as u16,
                        best_pos: pos + 1,
                        best_total_diff: 0,
                        start: Ghost(pos as int),
                    };
                    l.lossy_node(pos + 1, px as u16, 0, RgbDiff { r: 0, g: 0, b: 0 });
                    let best_node = l.best_node;
                    let best_pos = l.best_pos;
                    proof {
                        lemma_run_first(t, img, pos as int, code_table.strings@[best_node as int]);
                        let best_len = code_table.strings@[best_node as int].len() as int;
                        assert forall|n: int|
                            0 <= n < code_table.nodes.len() && #[trigger] t.is_run(
                                img,
                                dec.out.len() as int,
                                code_table.strings@[n],
                            ) implies code_table.strings@[n].len() <= best_len by {
                            lemma_run_reaches_root(&code_table, t, img, pos as int, n);
                            if n != px {
                                assert(l.beats(n));
                            }
                        }
                        lemma_longest_of_table(
                            &code_table,
                            t,
                            img,
                            mcs,
                            dec,
                            one_if(ahead),
                            best_len,
                        );
                        pnode = best_node as int;
                        e1 = ahead;
                    }
                    run = best_pos - pos;
                    let match_start = pos;
                    pos = best_pos;
                    output_code = code_table.nodes[best_node as usize].code;
                    let ghost strings_before = code_table.strings@;
                    match image.px_at_pos(pos) {
                        Some(px) => {
                            if next_code < 0x1000 {
                                code_table.define(best_node, px, next_code);
                                next_code += 1;
                                proof {
                                    e2 = true;
                                    assert forall|k: int|
                                        0 <= k < dec.table.len() implies #[trigger] dec.table[k]
                                        == code_table.strings@[code_table.clear_code + k] by {
                                        assert(dec.table[k] == strings_before[clear_code + k]);
                                    }
                                }
                            } else {
                                next_code = 0x1001;
                                proof {
                                    e2 = false;
                                }
                            }
                            let mut cleared = false;
                            if next_code >= 0x0FFF {
                                let pixels_left = len - pos - 1;
                                let do_clear = wants_clear(run_ewma, pixels_left, min_code_size);
                                if (do_clear || run < 7) && clear_pos == 0 {
                                    clear_pos = match_start;
                                    clear_bufpos_bits = bw.bits;
                                    proof {
                                        cp = ClearPoint { codes, reader: dec };
                                        assert(bw@.subrange(0, bw.bits as int) =~= bw@);
                                        assert(code_table.nodes.len() >= 0xFFD);
                                        assert(dec.table.len() >= 1);
                                        assert(dec.next_code(mcs) >= 4093);
                                        assert(dec.width == MAX_CODE_BITS);
                                        assert(!fresh);
                                        assert(cp.ok(
                                            t,
                                            img,
                                            mcs,
                                            bw@,
                                            clear_bufpos_bits as int,
                                            clear_pos as int,
                                        ));
                                    }
                                } else if !do_clear && run > 50 {
                                    clear_bufpos_bits = 8;
                                    clear_pos = 0;
                                }
                                if do_clear {
                                    output_code = clear_code;
                                    pos = clear_pos;
                                    bw.rewind(clear_bufpos_bits);
                                    proof {
                                        codes = cp.codes;
                                        dec = cp.reader;
                                        floor = clear_pos as int;
                                        start = clear_pos as int;
                                        fresh = false;
                                    }
                                    cleared = true;
                                }
                            }
                            if !cleared {
                                run = scaled_run(run);
                                run_ewma = ewma_update(run_ewma, run);
                            }
                        },
                        None => {
                            proof {
                                e2 = false;
                            }
                        },
                    }
                },
                None => {
                    run = 0;
                    output_code = clear_code + 1;
                },
            }
        }
        bw.buf
    }
}


/// The palette that the image is compressed with: its own, or else the
/// one that is shared.
pub open spec fn chosen_palette<'a>(image: &GiflossyImage<'a>, global_pal: Option<&'a [RGB8]>) -> Option<
    &'a [RGB8],
> {
    if image.pal is Some {
        image.pal
    } else {
        global_pal
    }
}

impl GiflossyWriter {
    /// Compresses the pixels of the image, with the first byte telling the
    /// least width of the codes. It fails only where the memory for the
    /// data cannot be had.
    pub fn write(&mut self, image: &GiflossyImage, global_pal: Option<&[RGB8]>) -> (res: Result<
        Vec<u8>,
        Error,
    >)
        requires
            image.wf(),
            chosen_palette(image, global_pal) is Some,
            chosen_palette(image, global_pal)->0@.len() <= 256,
            forall|i: int|
                0 <= i < image.img@.len() ==> #[trigger] image.img@[i] < chosen_palette(
                    image,
                    global_pal,
                )->0@.len(),
        ensures
            final(self).loss == old(self).loss,
            res matches Ok(buf) ==> is_lossy_lzw(
                old(self).tol(image, chosen_palette(image, global_pal)->0),
                image.img@,
                min_code_size_spec(chosen_palette(image, global_pal)->0@.len() as int),
                buf@,
            ),
            res matches Err(e) ==> e matches Error::Io(IoErrorKind::OutOfMemory),
    {
        let pal: &[RGB8] = match image.pal {
            Some(pal) => pal,
            None => match global_pal {
                Some(pal) => pal,
                None => {
                    proof {
                        assert(false);
                    }
                    return Err(Error::Gifsicle);
                },
            },
        };
        assert(image.img@.len() < 0x1_0000_0000) by (nonlinear_arith)
            requires
                image.img@.len() == image.width * image.height,
                image.width <= 0xffff,
                image.height <= 0xffff,
        ;
        let mut buf: Vec<u8> = Vec::new();
        if buf.try_reserve(image.img.len() / 4).is_err() {
            return Err(Error::Io(IoErrorKind::OutOfMemory));
        }
        Ok(self.encode(image, pal, buf))
    }
}


proof fn lemma_byte_of_bits(b: u8, v: u8)
    requires
        forall|k: int| 0 <= k < 8 ==> crate::bits::bit_of_byte(b, k) == crate::bits::code_bit(v as u16, k),
    ensures
        b == v,
{
    let w = v as u16;
    assert(crate::bits::bit_of_byte(b, 0) == crate::bits::code_bit(w, 0));
    assert(crate::bits::bit_of_byte(b, 1) == crate::bits::code_bit(w, 1));
    assert(crate::bits::bit_of_byte(b, 2) == crate::bits::code_bit(w, 2));
    assert(crate::bits::bit_of_byte(b, 3) == crate::bits::code_bit(w, 3));
    assert(crate::bits::bit_of_byte(b, 4) == crate::bits::code_bit(w, 4));
    assert(crate::bits::bit_of_byte(b, 5) == crate::bits::code_bit(w, 5));
    assert(crate::bits::bit_of_byte(b, 6) == crate::bits::code_bit(w, 6));
    assert(crate::bits::bit_of_byte(b, 7) == crate::bits::code_bit(w, 7));
    assert(b == v) by (bit_vector)
        requires
            w == v as u16,
            ((b >> 0u8) & 1 == 1) == ((w >> 0u16) & 1 == 1),
            ((b >> 1u8) & 1 == 1) == ((w >> 1u16) & 1 == 1),
            ((b >> 2u8) & 1 == 1) == ((w >> 2u16) & 1 == 1),
            ((b >> 3u8) & 1 == 1) == ((w >> 3u16) & 1 == 1),
            ((b >> 4u8) & 1 == 1) == ((w >> 4u16) & 1 == 1),
            ((b >> 5u8) & 1 == 1) == ((w >> 5u16) & 1 == 1),
            ((b >> 6u8) & 1 == 1) == ((w >> 6u16) & 1 == 1),
            ((b >> 7u8) & 1 == 1) == ((w >> 7u16) & 1 == 1),
    ;
}

/// Lossy LZW data begins with a byte that holds the least width of the codes.
pub proof fn lemma_lossy_lzw_first_byte(t: Tolerance, img: Seq<u8>, min_code_size: int, bytes: Seq<u8>)
    requires
        0 <= min_code_size < 256,
        is_lossy_lzw(t, img, min_code_size, bytes),
    ensures
        bytes.len() >= 1,
        bytes[0] == min_code_size,
{
    let (codes, end_width) = choose|codes: Seq<int>, end_width: int|
        is_lossy_lzw_of(t, img, min_code_size, bytes, codes, end_width);
    let bits = code_bits(min_code_size as u16, 8) + packed(min_code_size, codes) + code_bits(
        (pow2(min_code_size) + 1) as u16,
        end_width,
    );
    assert(bits.len() >= 8);
    assert forall|k: int| 0 <= k < 8 implies crate::bits::bit_of_byte(bytes[0], k)
        == crate::bits::code_bit(min_code_size as u16, k) by {
        assert(crate::bits::stream_bit(bytes, k) == bits[k]);
        assert(bits[k] == code_bits(min_code_size as u16, 8)[k]);
    }
    lemma_byte_of_bits(bytes[0], min_code_size as u8);
}


} // verus!
