//! The smoothed companion of a frame, which the denoiser compares beside
//! the frame itself.

use crate::color::{RGB8, RGBA8};
use crate::denoise::{color_diff, color_diff_spec};
use crate::img::{lemma_px_index_in_bounds, lemma_px_index_split, px_index, ImgVec};
use vstd::prelude::*;

verus! {

/// Colours nearer than this to their smoothed value are replaced by it.
pub const BLUR_THRESHOLD: u32 = 1536;

pub open spec fn clamp_coord(i: int, len: int) -> int {
    if i < 0 {
        0
    } else if i >= len {
        len - 1
    } else {
        i
    }
}

/// The neighbour of `(x, y)` at place `k` of its 3 by 3 surroundings, counted
/// row by row from the top left. Beyond an edge the edge pixel is repeated.
pub open spec fn neighbour(frame: &ImgVec<RGBA8>, x: int, y: int, k: int) -> RGBA8 {
    frame.at(
        clamp_coord(x + k % 3 - 1, frame.width as int),
        clamp_coord(y + k / 3 - 1, frame.height as int),
    )
}

/// The colour that a neighbour adds to the smoothing: its own, or that of
/// the centre where the neighbour is fully transparent.
pub open spec fn effective_neighbour(frame: &ImgVec<RGBA8>, x: int, y: int, k: int) -> RGB8 {
    let n = neighbour(frame, x, y, k);
    if n.a > 0 {
        n.rgb_spec()
    } else {
        frame.at(x, y).rgb_spec()
    }
}

pub open spec fn below9(s: Seq<u8>, v: u8) -> int {
    (if s[0] < v { 1int } else { 0 }) + (if s[1] < v { 1int } else { 0 }) + (if s[2] < v { 1int } else { 0 })
    + (if s[3] < v { 1int } else { 0 }) + (if s[4] < v { 1int } else { 0 }) + (if s[5] < v { 1int } else { 0 })
    + (if s[6] < v { 1int } else { 0 }) + (if s[7] < v { 1int } else { 0 }) + (if s[8] < v { 1int } else { 0 })
}

pub open spec fn at_most9(s: Seq<u8>, v: u8) -> int {
    (if s[0] <= v { 1int } else { 0 }) + (if s[1] <= v { 1int } else { 0 }) + (if s[2] <= v { 1int } else { 0 })
    + (if s[3] <= v { 1int } else { 0 }) + (if s[4] <= v { 1int } else { 0 }) + (if s[5] <= v { 1int } else { 0 })
    + (if s[6] <= v { 1int } else { 0 }) + (if s[7] <= v { 1int } else { 0 }) + (if s[8] <= v { 1int } else { 0 })
}

/// `m` is the fifth of nine values in ascending order.
pub open spec fn is_median9(s: Seq<u8>, m: u8) -> bool {
    below9(s, m) <= 4 < at_most9(s, m)
}

pub open spec fn sum9(s: Seq<u8>) -> int {
    s[0] + s[1] + s[2] + s[3] + s[4] + s[5] + s[6] + s[7] + s[8]
}

/// Order of the samples by value, and by place among equal values.
pub open spec fn comes_before(a: u8, i: int, b: u8, j: int) -> bool {
    a < b || (a == b && i < j)
}

/// How many of the nine samples come before the sample `v` at place `i`.
pub open spec fn rank9(s: Seq<u8>, v: u8, i: int) -> int {
    (if comes_before(s[0], 0, v, i) { 1int } else { 0 })
    + (if comes_before(s[1], 1, v, i) { 1int } else { 0 })
    + (if comes_before(s[2], 2, v, i) { 1int } else { 0 })
    + (if comes_before(s[3], 3, v, i) { 1int } else { 0 })
    + (if comes_before(s[4], 4, v, i) { 1int } else { 0 })
    + (if comes_before(s[5], 5, v, i) { 1int } else { 0 })
    + (if comes_before(s[6], 6, v, i) { 1int } else { 0 })
    + (if comes_before(s[7], 7, v, i) { 1int } else { 0 })
    + (if comes_before(s[8], 8, v, i) { 1int } else { 0 })
}

/// The first of the samples in their order.
fn first_of9(s: &[u8; 9]) -> (r: (u8, usize))
    ensures
        r.1 < 9,
        s@[r.1 as int] == r.0,
        rank9(s@, r.0, r.1 as int) == 0,
{
    let mut v = s[0];
    let mut idx: usize = 0;
    let mut j: usize = 1;
    while j < 9
        invariant
            1 <= j <= 9,
            idx < j,
            s@[idx as int] == v,
            forall|k: int| 0 <= k < j ==> !comes_before(#[trigger] s@[k], k, v, idx as int),
        decreases 9 - j,
    {
        if s[j] < v {
            v = s[j];
            idx = j;
        }
        j += 1;
    }
    (v, idx)
}

/// The sample that follows the sample `v` at place `idx` in their order.
fn next_of9(s: &[u8; 9], v: u8, idx: usize) -> (r: (u8, usize))
    requires
        idx < 9,
        s@[idx as int] == v,
        rank9(s@, v, idx as int) < 8,
    ensures
        r.1 < 9,
        s@[r.1 as int] == r.0,
        rank9(s@, r.0, r.1 as int) == rank9(s@, v, idx as int) + 1,
{
    let mut found = false;
    let mut nv: u8 = v;
    let mut ni: usize = idx;
    let mut j: usize = 0;
    while j < 9
        invariant
            0 <= j <= 9,
            idx < 9,
            s@[idx as int] == v,
            ni < 9,
            s@[ni as int] == nv,
            found ==> comes_before(v, idx as int, nv, ni as int),
            found ==> forall|k: int|
                0 <= k < j && comes_before(v, idx as int, #[trigger] s@[k], k) ==> !comes_before(
                    s@[k],
                    k,
                    nv,
                    ni as int,
                ),
            !found ==> forall|k: int|
                0 <= k < j ==> !comes_before(v, idx as int, #[trigger] s@[k], k),
        decreases 9 - j,
    {
        let after = s[j] > v || (s[j] == v && j > idx);
        if after {
            let better = !found || s[j] < nv || (s[j] == nv && j < ni);
            if better {
                nv = s[j];
                ni = j;
                found = true;
            }
        }
        j += 1;
    }
    (nv, ni)
}

/// The fifth of nine values in ascending order.
pub open spec fn median9_spec(s: Seq<u8>) -> u8 {
    choose|m: u8| is_median9(s, m)
}

/// Nine values have one median only.
pub proof fn lemma_median9_unique(s: Seq<u8>, m: u8)
    requires
        is_median9(s, m),
    ensures
        m == median9_spec(s),
{
    let c = median9_spec(s);
    assert(is_median9(s, c));
}

/// The fifth of nine values in ascending order.
pub fn median9(s: &[u8; 9]) -> (m: u8)
    ensures
        m == median9_spec(s@),
{
    let m = fifth_of9(s);
    proof {
        lemma_median9_unique(s@, m);
    }
    m
}

fn fifth_of9(s: &[u8; 9]) -> (m: u8)
    ensures
        is_median9(s@, m),
{
    let (mut v, mut idx) = first_of9(s);
    let mut rank: usize = 0;
    while rank < 4
        invariant
            rank <= 4,
            idx < 9,
            s@[idx as int] == v,
            rank9(s@, v, idx as int) == rank,
        decreases 4 - rank,
    {
        let (nv, ni) = next_of9(s, v, idx);
        v = nv;
        idx = ni;
        rank += 1;
    }
    v
}

/// The mean of nine values, rounded down.
pub open spec fn mean9_spec(s: Seq<u8>) -> u8 {
    (sum9(s) / 9) as u8
}

pub fn mean9(s: &[u8; 9]) -> (m: u8)
    ensures
        m == mean9_spec(s@),
{
    let sum: u16 = s[0] as u16 + s[1] as u16 + s[2] as u16 + s[3] as u16 + s[4] as u16 + s[5] as u16
        + s[6] as u16 + s[7] as u16 + s[8] as u16;
    (sum / 9) as u8
}

pub open spec fn reds(n: Seq<RGB8>) -> Seq<u8> {
    Seq::new(9, |k: int| n[k].r)
}

pub open spec fn greens(n: Seq<RGB8>) -> Seq<u8> {
    Seq::new(9, |k: int| n[k].g)
}

pub open spec fn blues(n: Seq<RGB8>) -> Seq<u8> {
    Seq::new(9, |k: int| n[k].b)
}

/// The nine colours around `(x, y)` that go into its smoothing.
pub open spec fn surroundings(frame: &ImgVec<RGBA8>, x: int, y: int) -> Seq<RGB8> {
    Seq::new(9, |k: int| effective_neighbour(frame, x, y, k))
}

/// The smoothing of nine colours, channel by channel: their median, or
/// their mean where less effort is asked for.
pub open spec fn blend9(n: Seq<RGB8>, median: bool) -> RGB8 {
    if median {
        RGB8 { r: median9_spec(reds(n)), g: median9_spec(greens(n)), b: median9_spec(blues(n)) }
    } else {
        RGB8 { r: mean9_spec(reds(n)), g: mean9_spec(greens(n)), b: mean9_spec(blues(n)) }
    }
}

/// What the companion image holds for a pixel: the smoothed colour where it
/// is near the pixel's own, else the pixel's own, which keeps edges sharp.
/// Fully transparent pixels are marked with magenta.
pub open spec fn companion_pixel(center: RGBA8, blended: RGB8) -> RGB8 {
    if center.a > 0 {
        if color_diff_spec(center.rgb_spec(), blended) < BLUR_THRESHOLD {
            blended
        } else {
            center.rgb_spec()
        }
    } else {
        RGB8 { r: 255, g: 0, b: 255 }
    }
}

/// The companion image's pixel at place `i` of the buffer.
pub open spec fn companion_at(frame: &ImgVec<RGBA8>, i: int, median: bool) -> RGB8 {
    let x = i % (frame.width as int);
    let y = i / (frame.width as int);
    companion_pixel(frame.at(x, y), blend9(surroundings(frame, x, y), median))
}

/// `out` is the smoothed companion of `frame`.
pub open spec fn is_companion(frame: &ImgVec<RGBA8>, out: &ImgVec<RGB8>, median: bool) -> bool {
    &&& out.wf()
    &&& out.width == frame.width
    &&& out.height == frame.height
    &&& forall|i: int| 0 <= i < out.buf.len() ==> #[trigger] out.buf@[i] == companion_at(frame, i, median)
}

fn gather(frame: &ImgVec<RGBA8>, x: usize, y: usize) -> (n: [RGB8; 9])
    requires
        frame.wf(),
        x < frame.width,
        y < frame.height,
    ensures
        n@ == surroundings(frame, x as int, y as int),
{
    let x0 = if x > 0 { x - 1 } else { 0 };
    let x2 = if x + 1 < frame.width { x + 1 } else { x };
    let y0 = if y > 0 { y - 1 } else { 0 };
    let y2 = if y + 1 < frame.height { y + 1 } else { y };
    let c = frame.pixel(x, y).rgb();
    let n = [
        own_or(*frame.pixel(x0, y0), c),
        own_or(*frame.pixel(x, y0), c),
        own_or(*frame.pixel(x2, y0), c),
        own_or(*frame.pixel(x0, y), c),
        own_or(*frame.pixel(x, y), c),
        own_or(*frame.pixel(x2, y), c),
        own_or(*frame.pixel(x0, y2), c),
        own_or(*frame.pixel(x, y2), c),
        own_or(*frame.pixel(x2, y2), c),
    ];
    assert(n@ =~= surroundings(frame, x as int, y as int));
    n
}

fn own_or(n: RGBA8, center: RGB8) -> (c: RGB8)
    ensures
        c == (if n.a > 0 {
            n.rgb_spec()
        } else {
            center
        }),
{
    if n.a > 0 {
        n.rgb()
    } else {
        center
    }
}

fn blend(n: &[RGB8; 9], median: bool) -> (c: RGB8)
    ensures
        c == blend9(n@, median),
{
    let r = [n[0].r, n[1].r, n[2].r, n[3].r, n[4].r, n[5].r, n[6].r, n[7].r, n[8].r];
    let g = [n[0].g, n[1].g, n[2].g, n[3].g, n[4].g, n[5].g, n[6].g, n[7].g, n[8].g];
    let b = [n[0].b, n[1].b, n[2].b, n[3].b, n[4].b, n[5].b, n[6].b, n[7].b, n[8].b];
    assert(r@ =~= reds(n@));
    assert(g@ =~= greens(n@));
    assert(b@ =~= blues(n@));
    if median {
        RGB8 { r: median9(&r), g: median9(&g), b: median9(&b) }
    } else {
        RGB8 { r: mean9(&r), g: mean9(&g), b: mean9(&b) }
    }
}

fn companion(frame: &ImgVec<RGBA8>, median: bool) -> (out: ImgVec<RGB8>)
    requires
        frame.wf(),
    ensures
        is_companion(frame, &out, median),
{
    let len = frame.buf.len();
    let mut out: Vec<RGB8> = Vec::with_capacity(len);
    let mut i: usize = 0;
    while i < len
        invariant
            frame.wf(),
            len == frame.buf.len(),
            i <= len,
            out.len() == i,
            forall|k: int| 0 <= k < i ==> #[trigger] out@[k] == companion_at(frame, k, median),
        decreases len - i,
    {
        assert(frame.width > 0) by (nonlinear_arith)
            requires
                frame.width * frame.height > 0,
        ;
        proof {
            lemma_px_index_split(frame.width as int, frame.height as int, i as int);
        }
        let x = i % frame.width;
        let y = i / frame.width;
        let center = *frame.pixel(x, y);
        let px = if center.a > 0 {
            let n = gather(frame, x, y);
            let blended = blend(&n, median);
            if color_diff(center.rgb(), blended) < BLUR_THRESHOLD {
                blended
            } else {
                center.rgb()
            }
        } else {
            RGB8 { r: 255, g: 0, b: 255 }
        };
        out.push(px);
        i += 1;
    }
    ImgVec { buf: out, width: frame.width, height: frame.height }
}

/// The companion of a frame in which every pixel is smoothed towards the
/// median of its surroundings.
pub fn smart_blur(frame: &ImgVec<RGBA8>) -> (out: ImgVec<RGB8>)
    requires
        frame.wf(),
    ensures
        is_companion(frame, &out, true),
{
    companion(frame, true)
}

/// The companion of a frame in which every pixel is smoothed towards the
/// mean of its surroundings.
pub fn less_smart_blur(frame: &ImgVec<RGBA8>) -> (out: ImgVec<RGB8>)
    requires
        frame.wf(),
    ensures
        is_companion(frame, &out, false),
{
    companion(frame, false)
}

} // verus!
