//! Temporal denoising: every pixel keeps a window of its last five samples
//! and a committed background colour, and is redrawn only when the new
//! samples have moved far enough from that background.

use crate::color::{RGB8, RGBA8};
use crate::img::ImgVec;
use std::collections::VecDeque;
use vstd::prelude::*;

verus! {

/// Number of frames that the denoiser looks at for every pixel.
pub const LOOKAHEAD: usize = 5;

/// Difference given to a pixel that has no background yet.
pub const NO_BACKGROUND_DIFF: u32 = 1048576;

/// Perceptual distance of two colours: squared channel differences, with
/// red counted twice and green three times.
pub open spec fn color_diff_spec(x: RGB8, y: RGB8) -> int {
    (x.r - y.r) * (x.r - y.r) * 2 + (x.g - y.g) * (x.g - y.g) * 3 + (x.b - y.b) * (x.b - y.b)
}

proof fn lemma_square_bounds(d: int)
    requires
        -255 <= d <= 255,
    ensures
        0 <= d * d <= 65025,
        d * d == (-d) * (-d),
{
    assert(0 <= d * d <= 65025) by (nonlinear_arith)
        requires
            -255 <= d <= 255,
    ;
    assert(d * d == (-d) * (-d)) by (nonlinear_arith);
}

fn square_diff(a: u8, b: u8) -> (d: u32)
    ensures
        d == (a - b) * (a - b),
        d <= 65025,
{
    let x: i32 = a as i32 - b as i32;
    proof {
        lemma_square_bounds(x as int);
    }
    (x * x) as u32
}

pub fn color_diff(x: RGB8, y: RGB8) -> (d: u32)
    ensures
        d == color_diff_spec(x, y),
        d <= 390150,
{
    square_diff(x.r, y.r) * 2 + square_diff(x.g, y.g) * 3 + square_diff(x.b, y.b)
}

/// Which of two arbitrary groups a colour belongs to. The groups take turns
/// from frame to frame in being compared against the stricter threshold.
pub open spec fn cohort_spec(color: RGB8) -> bool {
    (color.r / 2 > color.g) != (color.b > 127)
}

pub fn cohort(color: RGB8) -> (c: bool)
    ensures
        c == cohort_spec(color),
{
    (color.r / 2 > color.g) != (color.b > 127)
}

pub open spec fn min_int(a: int, b: int) -> int {
    if a < b {
        a
    } else {
        b
    }
}

pub open spec fn max_int(a: int, b: int) -> int {
    if a > b {
        a
    } else {
        b
    }
}

/// How much a pixel matters: `min`, plus up to `max` in proportion to
/// how far the difference exceeds the threshold. Products are capped at
/// what 32 bits hold.
pub open spec fn pixel_importance_spec(diff_with_bg: int, threshold: int, min: int, max: int) -> int {
    let exceeds = max_int(diff_with_bg - threshold, 0);
    let scaled = min_int(exceeds * max, u32::MAX as int);
    let range = min_int(threshold * 48, u32::MAX as int);
    min + min_int(scaled / range, max)
}

fn saturating_product(a: u32, b: u32) -> (p: u32)
    ensures
        p == min_int(a * b, u32::MAX as int),
{
    match a.checked_mul(b) {
        Some(p) => p,
        None => u32::MAX,
    }
}

pub fn pixel_importance(diff_with_bg: u32, threshold: u32, min: u8, max: u8) -> (imp: u8)
    requires
        threshold > 0,
        min + max <= 255,
    ensures
        imp == pixel_importance_spec(diff_with_bg as int, threshold as int, min as int, max as int),
        min <= imp <= min + max,
{
    let exceeds = diff_with_bg.saturating_sub(threshold);
    let scaled = saturating_product(exceeds, max as u32);
    let range = saturating_product(threshold, 48);
    assert(range > 0) by (nonlinear_arith)
        requires
            threshold > 0,
            range == min_int(threshold * 48, u32::MAX as int),
    ;
    let part = scaled / range;
    let part = if part < max as u32 {
        part
    } else {
        max as u32
    };
    min + part as u8
}

pub open spec fn avg8_spec(a: u8, b: u8) -> u8 {
    ((a + b) / 2) as u8
}

pub fn avg8(a: u8, b: u8) -> (m: u8)
    ensures
        m == avg8_spec(a, b),
{
    ((a as u16 + b as u16) / 2) as u8
}

/// How many of the first `len` samples are below `v`.
pub open spec fn count_below(s: Seq<u8>, len: int, v: u8) -> int {
    (if 0 < len && s[0] < v { 1int } else { 0 })
    + (if 1 < len && s[1] < v { 1int } else { 0 })
    + (if 2 < len && s[2] < v { 1int } else { 0 })
    + (if 3 < len && s[3] < v { 1int } else { 0 })
    + (if 4 < len && s[4] < v { 1int } else { 0 })
}

/// How many of the first `len` samples are `v` or less.
pub open spec fn count_at_most(s: Seq<u8>, len: int, v: u8) -> int {
    (if 0 < len && s[0] <= v { 1int } else { 0 })
    + (if 1 < len && s[1] <= v { 1int } else { 0 })
    + (if 2 < len && s[2] <= v { 1int } else { 0 })
    + (if 3 < len && s[3] <= v { 1int } else { 0 })
    + (if 4 < len && s[4] <= v { 1int } else { 0 })
}

/// `v` is what stands at place `k` (from 0) once the first `len` samples
/// are put in ascending order.
pub open spec fn is_kth_smallest(s: Seq<u8>, len: int, k: int, v: u8) -> bool {
    count_below(s, len, v) <= k < count_at_most(s, len, v)
}

/// `m` is the median of the first `len` samples: the middle one when `len`
/// is odd, the rounded-down mean of the two middle ones when it is even.
pub open spec fn is_median(s: Seq<u8>, len: int, m: u8) -> bool {
    if len % 2 == 1 {
        is_kth_smallest(s, len, len / 2, m)
    } else {
        exists|lo: u8, hi: u8|
            is_kth_smallest(s, len, len / 2 - 1, lo) && is_kth_smallest(s, len, len / 2, hi) && m
                == avg8_spec(lo, hi)
    }
}

/// The median of the first `len` samples.
pub open spec fn median_spec(s: Seq<u8>, len: int) -> u8 {
    choose|m: u8| is_median(s, len, m)
}

/// The first `len` samples have one median only.
pub proof fn lemma_median_unique(s: Seq<u8>, len: int, m: u8)
    requires
        is_median(s, len, m),
    ensures
        m == median_spec(s, len),
{
    let c = median_spec(s, len);
    assert(is_median(s, len, c));
    if len % 2 != 1 {
        let (lo, hi) = choose|lo: u8, hi: u8|
            is_kth_smallest(s, len, len / 2 - 1, lo) && is_kth_smallest(s, len, len / 2, hi) && m
                == avg8_spec(lo, hi);
        let (lo2, hi2) = choose|lo: u8, hi: u8|
            is_kth_smallest(s, len, len / 2 - 1, lo) && is_kth_smallest(s, len, len / 2, hi) && c
                == avg8_spec(lo, hi);
        lemma_kth_smallest_unique(s, len, len / 2 - 1, lo, lo2);
        lemma_kth_smallest_unique(s, len, len / 2, hi, hi2);
    }
}

/// Whatever stands at a place of the ordered samples is the only value there.
pub proof fn lemma_kth_smallest_unique(s: Seq<u8>, len: int, k: int, v: u8, w: u8)
    requires
        is_kth_smallest(s, len, k, v),
        is_kth_smallest(s, len, k, w),
    ensures
        v == w,
{
}

fn sort2(a: u8, b: u8) -> (r: (u8, u8))
    ensures
        r.0 <= r.1,
        (r.0 == a && r.1 == b) || (r.0 == b && r.1 == a),
{
    if a <= b {
        (a, b)
    } else {
        (b, a)
    }
}

fn median3(a: u8, b: u8, c: u8) -> (m: u8)
    ensures
        is_kth_smallest(seq![a, b, c], 3, 1, m),
{
    let (a1, b1) = sort2(a, b);
    let (b2, c2) = sort2(b1, c);
    let (a3, b3) = sort2(a1, b2);
    b3
}

fn middle4(a: u8, b: u8, c: u8, d: u8) -> (m: (u8, u8))
    ensures
        is_kth_smallest(seq![a, b, c, d], 4, 1, m.0),
        is_kth_smallest(seq![a, b, c, d], 4, 2, m.1),
{
    let (a1, b1) = sort2(a, b);
    let (c1, d1) = sort2(c, d);
    let (a2, c2) = sort2(a1, c1);
    let (b2, d2) = sort2(b1, d1);
    let (b3, c3) = sort2(b2, c2);
    (b3, c3)
}

fn median5(a: u8, b: u8, c: u8, d: u8, e: u8) -> (m: u8)
    ensures
        is_kth_smallest(seq![a, b, c, d, e], 5, 2, m),
{
    // the two lowest of the first four can never be above the median, nor
    // the higher of the remaining pair once the lowest of all is gone
    let (a1, b1) = sort2(a, b);
    let (c1, d1) = sort2(c, d);
    let (a2, c2) = sort2(a1, c1);
    let (b2, d2) = sort2(b1, d1);
    let (b3, c3) = sort2(b2, c2);
    // a2 <= b3 <= c3 <= d2 are the first four in order
    if e <= b3 {
        b3
    } else if e <= c3 {
        e
    } else {
        c3
    }
}

/// Median of the first `len` samples of a pixel's window.
pub fn get_median(src: &[u8; 5], len: usize) -> (m: u8)
    requires
        1 <= len <= LOOKAHEAD,
    ensures
        m == median_spec(src@, len as int),
{
    let m = median_of(src, len);
    proof {
        lemma_median_unique(src@, len as int, m);
    }
    m
}

fn median_of(src: &[u8; 5], len: usize) -> (m: u8)
    requires
        1 <= len <= LOOKAHEAD,
    ensures
        is_median(src@, len as int, m),
{
    if len == 1 {
        src[0]
    } else if len == 2 {
        let m = avg8(src[0], src[1]);
        proof {
            let (lo, hi) = if src[0] <= src[1] {
                (src[0], src[1])
            } else {
                (src[1], src[0])
            };
            assert(is_kth_smallest(src@, 2, 0, lo) && is_kth_smallest(src@, 2, 1, hi) && m
                == avg8_spec(lo, hi));
        }
        m
    } else if len == 3 {
        let m = median3(src[0], src[1], src[2]);
        assert(is_kth_smallest(src@, 3, 1, m)) by {
            let s = seq![src[0], src[1], src[2]];
            assert(s[0] == src[0] && s[1] == src[1] && s[2] == src[2]);
        }
        m
    } else if len == 4 {
        let (lo, hi) = middle4(src[0], src[1], src[2], src[3]);
        assert(is_kth_smallest(src@, 4, 1, lo) && is_kth_smallest(src@, 4, 2, hi)) by {
            let s = seq![src[0], src[1], src[2], src[3]];
            assert(s[0] == src[0] && s[1] == src[1] && s[2] == src[2] && s[3] == src[3]);
        }
        avg8(lo, hi)
    } else {
        let m = median5(src[0], src[1], src[2], src[3], src[4]);
        assert(is_kth_smallest(src@, 5, 2, m)) by {
            let s = seq![src[0], src[1], src[2], src[3], src[4]];
            assert(s[0] == src[0] && s[1] == src[1] && s[2] == src[2] && s[3] == src[3] && s[4]
                == src[4]);
        }
        m
    }
}

/// What the denoiser remembers of one pixel position.
#[derive(Clone, Copy, Debug)]
pub struct Acc {
    /// The last five samples, oldest first. A transparent sample leaves its
    /// slot with the colour of the sample before it.
    pub r: [u8; 5],
    pub g: [u8; 5],
    pub b: [u8; 5],
    /// The blurred companions of the samples.
    pub blur: [RGB8; 5],
    /// Bit `i` is set when sample `i` was transparent.
    pub alpha_bits: u8,
    /// For how many frames the committed background is expected to hold.
    pub can_stay_for: u8,
    /// For how many frames it has been reused already.
    pub stayed_for: u8,
    /// The committed background; alpha 0 stands for a transparent pixel.
    pub bg_set: RGBA8,
}

/// The state of a pixel of which nothing has been seen: all five samples
/// transparent and no background.
pub open spec fn acc_clear_spec(a: Acc) -> bool {
    &&& a.alpha_bits == 31
    &&& a.can_stay_for == 0
    &&& a.stayed_for == 0
    &&& a.bg_set == (RGBA8 { r: 0, g: 0, b: 0, a: 0 })
    &&& forall|i: int| 0 <= i < 5 ==> a.r@[i] == 0 && a.g@[i] == 0 && a.b@[i] == 0
    &&& forall|i: int| 0 <= i < 5 ==> a.blur@[i] == (RGB8 { r: 0, g: 0, b: 0 })
}

/// Weight of the first corrective frame of a background that stays for
/// `can_stay_for` frames.
pub open spec fn corrective_weight(can_stay_for: u8) -> u8 {
    if can_stay_for == 0 {
        0
    } else if can_stay_for == 1 {
        40
    } else if can_stay_for == 2 {
        80
    } else if can_stay_for == 3 {
        100
    } else {
        110
    }
}

/// Whether a reused background still gets a minimal weight, which
/// depends on the threshold and on how long it has been reused.
pub open spec fn second_chance(threshold: int, stayed_for: u8) -> bool {
    ||| (threshold <= 300 && stayed_for <= 3)
    ||| (300 <= threshold <= 500 && stayed_for <= 2)
    ||| (400 <= threshold <= 900 && stayed_for <= 1)
}

/// The colour and importance that a pixel is given in one frame.
pub struct PixelChoice {
    pub color: RGBA8,
    pub importance: u8,
}

impl Acc {
    /// Only the five bits of the window are in use.
    pub open spec fn wf(&self) -> bool {
        self.alpha_bits < 32
    }

    /// Sample `idx` was transparent.
    pub open spec fn transparent_at(&self, idx: int) -> bool {
        self.alpha_bits & (1u8 << (idx as u8)) != 0
    }

    /// Sample `idx` with its blurred companion, unless it was transparent.
    pub open spec fn sample(&self, idx: int) -> Option<(RGB8, RGB8)> {
        if 0 <= idx < 5 && !self.transparent_at(idx) {
            Some((RGB8 { r: self.r@[idx], g: self.g@[idx], b: self.b@[idx] }, self.blur@[idx]))
        } else {
            None
        }
    }

    /// The window after one more sample: every sample moves one place
    /// towards the front, and the new one takes the last place.
    pub open spec fn appended(&self, val: RGBA8, val_blur: RGB8) -> Acc {
        let opaque = val.a >= 128;
        Acc {
            r: [self.r@[1], self.r@[2], self.r@[3], self.r@[4], if opaque { val.r } else { self.r@[4] }],
            g: [self.g@[1], self.g@[2], self.g@[3], self.g@[4], if opaque { val.g } else { self.g@[4] }],
            b: [self.b@[1], self.b@[2], self.b@[3], self.b@[4], if opaque { val.b } else { self.b@[4] }],
            blur: [self.blur@[1], self.blur@[2], self.blur@[3], self.blur@[4], if opaque { val_blur } else { self.blur@[4] }],
            alpha_bits: if opaque {
                self.alpha_bits >> 1
            } else {
                (self.alpha_bits >> 1) | 16
            },
            can_stay_for: self.can_stay_for,
            stayed_for: self.stayed_for,
            bg_set: self.bg_set,
        }
    }

    /// A pixel of which nothing has been seen.
    pub fn clear() -> (a: Acc)
        ensures
            acc_clear_spec(a),
            a.wf(),
    {
        let black = RGB8 { r: 0, g: 0, b: 0 };
        Acc {
            r: [0, 0, 0, 0, 0],
            g: [0, 0, 0, 0, 0],
            b: [0, 0, 0, 0, 0],
            blur: [black, black, black, black, black],
            alpha_bits: 31,
            can_stay_for: 0,
            stayed_for: 0,
            bg_set: RGBA8 { r: 0, g: 0, b: 0, a: 0 },
        }
    }

    /// Actual pixel and blurred pixel of sample `idx`.
    pub fn get(&self, idx: usize) -> (res: Option<(RGB8, RGB8)>)
        ensures
            res == self.sample(idx as int),
    {
        if idx >= LOOKAHEAD {
            return None;
        }
        if self.alpha_bits & (1u8 << (idx as u8)) == 0 {
            Some((RGB8 { r: self.r[idx], g: self.g[idx], b: self.b[idx] }, self.blur[idx]))
        } else {
            None
        }
    }

    /// Takes the next sample into the window.
    pub fn append(&mut self, val: RGBA8, val_blur: RGB8)
        ensures
            *final(self) == old(self).appended(val, val_blur),
    {
        let opaque = val.a >= 128;
        self.r = [self.r[1], self.r[2], self.r[3], self.r[4], if opaque { val.r } else { self.r[4] }];
        self.g = [self.g[1], self.g[2], self.g[3], self.g[4], if opaque { val.g } else { self.g[4] }];
        self.b = [self.b[1], self.b[2], self.b[3], self.b[4], if opaque { val.b } else { self.b[4] }];
        self.blur = [self.blur[1], self.blur[2], self.blur[3], self.blur[4], if opaque { val_blur } else { self.blur[4] }];
        self.alpha_bits = self.alpha_bits >> 1;
        if !opaque {
            self.alpha_bits = self.alpha_bits | 16;
        }
    }
}

/// After a sample is appended, the earlier samples are found one place
/// nearer the front, and the last place holds the new one.
pub proof fn lemma_append_shifts(a: Acc, val: RGBA8, val_blur: RGB8, idx: int)
    requires
        0 <= idx < 5,
        a.wf(),
    ensures
        a.appended(val, val_blur).wf(),
        idx < 4 ==> a.appended(val, val_blur).sample(idx) == a.sample(idx + 1),
        idx == 4 ==> a.appended(val, val_blur).sample(idx) == (if val.a >= 128 {
            Some((val.rgb_spec(), val_blur))
        } else {
            None
        }),
{
    let bits = a.alpha_bits;
    let i = idx as u8;
    assert(i < 4 ==> (((bits >> 1) & (1u8 << i)) != 0 <==> (bits & (1u8 << ((i + 1) as u8))) != 0))
        by (bit_vector);
    assert(i < 4 ==> ((((bits >> 1) | 16) & (1u8 << i)) != 0 <==> (bits & (1u8 << ((i + 1) as u8)))
        != 0)) by (bit_vector);
    assert((bits >> 1) & (1u8 << 4u8) == 0) by (bit_vector)
        requires
            bits < 32,
    ;
    assert(((bits >> 1) | 16) & (1u8 << 4u8) != 0) by (bit_vector);
    assert((bits >> 1) < 32 && ((bits >> 1) | 16) < 32) by (bit_vector)
        requires
            bits < 32,
    ;
}


pub open spec fn transparent_pixel() -> RGBA8 {
    RGBA8 { r: 0, g: 0, b: 0, a: 0 }
}

impl Acc {
    /// Sample `i` is within the threshold of the current sample, by its
    /// colour or by its blurred companion.
    pub open spec fn near(&self, i: int, curr: RGB8, curr_blur: RGB8, threshold: int) -> bool {
        match self.sample(i) {
            Some((c, blurred)) => color_diff_spec(c, curr) < threshold || color_diff_spec(
                blurred,
                curr_blur,
            ) < threshold,
            None => false,
        }
    }

    /// For how many of the coming frames the pixel stays within the
    /// threshold of the current sample without a break.
    pub open spec fn stays_frames(&self, curr: RGB8, curr_blur: RGB8, threshold: int) -> int {
        if !self.near(1, curr, curr_blur, threshold) {
            0
        } else if !self.near(2, curr, curr_blur, threshold) {
            1
        } else if !self.near(3, curr, curr_blur, threshold) {
            2
        } else if !self.near(4, curr, curr_blur, threshold) {
            3
        } else {
            4
        }
    }

    /// Distance of the current sample from the committed background: the
    /// lesser of its own distance and the mean of its own and its blurred
    /// companion's. A pixel without background is as far as can be.
    pub open spec fn diff_with_bg(&self, curr: RGB8, curr_blur: RGB8) -> int {
        if self.bg_set.a > 0 {
            let bg = color_diff_spec(self.bg_set.rgb_spec(), curr);
            let bg_blur = color_diff_spec(self.bg_set.rgb_spec(), curr_blur);
            min_int(bg, (bg + bg_blur) / 2)
        } else {
            NO_BACKGROUND_DIFF as int
        }
    }

    /// The decision for the oldest sample of the window: the state that the
    /// pixel is left in, and the colour and importance that it is given.
    /// A pixel that takes a new background has an importance that grows
    /// with its difference from the old one: from 10 to 110 where no later
    /// frame stays with it, from 5 to 80 where one does, from 15 to 190 for
    /// two, and from 50 to 205 for more.
    pub open spec fn next_pixel_spec(&self, threshold: u32, odd_frame: bool) -> (Acc, PixelChoice) {
        match self.sample(0) {
            None => {
                if self.bg_set.a > 0 {
                    (
                        Acc {
                            bg_set: RGBA8 { a: 0, ..self.bg_set },
                            can_stay_for: 0,
                            ..*self
                        },
                        PixelChoice { color: transparent_pixel(), importance: 1 },
                    )
                } else {
                    (*self, PixelChoice { color: transparent_pixel(), importance: 0 })
                }
            },
            Some((curr, curr_blur)) => {
                let my_turn = cohort_spec(curr) != odd_frame;
                let t: int = if my_turn {
                    threshold as int
                } else {
                    threshold * 2
                };
                let diff = self.diff_with_bg(curr, curr_blur);
                if self.stayed_for < self.can_stay_for {
                    let stayed = (self.stayed_for + 1) as u8;
                    let max: int = if stayed > 1 {
                        0
                    } else {
                        corrective_weight(self.can_stay_for) as int
                    };
                    let min: int = if second_chance(t, stayed) {
                        1
                    } else {
                        0
                    };
                    (
                        Acc { stayed_for: stayed, ..*self },
                        PixelChoice {
                            color: self.bg_set,
                            importance: pixel_importance_spec(diff, t, min, max) as u8,
                        },
                    )
                } else if diff < t {
                    (*self, PixelChoice { color: self.bg_set, importance: 0 })
                } else {
                    let stays = self.stays_frames(curr, curr_blur, t);
                    if stays == 0 {
                        let bg = RGBA8 { r: curr.r, g: curr.g, b: curr.b, a: 255 };
                        (
                            Acc { bg_set: bg, ..*self },
                            PixelChoice {
                                color: bg,
                                importance: pixel_importance_spec(diff, t, 10, 100) as u8,
                            },
                        )
                    } else {
                        let bg = RGBA8 {
                            r: median_spec(self.r@, stays + 1),
                            g: median_spec(self.g@, stays + 1),
                            b: median_spec(self.b@, stays + 1),
                            a: 255,
                        };
                        let imp = if stays <= 1 {
                            pixel_importance_spec(diff, t, 5, 75)
                        } else if stays == 2 {
                            pixel_importance_spec(diff, t, 15, 175)
                        } else {
                            pixel_importance_spec(diff, t, 50, 155)
                        };
                        (
                            Acc { bg_set: bg, can_stay_for: stays as u8, stayed_for: 0, ..*self },
                            PixelChoice { color: bg, importance: imp as u8 },
                        )
                    }
                }
            },
        }
    }

    fn count_stays(&self, curr: RGB8, curr_blur: RGB8, threshold: u32) -> (stays: usize)
        ensures
            stays == self.stays_frames(curr, curr_blur, threshold as int),
            stays <= 4,
    {
        let mut stays: usize = 0;
        let mut i: usize = 1;
        while i < LOOKAHEAD
            invariant_except_break
                1 <= i <= 5,
                stays == i - 1,
                forall|j: int| 1 <= j < i ==> self.near(j, curr, curr_blur, threshold as int),
            ensures
                stays == self.stays_frames(curr, curr_blur, threshold as int),
                stays <= 4,
            decreases 5 - i,
        {
            let near = match self.get(i) {
                Some((c, blurred)) => color_diff(c, curr) < threshold || color_diff(
                    blurred,
                    curr_blur,
                ) < threshold,
                None => false,
            };
            if near {
                stays = i;
            } else {
                break ;
            }
            i += 1;
        }
        stays
    }

    /// Decides what the oldest sample of the window is drawn as.
    pub fn next_pixel(&mut self, threshold: u32, odd_frame: bool) -> (res: PixelChoice)
        requires
            0 < threshold <= 0x7fff_ffff,
            old(self).wf(),
        ensures
            (*final(self), res) == old(self).next_pixel_spec(threshold, odd_frame),
            final(self).wf(),
    {
        if let Some((curr, curr_blur)) = self.get(0) {
            let my_turn = cohort(curr) != odd_frame;
            let threshold = if my_turn {
                threshold
            } else {
                threshold * 2
            };
            let diff_with_bg = if self.bg_set.a > 0 {
                let bg = color_diff(self.bg_set.rgb(), curr);
                let bg_blur = color_diff(self.bg_set.rgb(), curr_blur);
                if bg < bg_blur {
                    bg
                } else {
                    (bg + bg_blur) / 2
                }
            } else {
                NO_BACKGROUND_DIFF
            };

            if self.stayed_for < self.can_stay_for {
                self.stayed_for += 1;
                // only the first corrective frame carries weight, in
                // proportion to the time the background will stay
                let max: u8 = if self.stayed_for > 1 {
                    0
                } else if self.can_stay_for == 1 {
                    40
                } else if self.can_stay_for == 2 {
                    80
                } else if self.can_stay_for == 3 {
                    100
                } else {
                    110
                };
                // a weight of 0 may wipe the pixel, so where quality allows
                // it gets another chance
                let min: u8 = if (threshold <= 300 && self.stayed_for <= 3) || (300 <= threshold
                    && threshold <= 500 && self.stayed_for <= 2) || (400 <= threshold && threshold
                    <= 900 && self.stayed_for <= 1) {
                    1
                } else {
                    0
                };
                return PixelChoice {
                    color: self.bg_set,
                    importance: pixel_importance(diff_with_bg, threshold, min, max),
                };
            }
            // the background is still good
            if diff_with_bg < threshold {
                return PixelChoice { color: self.bg_set, importance: 0 };
            }
            let stays_frames = self.count_stays(curr, curr_blur, threshold);

            // a pixel that keeps changing takes the new colour as it is
            if stays_frames == 0 {
                self.bg_set = curr.alpha(255);
                return PixelChoice {
                    color: self.bg_set,
                    importance: pixel_importance(diff_with_bg, threshold, 10, 100),
                };
            }
            let smoothed_curr = RGB8 {
                r: get_median(&self.r, stays_frames + 1),
                g: get_median(&self.g, stays_frames + 1),
                b: get_median(&self.b, stays_frames + 1),
            };

            let imp = if stays_frames <= 1 {
                pixel_importance(diff_with_bg, threshold, 5, 75)
            } else if stays_frames == 2 {
                pixel_importance(diff_with_bg, threshold, 15, 175)
            } else {
                pixel_importance(diff_with_bg, threshold, 50, 155)
            };

            self.bg_set = smoothed_curr.alpha(255);
            self.can_stay_for = stays_frames as u8;
            self.stayed_for = 0;
            PixelChoice { color: self.bg_set, importance: imp }
        } else {
            // a pixel without importance is skipped, but one that has to
            // clear its background must be drawn
            let imp: u8 = if self.bg_set.a > 0 {
                self.bg_set.a = 0;
                self.can_stay_for = 0;
                1
            } else {
                0
            };
            PixelChoice { color: RGBA8 { r: 0, g: 0, b: 0, a: 0 }, importance: imp }
        }
    }
}


/// What the denoiser hands out when asked for the next frame.
pub enum Denoised<T> {
    /// More frames have to be fed in first.
    NotYet,
    /// Every frame has been handed out.
    Done,
    Frame { frame: ImgVec<RGBA8>, importance_map: ImgVec<u8>, meta: T },
}

/// A frame does not have the size of the frames before it.
#[derive(Debug)]
pub struct WrongSizeError;

/// The denoiser as a mathematical value.
pub struct DenoiserView<T> {
    pub width: usize,
    pub height: usize,
    /// Two colours further apart than this are told apart.
    pub threshold: u32,
    /// How many frames have gone into the windows, up to `LOOKAHEAD`.
    pub filled: nat,
    /// Whether an odd number of frames has gone in.
    pub odd: bool,
    pub accs: Seq<Acc>,
    /// Denoised frames with their importance maps, newest first.
    pub processed: Seq<(Seq<RGBA8>, Seq<u8>)>,
    /// What was given with the frames that have not been handed out, newest first.
    pub metadatas: Seq<T>,
}

/// Every pixel's window after the pixels of one more frame.
pub open spec fn appended_all(accs: Seq<Acc>, frame: Seq<RGBA8>, blurred: Seq<RGB8>) -> Seq<Acc> {
    Seq::new(accs.len(), |i: int| accs[i].appended(frame[i], blurred[i]))
}

/// Every pixel's window after a frame that is transparent all over.
pub open spec fn appended_blank(accs: Seq<Acc>) -> Seq<Acc> {
    Seq::new(
        accs.len(),
        |i: int| accs[i].appended(transparent_pixel(), RGB8 { r: 0, g: 0, b: 0 }),
    )
}

/// Every pixel's state after the decision on its oldest sample.
pub open spec fn decided_all(accs: Seq<Acc>, threshold: u32, odd: bool) -> Seq<Acc> {
    Seq::new(accs.len(), |i: int| accs[i].next_pixel_spec(threshold, odd).0)
}

/// The colours decided for the oldest samples.
pub open spec fn decided_colors(accs: Seq<Acc>, threshold: u32, odd: bool) -> Seq<RGBA8> {
    Seq::new(accs.len(), |i: int| accs[i].next_pixel_spec(threshold, odd).1.color)
}

/// The importance decided for the oldest samples.
pub open spec fn decided_importance(accs: Seq<Acc>, threshold: u32, odd: bool) -> Seq<u8> {
    Seq::new(accs.len(), |i: int| accs[i].next_pixel_spec(threshold, odd).1.importance)
}

/// The threshold of the denoiser for a quality from 1 to 100.
pub open spec fn threshold_for(quality: u8) -> int {
    (55 - quality / 2) * (55 - quality / 2)
}

impl<T> DenoiserView<T> {
    pub open spec fn wf(self) -> bool {
        &&& self.accs.len() == self.width * self.height
        &&& forall|i: int| 0 <= i < self.accs.len() ==> (#[trigger] self.accs[i]).wf()
        &&& self.filled <= LOOKAHEAD
        &&& 0 < self.threshold <= 0x7fff_ffff
        &&& self.processed.len() <= self.metadatas.len()
        &&& forall|k: int|
            0 <= k < self.processed.len() ==> (#[trigger] self.processed[k]).0.len()
                == self.accs.len() && self.processed[k].1.len() == self.accs.len()
    }

    /// The denoiser after one more frame. Once five frames have gone in,
    /// every further one brings out the frame that is four frames older.
    /// The two groups of colours change turns with every frame.
    pub open spec fn push_frame(self, frame: Seq<RGBA8>, blurred: Seq<RGB8>, meta: T) -> Self {
        let accs = appended_all(self.accs, frame, blurred);
        let odd = !self.odd;
        if self.filled + 1 < LOOKAHEAD {
            DenoiserView {
                filled: self.filled + 1,
                odd,
                accs,
                metadatas: seq![meta] + self.metadatas,
                ..self
            }
        } else {
            DenoiserView {
                filled: LOOKAHEAD as nat,
                odd,
                accs: decided_all(accs, self.threshold, odd),
                processed: seq![
                    (
                        decided_colors(accs, self.threshold, odd),
                        decided_importance(accs, self.threshold, odd),
                    ),
                ] + self.processed,
                metadatas: seq![meta] + self.metadatas,
                ..self
            }
        }
    }

    /// The denoiser after a transparent frame has pushed the windows on by
    /// one place. Nothing comes out while fewer than five frames have gone in.
    pub open spec fn flush_step(self) -> Self {
        let accs = appended_blank(self.accs);
        let decided = decided_all(accs, self.threshold, self.odd);
        if self.filled + 1 < LOOKAHEAD {
            DenoiserView { filled: self.filled + 1, odd: !self.odd, accs: decided, ..self }
        } else {
            DenoiserView {
                filled: LOOKAHEAD as nat,
                odd: !self.odd,
                accs: decided,
                processed: seq![
                    (
                        decided_colors(accs, self.threshold, self.odd),
                        decided_importance(accs, self.threshold, self.odd),
                    ),
                ] + self.processed,
                ..self
            }
        }
    }

    /// How many steps a flush may still take.
    pub open spec fn flush_steps_left(self) -> int {
        (if self.filled < LOOKAHEAD {
            LOOKAHEAD - self.filled
        } else {
            0
        }) + self.metadatas.len() - self.processed.len()
    }

    /// The denoiser once every frame that went in has a denoised frame.
    pub open spec fn flush(self) -> Self
        decreases self.flush_steps_left(),
    {
        if self.processed.len() < self.metadatas.len() {
            self.flush_step().flush()
        } else {
            self
        }
    }
}

/// Temporal denoiser over the frames of one animation.
pub struct Denoiser<T> {
    pub filled: usize,
    pub odd: bool,
    pub threshold: u32,
    pub splat: ImgVec<Acc>,
    pub processed: VecDeque<(ImgVec<RGBA8>, ImgVec<u8>)>,
    pub metadatas: VecDeque<T>,
}

impl<T> View for Denoiser<T> {
    type V = DenoiserView<T>;

    open spec fn view(&self) -> DenoiserView<T> {
        DenoiserView {
            width: self.splat.width,
            height: self.splat.height,
            threshold: self.threshold,
            filled: self.filled as nat,
            odd: self.odd,
            accs: self.splat.buf@,
            processed: Seq::new(
                self.processed@.len(),
                |k: int| (self.processed@[k].0.buf@, self.processed@[k].1.buf@),
            ),
            metadatas: self.metadatas@,
        }
    }
}

impl<T> Denoiser<T> {
    /// The view is well formed, and every denoised frame has the size of
    /// the frames that went in.
    pub open spec fn wf(&self) -> bool {
        &&& self@.wf()
        &&& forall|k: int|
            0 <= k < self.processed@.len() ==> {
                &&& (#[trigger] self.processed@[k]).0.width == self.splat.width
                &&& self.processed@[k].0.height == self.splat.height
                &&& self.processed@[k].1.width == self.splat.width
                &&& self.processed@[k].1.height == self.splat.height
            }
    }

    /// A denoiser for frames of the given size. It fails only where the
    /// number of pixels is beyond what the machine can count.
    pub fn new(width: usize, height: usize, quality: u8) -> (res: Result<Self, WrongSizeError>)
        requires
            1 <= quality <= 100,
        ensures
            res is Ok <==> width * height <= usize::MAX,
            res matches Ok(d) ==> {
                &&& d.wf()
                &&& d@.width == width
                &&& d@.height == height
                &&& d@.threshold == threshold_for(quality)
                &&& d@.filled == 0
                &&& !d@.odd
                &&& d@.processed.len() == 0
                &&& d@.metadatas.len() == 0
                &&& forall|i: int| 0 <= i < d@.accs.len() ==> acc_clear_spec(#[trigger] d@.accs[i])
            },
    {
        let area = match width.checked_mul(height) {
            Some(area) => area,
            None => {
                return Err(WrongSizeError);
            },
        };
        let clear = Acc::clear();
        let side: u32 = 55 - (quality as u32) / 2;
        assert(0 < side * side <= 3025) by (nonlinear_arith)
            requires
                5 <= side <= 55,
        ;
        let d = Denoiser {
            filled: 0,
            odd: false,
            processed: VecDeque::with_capacity(LOOKAHEAD),
            metadatas: VecDeque::with_capacity(LOOKAHEAD),
            threshold: side * side,
            splat: ImgVec { buf: vec![clear; area], width, height },
        };
        Ok(d)
    }

    /// Moves every pixel's window on by one frame (a transparent one where
    /// none is given), and where asked decides on the oldest samples.
    fn advance(
        &mut self,
        frame: Option<(&ImgVec<RGBA8>, &ImgVec<RGB8>)>,
        decide: bool,
        odd_frame: bool,
    ) -> (out: (Vec<RGBA8>, Vec<u8>))
        requires
            old(self).wf(),
            frame matches Some(f) ==> f.0.buf.len() == old(self).splat.buf.len() && f.1.buf.len()
                == old(self).splat.buf.len(),
        ensures
            final(self).filled == old(self).filled,
            final(self).odd == old(self).odd,
            final(self).threshold == old(self).threshold,
            final(self).processed == old(self).processed,
            final(self).metadatas == old(self).metadatas,
            final(self).splat.width == old(self).splat.width,
            final(self).splat.height == old(self).splat.height,
            final(self).wf(),
            ({
                let accs = match frame {
                    Some(f) => appended_all(old(self)@.accs, f.0.buf@, f.1.buf@),
                    None => appended_blank(old(self)@.accs),
                };
                if decide {
                    &&& final(self)@.accs == decided_all(accs, old(self).threshold, odd_frame)
                    &&& out.0@ == decided_colors(accs, old(self).threshold, odd_frame)
                    &&& out.1@ == decided_importance(accs, old(self).threshold, odd_frame)
                } else {
                    &&& final(self)@.accs == accs
                    &&& out.0@.len() == 0
                    &&& out.1@.len() == 0
                }
            }),
    {
        let len = self.splat.buf.len();
        let mut median: Vec<RGBA8> = Vec::new();
        let mut imp_map: Vec<u8> = Vec::new();
        let ghost before = self.splat.buf@;
        let ghost accs = match frame {
            Some(f) => appended_all(before, f.0.buf@, f.1.buf@),
            None => appended_blank(before),
        };
        let mut i: usize = 0;
        while i < len
            invariant
                i <= len,
                len == before.len(),
                self.splat.buf@.len() == len,
                self.filled == old(self).filled,
                self.odd == old(self).odd,
                self.threshold == old(self).threshold,
                0 < self.threshold <= 0x7fff_ffff,
                self.processed == old(self).processed,
                self.metadatas == old(self).metadatas,
                self.splat.width == old(self).splat.width,
                self.splat.height == old(self).splat.height,
                frame matches Some(f) ==> f.0.buf.len() == len && f.1.buf.len() == len,
                accs == (match frame {
                    Some(f) => appended_all(before, f.0.buf@, f.1.buf@),
                    None => appended_blank(before),
                }),
                forall|k: int| 0 <= k < len ==> (#[trigger] before[k]).wf(),
                forall|k: int| i <= k < len ==> self.splat.buf@[k] == before[k],
                forall|k: int| 0 <= k < len ==> (#[trigger] self.splat.buf@[k]).wf(),
                decide ==> median@.len() == i && imp_map@.len() == i,
                !decide ==> median@.len() == 0 && imp_map@.len() == 0,
                forall|k: int|
                    0 <= k < i ==> #[trigger] self.splat.buf@[k] == (if decide {
                        accs[k].next_pixel_spec(self.threshold, odd_frame).0
                    } else {
                        accs[k]
                    }),
                decide ==> forall|k: int|
                    0 <= k < i ==> #[trigger] median@[k] == accs[k].next_pixel_spec(
                        self.threshold,
                        odd_frame,
                    ).1.color,
                decide ==> forall|k: int|
                    0 <= k < i ==> #[trigger] imp_map@[k] == accs[k].next_pixel_spec(
                        self.threshold,
                        odd_frame,
                    ).1.importance,
            decreases len - i,
        {
            let mut acc = self.splat.buf[i];
            match frame {
                Some(f) => {
                    acc.append(f.0.buf[i], f.1.buf[i]);
                },
                None => {
                    acc.append(RGBA8 { r: 0, g: 0, b: 0, a: 0 }, RGB8 { r: 0, g: 0, b: 0 });
                },
            }
            proof {
                match frame {
                    Some(f) => lemma_append_shifts(before[i as int], f.0.buf@[i as int], f.1.buf@[i as int], 0),
                    None => lemma_append_shifts(
                        before[i as int],
                        transparent_pixel(),
                        RGB8 { r: 0, g: 0, b: 0 },
                        0,
                    ),
                }
                assert(acc == accs[i as int]);
            }
            if decide {
                let choice = acc.next_pixel(self.threshold, odd_frame);
                median.push(choice.color);
                imp_map.push(choice.importance);
            }
            self.splat.buf.set(i, acc);
            i += 1;
        }
        proof {
            if decide {
                assert(self.splat.buf@ =~= decided_all(accs, self.threshold, odd_frame));
                assert(median@ =~= decided_colors(accs, self.threshold, odd_frame));
                assert(imp_map@ =~= decided_importance(accs, self.threshold, odd_frame));
            } else {
                assert(self.splat.buf@ =~= accs);
            }
            assert(self@.processed =~= old(self)@.processed);
        }
        (median, imp_map)
    }
}


impl<T> DenoiserView<T> {
    /// The denoiser after its oldest denoised frame has been taken.
    pub open spec fn popped(self) -> Self {
        DenoiserView {
            processed: self.processed.drop_last(),
            metadatas: self.metadatas.drop_last(),
            ..self
        }
    }
}

impl<T> Denoiser<T> {
    /// Takes in the next frame with its smoothed companion, and whatever is
    /// to come out again with the denoised frame. A frame of another size
    /// than the denoiser's is refused and changes nothing.
    pub fn push_frame(
        &mut self,
        frame: &ImgVec<RGBA8>,
        frame_blurred: &ImgVec<RGB8>,
        frame_metadata: T,
    ) -> (res: Result<(), WrongSizeError>)
        requires
            old(self).wf(),
            frame.wf(),
            frame_blurred.wf(),
            frame_blurred.same_size(frame),
        ensures
            final(self).wf(),
            res is Err <==> frame.width != old(self)@.width || frame.height != old(self)@.height,
            res is Err ==> final(self)@ == old(self)@,
            res is Ok ==> final(self)@ == old(self)@.push_frame(
                frame.buf@,
                frame_blurred.buf@,
                frame_metadata,
            ),
    {
        if frame.width != self.splat.width || frame.height != self.splat.height {
            return Err(WrongSizeError);
        }
        self.metadatas.push_front(frame_metadata);
        self.odd = !self.odd;
        // nothing can come out yet
        if self.filled + 1 < LOOKAHEAD {
            self.filled += 1;
            assert(self@.processed =~= old(self)@.processed);
            self.advance(Some((frame, frame_blurred)), false, false);
            assert(self@.processed =~= old(self)@.processed);
            return Ok(());
        }
        self.filled = LOOKAHEAD;
        assert(self@.processed =~= old(self)@.processed);
        let odd = self.odd;
        let (median, imp_map) = self.advance(Some((frame, frame_blurred)), true, odd);
        let median = ImgVec { buf: median, width: frame.width, height: frame.height };
        let imp_map = ImgVec { buf: imp_map, width: frame.width, height: frame.height };
        self.processed.push_front((median, imp_map));
        proof {
            let accs = appended_all(old(self)@.accs, frame.buf@, frame_blurred.buf@);
            assert(self@.processed =~= seq![
                (
                    decided_colors(accs, self.threshold, odd),
                    decided_importance(accs, self.threshold, odd),
                ),
            ] + old(self)@.processed);
        }
        Ok(())
    }

    /// Brings out the frames that are still held back, by feeding
    /// transparent frames until every frame that went in has come out.
    pub fn flush(&mut self)
        requires
            old(self).wf(),
        ensures
            final(self).wf(),
            final(self)@ == old(self)@.flush(),
            final(self)@.processed.len() == old(self)@.metadatas.len(),
            final(self)@.metadatas == old(self)@.metadatas,
            final(self)@.width == old(self)@.width,
            final(self)@.height == old(self)@.height,
            final(self)@.threshold == old(self)@.threshold,
            final(self)@.accs.len() == old(self)@.accs.len(),
    {
        while self.processed.len() < self.metadatas.len()
            invariant
                self.wf(),
                self@.flush() == old(self)@.flush(),
                self@.metadatas == old(self)@.metadatas,
                self@.width == old(self)@.width,
                self@.height == old(self)@.height,
                self@.threshold == old(self)@.threshold,
                self@.accs.len() == old(self)@.accs.len(),
            decreases self@.flush_steps_left(),
        {
            let ghost before = self@;
            let odd = self.odd;
            let (median, imp_map) = self.advance(None, true, odd);
            self.odd = !self.odd;
            // the first frames only push the windows on where fewer than
            // five frames went in
            if self.filled + 1 < LOOKAHEAD {
                self.filled += 1;
                assert(self@.processed =~= before.processed);
            } else {
                self.filled = LOOKAHEAD;
                let median = ImgVec { buf: median, width: self.splat.width, height: self.splat.height };
                let imp_map = ImgVec { buf: imp_map, width: self.splat.width, height: self.splat.height };
                self.processed.push_front((median, imp_map));
                proof {
                    let accs = appended_blank(before.accs);
                    assert(self@.processed =~= seq![
                        (
                            decided_colors(accs, self.threshold, odd),
                            decided_importance(accs, self.threshold, odd),
                        ),
                    ] + before.processed);
                }
            }
            assert(self@ == before.flush_step());
        }
    }

    /// Hands out the oldest denoised frame with what was given with it.
    /// Without one it says whether frames are still held back.
    pub fn pop(&mut self) -> (res: Denoised<T>)
        requires
            old(self).wf(),
        ensures
            final(self).wf(),
            old(self)@.processed.len() > 0 ==> {
                &&& res matches Denoised::Frame { frame, importance_map, meta }
                &&& frame.wf() && frame.width == old(self)@.width && frame.height == old(
                    self,
                )@.height
                &&& importance_map.wf() && importance_map.same_size(&frame)
                &&& frame.buf@ == old(self)@.processed.last().0
                &&& importance_map.buf@ == old(self)@.processed.last().1
                &&& meta == old(self)@.metadatas.last()
                &&& final(self)@ == old(self)@.popped()
            },
            old(self)@.processed.len() == 0 ==> final(self)@ == old(self)@,
            old(self)@.processed.len() == 0 && old(self)@.metadatas.len() > 0 ==> res is NotYet,
            old(self)@.processed.len() == 0 && old(self)@.metadatas.len() == 0 ==> res is Done,
    {
        match self.processed.pop_back() {
            Some((frame, importance_map)) => {
                let ghost n = old(self).processed@.len() - 1;
                assert(old(self)@.processed[n] == (frame.buf@, importance_map.buf@));
                let meta = match self.metadatas.pop_back() {
                    Some(meta) => meta,
                    None => {
                        proof {
                            assert(false);
                        }
                        return Denoised::NotYet;
                    },
                };
                assert(self@.processed =~= old(self)@.processed.drop_last());
                assert(self@.metadatas =~= old(self)@.metadatas.drop_last());
                Denoised::Frame { frame, importance_map, meta }
            },
            None => {
                assert(self@.processed =~= old(self)@.processed);
                if self.metadatas.len() > 0 {
                    Denoised::NotYet
                } else {
                    Denoised::Done
                }
            },
        }
    }
}


} // verus!
