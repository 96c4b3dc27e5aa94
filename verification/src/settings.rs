//! What the caller chooses for an encoding, and what follows from it for
//! the stages.

use crate::color::RGB8;
use crate::error::Error;
use vstd::prelude::*;

verus! {

/// How often the animation is played.
#[derive(Clone, Copy, Debug, PartialEq, Eq, Structural)]
pub enum Repeat {
    /// So many times after the first; none at all with 0.
    Finite(u16),
    Infinite,
}

/// Encoding settings for the `new()` function.
#[derive(Clone, Copy)]
pub struct Settings {
    /// Resize to max this width if set.
    pub width: Option<u32>,
    /// Resize to max this height if set. With both set the aspect ratio is not kept.
    pub height: Option<u32>,
    /// 1-100, but the useful range is 50-100.
    pub quality: u8,
    /// Lower quality, but faster encode.
    pub fast: bool,
    /// Sets the looping method for the image sequence.
    pub repeat: Repeat,
}

/// The settings with what can be set on the `Writer`.
#[derive(Clone, Copy)]
pub struct SettingsExt {
    pub s: Settings,
    pub max_threads: u8,
    pub extra_effort: bool,
    pub motion_quality: u8,
    pub giflossy_quality: u8,
    pub matte: Option<RGB8>,
}

/// No image is made wider or higher than this.
pub const MAX_SIZE: u32 = 65536;

/// The number of pixels that an image is shrunk to when no size is asked for.
pub const DEFAULT_AREA: usize = 480000;

pub open spec fn min_of(a: int, b: int) -> int {
    if a < b {
        a
    } else {
        b
    }
}

/// `f` is the square root of `area / DEFAULT_AREA` rounded to the nearest
/// whole number, halves away from zero.
pub open spec fn is_rounded_root(area: int, f: int) -> bool {
    &&& f >= 0
    &&& (2 * f - 1) * (2 * f - 1) * 120000 <= area || f == 0
    &&& area < (2 * f + 1) * (2 * f + 1) * 120000
}

/// The whole number by which both sides of an image of `area` pixels are
/// divided when no size is asked for.
pub open spec fn shrink_factor(area: int) -> int {
    choose|f: int| #[trigger] is_rounded_root(area + DEFAULT_AREA / 2, f)
}

/// The rounded root is the only one.
pub proof fn lemma_rounded_root_unique(area: int, f: int, g: int)
    requires
        is_rounded_root(area, f),
        is_rounded_root(area, g),
    ensures
        f == g,
{
    if f < g {
        assert((2 * f + 1) * (2 * f + 1) <= (2 * g - 1) * (2 * g - 1)) by (nonlinear_arith)
            requires
                0 <= f < g,
        ;
    }
    if g < f {
        assert((2 * g + 1) * (2 * g + 1) <= (2 * f - 1) * (2 * f - 1)) by (nonlinear_arith)
            requires
                0 <= g < f,
        ;
    }
}

fn rounded_root(area: usize) -> (f: usize)
    requires
        area >= 120000,
    ensures
        is_rounded_root(area as int, f as int),
        f >= 1,
        f <= area,
{
    let n: u128 = area as u128;
    let mut f: u128 = 1;
    assert((2 * f - 1) * (2 * f - 1) * 120000 == 120000) by (nonlinear_arith)
        requires
            f == 1,
    ;
    loop
        invariant_except_break
            1 <= f,
            f <= n,
            n == area,
            (2 * f - 1) * (2 * f - 1) * 120000 <= n,
        ensures
            1 <= f <= n,
            is_rounded_root(area as int, f as int),
        decreases n - f,
    {
        assert((2 * f + 1) * (2 * f + 1) * 120000 <= 9 * ((2 * f - 1) * (2 * f - 1) * 120000))
            by (nonlinear_arith)
            requires
                f >= 1,
        ;
        assert(0 <= (2 * f + 1) * (2 * f + 1) <= (2 * f + 1) * (2 * f + 1) * 120000)
            by (nonlinear_arith)
            requires
                f >= 1,
        ;
        let side: u128 = 2 * f + 1;
        let limit: u128 = side * side * 120000;
        if n < limit {
            break ;
        }
        assert(f + 1 <= n) by (nonlinear_arith)
            requires
                (2 * f + 1) * (2 * f + 1) * 120000 <= n,
                f >= 1,
        ;
        f = f + 1;
    }
    f as usize
}

/// The size that an image of `img_w` by `img_h` pixels is resized to. With
/// no size asked for, both sides are divided by a whole number that brings
/// the image near `DEFAULT_AREA` pixels. With both sides asked for, each is
/// kept below what is asked. With one side, the other follows in proportion.
pub open spec fn dimensions_spec(img_w: int, img_h: int, width: Option<u32>, height: Option<u32>) -> (
    int,
    int,
) {
    match (width, height) {
        (None, None) => {
            let f = shrink_factor(img_w * img_h);
            if f > 1 {
                (img_w / f, img_h / f)
            } else {
                (img_w, img_h)
            }
        },
        (Some(w), Some(h)) => (min_of(w as int, img_w), min_of(h as int, img_h)),
        (Some(w), None) => {
            let w2 = min_of(w as int, img_w);
            (w2, img_h * w2 / img_w)
        },
        (None, Some(h)) => {
            let h2 = min_of(h as int, img_h);
            (img_w * h2 / img_h, h2)
        },
    }
}

/// The size that frames of the given size are resized to.
pub fn dimensions_for_image(img: (usize, usize), resize_to: (Option<u32>, Option<u32>)) -> (res: (
    usize,
    usize,
))
    requires
        img.0 > 0,
        img.1 > 0,
        img.0 * img.1 + DEFAULT_AREA / 2 <= usize::MAX,
    ensures
        (res.0 as int, res.1 as int) == dimensions_spec(
            img.0 as int,
            img.1 as int,
            resize_to.0,
            resize_to.1,
        ),
        res.0 <= img.0,
        res.1 <= img.1,
{
    let img_w = img.0;
    let img_h = img.1;
    assert(img_w <= img_w * img_h && img_h <= img_w * img_h) by (nonlinear_arith)
        requires
            img_w > 0,
            img_h > 0,
    ;
    match resize_to {
        (None, None) => {
            let area = img_w * img_h + DEFAULT_AREA / 2;
            let factor = rounded_root(area);
            proof {
                let chosen = shrink_factor(img_w * img_h);
                lemma_rounded_root_unique(area as int, factor as int, chosen);
            }
            if factor > 1 {
                (img_w / factor, img_h / factor)
            } else {
                (img_w, img_h)
            }
        },
        (Some(w), Some(h)) => {
            let w2 = if (w as usize) < img_w { w as usize } else { img_w };
            let h2 = if (h as usize) < img_h { h as usize } else { img_h };
            (w2, h2)
        },
        (Some(w), None) => {
            let w2 = if (w as usize) < img_w { w as usize } else { img_w };
            assert(img_h * w2 <= img_h * img_w) by (nonlinear_arith)
                requires
                    w2 <= img_w,
            ;
            assert(img_h * img_w == img_w * img_h) by (nonlinear_arith);
            assert((img_h * w2) as int / (img_w as int) <= img_h) by (nonlinear_arith)
                requires
                    w2 <= img_w,
                    img_w > 0,
            ;
            (w2, img_h * w2 / img_w)
        },
        (None, Some(h)) => {
            let h2 = if (h as usize) < img_h { h as usize } else { img_h };
            assert(img_w * h2 <= img_w * img_h) by (nonlinear_arith)
                requires
                    h2 <= img_h,
            ;
            assert((img_w * h2) as int / (img_h as int) <= img_w) by (nonlinear_arith)
                requires
                    h2 <= img_h,
                    img_h > 0,
            ;
            (img_w * h2 / img_h, h2)
        },
    }
}

pub open spec fn pow5(y: int) -> int {
    y * y * y * y * y
}

pub open spec fn pow9(x: int) -> int {
    x * x * x * x * x * x * x * x * x
}

/// `y` is `x / 5` to the power of 1.8, rounded up to a whole number: the
/// least `y` whose fifth power is no less than the ninth power of `x / 5`.
pub open spec fn is_loss_step(x: int, y: int) -> bool {
    &&& y >= 0
    &&& pow5(y) * 1953125 >= pow9(x)
    &&& forall|z: int| 0 <= z < y ==> pow5(z) * 1953125 < pow9(x)
}

/// How far the lossy compressor may move a colour, for a quality below 100.
pub open spec fn is_gifsicle_loss(quality: u8, loss: int) -> bool {
    exists|y: int| #[trigger] is_loss_step(100 - quality, y) && loss == (y + 10) * 10
}

proof fn lemma_pow5_monotonic(a: int, b: int)
    requires
        0 <= a <= b,
    ensures
        pow5(a) <= pow5(b),
{
    assert(a * a <= b * b) by (nonlinear_arith)
        requires
            0 <= a <= b,
    ;
    assert(a * a * a <= b * b * b) by (nonlinear_arith)
        requires
            0 <= a <= b,
            a * a <= b * b,
    ;
    assert(a * a * a * a <= b * b * b * b) by (nonlinear_arith)
        requires
            0 <= a <= b,
            a * a * a <= b * b * b,
            0 <= a * a * a,
    ;
    assert(a * a * a * a * a <= b * b * b * b * b) by (nonlinear_arith)
        requires
            0 <= a <= b,
            a * a * a * a <= b * b * b * b,
            0 <= a * a * a * a,
    ;
}

fn fifth_power(y: u64) -> (p: u64)
    requires
        y <= 220,
    ensures
        p == pow5(y as int),
        p <= 515363200000,
{
    proof {
        lemma_pow5_monotonic(y as int, 220);
        assert(pow5(220) == 515363200000) by (nonlinear_arith);
        assert(0 <= y * y <= 48400) by (nonlinear_arith)
            requires
                0 <= y <= 220,
        ;
        assert(0 <= y * y * y <= 10648000) by (nonlinear_arith)
            requires
                0 <= y <= 220,
                0 <= y * y <= 48400,
        ;
        assert(0 <= y * y * y * y <= 2342560000) by (nonlinear_arith)
            requires
                0 <= y <= 220,
                0 <= y * y * y <= 10648000,
        ;
    }
    y * y * y * y * y
}

fn ninth_power(x: u64) -> (p: u64)
    requires
        x <= 100,
    ensures
        p == pow9(x as int),
        p <= 1000000000000000000,
{
    assert(0 <= x * x <= 10000) by (nonlinear_arith)
        requires
            0 <= x <= 100,
    ;
    let x2 = x * x;
    assert(0 <= x2 * x <= 1000000) by (nonlinear_arith)
        requires
            0 <= x <= 100,
            0 <= x2 <= 10000,
    ;
    let x3 = x2 * x;
    assert(0 <= x3 * x3 <= 1000000000000) by (nonlinear_arith)
        requires
            0 <= x3 <= 1000000,
    ;
    let x6 = x3 * x3;
    assert(0 <= x6 * x3 <= 1000000000000000000) by (nonlinear_arith)
        requires
            0 <= x3 <= 1000000,
            0 <= x6 <= 1000000000000,
    ;
    let x9 = x6 * x3;
    assert(x9 == pow9(x as int)) by (nonlinear_arith)
        requires
            x2 == x * x,
            x3 == x2 * x,
            x6 == x3 * x3,
            x9 == x6 * x3,
    ;
    x9
}

impl Settings {
    /// The quality that colours are quantized with: a third more than the
    /// quality asked for, since lower quality is better spent elsewhere
    /// first.
    pub fn color_quality(&self) -> (q: u8)
        ensures
            q == min_of(self.quality * 4 / 3, 100),
    {
        let q: u16 = self.quality as u16 * 4 / 3;
        if q < 100 {
            q as u8
        } else {
            100
        }
    }

    /// `add_frame` is going to resize the images to this size.
    pub fn dimensions_for_image(&self, width: usize, height: usize) -> (res: (usize, usize))
        requires
            width > 0,
            height > 0,
            width * height + DEFAULT_AREA / 2 <= usize::MAX,
        ensures
            (res.0 as int, res.1 as int) == dimensions_spec(
                width as int,
                height as int,
                self.width,
                self.height,
            ),
    {
        dimensions_for_image((width, height), (self.width, self.height))
    }
}

impl Default for Settings {
    fn default() -> (s: Self)
        ensures
            s.width is None,
            s.height is None,
            s.quality == 100,
            !s.fast,
            s.repeat == Repeat::Infinite,
    {
        Settings { width: None, height: None, quality: 100, fast: false, repeat: Repeat::Infinite }
    }
}

/// The strength of dithering in parts of 6000, for a quality and a quality
/// of lossy compression: between a fifth and the whole. Lossy compression
/// adds noise of its own, so what it is given is dithered less.
pub open spec fn dithering_level_spec(quality: u8, giflossy_quality: u8) -> int {
    let level = quality * (30 + giflossy_quality) - 6000;
    if level < 1200 {
        1200
    } else if level > 6000 {
        6000
    } else {
        level
    }
}

/// The unit of the dithering level.
pub const DITHERING_UNIT: u16 = 6000;

impl SettingsExt {
    /// How far the lossy compressor may move a colour; 0 where it is not used.
    pub fn gifsicle_loss(&self) -> (loss: u32)
        ensures
            self.giflossy_quality >= 100 ==> loss == 0,
            self.giflossy_quality < 100 ==> is_gifsicle_loss(self.giflossy_quality, loss as int),
            self.giflossy_quality < 100 ==> 110 <= loss <= 2300,
    {
        if self.giflossy_quality >= 100 {
            return 0;
        }
        let x: u64 = 100 - self.giflossy_quality as u64;
        let target = ninth_power(x);
        let mut y: u64 = 0;
        while y < 220 && fifth_power(y) * 1953125 < target
            invariant
                y <= 220,
                target == pow9(x as int),
                target <= 1000000000000000000,
                forall|z: int| 0 <= z < y ==> pow5(z) * 1953125 < pow9(x as int),
            decreases 220 - y,
        {
            y += 1;
        }
        proof {
            if y == 220 {
                assert(pow5(220) == 515363200000) by (nonlinear_arith);
            }
            assert(is_loss_step(x as int, y as int));
            assert(y >= 1) by {
                if y == 0 {
                    assert(pow5(0) == 0) by (nonlinear_arith);
                    assert(pow9(x as int) >= 1) by (nonlinear_arith)
                        requires
                            x >= 1,
                    ;
                }
            }
        }
        ((y + 10) * 10) as u32
    }

    /// The strength of dithering, in parts of `DITHERING_UNIT`.
    pub fn dithering_level(&self) -> (level: u16)
        ensures
            level == dithering_level_spec(self.s.quality, self.giflossy_quality),
            1200 <= level <= 6000,
    {
        let quality: u32 = self.s.quality as u32;
        let weight: u32 = 30 + self.giflossy_quality as u32;
        assert(quality * weight <= 255 * 285) by (nonlinear_arith)
            requires
                quality <= 255,
                weight <= 285,
        ;
        let raw: u32 = quality * weight;
        if raw < 7200 {
            1200
        } else if raw > 12000 {
            6000
        } else {
            (raw - 6000) as u16
        }
    }

    /// How many frames are resized at a time.
    pub fn resize_threads(&self) -> (n: u8)
        ensures
            n == min_of(self.max_threads as int, if self.s.fast || self.extra_effort { 6 } else { 4 }),
    {
        let most: u8 = if self.s.fast || self.extra_effort { 6 } else { 4 };
        if self.max_threads < most {
            self.max_threads
        } else {
            most
        }
    }

    /// How many frames are quantized at a time.
    pub fn quant_threads(&self) -> (n: u8)
        ensures
            n == min_of(self.max_threads as int, 4),
    {
        if self.max_threads < 4 {
            self.max_threads
        } else {
            4
        }
    }

    /// How many frames are compressed at a time.
    pub fn lzw_threads(&self) -> (n: u8)
        ensures
            n == (if self.s.fast || self.giflossy_quality < 100 { 3int } else { 1 }),
    {
        if self.s.fast || self.gifsicle_loss() > 0 {
            3
        } else {
            1
        }
    }
}

} // verus!
