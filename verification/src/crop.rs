//! Cropping of a frame to the smallest rectangle outside of which drawing
//! it would change nothing on the screen.

use crate::color::{RGB8, RGBA8};
use crate::img::ImgVec;
use crate::screen::{blitted_pixel, is_index, opaque, DisposalMethod};
use vstd::prelude::*;

verus! {

/// A frame's pixel with palette index `px` does to the screen pixel `bg`
/// nothing that leaving it out would not do. A transparent pixel leaves the
/// screen alone, but under disposal to background the whole frame is cleared
/// afterwards, so there it matches only a screen that is transparent
/// already. Any other pixel matches the screen of its own colour.
pub open spec fn pixel_matches(
    px: u8,
    bg: RGBA8,
    pal: Seq<RGB8>,
    transparent: Option<u8>,
    dispose: DisposalMethod,
) -> bool {
    if transparent == Some(px) {
        dispose == DisposalMethod::Keep || bg.a == 0
    } else {
        px < pal.len() && opaque(pal[px as int]) == bg
    }
}

/// What a frame is compared with when it is cropped.
pub struct Backdrop {
    pub pal: Seq<RGB8>,
    pub transparent: Option<u8>,
    pub dispose: DisposalMethod,
}

/// The frame's pixel at `(x, y)` matches the screen.
pub open spec fn matches_at(image: &ImgVec<u8>, screen: &ImgVec<RGBA8>, b: Backdrop, x: int, y: int) -> bool {
    pixel_matches(image.at(x, y), screen.at(x, y), b.pal, b.transparent, b.dispose)
}

/// Every pixel of row `y` matches the screen.
pub open spec fn row_matches(image: &ImgVec<u8>, screen: &ImgVec<RGBA8>, b: Backdrop, y: int) -> bool {
    forall|x: int| 0 <= x < image.width ==> #[trigger] matches_at(image, screen, b, x, y)
}

/// Every pixel of column `x` matches the screen.
pub open spec fn col_matches(image: &ImgVec<u8>, screen: &ImgVec<RGBA8>, b: Backdrop, x: int) -> bool {
    forall|y: int| 0 <= y < image.height ==> #[trigger] matches_at(image, screen, b, x, y)
}

/// Every pixel of the frame matches the screen.
pub open spec fn all_match(image: &ImgVec<u8>, screen: &ImgVec<RGBA8>, b: Backdrop) -> bool {
    forall|x: int, y: int|
        0 <= x < image.width && 0 <= y < image.height ==> #[trigger] matches_at(
            image,
            screen,
            b,
            x,
            y,
        )
}

/// The rectangle is the smallest one that holds every pixel of the frame
/// that does not match the screen: outside of it everything matches, and
/// each of its four edges holds a pixel that does not.
pub open spec fn is_changed_rect(
    image: &ImgVec<u8>,
    screen: &ImgVec<RGBA8>,
    b: Backdrop,
    left: int,
    top: int,
    width: int,
    height: int,
) -> bool {
    &&& 0 <= left && 0 < width && left + width <= image.width
    &&& 0 <= top && 0 < height && top + height <= image.height
    &&& forall|y: int| 0 <= y < top ==> #[trigger] row_matches(image, screen, b, y)
    &&& forall|y: int| top + height <= y < image.height ==> #[trigger] row_matches(image, screen, b, y)
    &&& forall|x: int| 0 <= x < left ==> #[trigger] col_matches(image, screen, b, x)
    &&& forall|x: int| left + width <= x < image.width ==> #[trigger] col_matches(image, screen, b, x)
    &&& !row_matches(image, screen, b, top)
    &&& !row_matches(image, screen, b, top + height - 1)
    &&& !col_matches(image, screen, b, left)
    &&& !col_matches(image, screen, b, left + width - 1)
}

fn matching_pixel(
    px: u8,
    bg: RGBA8,
    pal: &Vec<RGB8>,
    transparent: Option<u8>,
    dispose: DisposalMethod,
) -> (m: bool)
    ensures
        m == pixel_matches(px, bg, pal@, transparent, dispose),
{
    if is_index(transparent, px) {
        // under keep a transparent pixel does nothing; under disposal to
        // background it paints transparency
        dispose == DisposalMethod::Keep || bg.a == 0
    } else if (px as usize) < pal.len() {
        pal[px as usize].alpha(255) == bg
    } else {
        false
    }
}

/// Whether the pixels of row `y` in the columns from `from` up to `to` match.
fn matching_row(
    image: &ImgVec<u8>,
    screen: &ImgVec<RGBA8>,
    pal: &Vec<RGB8>,
    transparent: Option<u8>,
    dispose: DisposalMethod,
    y: usize,
) -> (m: bool)
    requires
        image.wf(),
        screen.wf(),
        image.same_size(screen),
        y < image.height,
    ensures
        m == row_matches(image, screen, Backdrop { pal: pal@, transparent, dispose }, y as int),
{
    let ghost b = Backdrop { pal: pal@, transparent, dispose };
    let mut x: usize = 0;
    while x < image.width
        invariant
            image.wf(),
            screen.wf(),
            image.same_size(screen),
            y < image.height,
            x <= image.width,
            b == (Backdrop { pal: pal@, transparent, dispose }),
            forall|x2: int| 0 <= x2 < x ==> #[trigger] matches_at(image, screen, b, x2, y as int),
        decreases image.width - x,
    {
        if !matching_pixel(*image.pixel(x, y), *screen.pixel(x, y), pal, transparent, dispose) {
            assert(!matches_at(image, screen, b, x as int, y as int));
            return false;
        }
        x += 1;
    }
    true
}

/// Whether the pixels of column `x` in the rows from `top` up to `bottom` match.
fn matching_col(
    image: &ImgVec<u8>,
    screen: &ImgVec<RGBA8>,
    pal: &Vec<RGB8>,
    transparent: Option<u8>,
    dispose: DisposalMethod,
    x: usize,
    top: usize,
    bottom: usize,
) -> (m: bool)
    requires
        image.wf(),
        screen.wf(),
        image.same_size(screen),
        x < image.width,
        top <= bottom <= image.height,
    ensures
        m == (forall|y: int|
            top <= y < bottom ==> #[trigger] matches_at(
                image,
                screen,
                Backdrop { pal: pal@, transparent, dispose },
                x as int,
                y,
            )),
{
    let ghost b = Backdrop { pal: pal@, transparent, dispose };
    let mut y: usize = top;
    while y < bottom
        invariant
            image.wf(),
            screen.wf(),
            image.same_size(screen),
            x < image.width,
            top <= y <= bottom <= image.height,
            b == (Backdrop { pal: pal@, transparent, dispose }),
            forall|y2: int| top <= y2 < y ==> #[trigger] matches_at(image, screen, b, x as int, y2),
        decreases bottom - y,
    {
        if !matching_pixel(*image.pixel(x, y), *screen.pixel(x, y), pal, transparent, dispose) {
            assert(!matches_at(image, screen, b, x as int, y as int));
            return false;
        }
        y += 1;
    }
    true
}

/// Finds the part of a frame that changes the screen: the corner, width
/// and height of the smallest rectangle outside of which every pixel
/// matches the screen. There is none where the whole frame matches.
pub fn trim_image(
    image: &ImgVec<u8>,
    pal: &Vec<RGB8>,
    transparent_index: Option<u8>,
    dispose: DisposalMethod,
    screen: &ImgVec<RGBA8>,
) -> (res: Option<(u16, u16, usize, usize)>)
    requires
        image.wf(),
        screen.wf(),
        image.same_size(screen),
        image.width <= 0x10000,
        image.height <= 0x10000,
    ensures
        res is None <==> all_match(
            image,
            screen,
            Backdrop { pal: pal@, transparent: transparent_index, dispose },
        ),
        res matches Some(r) ==> is_changed_rect(
            image,
            screen,
            Backdrop { pal: pal@, transparent: transparent_index, dispose },
            r.0 as int,
            r.1 as int,
            r.2 as int,
            r.3 as int,
        ),
{
    let ghost b = Backdrop { pal: pal@, transparent: transparent_index, dispose };
    let width = image.width;
    let height = image.height;
    if width == 0 {
        assert(all_match(image, screen, b));
        return None;
    }
    // rows that match, counted from the bottom
    let mut bottom: usize = 0;
    while bottom < height && matching_row(
        image,
        screen,
        pal,
        transparent_index,
        dispose,
        height - 1 - bottom,
    )
        invariant
            image.wf(),
            screen.wf(),
            image.same_size(screen),
            width == image.width,
            height == image.height,
            bottom <= height,
            b == (Backdrop { pal: pal@, transparent: transparent_index, dispose }),
            forall|y: int| height - bottom <= y < height ==> #[trigger] row_matches(image, screen, b, y),
        decreases height - bottom,
    {
        bottom += 1;
    }
    if bottom == height {
        assert(all_match(image, screen, b)) by {
            assert forall|x: int, y: int| 0 <= x < image.width && 0 <= y < image.height implies #[trigger] matches_at(
                image,
                screen,
                b,
                x,
                y,
            ) by {
                assert(row_matches(image, screen, b, y));
            }
        }
        return None;
    }
    let end = height - bottom;
    assert(!row_matches(image, screen, b, end - 1));
    // rows that match, counted from the top
    let mut top: usize = 0;
    while matching_row(image, screen, pal, transparent_index, dispose, top)
        invariant
            image.wf(),
            screen.wf(),
            image.same_size(screen),
            width == image.width,
            height == image.height,
            top < end <= height,
            !row_matches(image, screen, b, end - 1),
            b == (Backdrop { pal: pal@, transparent: transparent_index, dispose }),
            forall|y: int| 0 <= y < top ==> #[trigger] row_matches(image, screen, b, y),
        decreases end - top,
    {
        top += 1;
    }
    // a row that does not match holds a pixel that does not match
    let ghost wx: int = choose|x: int|
        0 <= x < image.width && !matches_at(image, screen, b, x, top as int);
    assert(0 <= wx < image.width && !matches_at(image, screen, b, wx, top as int));
    assert(!col_matches(image, screen, b, wx));

    // columns that match, counted from the left
    let mut left: usize = 0;
    while left < width - 1 && matching_col(
        image,
        screen,
        pal,
        transparent_index,
        dispose,
        left,
        top,
        end,
    )
        invariant
            image.wf(),
            screen.wf(),
            image.same_size(screen),
            width == image.width,
            height == image.height,
            top < end <= height,
            left <= width - 1,
            left <= wx,
            0 <= wx < width,
            !matches_at(image, screen, b, wx, top as int),
            b == (Backdrop { pal: pal@, transparent: transparent_index, dispose }),
            forall|y: int| 0 <= y < top ==> #[trigger] row_matches(image, screen, b, y),
            forall|y: int| end <= y < height ==> #[trigger] row_matches(image, screen, b, y),
            forall|x: int| 0 <= x < left ==> #[trigger] col_matches(image, screen, b, x),
        decreases width - left,
    {
        assert(col_matches(image, screen, b, left as int)) by {
            assert forall|y: int| 0 <= y < image.height implies #[trigger] matches_at(
                image,
                screen,
                b,
                left as int,
                y,
            ) by {
                if y < top || y >= end {
                    assert(row_matches(image, screen, b, y));
                }
            }
        }
        left += 1;
    }
    assert(!col_matches(image, screen, b, left as int)) by {
        if left == wx {
        } else {
            // the loop ended on a column that does not match between the rows
            assert(left < width - 1);
        }
    }
    // columns that match, counted from the right
    let mut right: usize = 0;
    while right < width - left - 1 && matching_col(
        image,
        screen,
        pal,
        transparent_index,
        dispose,
        width - 1 - right,
        top,
        end,
    )
        invariant
            image.wf(),
            screen.wf(),
            image.same_size(screen),
            width == image.width,
            height == image.height,
            top < end <= height,
            left < width,
            right <= width - left - 1,
            !col_matches(image, screen, b, left as int),
            b == (Backdrop { pal: pal@, transparent: transparent_index, dispose }),
            forall|y: int| 0 <= y < top ==> #[trigger] row_matches(image, screen, b, y),
            forall|y: int| end <= y < height ==> #[trigger] row_matches(image, screen, b, y),
            forall|x: int| width - right <= x < width ==> #[trigger] col_matches(image, screen, b, x),
        decreases width - right,
    {
        assert(col_matches(image, screen, b, width - 1 - right)) by {
            assert forall|y: int| 0 <= y < image.height implies #[trigger] matches_at(
                image,
                screen,
                b,
                width - 1 - right,
                y,
            ) by {
                if y < top || y >= end {
                    assert(row_matches(image, screen, b, y));
                }
            }
        }
        right += 1;
    }
    assert(!col_matches(image, screen, b, width - 1 - right));
    assert(!all_match(image, screen, b));
    Some((left as u16, top as u16, width - left - right, end - top))
}

/// The part of an image inside a rectangle, as an image of its own.
pub fn crop(image: &ImgVec<u8>, left: usize, top: usize, width: usize, height: usize) -> (out: ImgVec<u8>)
    requires
        image.wf(),
        left + width <= image.width,
        top + height <= image.height,
    ensures
        out.wf(),
        out.width == width,
        out.height == height,
        forall|x: int, y: int|
            0 <= x < width && 0 <= y < height ==> #[trigger] out.at(x, y) == image.at(
                left + x,
                top + y,
            ),
{
    assert(width * height <= image.width * image.height) by (nonlinear_arith)
        requires
            width <= image.width,
            height <= image.height,
    ;
    let mut out = ImgVec { buf: vec![0u8; width * height], width, height };
    let mut y: usize = 0;
    while y < height
        invariant
            image.wf(),
            out.wf(),
            out.width == width,
            out.height == height,
            left + width <= image.width,
            top + height <= image.height,
            y <= height,
            forall|x2: int, y2: int|
                0 <= x2 < width && 0 <= y2 < y ==> #[trigger] out.at(x2, y2) == image.at(
                    left + x2,
                    top + y2,
                ),
        decreases height - y,
    {
        let mut x: usize = 0;
        while x < width
            invariant
                image.wf(),
                out.wf(),
                out.width == width,
                out.height == height,
                left + width <= image.width,
                top + height <= image.height,
                y < height,
                x <= width,
                forall|x2: int, y2: int|
                    0 <= x2 < width && (0 <= y2 < y || (y2 == y && x2 < x)) ==> #[trigger] out.at(
                        x2,
                        y2,
                    ) == image.at(left + x2, top + y2),
            decreases width - x,
        {
            out.set_pixel(x, y, *image.pixel(left + x, top + y));
            x += 1;
        }
        y += 1;
    }
    out
}

/// Drawing a frame cropped to the rectangle that `trim_image` finds shows
/// the same on every pixel of the screen as drawing the whole frame.
pub proof fn lemma_cropped_frame_draws_the_same(
    image: &ImgVec<u8>,
    screen: &ImgVec<RGBA8>,
    b: Backdrop,
    cropped: &ImgVec<u8>,
    left: int,
    top: int,
    x: int,
    y: int,
)
    requires
        image.same_size(screen),
        is_changed_rect(image, screen, b, left, top, cropped.width as int, cropped.height as int),
        forall|x2: int, y2: int|
            0 <= x2 < cropped.width && 0 <= y2 < cropped.height ==> #[trigger] cropped.at(x2, y2)
                == image.at(left + x2, top + y2),
        0 <= x < image.width,
        0 <= y < image.height,
    ensures
        blitted_pixel(screen, b.pal, cropped, left, top, b.transparent, x, y) == blitted_pixel(
            screen,
            b.pal,
            image,
            0,
            0,
            b.transparent,
            x,
            y,
        ),
{
    if left <= x < left + cropped.width && top <= y < top + cropped.height {
        assert(cropped.at(x - left, y - top) == image.at(left + (x - left), top + (y - top)));
    } else {
        if y < top || y >= top + cropped.height {
            assert(row_matches(image, screen, b, y));
        } else {
            assert(col_matches(image, screen, b, x));
        }
        assert(matches_at(image, screen, b, x, y));
    }
}

/// A frame that matches the screen all over draws nothing: it leaves every
/// pixel of the screen as it is.
pub proof fn lemma_matching_frame_draws_nothing(
    image: &ImgVec<u8>,
    screen: &ImgVec<RGBA8>,
    b: Backdrop,
    x: int,
    y: int,
)
    requires
        image.same_size(screen),
        all_match(image, screen, b),
        0 <= x < image.width,
        0 <= y < image.height,
    ensures
        blitted_pixel(screen, b.pal, image, 0, 0, b.transparent, x, y) == screen.at(x, y),
{
    assert(matches_at(image, screen, b, x, y));
}

} // verus!
