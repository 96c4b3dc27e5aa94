use vstd::prelude::*;

verus! {

/// A rectangular image whose pixels are stored row by row without padding.
pub struct ImgVec<T> {
    pub buf: Vec<T>,
    pub width: usize,
    pub height: usize,
}

/// Position of the pixel `(x, y)` in the buffer of an image `width` pixels wide.
pub open spec fn px_index(width: int, x: int, y: int) -> int {
    y * width + x
}

/// A pixel inside a `width` by `height` image has its position inside the buffer.
pub proof fn lemma_px_index_in_bounds(width: int, height: int, x: int, y: int)
    requires
        0 <= x < width,
        0 <= y < height,
    ensures
        0 <= px_index(width, x, y) < width * height,
        px_index(width, x, y) / width == y,
        px_index(width, x, y) % width == x,
{
    assert(y * width >= 0) by (nonlinear_arith)
        requires
            y >= 0,
            width >= 0,
    ;
    assert(y * width + width <= height * width) by (nonlinear_arith)
        requires
            y + 1 <= height,
            width >= 0,
    ;
    assert(height * width == width * height) by (nonlinear_arith);
    vstd::arithmetic::div_mod::lemma_fundamental_div_mod_converse(y * width + x, width, y, x);
}

/// Every position in the buffer belongs to exactly one pixel.
pub proof fn lemma_px_index_split(width: int, height: int, i: int)
    requires
        0 < width,
        0 <= i < width * height,
    ensures
        0 <= i % width < width,
        0 <= i / width < height,
        px_index(width, i % width, i / width) == i,
{
    vstd::arithmetic::div_mod::lemma_fundamental_div_mod(i, width);
    vstd::arithmetic::div_mod::lemma_div_pos_is_pos(i, width);
    assert(width * (i / width) == (i / width) * width) by (nonlinear_arith);
    if i / width >= height {
        assert((i / width) * width >= height * width) by (nonlinear_arith)
            requires
                i / width >= height,
                width > 0,
        ;
        assert(height * width == width * height) by (nonlinear_arith);
    }
}

/// Different pixels of an image have different positions in its buffer.
pub proof fn lemma_px_index_injective(width: int, height: int, x1: int, y1: int, x2: int, y2: int)
    requires
        0 <= x1 < width,
        0 <= y1 < height,
        0 <= x2 < width,
        0 <= y2 < height,
        px_index(width, x1, y1) == px_index(width, x2, y2),
    ensures
        x1 == x2,
        y1 == y2,
{
    lemma_px_index_in_bounds(width, height, x1, y1);
    lemma_px_index_in_bounds(width, height, x2, y2);
}

impl<T> ImgVec<T> {
    /// The buffer holds exactly `width * height` pixels.
    pub open spec fn wf(&self) -> bool {
        self.buf.len() == self.width * self.height
    }

    /// The pixel at `(x, y)`.
    pub open spec fn at(&self, x: int, y: int) -> T {
        self.buf@[px_index(self.width as int, x, y)]
    }

    /// Two images have the same dimensions.
    pub open spec fn same_size<U>(&self, other: &ImgVec<U>) -> bool {
        self.width == other.width && self.height == other.height
    }

    /// Makes an image of a buffer, if the buffer holds `width * height` pixels.
    pub fn new(buf: Vec<T>, width: usize, height: usize) -> (res: Option<Self>)
        ensures
            res is Some <==> buf.len() == width * height,
            res matches Some(img) ==> img.wf() && img.buf == buf && img.width == width
                && img.height == height,
    {
        match width.checked_mul(height) {
            Some(area) => {
                if buf.len() == area {
                    Some(ImgVec { buf, width, height })
                } else {
                    None
                }
            },
            None => None,
        }
    }

    pub fn width(&self) -> (w: usize)
        ensures
            w == self.width,
    {
        self.width
    }

    pub fn height(&self) -> (h: usize)
        ensures
            h == self.height,
    {
        self.height
    }

    /// The pixels, row by row.
    pub fn buf(&self) -> (b: &Vec<T>)
        ensures
            b == self.buf,
    {
        &self.buf
    }

    /// Gives the buffer back with the dimensions.
    pub fn into_contiguous_buf(self) -> (res: (Vec<T>, usize, usize))
        ensures
            res.0 == self.buf,
            res.1 == self.width,
            res.2 == self.height,
    {
        (self.buf, self.width, self.height)
    }

    /// The pixel at `(x, y)`.
    pub fn pixel(&self, x: usize, y: usize) -> (p: &T)
        requires
            self.wf(),
            x < self.width,
            y < self.height,
        ensures
            *p == self.at(x as int, y as int),
    {
        proof {
            lemma_px_index_in_bounds(self.width as int, self.height as int, x as int, y as int);
        }
        &self.buf[y * self.width + x]
    }

    /// Puts `value` at `(x, y)` and leaves every other pixel as it is.
    pub fn set_pixel(&mut self, x: usize, y: usize, value: T)
        requires
            old(self).wf(),
            x < old(self).width,
            y < old(self).height,
        ensures
            final(self).wf(),
            final(self).width == old(self).width,
            final(self).height == old(self).height,
            final(self).at(x as int, y as int) == value,
            final(self).buf@ == old(self).buf@.update(
                px_index(old(self).width as int, x as int, y as int),
                value,
            ),
            forall|x2: int, y2: int|
                0 <= x2 < old(self).width && 0 <= y2 < old(self).height && (x2 != x || y2 != y)
                    ==> #[trigger] final(self).at(x2, y2) == old(self).at(x2, y2),
    {
        proof {
            lemma_px_index_in_bounds(self.width as int, self.height as int, x as int, y as int);
            assert forall|x2: int, y2: int|
                0 <= x2 < self.width && 0 <= y2 < self.height && (x2 != x || y2 != y) implies px_index(
                self.width as int,
                x2,
                y2,
            ) != px_index(self.width as int, x as int, y as int) && 0 <= #[trigger] px_index(
                self.width as int,
                x2,
                y2,
            ) < self.buf.len() by {
                lemma_px_index_in_bounds(self.width as int, self.height as int, x2, y2);
                if px_index(self.width as int, x2, y2) == px_index(
                    self.width as int,
                    x as int,
                    y as int,
                ) {
                    lemma_px_index_injective(
                        self.width as int,
                        self.height as int,
                        x2,
                        y2,
                        x as int,
                        y as int,
                    );
                }
            }
        }
        let i = y * self.width + x;
        self.buf.set(i, value);
    }
}

} // verus!
