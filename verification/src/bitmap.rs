//! Grayscale pixel buffer: the common currency of the render pass.

use vstd::prelude::*;

verus! {

/// A width x height single-channel byte surface, row-major, one byte per
/// pixel.  Index `(x, y)` lives at `data[y * width + x]`.
pub struct Bitmap {
    pub data: Vec<u8>,
    pub width: usize,
    pub height: usize,
}

/// The value that `overlay` leaves at `(x, y)` after copying `src` onto `dst`
/// at offset `(xo, yo)`: the source pixel inside the copied window, the old
/// destination pixel everywhere else.
pub open spec fn overlay_pixel(dst: Bitmap, src: Bitmap, xo: int, yo: int, x: int, y: int) -> u8 {
    if xo <= x < xo + src.width && yo <= y < yo + src.height {
        src.pixel(x - xo, y - yo)
    } else {
        dst.pixel(x, y)
    }
}

impl Bitmap {
    /// The buffer holds exactly one byte for every pixel of the surface.
    pub open spec fn wf(&self) -> bool {
        self.data@.len() == self.width * self.height
    }

    /// The pixel at column `x`, row `y`.
    pub open spec fn pixel(&self, x: int, y: int) -> u8 {
        self.data@[y * self.width + x]
    }

    /// A fresh zero-filled (black) surface.
    pub fn new(width: usize, height: usize) -> (r: Bitmap)
        requires
            width * height <= usize::MAX,
        ensures
            r.wf(),
            r.width == width,
            r.height == height,
            forall|x: int, y: int|
                0 <= x < width && 0 <= y < height ==> r.pixel(x, y) == 0u8,
    {
        let len = width * height;
        let r = Bitmap { data: vec![0u8; len], width, height };
        proof {
            assert forall|x: int, y: int|
                0 <= x < width && 0 <= y < height implies r.pixel(x, y) == 0u8 by {
                lemma_row_major_index_in_range(width as int, height as int, x, y);
            }
        }
        r
    }

    /// Wraps an existing row-major buffer; the buffer must match the claimed
    /// dimensions exactly.
    pub fn from_data(data: Vec<u8>, width: usize, height: usize) -> (r: Bitmap)
        requires
            data@.len() == width * height,
        ensures
            r.wf(),
            r.width == width,
            r.height == height,
            r.data@ == data@,
    {
        Bitmap { data, width, height }
    }

    /// Writes one pixel; coordinates outside the surface are ignored.
    pub fn set_pixel(&mut self, x: usize, y: usize, value: u8)
        requires
            old(self).wf(),
        ensures
            final(self).wf(),
            final(self).width == old(self).width,
            final(self).height == old(self).height,
            x < old(self).width && y < old(self).height ==> final(self).data@
                == old(self).data@.update(y * old(self).width + x, value),
            !(x < old(self).width && y < old(self).height) ==> final(self).data@
                == old(self).data@,
    {
        if x < self.width && y < self.height {
            let n: usize = self.data.len();
            proof {
                lemma_row_major_index_in_range(
                    self.width as int,
                    self.height as int,
                    x as int,
                    y as int,
                );
            }
            let i = y * self.width + x;
            self.data[i] = value;
        }
    }

    /// Reads one pixel; coordinates outside the surface read as zero.
    pub fn get_pixel(&self, x: usize, y: usize) -> (r: u8)
        requires
            self.wf(),
        ensures
            r == if x < self.width && y < self.height {
                self.pixel(x as int, y as int)
            } else {
                0u8
            },
    {
        if x < self.width && y < self.height {
            let n: usize = self.data.len();
            proof {
                lemma_row_major_index_in_range(
                    self.width as int,
                    self.height as int,
                    x as int,
                    y as int,
                );
            }
            self.data[y * self.width + x]
        } else {
            0
        }
    }

    /// Copies every pixel of `other` into this surface at the given offset,
    /// overwriting the destination (no blending).  The copied window must fit
    /// inside the destination.
    pub fn overlay(&mut self, other: &Bitmap, xoffset: usize, yoffset: usize)
        requires
            old(self).wf(),
            other.wf(),
            xoffset + other.width <= old(self).width,
            yoffset + other.height <= old(self).height,
        ensures
            final(self).wf(),
            final(self).width == old(self).width,
            final(self).height == old(self).height,
            forall|x: int, y: int|
                0 <= x < old(self).width && 0 <= y < old(self).height
                    ==> final(self).pixel(x, y) == overlay_pixel(
                    *old(self),
                    *other,
                    xoffset as int,
                    yoffset as int,
                    x,
                    y,
                ),
    {
        let ghost base = *old(self);
        let mut y: usize = 0;
        while y < other.height
            invariant
                base.wf(),
                other.wf(),
                xoffset + other.width <= base.width,
                yoffset + other.height <= base.height,
                y <= other.height,
                self.wf(),
                self.width == base.width,
                self.height == base.height,
                forall|xx: int, yy: int|
                    0 <= xx < base.width && 0 <= yy < base.height ==> self.pixel(xx, yy) == (
                    if xoffset <= xx < xoffset + other.width && yoffset <= yy < yoffset + y {
                        other.pixel(xx - xoffset, yy - yoffset)
                    } else {
                        base.pixel(xx, yy)
                    }),
            decreases other.height - y,
        {
            let mut x: usize = 0;
            while x < other.width
                invariant
                    base.wf(),
                    other.wf(),
                    xoffset + other.width <= base.width,
                    yoffset + other.height <= base.height,
                    y < other.height,
                    x <= other.width,
                    self.wf(),
                    self.width == base.width,
                    self.height == base.height,
                    forall|xx: int, yy: int|
                        0 <= xx < base.width && 0 <= yy < base.height ==> self.pixel(xx, yy) == (
                        if xoffset <= xx < xoffset + other.width && yoffset <= yy < yoffset + y {
                            other.pixel(xx - xoffset, yy - yoffset)
                        } else if yy == yoffset + y && xoffset <= xx < xoffset + x {
                            other.pixel(xx - xoffset, yy - yoffset)
                        } else {
                            base.pixel(xx, yy)
                        }),
                decreases other.width - x,
            {
                let no: usize = other.data.len();
                let ns: usize = self.data.len();
                proof {
                    lemma_row_major_index_in_range(
                        other.width as int,
                        other.height as int,
                        x as int,
                        y as int,
                    );
                    lemma_row_major_index_in_range(
                        self.width as int,
                        self.height as int,
                        (x + xoffset) as int,
                        (y + yoffset) as int,
                    );
                }
                let ghost before = *self;
                let v = other.data[y * other.width + x];
                let i = (y + yoffset) * self.width + (x + xoffset);
                self.data[i] = v;
                proof {
                    assert forall|xx: int, yy: int|
                        0 <= xx < base.width && 0 <= yy < base.height implies self.pixel(xx, yy)
                        == (if xoffset <= xx < xoffset + other.width && yoffset <= yy < yoffset
                            + y {
                            other.pixel(xx - xoffset, yy - yoffset)
                        } else if yy == yoffset + y && xoffset <= xx < xoffset + x + 1 {
                            other.pixel(xx - xoffset, yy - yoffset)
                        } else {
                            base.pixel(xx, yy)
                        }) by {
                        let unchanged = before.pixel(xx, yy);
                        lemma_row_major_index_in_range(
                            self.width as int,
                            self.height as int,
                            xx,
                            yy,
                        );
                        lemma_row_major_unique(
                            self.width as int,
                            xx,
                            yy,
                            (x + xoffset) as int,
                            (y + yoffset) as int,
                        );
                    }
                }
                x = x + 1;
            }
            y = y + 1;
        }
    }

    /// Expands the single channel into a three-channel row-major buffer by
    /// replicating each byte three times, ready for an image encoder.
    pub fn to_rgb888(&self) -> (r: Vec<u8>)
        requires
            self.wf(),
            self.width * self.height * 3 <= usize::MAX,
        ensures
            r@.len() == self.width * self.height * 3,
            forall|i: int|
                0 <= i < self.width * self.height ==> r@[3 * i] == self.data@[i] && r@[3 * i + 1]
                    == self.data@[i] && r@[3 * i + 2] == self.data@[i],
            r@ == replicated3(self.data@),
    {
        let mut r: Vec<u8> = Vec::new();
        let mut i: usize = 0;
        let n = self.width * self.height;
        while i < n
            invariant
                self.wf(),
                n == self.width * self.height,
                n * 3 <= usize::MAX,
                i <= n,
                r@.len() == 3 * i,
                forall|j: int|
                    0 <= j < i ==> r@[3 * j] == self.data@[j] && r@[3 * j + 1] == self.data@[j]
                        && r@[3 * j + 2] == self.data@[j],
            decreases n - i,
        {
            let p = self.data[i];
            r.push(p);
            r.push(p);
            r.push(p);
            i = i + 1;
        }
        proof {
            assert forall|k: int| 0 <= k < r@.len() implies r@[k] == replicated3(self.data@)[k] by {
                vstd::arithmetic::div_mod::lemma_fundamental_div_mod(k, 3);
                vstd::arithmetic::div_mod::lemma_mod_bound(k, 3);
                let j = k / 3;
                assert(0 <= j < self.data@.len()) by (nonlinear_arith)
                    requires
                        0 <= k < 3 * self.data@.len(),
                        k == 3 * j + k % 3,
                        0 <= k % 3 < 3,
                ;
                if k % 3 == 0 {
                    assert(r@[3 * j] == self.data@[j]);
                } else if k % 3 == 1 {
                    assert(r@[3 * j + 1] == self.data@[j]);
                } else {
                    assert(r@[3 * j + 2] == self.data@[j]);
                }
            }
            assert(r@ =~= replicated3(self.data@));
        }
        r
    }
}

/// A single-channel buffer expanded to three channels: byte `i` of the
/// result is byte `i / 3` of the source.
pub open spec fn replicated3(data: Seq<u8>) -> Seq<u8> {
    Seq::new(3 * data.len(), |k: int| data[k / 3])
}

/// For a row-major surface, every in-range coordinate pair addresses a cell
/// inside the buffer.
pub proof fn lemma_row_major_index_in_range(width: int, height: int, x: int, y: int)
    requires
        0 <= x < width,
        0 <= y < height,
    ensures
        0 <= y * width + x < width * height,
{
    assert(y * width + x < width * height) by (nonlinear_arith)
        requires
            0 <= x < width,
            0 <= y < height,
    ;
    assert(0 <= y * width) by (nonlinear_arith)
        requires
            0 <= y,
            0 < width,
    ;
}

/// Distinct in-range coordinate pairs address distinct cells of a row-major
/// buffer.
pub proof fn lemma_row_major_unique(width: int, x1: int, y1: int, x2: int, y2: int)
    requires
        0 <= x1 < width,
        0 <= x2 < width,
        0 <= y1,
        0 <= y2,
    ensures
        y1 * width + x1 == y2 * width + x2 ==> x1 == x2 && y1 == y2,
{
    if y1 * width + x1 == y2 * width + x2 {
        assert(y1 == y2 && x1 == x2) by (nonlinear_arith)
            requires
                0 <= x1 < width,
                0 <= x2 < width,
                0 <= y1,
                0 <= y2,
                y1 * width + x1 == y2 * width + x2,
        ;
    }
}

} // verus!
