//! The canvas: a raster of packed colours.
//!
//! A pixel is a `u32` that holds red, green and blue in its three low bytes.
//! The pixels of an image stand row after row; the pixel in column `i` of row
//! `j` is number `i + j * width`.

use crate::vec2::Vec2;
use vstd::prelude::*;

verus! {

/// A colour of eight bits each of red, green and blue.
#[derive(Copy, Clone, Debug)]
pub struct Color {
    pub r: u8,
    pub g: u8,
    pub b: u8,
}

impl Color {
    pub fn new(r: u8, g: u8, b: u8) -> (color: Self)
        ensures
            color.r == r,
            color.g == g,
            color.b == b,
    {
        Color { r, g, b }
    }

    /// The colour as a pixel: red in the third byte from the bottom, green in
    /// the second, blue in the lowest, and nothing in the top byte.
    pub open spec fn packed(self) -> u32 {
        (self.r * 0x1_0000 + self.g * 0x100 + self.b) as u32
    }

    /// The colour of a pixel. The top byte of the pixel does not count.
    pub open spec fn unpacked(pixel: u32) -> Color {
        Color {
            r: ((pixel / 0x1_0000) % 0x100) as u8,
            g: ((pixel / 0x100) % 0x100) as u8,
            b: (pixel % 0x100) as u8,
        }
    }

    /// A colour comes back unchanged from the pixel it was packed into.
    pub proof fn lemma_unpack_packed(self)
        ensures
            Color::unpacked(self.packed()) == self,
    {
    }

    /// A pixel comes back from its colour without its top byte.
    pub proof fn lemma_pack_unpacked(pixel: u32)
        ensures
            Color::unpacked(pixel).packed() == pixel % 0x100_0000,
    {
    }
}

impl From<Color> for u32 {
    fn from(color: Color) -> (pixel: u32) {
        let r = color.r as u32;
        let g = color.g as u32;
        let b = color.b as u32;
        assert((r << 16) | (g << 8) | b == r * 0x1_0000 + g * 0x100 + b) by (bit_vector)
            requires
                r < 0x100,
                g < 0x100,
                b < 0x100,
        ;
        (r << 16) | (g << 8) | b
    }
}

impl vstd::std_specs::convert::FromSpecImpl<Color> for u32 {
    open spec fn obeys_from_spec() -> bool {
        true
    }

    open spec fn from_spec(color: Color) -> u32 {
        color.packed()
    }
}

impl From<u32> for Color {
    fn from(pixel: u32) -> (color: Color) {
        assert((pixel >> 16) & 0xff == (pixel / 0x1_0000) % 0x100) by (bit_vector);
        assert((pixel >> 8) & 0xff == (pixel / 0x100) % 0x100) by (bit_vector);
        assert(pixel & 0xff == pixel % 0x100) by (bit_vector);
        Color {
            r: ((pixel >> 16) & 0xff) as u8,
            g: ((pixel >> 8) & 0xff) as u8,
            b: (pixel & 0xff) as u8,
        }
    }
}

impl vstd::std_specs::convert::FromSpecImpl<u32> for Color {
    open spec fn obeys_from_spec() -> bool {
        true
    }

    open spec fn from_spec(pixel: u32) -> Color {
        Color::unpacked(pixel)
    }
}

/// The number of the pixel in column `i` of row `j`.
pub open spec fn pixel_at(width: int, i: int, j: int) -> int {
    i + j * width
}

/// Pixel number `k` is one of those in the columns from `x0` up to, not
/// including, `x1` of the rows from `y0` up to, not including, `y1`. A column
/// beyond the width of the image is the column that many pixels further on
/// in the row below.
pub open spec fn covered(width: int, x0: int, x1: int, y0: int, y1: int, k: int) -> bool {
    exists|i: int, j: int| x0 <= i < x1 && y0 <= j < y1 && k == #[trigger] pixel_at(width, i, j)
}

proof fn lemma_covered_next_row(width: int, x: int, y0: int, y: int, k: int)
    requires
        y0 <= y,
    ensures
        covered(width, x, x + 1, y0, y + 1, k) <==> covered(width, x, x + 1, y0, y, k) || k
            == pixel_at(width, x, y),
{
    if covered(width, x, x + 1, y0, y + 1, k) {
        let (i, j) = choose|i: int, j: int|
            x <= i < x + 1 && y0 <= j < y + 1 && k == #[trigger] pixel_at(width, i, j);
        if j < y {
            assert(x <= i < x + 1 && y0 <= j < y && k == pixel_at(width, i, j));
        }
    }
    if covered(width, x, x + 1, y0, y, k) {
        let (i, j) = choose|i: int, j: int|
            x <= i < x + 1 && y0 <= j < y && k == #[trigger] pixel_at(width, i, j);
        assert(x <= i < x + 1 && y0 <= j < y + 1 && k == pixel_at(width, i, j));
    }
    if k == pixel_at(width, x, y) {
        assert(x <= x < x + 1 && y0 <= y < y + 1 && k == pixel_at(width, x, y));
    }
}

proof fn lemma_covered_next_column(width: int, x0: int, x: int, y0: int, y1: int, k: int)
    requires
        x0 <= x,
    ensures
        covered(width, x0, x + 1, y0, y1, k) <==> covered(width, x0, x, y0, y1, k) || covered(
            width,
            x,
            x + 1,
            y0,
            y1,
            k,
        ),
{
    if covered(width, x0, x + 1, y0, y1, k) {
        let (i, j) = choose|i: int, j: int|
            x0 <= i < x + 1 && y0 <= j < y1 && k == #[trigger] pixel_at(width, i, j);
        if i < x {
            assert(x0 <= i < x && y0 <= j < y1 && k == pixel_at(width, i, j));
        } else {
            assert(x <= i < x + 1 && y0 <= j < y1 && k == pixel_at(width, i, j));
        }
    }
    if covered(width, x0, x, y0, y1, k) {
        let (i, j) = choose|i: int, j: int|
            x0 <= i < x && y0 <= j < y1 && k == #[trigger] pixel_at(width, i, j);
        assert(x0 <= i < x + 1 && y0 <= j < y1 && k == pixel_at(width, i, j));
    }
    if covered(width, x, x + 1, y0, y1, k) {
        let (i, j) = choose|i: int, j: int|
            x <= i < x + 1 && y0 <= j < y1 && k == #[trigger] pixel_at(width, i, j);
        assert(x0 <= i < x + 1 && y0 <= j < y1 && k == pixel_at(width, i, j));
    }
}

/// No pixel of a rectangle has a higher number than the one in its last
/// column and last row.
proof fn lemma_pixel_at_most(width: int, i: int, j: int, x: int, y: int)
    requires
        0 <= width,
        0 <= i <= x,
        0 <= j <= y,
    ensures
        0 <= j * width <= pixel_at(width, i, j) <= pixel_at(width, x, y),
{
    assert(0 <= j * width <= y * width) by (nonlinear_arith)
        requires
            0 <= width,
            0 <= j <= y,
    ;
}

/// A raster image.
pub struct Image {
    width: u32,
    height: u32,
    data: Vec<u32>,
}

impl View for Image {
    type V = Seq<u32>;

    /// The pixels, row after row.
    closed spec fn view(&self) -> Seq<u32> {
        self.data@
    }
}

impl Image {
    /// The number of pixels in a row.
    pub closed spec fn spec_width(&self) -> u32 {
        self.width
    }

    /// The number of rows.
    pub closed spec fn spec_height(&self) -> u32 {
        self.height
    }

    /// The image has as many pixels as its width and height say.
    pub open spec fn wf(&self) -> bool {
        self@.len() == self.spec_width() * self.spec_height()
    }

    /// A rectangle at `pos` of the extent `dim` can be drawn: its right edge
    /// is a number that a `u32` holds, and, if it has pixels at all, the last
    /// of them is a pixel of the image.
    pub open spec fn spec_rect_fits(&self, pos: Vec2<u32>, dim: Vec2<u32>) -> bool {
        &&& pos.x + dim.x <= u32::MAX
        &&& dim.x > 0 && dim.y > 0 ==> pixel_at(
            self.spec_width() as int,
            pos.x + dim.x - 1,
            pos.y + dim.y - 1,
        ) < self@.len()
    }

    /// An image of one colour, or of zeros where no colour is given.
    pub fn new(width: u32, height: u32, fill: Option<Color>) -> (image: Self)
        requires
            width * height <= usize::MAX,
        ensures
            image.wf(),
            image.spec_width() == width,
            image.spec_height() == height,
            image@ == Seq::new(
                (width * height) as nat,
                |k: int|
                    match fill {
                        Some(color) => color.packed(),
                        None => 0u32,
                    },
            ),
    {
        assert(width * height == (width as usize) * (height as usize));
        let size = width as usize * height as usize;
        let pixel: u32 = match fill {
            None => 0,
            Some(color) => u32::from(color),
        };
        let data = vec![pixel; size];
        let image = Image { width, height, data };
        assert(image@ =~= Seq::new((width * height) as nat, |k: int| pixel));
        image
    }

    /// The pixels, row after row.
    pub fn data(&self) -> (pixels: &[u32])
        ensures
            pixels@ == self@,
    {
        self.data.as_slice()
    }

    /// The pixels, row after row, to be written to. The image keeps its width
    /// and height, and holds what the caller leaves in the slice.
    pub fn data_mut(&mut self) -> (pixels: &mut [u32])
        ensures
            pixels@ == old(self)@,
            final(self)@ == final(pixels)@,
            final(self).spec_width() == old(self).spec_width(),
            final(self).spec_height() == old(self).spec_height(),
    {
        self.data.as_mut_slice()
    }

    /// The number of pixels in a row.
    #[verifier::when_used_as_spec(spec_width)]
    pub fn width(&self) -> (width: u32)
        ensures
            width == self.spec_width(),
    {
        self.width
    }

    /// The number of rows.
    #[verifier::when_used_as_spec(spec_height)]
    pub fn height(&self) -> (height: u32)
        ensures
            height == self.spec_height(),
    {
        self.height
    }

    /// Gives every pixel the colour `clr`.
    pub fn fill(&mut self, clr: Color)
        ensures
            final(self)@ == Seq::new(old(self)@.len(), |k: int| clr.packed()),
            final(self).spec_width() == old(self).spec_width(),
            final(self).spec_height() == old(self).spec_height(),
    {
        let pixel = u32::from(clr);
        let n = self.data.len();
        let mut k: usize = 0;
        while k < n
            invariant
                n == self.data@.len(),
                n == old(self).data@.len(),
                self.width == old(self).width,
                self.height == old(self).height,
                k <= n,
                forall|m: int| 0 <= m < k ==> self.data@[m] == pixel,
            decreases n - k,
        {
            self.data[k] = pixel;
            k += 1;
        }
        assert(self@ =~= Seq::new(old(self)@.len(), |k: int| clr.packed()));
    }

    /// Whether a rectangle at `pos` of the extent `dim` can be drawn.
    #[verifier::when_used_as_spec(spec_rect_fits)]
    pub fn rect_fits(&self, pos: Vec2<u32>, dim: Vec2<u32>) -> (fits: bool)
        ensures
            fits == self.spec_rect_fits(pos, dim),
    {
        if pos.x as u64 + dim.x as u64 > u32::MAX as u64 {
            return false;
        }
        if dim.x == 0 || dim.y == 0 {
            return true;
        }
        let last_column = pos.x as u128 + dim.x as u128 - 1;
        let last_row = pos.y as u128 + dim.y as u128 - 1;
        assert(last_row * self.width <= 0x2_0000_0000 * 0x1_0000_0000) by (nonlinear_arith)
            requires
                0 <= last_row <= 0x2_0000_0000,
                0 <= self.width <= 0x1_0000_0000,
        ;
        last_column + last_row * (self.width as u128) < self.data.len() as u128
    }

    /// Gives the colour `clr` to the pixels in the `dim.x` columns from
    /// `pos.x` on of the `dim.y` rows from `pos.y` on, and leaves the others
    /// as they are.
    pub fn rect(&mut self, pos: Vec2<u32>, dim: Vec2<u32>, clr: Color)
        requires
            old(self).wf(),
            old(self).spec_rect_fits(pos, dim),
        ensures
            final(self).wf(),
            final(self).spec_width() == old(self).spec_width(),
            final(self).spec_height() == old(self).spec_height(),
            final(self)@.len() == old(self)@.len(),
            forall|k: int|
                0 <= k < old(self)@.len() ==> #[trigger] final(self)@[k] == if covered(
                    old(self).spec_width() as int,
                    pos.x as int,
                    pos.x + dim.x,
                    pos.y as int,
                    pos.y + dim.y,
                    k,
                ) {
                    clr.packed()
                } else {
                    old(self)@[k]
                },
    {
        let pixel = u32::from(clr);
        let width = self.width as usize;
        let count = self.data.len();
        let x_start = pos.x as usize;
        let x_end = (pos.x + dim.x) as usize;
        let y_start = pos.y as usize;
        let ghost y_end: int = pos.y + dim.y;
        let ghost w: int = self.width as int;
        let mut idx = x_start;
        assert forall|k: int| !#[trigger] covered(w, x_start as int, idx as int, y_start as int, y_end, k) by {
        }
        while idx < x_end
            invariant
                x_start <= idx <= x_end,
                x_start == pos.x,
                x_end == pos.x + dim.x,
                y_start == pos.y,
                y_end == pos.y + dim.y,
                width == self.width,
                w == width,
                pixel == clr.packed(),
                old(self).wf(),
                old(self).spec_rect_fits(pos, dim),
                self.width == old(self).width,
                self.height == old(self).height,
                self.data@.len() == old(self).data@.len(),
                self.data@.len() == count,
                forall|k: int|
                    0 <= k < self.data@.len() ==> #[trigger] self.data@[k] == if covered(
                        w,
                        x_start as int,
                        idx as int,
                        y_start as int,
                        y_end,
                        k,
                    ) {
                        pixel
                    } else {
                        old(self).data@[k]
                    },
            decreases x_end - idx,
        {
            if dim.y > 0 {
                proof {
                    lemma_pixel_at_most(w, idx as int, y_end - 1, x_end - 1, y_end - 1);
                    let ghost len: int = count as int;
                    let ghost h: int = self.height as int;
                    assert(w > 0) by (nonlinear_arith)
                        requires
                            len == w * h,
                            len > 0,
                            w >= 0,
                    ;
                    assert((y_end - 1) * w >= y_end - 1) by (nonlinear_arith)
                        requires
                            0 < w,
                            0 <= y_end - 1,
                    ;
                }
                let y_stop = y_start + dim.y as usize;
                let mut idy = y_start;
                assert forall|k: int|
                    !#[trigger] covered(w, idx as int, idx + 1, y_start as int, idy as int, k) by {
                }
                while idy < y_stop
                    invariant
                        x_start <= idx < x_end,
                        y_start <= idy <= y_stop,
                        y_stop == y_end,
                        x_start == pos.x,
                        x_end == pos.x + dim.x,
                        y_start == pos.y,
                        y_end == pos.y + dim.y,
                        dim.y > 0,
                        width == self.width,
                        w == width,
                        pixel == clr.packed(),
                        old(self).wf(),
                        old(self).spec_rect_fits(pos, dim),
                        self.width == old(self).width,
                        self.height == old(self).height,
                        self.data@.len() == old(self).data@.len(),
                        self.data@.len() == count,
                        forall|k: int|
                            0 <= k < self.data@.len() ==> #[trigger] self.data@[k] == if covered(
                                w,
                                x_start as int,
                                idx as int,
                                y_start as int,
                                y_end,
                                k,
                            ) || covered(w, idx as int, idx + 1, y_start as int, idy as int, k) {
                                pixel
                            } else {
                                old(self).data@[k]
                            },
                    decreases y_stop - idy,
                {
                    proof {
                        lemma_pixel_at_most(w, idx as int, idy as int, x_end - 1, y_end - 1);
                    }
                    let data_idx = idx + idy * width;
                    let ghost before = self.data@;
                    self.data[data_idx] = pixel;
                    assert forall|k: int| 0 <= k < self.data@.len() implies #[trigger] self.data@[k]
                        == if covered(w, x_start as int, idx as int, y_start as int, y_end, k)
                        || covered(w, idx as int, idx + 1, y_start as int, idy + 1, k) {
                        pixel
                    } else {
                        old(self).data@[k]
                    } by {
                        lemma_covered_next_row(w, idx as int, y_start as int, idy as int, k);
                        assert(before[k] == if covered(
                            w,
                            x_start as int,
                            idx as int,
                            y_start as int,
                            y_end,
                            k,
                        ) || covered(w, idx as int, idx + 1, y_start as int, idy as int, k) {
                            pixel
                        } else {
                            old(self).data@[k]
                        });
                    }
                    idy += 1;
                }
            } else {
                assert forall|k: int|
                    !#[trigger] covered(w, idx as int, idx + 1, y_start as int, y_end, k) by {
                }
            }
            assert forall|k: int| 0 <= k < self.data@.len() implies #[trigger] self.data@[k]
                == if covered(w, x_start as int, idx + 1, y_start as int, y_end, k) {
                pixel
            } else {
                old(self).data@[k]
            } by {
                lemma_covered_next_column(w, x_start as int, idx as int, y_start as int, y_end, k);
            }
            idx += 1;
        }
    }
}

} // verus!
