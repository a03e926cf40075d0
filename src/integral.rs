use vstd::prelude::*;
use crate::image::GrayImage;

verus! {

/// Largest pixel count accepted by the summed-area table; keeps every sum
/// (at most 255 per pixel) far inside `u64`.
pub const MAX_PIXELS: usize = 67108864;

/// Sum of the first `n` samples of row `y`.
pub open spec fn row_sum(img: GrayImage, y: int, n: int) -> int
    decreases n,
{
    if n <= 0 { 0 } else { row_sum(img, y, n - 1) + img.px(n - 1, y) }
}

/// Sum of all samples with column `< w` and row `< h`.
pub open spec fn area(img: GrayImage, w: int, h: int) -> int
    decreases h,
{
    if h <= 0 { 0 } else { area(img, w, h - 1) + row_sum(img, h - 1, w) }
}

/// Sum of the square of radius `r` centred on `(cx, cy)`.
pub open spec fn box_sum(img: GrayImage, cx: int, cy: int, r: int) -> int {
    area(img, cx + r + 1, cy + r + 1) - area(img, cx - r, cy + r + 1)
        - area(img, cx + r + 1, cy - r) + area(img, cx - r, cy - r)
}

/// A summed-area table: `rows[y][x]` is the sum of every source sample
/// whose column is at most `x` and whose row is at most `y`.
pub struct IntegralImage {
    pub width: usize,
    pub height: usize,
    pub rows: Vec<Vec<u64>>,
}

impl IntegralImage {
    pub open spec fn wf(&self) -> bool {
        &&& self.rows@.len() == self.height as int
        &&& forall|y: int| 0 <= y < self.height ==> #[trigger] self.rows@[y]@.len() == self.width as int
    }

    pub open spec fn at(&self, x: int, y: int) -> int {
        self.rows@[y]@[x] as int
    }

    /// This table is the summed-area table of `img`.
    pub open spec fn is_table_of(&self, img: GrayImage) -> bool {
        &&& self.wf()
        &&& self.width == img.width
        &&& self.height == img.height
        &&& forall|x: int, y: int| 0 <= x < self.width && 0 <= y < self.height
            ==> #[trigger] self.at(x, y) == area(img, x + 1, y + 1)
    }

    /// Reads the table at column `x`, row `y`.
    pub fn get(&self, x: usize, y: usize) -> (r: u64)
        requires
            self.wf(),
            x < self.width,
            y < self.height,
        ensures
            r as int == self.at(x as int, y as int),
    {
        self.rows[y][x]
    }
}

pub proof fn lemma_row_sum_bounds(img: GrayImage, y: int, n: int)
    requires
        img.wf(),
        0 <= y < img.height,
        0 <= n <= img.width,
    ensures
        0 <= row_sum(img, y, n) <= 255 * n,
    decreases n,
{
    if n > 0 {
        lemma_row_sum_bounds(img, y, n - 1);
    }
}

pub proof fn lemma_area_bounds(img: GrayImage, w: int, h: int)
    requires
        img.wf(),
        0 <= w <= img.width,
        0 <= h <= img.height,
    ensures
        0 <= area(img, w, h) <= 255 * w * h,
    decreases h,
{
    if h > 0 {
        lemma_area_bounds(img, w, h - 1);
        lemma_row_sum_bounds(img, h - 1, w);
        assert(255 * w * (h - 1) + 255 * w == 255 * w * h) by (nonlinear_arith);
    }
}

/// Any partial area of an image within the pixel bound fits far inside `u64`.
pub proof fn lemma_area_cap(img: GrayImage, w: int, h: int)
    requires
        img.wf(),
        img.width * img.height <= MAX_PIXELS,
        0 <= w <= img.width,
        0 <= h <= img.height,
    ensures
        0 <= area(img, w, h) <= 255 * MAX_PIXELS,
{
    lemma_area_bounds(img, w, h);
    let iw = img.width as int;
    let ih = img.height as int;
    assert(255 * w * h <= 255 * MAX_PIXELS) by (nonlinear_arith)
        requires 0 <= w <= iw, 0 <= h <= ih, iw * ih <= MAX_PIXELS;
}

/// Summed-area table of `img`, built row by row from running row sums.
pub fn build_integral(img: &GrayImage) -> (r: IntegralImage)
    requires
        img.wf(),
        img.width * img.height <= MAX_PIXELS,
    ensures
        r.is_table_of(*img),
{
    let w = img.width;
    let h = img.height;
    let mut rows: Vec<Vec<u64>> = Vec::new();
    let mut y: usize = 0;
    while y < h
        invariant
            img.wf(),
            w == img.width,
            h == img.height,
            w * h <= MAX_PIXELS,
            y <= h,
            rows@.len() == y as int,
            forall|j: int| 0 <= j < y ==> #[trigger] rows@[j]@.len() == w as int,
            forall|i: int, j: int| 0 <= i < w && 0 <= j < y
                ==> #[trigger] rows@[j]@[i] as int == area(*img, i + 1, j + 1),
        decreases h - y,
    {
        let mut row: Vec<u64> = Vec::new();
        let mut running: u64 = 0;
        let mut x: usize = 0;
        while x < w
            invariant
                img.wf(),
                w == img.width,
                h == img.height,
                w * h <= MAX_PIXELS,
                y < h,
                x <= w,
                rows@.len() == y as int,
                forall|j: int| 0 <= j < y ==> #[trigger] rows@[j]@.len() == w as int,
                forall|i: int, j: int| 0 <= i < w && 0 <= j < y
                    ==> #[trigger] rows@[j]@[i] as int == area(*img, i + 1, j + 1),
                running as int == row_sum(*img, y as int, x as int),
                row@.len() == x as int,
                forall|i: int| 0 <= i < x ==> #[trigger] row@[i] as int == area(*img, i + 1, y + 1),
            decreases w - x,
        {
            proof {
                lemma_row_sum_bounds(*img, y as int, x as int + 1);
                lemma_area_bounds(*img, x as int + 1, y as int + 1);
                assert(255 * (x + 1) * (y + 1) <= 255 * w * h) by (nonlinear_arith)
                    requires x < w, y < h;
                assert(255 * (x + 1) <= 255 * w * h) by (nonlinear_arith)
                    requires x < w, y < h;
                assert(255 * w * h <= 255 * MAX_PIXELS) by (nonlinear_arith)
                    requires w * h <= MAX_PIXELS;
                assert(area(*img, x + 1, y + 1) == area(*img, x + 1, y as int) + row_sum(*img, y as int, x + 1));
                assert(row_sum(*img, y as int, x + 1) == running + img.px(x as int, y as int));
                if y > 0 {
                    assert(rows@[y - 1]@[x as int] as int == area(*img, x + 1, y as int));
                }
            }
            running = running + img.get(x, y) as u64;
            let above: u64 = if y == 0 { 0 } else { rows[y - 1][x] };
            row.push(above + running);
            x = x + 1;
        }
        rows.push(row);
        y = y + 1;
    }
    IntegralImage { width: w, height: h, rows }
}

} // verus!
