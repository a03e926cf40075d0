use vstd::prelude::*;

verus! {

/// A single-channel 8-bit image stored row by row.
pub struct GrayImage {
    pub width: usize,
    pub height: usize,
    pub rows: Vec<Vec<u8>>,
}

impl GrayImage {
    /// Every row holds exactly `width` samples and there are `height` rows.
    pub open spec fn wf(&self) -> bool {
        &&& self.rows@.len() == self.height as int
        &&& forall|y: int| 0 <= y < self.height ==> #[trigger] self.rows@[y]@.len() == self.width as int
    }

    /// The sample at column `x`, row `y`.
    pub open spec fn px(&self, x: int, y: int) -> int {
        self.rows@[y]@[x] as int
    }

    /// An image of the given size where every sample is `value`.
    pub fn filled(width: usize, height: usize, value: u8) -> (r: GrayImage)
        ensures
            r.wf(),
            r.width == width,
            r.height == height,
            forall|x: int, y: int| 0 <= x < width && 0 <= y < height ==> #[trigger] r.px(x, y) == value as int,
    {
        let mut rows: Vec<Vec<u8>> = Vec::new();
        let mut y: usize = 0;
        while y < height
            invariant
                y <= height,
                rows@.len() == y as int,
                forall|j: int| 0 <= j < y ==> #[trigger] rows@[j]@.len() == width as int,
                forall|i: int, j: int| 0 <= i < width && 0 <= j < y ==> #[trigger] rows@[j]@[i] == value,
            decreases height - y,
        {
            let mut row: Vec<u8> = Vec::new();
            let mut x: usize = 0;
            while x < width
                invariant
                    x <= width,
                    row@.len() == x as int,
                    forall|i: int| 0 <= i < x ==> #[trigger] row@[i] == value,
                decreases width - x,
            {
                row.push(value);
                x = x + 1;
            }
            rows.push(row);
            y = y + 1;
        }
        GrayImage { width, height, rows }
    }

    /// Reads the sample at column `x`, row `y`.
    pub fn get(&self, x: usize, y: usize) -> (r: u8)
        requires
            self.wf(),
            x < self.width,
            y < self.height,
        ensures
            r as int == self.px(x as int, y as int),
    {
        self.rows[y][x]
    }

    /// Overwrites the sample at column `x`, row `y`; every other sample is kept.
    pub fn set(&mut self, x: usize, y: usize, value: u8)
        requires
            old(self).wf(),
            x < old(self).width,
            y < old(self).height,
        ensures
            final(self).wf(),
            final(self).width == old(self).width,
            final(self).height == old(self).height,
            final(self).px(x as int, y as int) == value as int,
            forall|i: int, j: int|
                0 <= i < old(self).width && 0 <= j < old(self).height && !(i == x && j == y)
                    ==> #[trigger] final(self).px(i, j) == old(self).px(i, j),
    {
        let mut row = self.rows[y].clone();
        row.set(x, value);
        self.rows.set(y, row);
    }
}

/// Luminance of one RGB sample with integer BT.601-like weights summing to 256.
pub open spec fn luma(r: int, g: int, b: int) -> int {
    (77 * r + 150 * g + 29 * b) / 256
}

/// Converts a tightly packed RGBA buffer (four bytes per pixel, row by row)
/// into a grayscale image; the alpha byte is ignored.
pub fn rgba_to_gray(width: usize, height: usize, rgba: &Vec<u8>) -> (r: GrayImage)
    requires
        rgba@.len() == 4 * width * height,
    ensures
        is_gray_of(r, width as int, height as int, rgba@),
{
    let mut rows: Vec<Vec<u8>> = Vec::new();
    let mut y: usize = 0;
    while y < height
        invariant
            y <= height,
            rgba@.len() == 4 * width * height,
            rows@.len() == y as int,
            forall|j: int| 0 <= j < y ==> #[trigger] rows@[j]@.len() == width as int,
            forall|i: int, j: int| 0 <= i < width && 0 <= j < y ==> #[trigger] rows@[j]@[i] as int == luma(
                rgba@[4 * (j * width + i)] as int,
                rgba@[4 * (j * width + i) + 1] as int,
                rgba@[4 * (j * width + i) + 2] as int,
            ),
        decreases height - y,
    {
        let mut row: Vec<u8> = Vec::new();
        let mut x: usize = 0;
        while x < width
            invariant
                x <= width,
                y < height,
                rgba@.len() == 4 * width * height,
                row@.len() == x as int,
                forall|i: int| 0 <= i < x ==> #[trigger] row@[i] as int == luma(
                    rgba@[4 * (y * width + i)] as int,
                    rgba@[4 * (y * width + i) + 1] as int,
                    rgba@[4 * (y * width + i) + 2] as int,
                ),
            decreases width - x,
        {
            assert(4 * (y * width + x) + 3 < rgba@.len()) by (nonlinear_arith)
                requires x < width, y < height, rgba@.len() == 4 * width * height;
            let len = rgba.len();
            let k: usize = 4 * (y * width + x);
            let red = rgba[k] as u32;
            let green = rgba[k + 1] as u32;
            let blue = rgba[k + 2] as u32;
            let v = ((77 * red + 150 * green + 29 * blue) / 256) as u8;
            row.push(v);
            x = x + 1;
        }
        rows.push(row);
        y = y + 1;
    }
    GrayImage { width, height, rows }
}

/// Index `i` clamped into `[0, n)`.
pub open spec fn clamp_index(i: int, n: int) -> int {
    if i < 0 { 0 } else if i >= n { n - 1 } else { i }
}

/// One tap of the `[1, 2, 1] / 4` kernel, rounded to nearest.
pub open spec fn tap3(a: int, b: int, c: int) -> int {
    (a + 2 * b + c + 2) / 4
}

/// The horizontal pass of the smoothing kernel at `(x, y)`, edges clamped.
pub open spec fn blur_x_at(img: GrayImage, x: int, y: int) -> int {
    tap3(
        img.px(clamp_index(x - 1, img.width as int), y),
        img.px(x, y),
        img.px(clamp_index(x + 1, img.width as int), y),
    )
}

/// The vertical pass of the smoothing kernel at `(x, y)`, edges clamped.
pub open spec fn blur_y_at(img: GrayImage, x: int, y: int) -> int {
    tap3(
        img.px(x, clamp_index(y - 1, img.height as int)),
        img.px(x, y),
        img.px(x, clamp_index(y + 1, img.height as int)),
    )
}

fn tap3_exec(a: u8, b: u8, c: u8) -> (r: u8)
    ensures
        r as int == tap3(a as int, b as int, c as int),
{
    ((a as u16 + 2 * b as u16 + c as u16 + 2) / 4) as u8
}

/// Horizontal pass: every sample becomes the `[1, 2, 1] / 4` average of
/// itself and its left and right neighbours (clamped at the edges).
pub fn blur_x(img: &GrayImage) -> (r: GrayImage)
    requires
        img.wf(),
    ensures
        r.wf(),
        r.width == img.width,
        r.height == img.height,
        forall|x: int, y: int| 0 <= x < img.width && 0 <= y < img.height
            ==> #[trigger] r.px(x, y) == blur_x_at(*img, x, y),
{
    let w = img.width;
    let h = img.height;
    let mut rows: Vec<Vec<u8>> = Vec::new();
    let mut y: usize = 0;
    while y < h
        invariant
            img.wf(),
            w == img.width,
            h == img.height,
            y <= h,
            rows@.len() == y as int,
            forall|j: int| 0 <= j < y ==> #[trigger] rows@[j]@.len() == w as int,
            forall|i: int, j: int| 0 <= i < w && 0 <= j < y ==> #[trigger] rows@[j]@[i] as int == blur_x_at(*img, i, j),
        decreases h - y,
    {
        let mut row: Vec<u8> = Vec::new();
        let mut x: usize = 0;
        while x < w
            invariant
                img.wf(),
                w == img.width,
                h == img.height,
                y < h,
                x <= w,
                row@.len() == x as int,
                forall|i: int| 0 <= i < x ==> #[trigger] row@[i] as int == blur_x_at(*img, i, y as int),
            decreases w - x,
        {
            let left = if x == 0 { 0 } else { x - 1 };
            let right = if x + 1 >= w { w - 1 } else { x + 1 };
            let v = tap3_exec(img.get(left, y), img.get(x, y), img.get(right, y));
            row.push(v);
            x = x + 1;
        }
        rows.push(row);
        y = y + 1;
    }
    GrayImage { width: w, height: h, rows }
}

/// Vertical pass: every sample becomes the `[1, 2, 1] / 4` average of
/// itself and its upper and lower neighbours (clamped at the edges).
pub fn blur_y(img: &GrayImage) -> (r: GrayImage)
    requires
        img.wf(),
    ensures
        r.wf(),
        r.width == img.width,
        r.height == img.height,
        forall|x: int, y: int| 0 <= x < img.width && 0 <= y < img.height
            ==> #[trigger] r.px(x, y) == blur_y_at(*img, x, y),
{
    let w = img.width;
    let h = img.height;
    let mut rows: Vec<Vec<u8>> = Vec::new();
    let mut y: usize = 0;
    while y < h
        invariant
            img.wf(),
            w == img.width,
            h == img.height,
            y <= h,
            rows@.len() == y as int,
            forall|j: int| 0 <= j < y ==> #[trigger] rows@[j]@.len() == w as int,
            forall|i: int, j: int| 0 <= i < w && 0 <= j < y ==> #[trigger] rows@[j]@[i] as int == blur_y_at(*img, i, j),
        decreases h - y,
    {
        let up = if y == 0 { 0 } else { y - 1 };
        let down = if y + 1 >= h { h - 1 } else { y + 1 };
        let mut row: Vec<u8> = Vec::new();
        let mut x: usize = 0;
        while x < w
            invariant
                img.wf(),
                w == img.width,
                h == img.height,
                y < h,
                up as int == clamp_index(y - 1, h as int),
                down as int == clamp_index(y + 1, h as int),
                x <= w,
                row@.len() == x as int,
                forall|i: int| 0 <= i < x ==> #[trigger] row@[i] as int == blur_y_at(*img, i, y as int),
            decreases w - x,
        {
            let v = tap3_exec(img.get(x, up), img.get(x, y), img.get(x, down));
            row.push(v);
            x = x + 1;
        }
        rows.push(row);
        y = y + 1;
    }
    GrayImage { width: w, height: h, rows }
}

/// `r` is `img` smoothed by the horizontal pass followed by the vertical pass.
pub open spec fn is_blur_of(r: GrayImage, img: GrayImage) -> bool {
    &&& r.wf()
    &&& r.width == img.width
    &&& r.height == img.height
    &&& exists|mid: GrayImage| {
        &&& mid.wf()
        &&& mid.width == img.width
        &&& mid.height == img.height
        &&& forall|x: int, y: int| 0 <= x < img.width && 0 <= y < img.height
            ==> #[trigger] mid.px(x, y) == blur_x_at(img, x, y)
        &&& forall|x: int, y: int| 0 <= x < img.width && 0 <= y < img.height
            ==> #[trigger] r.px(x, y) == blur_y_at(mid, x, y)
    }
}

/// `g` is the grayscale image of the packed RGBA buffer `rgba`.
pub open spec fn is_gray_of(g: GrayImage, width: int, height: int, rgba: Seq<u8>) -> bool {
    &&& g.wf()
    &&& g.width == width
    &&& g.height == height
    &&& forall|x: int, y: int| 0 <= x < width && 0 <= y < height ==> #[trigger] g.px(x, y) == luma(
        rgba[4 * (y * width + x)] as int,
        rgba[4 * (y * width + x) + 1] as int,
        rgba[4 * (y * width + x) + 2] as int,
    )
}

/// The smoothing stage: the horizontal pass followed by the vertical pass.
pub fn blur(img: &GrayImage) -> (r: GrayImage)
    requires
        img.wf(),
    ensures
        is_blur_of(r, *img),
{
    let mid = blur_x(img);
    blur_y(&mid)
}

} // verus!
