use vstd::prelude::*;
use crate::image::GrayImage;
use crate::integral::{IntegralImage, MAX_PIXELS, box_sum, lemma_area_cap};
use crate::corners::Keypoint;
use vstd::arithmetic::div_mod::lemma_fundamental_div_mod;

verus! {

/// Number of comparison bits in a descriptor.
pub const DESC_BITS: usize = 256;

/// Number of 64-bit words a descriptor is packed into.
pub const DESC_WORDS: usize = 4;

/// Largest offset of a sample centre from the keypoint, per axis.
pub const PATCH_RADIUS: usize = 8;

/// Half-width of the box averaged around each sample centre.
pub const BOX_RADIUS: usize = 2;

/// Keypoints closer than this to any border are not described.
pub const DESC_MARGIN: usize = 11;

/// Coordinate `c` (0..4: first x, first y, second x, second y) of comparison
/// pair `i`, shifted by `PATCH_RADIUS` into `0..=16`. The pattern is a fixed
/// modular scramble of the pair index, the same for every keypoint.
pub open spec fn pattern(i: int, c: int) -> int {
    if c == 0 { (i * 37 + 5) % 17 }
    else if c == 1 { (i * 59 + 11) % 17 }
    else if c == 2 { (i * 73 + 3) % 17 }
    else { (i * 97 + 13) % 17 }
}

/// The sampling pattern around `(x, y)` stays inside the image.
pub open spec fn describable(img: GrayImage, x: int, y: int) -> bool {
    DESC_MARGIN <= x && x + DESC_MARGIN < img.width && DESC_MARGIN <= y && y + DESC_MARGIN < img.height
}

/// Bit `i` of the descriptor at `(x, y)`: the box around the first sample
/// of pair `i` is brighter than the box around the second.
pub open spec fn brief_bit(img: GrayImage, x: int, y: int, i: int) -> bool {
    box_sum(img, x + pattern(i, 0) - 8, y + pattern(i, 1) - 8, 2)
        > box_sum(img, x + pattern(i, 2) - 8, y + pattern(i, 3) - 8, 2)
}

pub open spec fn brief_bits(img: GrayImage, x: int, y: int) -> Seq<bool> {
    Seq::new(DESC_BITS as nat, |i: int| brief_bit(img, x, y, i))
}

/// Bit `j` (least significant first) of `w`.
pub open spec fn word_bit(w: u64, j: int) -> bool {
    (w >> (j as u64)) & 1 == 1
}

/// The descriptor bits held by packed words: bit `i` is bit `i % 64` of word `i / 64`.
pub open spec fn unpack(words: Seq<u64>) -> Seq<bool> {
    Seq::new(DESC_BITS as nat, |i: int| word_bit(words[i / 64], i % 64))
}

/// A binary descriptor, packed 64 bits to a word. An invalid one (keypoint
/// too near the border) has every bit clear and takes no part in matching.
#[derive(Clone, Debug)]
pub struct Descriptor {
    pub valid: bool,
    pub words: Vec<u64>,
}

impl Descriptor {
    pub open spec fn bit_seq(&self) -> Seq<bool> {
        unpack(self.words@)
    }

    pub open spec fn view(&self) -> (bool, Seq<bool>) {
        (self.valid, self.bit_seq())
    }

    pub open spec fn wf(&self) -> bool {
        self.words@.len() == DESC_WORDS
    }

    /// Bit `i` of the descriptor.
    pub fn bit(&self, i: usize) -> (r: bool)
        requires
            self.wf(),
            i < DESC_BITS,
        ensures
            r == self.bit_seq()[i as int],
    {
        (self.words[i / 64] >> ((i % 64) as u64)) & 1 == 1
    }

    /// An independent copy with the same validity and bits.
    pub fn duplicate(&self) -> (r: Descriptor)
        ensures
            r@ == self@,
            r.words@ == self.words@,
    {
        let mut words: Vec<u64> = Vec::new();
        let mut i: usize = 0;
        while i < self.words.len()
            invariant
                i <= self.words@.len(),
                words@ == self.words@.take(i as int),
            decreases self.words@.len() - i,
        {
            words.push(self.words[i]);
            i = i + 1;
            proof { assert(words@ =~= self.words@.take(i as int)); }
        }
        proof { assert(words@ =~= self.words@); }
        Descriptor { valid: self.valid, words }
    }
}

/// The descriptor that `describe` gives a keypoint at `(x, y)` of `img`.
pub open spec fn descriptor_of(img: GrayImage, x: int, y: int) -> (bool, Seq<bool>) {
    if describable(img, x, y) {
        (true, brief_bits(img, x, y))
    } else {
        (false, Seq::new(DESC_BITS as nat, |i: int| false))
    }
}

/// `ds` holds, slot by slot, the descriptors of `kps` in `img`.
pub open spec fn describes(img: GrayImage, kps: Seq<Keypoint>, ds: Seq<Descriptor>) -> bool {
    &&& ds.len() == kps.len()
    &&& forall|i: int| 0 <= i < ds.len() ==> (#[trigger] ds[i])@ == descriptor_of(img, kps[i].x as int, kps[i].y as int)
}

/// Describing the same keypoints of the same image twice gives bit-identical
/// descriptors.
pub proof fn lemma_describe_deterministic(img: GrayImage, kps: Seq<Keypoint>, d1: Seq<Descriptor>, d2: Seq<Descriptor>)
    requires
        describes(img, kps, d1),
        describes(img, kps, d2),
    ensures
        d1.len() == d2.len(),
        forall|i: int| 0 <= i < d1.len() ==> (#[trigger] d1[i])@ == d2[i]@,
{
    assert forall|i: int| 0 <= i < d1.len() implies (#[trigger] d1[i])@ == d2[i]@ by {
        assert(d1[i]@ == descriptor_of(img, kps[i].x as int, kps[i].y as int));
        assert(d2[i]@ == descriptor_of(img, kps[i].x as int, kps[i].y as int));
    }
}

fn pattern_exec(i: usize) -> (r: (usize, usize, usize, usize))
    requires
        i < DESC_BITS,
    ensures
        r.0 as int == pattern(i as int, 0),
        r.1 as int == pattern(i as int, 1),
        r.2 as int == pattern(i as int, 2),
        r.3 as int == pattern(i as int, 3),
        r.0 <= 16,
        r.1 <= 16,
        r.2 <= 16,
        r.3 <= 16,
{
    ((i * 37 + 5) % 17, (i * 59 + 11) % 17, (i * 73 + 3) % 17, (i * 97 + 13) % 17)
}

fn brief_bit_exec(img: &GrayImage, ii: &IntegralImage, x: usize, y: usize, i: usize) -> (r: bool)
    requires
        img.wf(),
        ii.is_table_of(*img),
        img.width * img.height <= MAX_PIXELS,
        describable(*img, x as int, y as int),
        i < DESC_BITS,
    ensures
        r == brief_bit(*img, x as int, y as int, i as int),
{
    let (ax, ay, bx, by) = pattern_exec(i);
    let cx1 = x - 8 + ax;
    let cy1 = y - 8 + ay;
    let cx2 = x - 8 + bx;
    let cy2 = y - 8 + by;
    proof {
        lemma_area_cap(*img, cx1 + 3, cy1 + 3);
        lemma_area_cap(*img, cx1 - 2, cy1 + 3);
        lemma_area_cap(*img, cx1 + 3, cy1 - 2);
        lemma_area_cap(*img, cx1 - 2, cy1 - 2);
        lemma_area_cap(*img, cx2 + 3, cy2 + 3);
        lemma_area_cap(*img, cx2 - 2, cy2 + 3);
        lemma_area_cap(*img, cx2 + 3, cy2 - 2);
        lemma_area_cap(*img, cx2 - 2, cy2 - 2);
    }
    let a1 = ii.get(cx1 + 2, cy1 + 2);
    let b1 = ii.get(cx1 - 3, cy1 + 2);
    let c1 = ii.get(cx1 + 2, cy1 - 3);
    let d1 = ii.get(cx1 - 3, cy1 - 3);
    let a2 = ii.get(cx2 + 2, cy2 + 2);
    let b2 = ii.get(cx2 - 3, cy2 + 2);
    let c2 = ii.get(cx2 + 2, cy2 - 3);
    let d2 = ii.get(cx2 - 3, cy2 - 3);
    a1 + d1 + b2 + c2 > a2 + d2 + b1 + c1
}

proof fn lemma_set_bit(a: u64, b: u64, j: u64)
    requires
        b < 64,
        j < 64,
    ensures
        ((a | (1u64 << b)) >> j) & 1 == 1 <==> (j == b || (a >> j) & 1 == 1),
{
    assert(((a | (1u64 << b)) >> j) & 1 == 1 <==> (j == b || (a >> j) & 1 == 1)) by (bit_vector)
        requires b < 64, j < 64;
}

proof fn lemma_zero_bit(j: u64)
    ensures
        (0u64 >> j) & 1 != 1,
{
    assert((0u64 >> j) & 1 != 1) by (bit_vector);
}

/// The descriptor builder: one slot per keypoint, BRIEF bits over box sums
/// read from the summed-area table of `img`; keypoints too near the border
/// get an invalid, all-clear slot.
pub fn describe(img: &GrayImage, ii: &IntegralImage, kps: &Vec<Keypoint>) -> (r: Vec<Descriptor>)
    requires
        img.wf(),
        ii.is_table_of(*img),
        img.width * img.height <= MAX_PIXELS,
    ensures
        describes(*img, kps@, r@),
        forall|i: int| 0 <= i < r@.len() ==> (#[trigger] r@[i]).wf(),
{
    let mut out: Vec<Descriptor> = Vec::new();
    let mut k: usize = 0;
    while k < kps.len()
        invariant
            img.wf(),
            ii.is_table_of(*img),
            img.width * img.height <= MAX_PIXELS,
            k <= kps@.len(),
            out@.len() == k as int,
            forall|i: int| 0 <= i < k ==> (#[trigger] out@[i])@ == descriptor_of(*img, kps@[i].x as int, kps@[i].y as int),
            forall|i: int| 0 <= i < k ==> (#[trigger] out@[i]).wf(),
        decreases kps@.len() - k,
    {
        let x = kps[k].x;
        let y = kps[k].y;
        let ok = x >= DESC_MARGIN && y >= DESC_MARGIN && x < img.width && y < img.height
            && img.width - x > DESC_MARGIN && img.height - y > DESC_MARGIN;
        let mut words: Vec<u64> = Vec::new();
        let mut w: usize = 0;
        while w < DESC_WORDS
            invariant
                img.wf(),
                ii.is_table_of(*img),
                img.width * img.height <= MAX_PIXELS,
                ok == describable(*img, x as int, y as int),
                w <= DESC_WORDS,
                words@.len() == w as int,
                forall|ww: int, j: int| 0 <= ww < w && 0 <= j < 64
                    ==> #[trigger] word_bit(words@[ww], j) == (ok && brief_bit(*img, x as int, y as int, 64 * ww + j)),
            decreases DESC_WORDS - w,
        {
            let mut acc: u64 = 0;
            proof {
                assert forall|k: int| 0 <= k < 64 implies !#[trigger] word_bit(acc, k) by {
                    lemma_zero_bit(k as u64);
                }
            }
            let mut j: usize = 0;
            while j < 64
                invariant
                    img.wf(),
                    ii.is_table_of(*img),
                    img.width * img.height <= MAX_PIXELS,
                    ok == describable(*img, x as int, y as int),
                    w < DESC_WORDS,
                    j <= 64,
                    forall|k: int| 0 <= k < j ==> #[trigger] word_bit(acc, k) == (ok && brief_bit(*img, x as int, y as int, 64 * w + k)),
                    forall|k: int| j <= k < 64 ==> !#[trigger] word_bit(acc, k),
                decreases 64 - j,
            {
                let b = if ok { brief_bit_exec(img, ii, x, y, 64 * w + j) } else { false };
                let ghost prev = acc;
                if b {
                    acc = acc | (1u64 << (j as u64));
                }
                proof {
                    assert forall|k: int| 0 <= k < 64 implies #[trigger] word_bit(acc, k)
                        == (if k == j { b } else { word_bit(prev, k) }) by {
                        if b {
                            lemma_set_bit(prev, j as u64, k as u64);
                        }
                    }
                }
                j = j + 1;
            }
            words.push(acc);
            w = w + 1;
        }
        let d = Descriptor { valid: ok, words };
        proof {
            assert forall|i: int| 0 <= i < DESC_BITS implies #[trigger] d.bit_seq()[i] == (ok && brief_bit(*img, x as int, y as int, i)) by {
                lemma_fundamental_div_mod(i, 64);
                assert(0 <= i / 64 < 4);
                assert(0 <= i % 64 < 64);
            }
            if ok {
                assert(d.bit_seq() =~= brief_bits(*img, x as int, y as int));
            } else {
                assert(d.bit_seq() =~= Seq::new(DESC_BITS as nat, |j: int| false));
            }
        }
        out.push(d);
        k = k + 1;
    }
    out
}

} // verus!
