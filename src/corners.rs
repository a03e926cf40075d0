use vstd::prelude::*;
use crate::image::GrayImage;

verus! {

/// Number of samples on the Bresenham circle of radius 3 used by the corner test.
pub const RING_LEN: usize = 16;

/// Distance from the border inside which the corner test is not evaluated.
pub const CORNER_MARGIN: usize = 3;

/// Tunable parameters of the corner detector.
#[derive(Clone, Copy, Debug)]
pub struct CornerParams {
    /// A ring sample differs from the centre when it is brighter than
    /// `centre + threshold` or darker than `centre - threshold`.
    pub threshold: u8,
    /// Minimum number of contiguous ring samples that must all differ in the
    /// same direction; between 1 and 16.
    pub arc_length: usize,
    /// Half-width of the square non-maximum-suppression window.
    pub nms_radius: usize,
}

impl CornerParams {
    pub open spec fn wf(&self) -> bool {
        1 <= self.arc_length <= RING_LEN
    }
}

/// A detected corner: pixel coordinates and corner response.
#[derive(Clone, Copy, Debug, PartialEq, Eq, Structural)]
pub struct Keypoint {
    pub x: usize,
    pub y: usize,
    pub score: u32,
}

/// Column offset (shifted by 3 to be non-negative) of ring sample `k`,
/// walking the circle clockwise from the top.
pub open spec fn ring_ox(k: int) -> int {
    if k == 0 { 3 } else if k == 1 { 4 } else if k == 2 { 5 } else if k == 3 { 6 }
    else if k == 4 { 6 } else if k == 5 { 6 } else if k == 6 { 5 } else if k == 7 { 4 }
    else if k == 8 { 3 } else if k == 9 { 2 } else if k == 10 { 1 } else if k == 11 { 0 }
    else if k == 12 { 0 } else if k == 13 { 0 } else if k == 14 { 1 } else { 2 }
}

/// Row offset (shifted by 3 to be non-negative) of ring sample `k`.
pub open spec fn ring_oy(k: int) -> int {
    ring_ox((k + 12) % 16)
}

/// Intensity of ring sample `k` around `(x, y)`.
pub open spec fn ring_px(img: GrayImage, x: int, y: int, k: int) -> int {
    img.px(x + ring_ox(k) - 3, y + ring_oy(k) - 3)
}

pub open spec fn is_brighter(img: GrayImage, x: int, y: int, t: int, k: int) -> bool {
    ring_px(img, x, y, k) > img.px(x, y) + t
}

pub open spec fn is_darker(img: GrayImage, x: int, y: int, t: int, k: int) -> bool {
    ring_px(img, x, y, k) + t < img.px(x, y)
}

/// The `n` ring samples starting at `s` (cyclically) are all brighter.
pub open spec fn bright_arc(img: GrayImage, x: int, y: int, t: int, s: int, n: int) -> bool {
    forall|k: int| 0 <= k < n ==> #[trigger] is_brighter(img, x, y, t, (s + k) % 16)
}

/// The `n` ring samples starting at `s` (cyclically) are all darker.
pub open spec fn dark_arc(img: GrayImage, x: int, y: int, t: int, s: int, n: int) -> bool {
    forall|k: int| 0 <= k < n ==> #[trigger] is_darker(img, x, y, t, (s + k) % 16)
}

/// The whole ring around `(x, y)` lies inside the image.
pub open spec fn is_interior(img: GrayImage, x: int, y: int) -> bool {
    3 <= x && x + 3 < img.width && 3 <= y && y + 3 < img.height
}

/// The FAST test: an interior pixel with a contiguous arc of `arc_length`
/// ring samples that are all brighter, or all darker, than the centre.
pub open spec fn is_corner(img: GrayImage, p: CornerParams, x: int, y: int) -> bool {
    &&& is_interior(img, x, y)
    &&& exists|s: int| 0 <= s < 16 && (#[trigger] bright_arc(img, x, y, p.threshold as int, s, p.arc_length as int)
        || dark_arc(img, x, y, p.threshold as int, s, p.arc_length as int))
}

pub open spec fn abs_diff(a: int, b: int) -> int {
    if a >= b { a - b } else { b - a }
}

/// Sum of absolute differences between the centre and the first `k` ring samples.
pub open spec fn ring_contrast(img: GrayImage, x: int, y: int, k: int) -> int
    decreases k,
{
    if k <= 0 { 0 } else { ring_contrast(img, x, y, k - 1) + abs_diff(ring_px(img, x, y, k - 1), img.px(x, y)) }
}

/// Corner response: the ring contrast at a corner, zero elsewhere.
pub open spec fn response(img: GrayImage, p: CornerParams, x: int, y: int) -> int {
    if is_corner(img, p, x, y) { ring_contrast(img, x, y, 16) } else { 0 }
}

/// `(ax, ay)` wins a tie against `(bx, by)`: smaller column first, then smaller row.
pub open spec fn coord_before(ax: int, ay: int, bx: int, by: int) -> bool {
    ax < bx || (ax == bx && ay < by)
}

/// `(x, y)` keeps its response against the neighbour `(qx, qy)`.
pub open spec fn beats(img: GrayImage, p: CornerParams, x: int, y: int, qx: int, qy: int) -> bool {
    response(img, p, qx, qy) < response(img, p, x, y)
        || (response(img, p, qx, qy) == response(img, p, x, y) && coord_before(x, y, qx, qy))
}

/// Inside the image and inside the suppression window of `(x, y)`, other than `(x, y)`.
pub open spec fn in_window(img: GrayImage, p: CornerParams, x: int, y: int, qx: int, qy: int) -> bool {
    &&& 0 <= qx < img.width && 0 <= qy < img.height
    &&& x - p.nms_radius <= qx <= x + p.nms_radius
    &&& y - p.nms_radius <= qy <= y + p.nms_radius
    &&& !(qx == x && qy == y)
}

/// A pixel survives non-maximum suppression: positive response that beats
/// every other pixel of its window.
pub open spec fn is_peak(img: GrayImage, p: CornerParams, x: int, y: int) -> bool {
    &&& 0 <= x < img.width && 0 <= y < img.height
    &&& response(img, p, x, y) > 0
    &&& forall|qx: int, qy: int| #[trigger] in_window(img, p, x, y, qx, qy) ==> beats(img, p, x, y, qx, qy)
}

/// `k` is a surviving corner of `img`, carrying its response as score.
pub open spec fn is_keypoint_of(img: GrayImage, p: CornerParams, k: Keypoint) -> bool {
    is_peak(img, p, k.x as int, k.y as int) && k.score as int == response(img, p, k.x as int, k.y as int)
}

/// Ranking of keypoints: higher score first, ties by coordinate.
pub open spec fn ranks_before(a: Keypoint, b: Keypoint) -> bool {
    a.score > b.score || (a.score == b.score && coord_before(a.x as int, a.y as int, b.x as int, b.y as int))
}

fn ring_offset(k: usize) -> (r: (usize, usize))
    requires
        k < 16,
    ensures
        r.0 as int == ring_ox(k as int),
        r.1 as int == ring_oy(k as int),
        r.0 <= 6,
        r.1 <= 6,
{
    let ox: [usize; 16] = [3, 4, 5, 6, 6, 6, 5, 4, 3, 2, 1, 0, 0, 0, 1, 2];
    let oy: [usize; 16] = [0, 0, 1, 2, 3, 4, 5, 6, 6, 6, 5, 4, 3, 2, 1, 0];
    let a = ox[k];
    let b = oy[k];
    proof {
        assert(ox@ =~= seq![3usize, 4, 5, 6, 6, 6, 5, 4, 3, 2, 1, 0, 0, 0, 1, 2]);
        assert(oy@ =~= seq![0usize, 0, 1, 2, 3, 4, 5, 6, 6, 6, 5, 4, 3, 2, 1, 0]);
        assert(0 <= k < 16);
        if k == 0 {} else if k == 1 {} else if k == 2 {} else if k == 3 {}
        else if k == 4 {} else if k == 5 {} else if k == 6 {} else if k == 7 {}
        else if k == 8 {} else if k == 9 {} else if k == 10 {} else if k == 11 {}
        else if k == 12 {} else if k == 13 {} else if k == 14 {} else {}
    }
    (a, b)
}

fn ring_sample(img: &GrayImage, x: usize, y: usize, k: usize) -> (r: u8)
    requires
        img.wf(),
        is_interior(*img, x as int, y as int),
        k < 16,
    ensures
        r as int == ring_px(*img, x as int, y as int, k as int),
{
    let (ox, oy) = ring_offset(k);
    img.get(x - 3 + ox, y - 3 + oy)
}

fn has_arc(img: &GrayImage, p: CornerParams, x: usize, y: usize, s: usize, bright: bool) -> (r: bool)
    requires
        img.wf(),
        p.wf(),
        is_interior(*img, x as int, y as int),
        s < 16,
    ensures
        bright ==> r == bright_arc(*img, x as int, y as int, p.threshold as int, s as int, p.arc_length as int),
        !bright ==> r == dark_arc(*img, x as int, y as int, p.threshold as int, s as int, p.arc_length as int),
{
    let c = img.get(x, y) as u32;
    let t = p.threshold as u32;
    let mut k: usize = 0;
    while k < p.arc_length
        invariant
            img.wf(),
            p.wf(),
            is_interior(*img, x as int, y as int),
            s < 16,
            c as int == img.px(x as int, y as int),
            t == p.threshold as u32,
            k <= p.arc_length,
            bright ==> bright_arc(*img, x as int, y as int, t as int, s as int, k as int),
            !bright ==> dark_arc(*img, x as int, y as int, t as int, s as int, k as int),
        decreases p.arc_length - k,
    {
        let v = ring_sample(img, x, y, (s + k) % 16) as u32;
        let ok = if bright { v > c + t } else { v + t < c };
        if !ok {
            assert(bright ==> !is_brighter(*img, x as int, y as int, t as int, (s + k) % 16));
            assert(!bright ==> !is_darker(*img, x as int, y as int, t as int, (s + k) % 16));
            return false;
        }
        k = k + 1;
    }
    true
}

fn corner_test(img: &GrayImage, p: CornerParams, x: usize, y: usize) -> (r: bool)
    requires
        img.wf(),
        p.wf(),
        is_interior(*img, x as int, y as int),
    ensures
        r == is_corner(*img, p, x as int, y as int),
{
    let mut s: usize = 0;
    while s < 16
        invariant
            img.wf(),
            p.wf(),
            is_interior(*img, x as int, y as int),
            s <= 16,
            forall|j: int| 0 <= j < s ==> !#[trigger] bright_arc(*img, x as int, y as int, p.threshold as int, j, p.arc_length as int)
                && !dark_arc(*img, x as int, y as int, p.threshold as int, j, p.arc_length as int),
        decreases 16 - s,
    {
        let b = has_arc(img, p, x, y, s, true);
        let d = has_arc(img, p, x, y, s, false);
        if b || d {
            return true;
        }
        s = s + 1;
    }
    false
}

fn contrast(img: &GrayImage, x: usize, y: usize) -> (r: u32)
    requires
        img.wf(),
        is_interior(*img, x as int, y as int),
    ensures
        r as int == ring_contrast(*img, x as int, y as int, 16),
{
    let c = img.get(x, y) as u32;
    let mut sum: u32 = 0;
    let mut k: usize = 0;
    while k < 16
        invariant
            img.wf(),
            is_interior(*img, x as int, y as int),
            c as int == img.px(x as int, y as int),
            k <= 16,
            sum as int == ring_contrast(*img, x as int, y as int, k as int),
            sum <= 255 * k,
        decreases 16 - k,
    {
        let v = ring_sample(img, x, y, k) as u32;
        let d = if v >= c { v - c } else { c - v };
        sum = sum + d;
        k = k + 1;
    }
    sum
}

/// The corner response at `(x, y)`; zero outside the interior.
pub fn response_at(img: &GrayImage, p: CornerParams, x: usize, y: usize) -> (r: u32)
    requires
        img.wf(),
        p.wf(),
        x < img.width,
        y < img.height,
    ensures
        r as int == response(*img, p, x as int, y as int),
{
    if x >= 3 && y >= 3 && img.width - x > 3 && img.height - y > 3 {
        if corner_test(img, p, x, y) {
            return contrast(img, x, y);
        }
    }
    0
}

/// The dense response map, row by row.
pub fn response_map(img: &GrayImage, p: CornerParams) -> (r: Vec<Vec<u32>>)
    requires
        img.wf(),
        p.wf(),
    ensures
        r@.len() == img.height as int,
        forall|y: int| 0 <= y < img.height ==> #[trigger] r@[y]@.len() == img.width as int,
        forall|x: int, y: int| 0 <= x < img.width && 0 <= y < img.height
            ==> #[trigger] r@[y]@[x] as int == response(*img, p, x, y),
{
    let mut rows: Vec<Vec<u32>> = Vec::new();
    let mut y: usize = 0;
    while y < img.height
        invariant
            img.wf(),
            p.wf(),
            y <= img.height,
            rows@.len() == y as int,
            forall|j: int| 0 <= j < y ==> #[trigger] rows@[j]@.len() == img.width as int,
            forall|i: int, j: int| 0 <= i < img.width && 0 <= j < y
                ==> #[trigger] rows@[j]@[i] as int == response(*img, p, i, j),
        decreases img.height - y,
    {
        let mut row: Vec<u32> = Vec::new();
        let mut x: usize = 0;
        while x < img.width
            invariant
                img.wf(),
                p.wf(),
                y < img.height,
                x <= img.width,
                row@.len() == x as int,
                forall|i: int| 0 <= i < x ==> #[trigger] row@[i] as int == response(*img, p, i, y as int),
            decreases img.width - x,
        {
            row.push(response_at(img, p, x, y));
            x = x + 1;
        }
        rows.push(row);
        y = y + 1;
    }
    rows
}

/// `a` ranks before `b`, or they are the same keypoint.
pub open spec fn ranks_no_later(a: Keypoint, b: Keypoint) -> bool {
    a == b || ranks_before(a, b)
}

/// Coordinates identify a keypoint within `s`.
pub open spec fn coords_identify(s: Seq<Keypoint>) -> bool {
    forall|i: int, j: int| 0 <= i < s.len() && 0 <= j < s.len() && s[i].x == s[j].x && s[i].y == s[j].y
        ==> s[i] == s[j]
}

/// `s` is strictly ordered by rank.
pub open spec fn sorted_by_rank(s: Seq<Keypoint>) -> bool {
    forall|i: int, j: int| 0 <= i < j < s.len() ==> ranks_before(#[trigger] s[i], #[trigger] s[j])
}

/// `top` is the best `min(max, |cands|)` of `cands` in rank order: sorted,
/// drawn from `cands`, and holding every candidate that is not outranked
/// by the last entry once the capacity is used up.
pub open spec fn is_top_of(top: Seq<Keypoint>, cands: Seq<Keypoint>, max: nat) -> bool {
    &&& top.len() <= max
    &&& sorted_by_rank(top)
    &&& forall|i: int| 0 <= i < top.len() ==> cands.contains(#[trigger] top[i])
    &&& forall|j: int| 0 <= j < cands.len() && (top.len() < max || (top.len() > 0 && ranks_no_later(cands[j], top.last())))
        ==> top.contains(#[trigger] cands[j])
}

proof fn lemma_top_prefix(cands: Seq<Keypoint>, max: nat, t1: Seq<Keypoint>, t2: Seq<Keypoint>, k: int)
    requires
        coords_identify(cands),
        is_top_of(t1, cands, max),
        is_top_of(t2, cands, max),
        0 <= k <= t1.len(),
        k <= t2.len(),
    ensures
        forall|j: int| 0 <= j < k ==> t1[j] == t2[j],
    decreases k,
{
    if k > 0 {
        let i = k - 1;
        lemma_top_prefix(cands, max, t1, t2, i);
        if t1[i] != t2[i] {
            lemma_top_member_order(cands, max, t1, t2, i);
            lemma_top_member_order(cands, max, t2, t1, i);
        }
    }
}

/// With equal prefixes below `i`, `t1[i]` cannot rank strictly before `t2[i]`.
proof fn lemma_top_member_order(cands: Seq<Keypoint>, max: nat, t1: Seq<Keypoint>, t2: Seq<Keypoint>, i: int)
    requires
        coords_identify(cands),
        is_top_of(t1, cands, max),
        is_top_of(t2, cands, max),
        0 <= i < t1.len(),
        i < t2.len(),
        forall|j: int| 0 <= j < i ==> t1[j] == t2[j],
    ensures
        !ranks_before(t1[i], t2[i]),
{
    if ranks_before(t1[i], t2[i]) {
        let e = t1[i];
        assert(cands.contains(e));
        let ci = choose|ci: int| 0 <= ci < cands.len() && cands[ci] == e;
        if t2.len() >= max {
            assert(ranks_no_later(t2[i], t2.last()));
        }
        assert(t2.contains(cands[ci]));
        let m = choose|m: int| 0 <= m < t2.len() && t2[m] == e;
        if m < i {
            assert(t1[m] == e);
            assert(ranks_before(t1[m], t1[i]));
        } else if m > i {
            assert(ranks_before(t2[i], t2[m]));
        }
    }
}

/// The truncation policy is deterministic: two results that both keep the
/// best `max` candidates by rank are the same list.
pub proof fn lemma_top_unique(cands: Seq<Keypoint>, max: nat, t1: Seq<Keypoint>, t2: Seq<Keypoint>)
    requires
        coords_identify(cands),
        is_top_of(t1, cands, max),
        is_top_of(t2, cands, max),
    ensures
        t1 == t2,
{
    lemma_top_longer(cands, max, t1, t2);
    lemma_top_longer(cands, max, t2, t1);
    lemma_top_prefix(cands, max, t1, t2, t1.len() as int);
    assert(t1 =~= t2);
}

proof fn lemma_top_longer(cands: Seq<Keypoint>, max: nat, t1: Seq<Keypoint>, t2: Seq<Keypoint>)
    requires
        coords_identify(cands),
        is_top_of(t1, cands, max),
        is_top_of(t2, cands, max),
    ensures
        t1.len() <= t2.len(),
{
    if t1.len() > t2.len() {
        let l = t2.len() as int;
        lemma_top_prefix(cands, max, t1, t2, l);
        let e = t1[l];
        assert(cands.contains(e));
        let ci = choose|ci: int| 0 <= ci < cands.len() && cands[ci] == e;
        assert(t2.contains(cands[ci]));
        let m = choose|m: int| 0 <= m < t2.len() && t2[m] == e;
        assert(t1[m] == e);
        assert(ranks_before(t1[m], t1[l]));
    }
}

fn ranks_before_exec(a: &Keypoint, b: &Keypoint) -> (r: bool)
    ensures
        r == ranks_before(*a, *b),
{
    a.score > b.score || (a.score == b.score && (a.x < b.x || (a.x == b.x && a.y < b.y)))
}

/// Keeps the `max` best candidates by rank (higher score first, then
/// smaller column, then smaller row), in rank order.
pub fn select_top(cands: &Vec<Keypoint>, max: usize) -> (top: Vec<Keypoint>)
    requires
        coords_identify(cands@),
    ensures
        is_top_of(top@, cands@, max as nat),
{
    let mut top: Vec<Keypoint> = Vec::new();
    let mut done = false;
    while !done && top.len() < max
        invariant
            coords_identify(cands@),
            top@.len() <= max,
            sorted_by_rank(top@),
            forall|i: int| 0 <= i < top@.len() ==> cands@.contains(#[trigger] top@[i]),
            top@.len() > 0 ==> forall|j: int| 0 <= j < cands@.len() && ranks_no_later(cands@[j], top@.last())
                ==> top@.contains(#[trigger] cands@[j]),
            done ==> forall|j: int| 0 <= j < cands@.len() ==> top@.contains(#[trigger] cands@[j]),
        decreases 2 * (max - top@.len()) + (if done { 0int } else { 1int }),
    {
        let n = top.len();
        let mut found = false;
        let mut best: usize = 0;
        let mut i: usize = 0;
        while i < cands.len()
            invariant
                n == top@.len(),
                i <= cands@.len(),
                found ==> best < i,
                found ==> (n == 0 || ranks_before(top@[n - 1], cands@[best as int])),
                forall|j: int| 0 <= j < i && (n == 0 || ranks_before(top@[n - 1], #[trigger] cands@[j]))
                    ==> found && ranks_no_later(cands@[best as int], cands@[j]),
            decreases cands@.len() - i,
        {
            let after = n == 0 || ranks_before_exec(&top[n - 1], &cands[i]);
            if after && (!found || ranks_before_exec(&cands[i], &cands[best])) {
                found = true;
                best = i;
            }
            i = i + 1;
        }
        if found {
            let ghost old_top = top@;
            let b = cands[best];
            top.push(b);
            proof {
                assert(top@.last() == b);
                assert forall|k: Keypoint| old_top.contains(k) implies top@.contains(k) by {
                    let w = choose|w: int| 0 <= w < old_top.len() && old_top[w] == k;
                    assert(top@[w] == k);
                }
                assert(top@.contains(b)) by {
                    assert(top@[n as int] == b);
                }
                assert forall|j: int| 0 <= j < cands@.len() && ranks_no_later(cands@[j], top@.last())
                    implies top@.contains(#[trigger] cands@[j]) by {
                    let c = cands@[j];
                    if n > 0 {
                        let l = old_top[n - 1];
                        let li = choose|li: int| 0 <= li < cands@.len() && cands@[li] == l;
                        if !ranks_no_later(c, l) {
                            assert(ranks_before(l, c));
                            assert(ranks_no_later(b, c));
                        }
                    } else {
                        assert(ranks_no_later(b, c));
                    }
                }
                assert forall|i1: int, j1: int| 0 <= i1 < j1 < top@.len() implies ranks_before(#[trigger] top@[i1], #[trigger] top@[j1]) by {
                    if j1 == n {
                        if i1 < n - 1 {
                            assert(ranks_before(old_top[i1], old_top[n - 1]));
                        }
                    } else {
                        assert(ranks_before(old_top[i1], old_top[j1]));
                    }
                }
                assert forall|i1: int| 0 <= i1 < top@.len() implies cands@.contains(#[trigger] top@[i1]) by {
                    if i1 < n {
                        assert(top@[i1] == old_top[i1]);
                    } else {
                        assert(cands@[best as int] == b);
                    }
                }
            }
        } else {
            proof {
                assert forall|j: int| 0 <= j < cands@.len() implies top@.contains(#[trigger] cands@[j]) by {
                    let c = cands@[j];
                    assert(n > 0);
                    let l = top@[n - 1];
                    let li = choose|li: int| 0 <= li < cands@.len() && cands@[li] == l;
                    assert(!ranks_before(l, c));
                    assert(ranks_no_later(c, l));
                }
            }
            done = true;
        }
    }
    top
}

/// `resp` holds the response map of `img` under `p`.
pub open spec fn is_response_map(resp: Seq<Vec<u32>>, img: GrayImage, p: CornerParams) -> bool {
    &&& resp.len() == img.height as int
    &&& forall|y: int| 0 <= y < img.height ==> #[trigger] resp[y]@.len() == img.width as int
    &&& forall|x: int, y: int| 0 <= x < img.width && 0 <= y < img.height
        ==> #[trigger] resp[y]@[x] as int == response(img, p, x, y)
}

fn peak_at(img: &GrayImage, p: CornerParams, resp: &Vec<Vec<u32>>, x: usize, y: usize) -> (r: bool)
    requires
        img.wf(),
        is_response_map(resp@, *img, p),
        x < img.width,
        y < img.height,
    ensures
        r == is_peak(*img, p, x as int, y as int),
{
    let w = img.width;
    let h = img.height;
    let rad = p.nms_radius;
    let v = resp[y][x];
    if v == 0 {
        return false;
    }
    let lo_x = if x >= rad { x - rad } else { 0 };
    let hi_x = if w - 1 - x <= rad { w - 1 } else { x + rad };
    let lo_y = if y >= rad { y - rad } else { 0 };
    let hi_y = if h - 1 - y <= rad { h - 1 } else { y + rad };
    let mut qy: usize = lo_y;
    while qy <= hi_y
        invariant
            img.wf(),
            is_response_map(resp@, *img, p),
            w == img.width,
            h == img.height,
            rad == p.nms_radius,
            x < w,
            y < h,
            v as int == response(*img, p, x as int, y as int),
            lo_x as int == (if x >= rad { x - rad } else { 0 }),
            hi_x as int == (if w - 1 - x <= rad { w - 1 } else { x + rad }),
            lo_y as int == (if y >= rad { y - rad } else { 0 }),
            hi_y as int == (if h - 1 - y <= rad { h - 1 } else { y + rad }),
            lo_y <= qy <= hi_y + 1,
            forall|a: int, b: int| #[trigger] in_window(*img, p, x as int, y as int, a, b) && b < qy
                ==> beats(*img, p, x as int, y as int, a, b),
        decreases hi_y + 1 - qy,
    {
        let mut qx: usize = lo_x;
        while qx <= hi_x
            invariant
                img.wf(),
                is_response_map(resp@, *img, p),
                w == img.width,
                h == img.height,
                rad == p.nms_radius,
                x < w,
                y < h,
                v as int == response(*img, p, x as int, y as int),
                lo_x as int == (if x >= rad { x - rad } else { 0 }),
                hi_x as int == (if w - 1 - x <= rad { w - 1 } else { x + rad }),
                lo_y as int == (if y >= rad { y - rad } else { 0 }),
                hi_y as int == (if h - 1 - y <= rad { h - 1 } else { y + rad }),
                lo_y <= qy <= hi_y,
                lo_x <= qx <= hi_x + 1,
                forall|a: int, b: int| #[trigger] in_window(*img, p, x as int, y as int, a, b)
                    && (b < qy || (b == qy && a < qx)) ==> beats(*img, p, x as int, y as int, a, b),
            decreases hi_x + 1 - qx,
        {
            if !(qx == x && qy == y) {
                let q = resp[qy][qx];
                let wins = q < v || (q == v && (x < qx || (x == qx && y < qy)));
                if !wins {
                    assert(in_window(*img, p, x as int, y as int, qx as int, qy as int));
                    return false;
                }
            }
            qx = qx + 1;
        }
        qy = qy + 1;
    }
    true
}

/// Every surviving corner of `img`, in row-major order.
pub fn collect_peaks(img: &GrayImage, p: CornerParams, resp: &Vec<Vec<u32>>) -> (r: Vec<Keypoint>)
    requires
        img.wf(),
        is_response_map(resp@, *img, p),
    ensures
        forall|i: int| 0 <= i < r@.len() ==> is_keypoint_of(*img, p, #[trigger] r@[i]),
        forall|k: Keypoint| is_keypoint_of(*img, p, k) ==> r@.contains(k),
{
    let mut out: Vec<Keypoint> = Vec::new();
    let mut y: usize = 0;
    while y < img.height
        invariant
            img.wf(),
            is_response_map(resp@, *img, p),
            y <= img.height,
            forall|i: int| 0 <= i < out@.len() ==> is_keypoint_of(*img, p, #[trigger] out@[i]),
            forall|k: Keypoint| is_keypoint_of(*img, p, k) && k.y < y ==> out@.contains(k),
        decreases img.height - y,
    {
        let mut x: usize = 0;
        while x < img.width
            invariant
                img.wf(),
                is_response_map(resp@, *img, p),
                y < img.height,
                x <= img.width,
                forall|i: int| 0 <= i < out@.len() ==> is_keypoint_of(*img, p, #[trigger] out@[i]),
                forall|k: Keypoint| is_keypoint_of(*img, p, k) && (k.y < y || (k.y == y && k.x < x)) ==> out@.contains(k),
            decreases img.width - x,
        {
            if peak_at(img, p, resp, x, y) {
                let ghost before = out@;
                let k = Keypoint { x, y, score: resp[y][x] };
                out.push(k);
                proof {
                    assert forall|k2: Keypoint| before.contains(k2) implies out@.contains(k2) by {
                        let w = choose|w: int| 0 <= w < before.len() && before[w] == k2;
                        assert(out@[w] == k2);
                    }
                    assert(out@[before.len() as int] == k);
                    assert forall|k2: Keypoint| is_keypoint_of(*img, p, k2) && k2.x == x && k2.y == y implies out@.contains(k2) by {
                        assert(k2 == k);
                    }
                }
            }
            x = x + 1;
        }
        y = y + 1;
    }
    out
}

/// `r` is the detector's output on `img`: surviving corners only, in rank
/// order, at most `max` of them, and every survivor not outranked by the
/// last entry (all survivors, when fewer than `max`).
pub open spec fn detects(img: GrayImage, p: CornerParams, max: int, r: Seq<Keypoint>) -> bool {
    &&& forall|i: int| 0 <= i < r.len() ==> is_keypoint_of(img, p, #[trigger] r[i])
    &&& r.len() <= max
    &&& sorted_by_rank(r)
    &&& forall|k: Keypoint| is_keypoint_of(img, p, k)
        && (r.len() < max || (r.len() > 0 && ranks_no_later(k, r.last())))
        ==> r.contains(k)
}

/// The corner detector: FAST test, non-maximum suppression, and the
/// `max_features` best survivors in rank order.
pub fn detect(img: &GrayImage, p: CornerParams, max_features: usize) -> (r: Vec<Keypoint>)
    requires
        img.wf(),
        p.wf(),
    ensures
        detects(*img, p, max_features as int, r@),
{
    let resp = response_map(img, p);
    let cands = collect_peaks(img, p, &resp);
    let top = select_top(&cands, max_features);
    proof {
        assert forall|k: Keypoint| is_keypoint_of(*img, p, k)
            && (top@.len() < max_features || (top@.len() > 0 && ranks_no_later(k, top@.last())))
            implies top@.contains(k) by {
            let j = choose|j: int| 0 <= j < cands@.len() && cands@[j] == k;
        }
        assert forall|i: int| 0 <= i < top@.len() implies is_keypoint_of(*img, p, #[trigger] top@[i]) by {
            let j = choose|j: int| 0 <= j < cands@.len() && cands@[j] == top@[i];
        }
    }
    top
}

/// An image of one uniform intensity has no corners, so the detector
/// returns no keypoints on it.
pub proof fn lemma_uniform_has_no_keypoints(img: GrayImage, p: CornerParams, max: int, r: Seq<Keypoint>, v: int)
    requires
        img.wf(),
        p.wf(),
        forall|x: int, y: int| 0 <= x < img.width && 0 <= y < img.height ==> #[trigger] img.px(x, y) == v,
        detects(img, p, max, r),
    ensures
        r.len() == 0,
{
    assert forall|x: int, y: int| !#[trigger] is_corner(img, p, x, y) by {
        if is_corner(img, p, x, y) {
            let s = choose|s: int| 0 <= s < 16 && (#[trigger] bright_arc(img, x, y, p.threshold as int, s, p.arc_length as int)
                || dark_arc(img, x, y, p.threshold as int, s, p.arc_length as int));
            let k = s % 16;
            assert((s + 0) % 16 == k);
            assert(0 <= ring_ox(k) <= 6 && 0 <= ring_oy(k) <= 6);
            assert(ring_px(img, x, y, k) == v);
            if bright_arc(img, x, y, p.threshold as int, s, p.arc_length as int) {
                assert(is_brighter(img, x, y, p.threshold as int, (s + 0) % 16));
            } else {
                assert(is_darker(img, x, y, p.threshold as int, (s + 0) % 16));
            }
        }
    }
    if r.len() > 0 {
        assert(is_keypoint_of(img, p, r[0]));
        assert(!is_corner(img, p, r[0].x as int, r[0].y as int));
    }
}

} // verus!
