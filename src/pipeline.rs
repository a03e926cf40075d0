use vstd::prelude::*;
use crate::image::{GrayImage, rgba_to_gray, blur, is_gray_of, is_blur_of};
use crate::integral::{build_integral, MAX_PIXELS};
use crate::corners::{CornerParams, Keypoint, detect, detects, RING_LEN};
use crate::brief::{Descriptor, describe, describes};
use crate::matcher::{Match, MatchParams, match_frame, match_list};
use vstd::arithmetic::div_mod::lemma_fundamental_div_mod_converse;

verus! {

/// Construction-time configuration; immutable for the pipeline's lifetime.
#[derive(Clone, Copy, Debug)]
pub struct OrbConfig {
    /// Capacity of the keypoint and descriptor lists.
    pub max_features: usize,
    /// Capacity of the match list.
    pub max_matches: usize,
    pub width: usize,
    pub height: usize,
    pub corner: CornerParams,
    pub matching: MatchParams,
}

/// Why a configuration was rejected.
#[derive(Clone, Copy, Debug, PartialEq, Eq, Structural)]
pub enum ConfigError {
    ZeroFeatures,
    ZeroMatches,
    ZeroWidth,
    ZeroHeight,
    ImageTooLarge,
    BadArcLength,
}

/// The first rule that `c` breaks, if any.
pub open spec fn config_error(c: OrbConfig) -> Option<ConfigError> {
    if c.max_features == 0 {
        Some(ConfigError::ZeroFeatures)
    } else if c.max_matches == 0 {
        Some(ConfigError::ZeroMatches)
    } else if c.width == 0 {
        Some(ConfigError::ZeroWidth)
    } else if c.height == 0 {
        Some(ConfigError::ZeroHeight)
    } else if c.width * c.height > MAX_PIXELS {
        Some(ConfigError::ImageTooLarge)
    } else if !c.corner.wf() {
        Some(ConfigError::BadArcLength)
    } else {
        None
    }
}

/// The frozen reference set that the matcher reads.
pub struct Keyframe {
    pub keypoints: Vec<Keypoint>,
    pub descriptors: Vec<Descriptor>,
}

impl Keyframe {
    pub open spec fn wf(&self) -> bool {
        &&& self.descriptors@.len() == self.keypoints@.len()
        &&& forall|i: int| 0 <= i < self.descriptors@.len() ==> (#[trigger] self.descriptors@[i]).wf()
    }
}

/// `a` and `b` hold the same descriptors, slot by slot.
pub open spec fn same_descriptors(a: Seq<Descriptor>, b: Seq<Descriptor>) -> bool {
    &&& a.len() == b.len()
    &&& forall|i: int| 0 <= i < a.len() ==> (#[trigger] a[i])@ == b[i]@
}

/// The pipeline: owns every per-tick buffer and the keyframe snapshot.
pub struct OrbProgram {
    pub config: OrbConfig,
    pub gray: GrayImage,
    pub blurred: GrayImage,
    pub keypoints: Vec<Keypoint>,
    pub descriptors: Vec<Descriptor>,
    pub matches: Vec<Match>,
    pub keyframe: Keyframe,
}

impl OrbProgram {
    pub open spec fn wf(&self) -> bool {
        &&& config_error(self.config) is None
        &&& self.gray.wf()
        &&& self.blurred.wf()
        &&& self.blurred.width == self.config.width
        &&& self.blurred.height == self.config.height
        &&& forall|i: int| 0 <= i < self.keypoints@.len() ==> (#[trigger] self.keypoints@[i]).y < self.blurred.height
        &&& self.descriptors@.len() == self.keypoints@.len()
        &&& forall|i: int| 0 <= i < self.descriptors@.len() ==> (#[trigger] self.descriptors@[i]).wf()
        &&& self.keyframe.wf()
    }

    /// Builds a pipeline with empty outputs and an empty keyframe, or
    /// reports the first rule the configuration breaks.
    pub fn init(config: OrbConfig) -> (r: Result<OrbProgram, ConfigError>)
        ensures
            match r {
                Ok(prog) => config_error(config) is None && prog.wf() && prog.config == config
                    && prog.keypoints@.len() == 0 && prog.matches@.len() == 0
                    && prog.keyframe.keypoints@.len() == 0,
                Err(e) => config_error(config) == Some(e),
            },
    {
        if config.max_features == 0 {
            return Err(ConfigError::ZeroFeatures);
        }
        if config.max_matches == 0 {
            return Err(ConfigError::ZeroMatches);
        }
        if config.width == 0 {
            return Err(ConfigError::ZeroWidth);
        }
        if config.height == 0 {
            return Err(ConfigError::ZeroHeight);
        }
        if config.width > MAX_PIXELS / config.height {
            proof {
                let w = config.width as int;
                let h = config.height as int;
                assert(w * h > MAX_PIXELS) by (nonlinear_arith)
                    requires h > 0, w > (MAX_PIXELS as int) / h;
            }
            return Err(ConfigError::ImageTooLarge);
        }
        proof {
            let w = config.width as int;
            let h = config.height as int;
            assert(w * h <= MAX_PIXELS) by (nonlinear_arith)
                requires h > 0, w <= (MAX_PIXELS as int) / h;
        }
        if config.corner.arc_length == 0 || config.corner.arc_length > RING_LEN {
            return Err(ConfigError::BadArcLength);
        }
        let gray = GrayImage::filled(config.width, config.height, 0);
        let blurred = GrayImage::filled(config.width, config.height, 0);
        Ok(OrbProgram {
            config,
            gray,
            blurred,
            keypoints: Vec::new(),
            descriptors: Vec::new(),
            matches: Vec::new(),
            keyframe: Keyframe { keypoints: Vec::new(), descriptors: Vec::new() },
        })
    }

    /// One tick: ingest the RGBA frame, smooth, build the summed-area table,
    /// detect, describe, optionally record the keyframe, then match the
    /// current descriptors against the (possibly new) keyframe.
    pub fn run(&mut self, frame: &Vec<u8>, record_keyframe: bool)
        requires
            old(self).wf(),
            frame@.len() == 4 * old(self).config.width * old(self).config.height,
        ensures
            final(self).wf(),
            final(self).config == old(self).config,
            is_gray_of(final(self).gray, old(self).config.width as int, old(self).config.height as int, frame@),
            is_blur_of(final(self).blurred, final(self).gray),
            detects(final(self).blurred, old(self).config.corner, old(self).config.max_features as int,
                final(self).keypoints@),
            describes(final(self).blurred, final(self).keypoints@, final(self).descriptors@),
            record_keyframe ==> final(self).keyframe.keypoints@ == final(self).keypoints@
                && same_descriptors(final(self).keyframe.descriptors@, final(self).descriptors@),
            !record_keyframe ==> final(self).keyframe == old(self).keyframe,
            final(self).matches@ == match_list(final(self).descriptors@, final(self).keyframe.descriptors@,
                old(self).config.matching, old(self).config.max_matches as int),
    {
        let c = self.config;
        let gray = rgba_to_gray(c.width, c.height, frame);
        let blurred = blur(&gray);
        let table = build_integral(&blurred);
        let keypoints = detect(&blurred, c.corner, c.max_features);
        let descriptors = describe(&blurred, &table, &keypoints);
        if record_keyframe {
            let snapshot = snapshot_of(&keypoints, &descriptors);
            self.keyframe = snapshot;
        }
        let matches = match_frame(&descriptors, &self.keyframe.descriptors, c.matching, c.max_matches);
        self.gray = gray;
        self.blurred = blurred;
        self.keypoints = keypoints;
        self.descriptors = descriptors;
        self.matches = matches;
    }

    /// The visualization image of the last tick: the smoothed frame as RGBA
    /// with every keypoint painted red.
    pub fn visualization(&self) -> (r: Vec<u8>)
        requires
            self.wf(),
        ensures
            r@.len() == 4 * self.config.width * self.config.height,
            forall|n: int, c: int| 0 <= n < self.config.width * self.config.height && 0 <= c < 4
                ==> #[trigger] r@[4 * n + c] as int == vis_channel(self.blurred, self.keypoints@, n, c),
    {
        visualize(&self.blurred, &self.keypoints)
    }

    /// Number of valid keypoints of the last tick.
    pub fn keypoint_count(&self) -> (r: usize)
        ensures
            r == self.keypoints@.len(),
    {
        self.keypoints.len()
    }

    /// Number of matches of the last tick.
    pub fn match_count(&self) -> (r: usize)
        ensures
            r == self.matches@.len(),
    {
        self.matches.len()
    }
}

/// A fresh keyframe holding copies of the given lists.
pub fn snapshot_of(keypoints: &Vec<Keypoint>, descriptors: &Vec<Descriptor>) -> (r: Keyframe)
    requires
        descriptors@.len() == keypoints@.len(),
        forall|i: int| 0 <= i < descriptors@.len() ==> (#[trigger] descriptors@[i]).wf(),
    ensures
        r.wf(),
        r.keypoints@ == keypoints@,
        same_descriptors(r.descriptors@, descriptors@),
{
    let mut kps: Vec<Keypoint> = Vec::new();
    let mut ds: Vec<Descriptor> = Vec::new();
    let mut i: usize = 0;
    while i < keypoints.len()
        invariant
            descriptors@.len() == keypoints@.len(),
            forall|j: int| 0 <= j < descriptors@.len() ==> (#[trigger] descriptors@[j]).wf(),
            i <= keypoints@.len(),
            kps@ == keypoints@.take(i as int),
            ds@.len() == i as int,
            forall|j: int| 0 <= j < i ==> (#[trigger] ds@[j])@ == descriptors@[j]@,
            forall|j: int| 0 <= j < i ==> (#[trigger] ds@[j]).wf(),
        decreases keypoints@.len() - i,
    {
        kps.push(keypoints[i]);
        ds.push(descriptors[i].duplicate());
        i = i + 1;
        proof { assert(kps@ =~= keypoints@.take(i as int)); }
    }
    proof { assert(kps@ =~= keypoints@); }
    Keyframe { keypoints: kps, descriptors: ds }
}

/// A configuration with no keypoint capacity or an empty image is rejected.
pub proof fn lemma_degenerate_config_rejected(c: OrbConfig)
    requires
        c.max_features == 0 || c.width == 0 || c.height == 0,
    ensures
        config_error(c) is Some,
{
}

/// Some keypoint of `kps` lies on pixel number `n` (row-major) of a `w`-wide image.
pub open spec fn marks(kps: Seq<Keypoint>, w: int, n: int) -> bool {
    exists|i: int| 0 <= i < kps.len() && kps[i].x < w && #[trigger] kps[i].y * w + kps[i].x == n
}

/// Channel `c` of the visualization of pixel number `n`: red where a
/// keypoint lies, else the smoothed intensity on every colour channel;
/// alpha is always opaque.
pub open spec fn vis_channel(img: GrayImage, kps: Seq<Keypoint>, n: int, c: int) -> int {
    let w = img.width as int;
    if c == 3 {
        255
    } else if marks(kps, w, n) {
        if c == 0 { 255 } else { 0 }
    } else {
        img.px(n % w, n / w)
    }
}

/// The RGBA visualization of `img` with the keypoints of `kps` painted red.
pub fn visualize(img: &GrayImage, kps: &Vec<Keypoint>) -> (r: Vec<u8>)
    requires
        img.wf(),
        img.width * img.height <= MAX_PIXELS,
        forall|i: int| 0 <= i < kps@.len() ==> (#[trigger] kps@[i]).y < img.height,
    ensures
        r@.len() == 4 * img.width * img.height,
        forall|n: int, c: int| 0 <= n < img.width * img.height && 0 <= c < 4
            ==> #[trigger] r@[4 * n + c] as int == vis_channel(*img, kps@, n, c),
{
    let w = img.width;
    let h = img.height;
    let mut out: Vec<u8> = Vec::new();
    let mut y: usize = 0;
    while y < h
        invariant
            img.wf(),
            w == img.width,
            h == img.height,
            w * h <= MAX_PIXELS,
            y <= h,
            out@.len() == 4 * (y * w),
            forall|n: int, c: int| 0 <= n < y * w && 0 <= c < 4
                ==> #[trigger] out@[4 * n + c] as int == (if c == 3 { 255 } else { img.px(n % w as int, n / w as int) }),
        decreases h - y,
    {
        let mut x: usize = 0;
        while x < w
            invariant
                img.wf(),
                w == img.width,
                h == img.height,
                w * h <= MAX_PIXELS,
                y < h,
                x <= w,
                out@.len() == 4 * (y * w + x),
                forall|n: int, c: int| 0 <= n < y * w + x && 0 <= c < 4
                    ==> #[trigger] out@[4 * n + c] as int == (if c == 3 { 255 } else { img.px(n % w as int, n / w as int) }),
            decreases w - x,
        {
            proof {
                assert((y + 1) * w <= w * h) by (nonlinear_arith) requires y < h;
                assert((y + 1) * w == y * w + w) by (nonlinear_arith);
                lemma_fundamental_div_mod_converse(y * w + x, w as int, y as int, x as int);
            }
            let v = img.get(x, y);
            let ghost before = out@;
            let ghost m = y * w + x;
            out.push(v);
            out.push(v);
            out.push(v);
            out.push(255);
            proof {
                assert forall|n: int, c: int| 0 <= n < m + 1 && 0 <= c < 4
                    implies #[trigger] out@[4 * n + c] as int == (if c == 3 { 255 } else { img.px(n % w as int, n / w as int) }) by {
                    if n < m {
                        assert(out@[4 * n + c] == before[4 * n + c]);
                    }
                }
            }
            x = x + 1;
        }
        proof {
            assert((y + 1) * w == y * w + w) by (nonlinear_arith);
        }
        y = y + 1;
    }
    proof {
        assert(h * w == w * h) by (nonlinear_arith);
        let t0 = kps@.take(0);
        assert forall|n: int, c: int| 0 <= n < w * h && 0 <= c < 4
            implies #[trigger] out@[4 * n + c] as int == vis_channel(*img, t0, n, c) by {
            assert(!marks(t0, w as int, n));
        }
    }
    let mut i: usize = 0;
    while i < kps.len()
        invariant
            img.wf(),
            w == img.width,
            h == img.height,
            w * h <= MAX_PIXELS,
            forall|j: int| 0 <= j < kps@.len() ==> (#[trigger] kps@[j]).y < h,
            i <= kps@.len(),
            out@.len() == 4 * (w * h),
            forall|n: int, c: int| 0 <= n < w * h && 0 <= c < 4
                ==> #[trigger] out@[4 * n + c] as int == vis_channel(*img, kps@.take(i as int), n, c),
        decreases kps@.len() - i,
    {
        let kx = kps[i].x;
        let ky = kps[i].y;
        let ghost before = out@;
        if kx < w {
            proof {
                assert(ky * w + kx < w * h) by (nonlinear_arith) requires ky < h, kx < w;
            }
            let base = 4 * (ky * w + kx);
            out.set(base, 255);
            out.set(base + 1, 0);
            out.set(base + 2, 0);
        }
        proof {
            let t0 = kps@.take(i as int);
            let t1 = kps@.take(i + 1);
            assert forall|n: int| 0 <= n < w * h implies (marks(t1, w as int, n) == (marks(t0, w as int, n)
                || (kx < w && ky * w + kx == n))) by {
                if marks(t0, w as int, n) {
                    let j = choose|j: int| 0 <= j < t0.len() && t0[j].x < w && #[trigger] t0[j].y * w + t0[j].x == n;
                    assert(t1[j] == t0[j]);
                }
                if kx < w && ky * w + kx == n {
                    assert(t1[i as int] == kps@[i as int]);
                }
                if marks(t1, w as int, n) {
                    let j = choose|j: int| 0 <= j < t1.len() && t1[j].x < w && #[trigger] t1[j].y * w + t1[j].x == n;
                    if j < i {
                        assert(t0[j] == t1[j]);
                    }
                }
            }
            assert forall|n: int, c: int| 0 <= n < w * h && 0 <= c < 4
                implies #[trigger] out@[4 * n + c] as int == vis_channel(*img, t1, n, c) by {
                assert(before[4 * n + c] as int == vis_channel(*img, t0, n, c));
            }
        }
        i = i + 1;
    }
    proof {
        assert(kps@.take(kps@.len() as int) =~= kps@);
        assert(4 * (w * h) == 4 * w * h) by (nonlinear_arith);
    }
    out
}

} // verus!
