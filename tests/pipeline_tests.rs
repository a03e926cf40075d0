use orb_features::brief::{describe, Descriptor, DESC_BITS, DESC_WORDS};
use orb_features::corners::{detect, response_at, select_top, CornerParams, Keypoint};
use orb_features::image::{blur, blur_x, rgba_to_gray, GrayImage};
use orb_features::integral::build_integral;
use orb_features::matcher::{distance, match_frame, nearest, Match, MatchParams};
use orb_features::pipeline::{ConfigError, OrbConfig, OrbProgram};

fn params() -> CornerParams {
    CornerParams { threshold: 20, arc_length: 9, nms_radius: 3 }
}

fn open_matching() -> MatchParams {
    MatchParams { max_distance: 256, ratio_percent: 100 }
}

fn image_from(width: usize, height: usize, f: impl Fn(usize, usize) -> u8) -> GrayImage {
    let mut img = GrayImage::filled(width, height, 0);
    for y in 0..height {
        for x in 0..width {
            img.set(x, y, f(x, y));
        }
    }
    img
}

fn dots_image(width: usize, height: usize, dots: &[(usize, usize)], value: u8) -> GrayImage {
    let mut img = GrayImage::filled(width, height, 0);
    for &(x, y) in dots {
        img.set(x, y, value);
    }
    img
}

fn rgba_of(img: &GrayImage) -> Vec<u8> {
    let mut out = Vec::new();
    for y in 0..img.height {
        for x in 0..img.width {
            let v = img.get(x, y);
            out.extend_from_slice(&[v, v, v, 255]);
        }
    }
    out
}

fn descriptor(pattern: impl Fn(usize) -> bool) -> Descriptor {
    let mut words = vec![0u64; DESC_WORDS];
    for i in 0..DESC_BITS {
        if pattern(i) {
            words[i / 64] |= 1u64 << (i % 64);
        }
    }
    Descriptor { valid: true, words }
}

fn config(width: usize, height: usize, max_features: usize) -> OrbConfig {
    OrbConfig {
        max_features,
        max_matches: 64,
        width,
        height,
        corner: params(),
        matching: open_matching(),
    }
}

#[test]
fn gray_conversion_uses_integer_weights() {
    let rgba = vec![255, 255, 255, 0, 100, 0, 0, 255, 0, 100, 0, 7, 0, 0, 100, 9];
    let g = rgba_to_gray(2, 2, &rgba);
    assert_eq!(g.get(0, 0), 255);
    assert_eq!(g.get(1, 0), 30);
    assert_eq!(g.get(0, 1), 58);
    assert_eq!(g.get(1, 1), 11);
}

#[test]
fn horizontal_blur_clamps_edges() {
    let img = image_from(3, 1, |x, _| (4 * x) as u8);
    let b = blur_x(&img);
    assert_eq!(b.get(0, 0), 1);
    assert_eq!(b.get(1, 0), 4);
    assert_eq!(b.get(2, 0), 7);
}

#[test]
fn blur_of_a_dot_spreads_it() {
    let img = dots_image(5, 5, &[(2, 2)], 160);
    let b = blur(&img);
    assert_eq!(b.get(2, 2), 40);
    assert_eq!(b.get(1, 2), 20);
    assert_eq!(b.get(1, 1), 10);
    assert_eq!(b.get(0, 0), 0);
}

#[test]
fn integral_image_matches_brute_force() {
    let img = image_from(4, 3, |x, y| (x * 7 + y * 31 + 3) as u8);
    let table = build_integral(&img);
    for y in 0..3 {
        for x in 0..4 {
            let mut sum: u64 = 0;
            for j in 0..=y {
                for i in 0..=x {
                    sum += img.get(i, j) as u64;
                }
            }
            assert_eq!(table.get(x, y), sum);
        }
    }
    assert_eq!(table.get(3, 2), 534);
}

#[test]
fn uniform_image_has_no_keypoints() {
    let img = GrayImage::filled(32, 24, 137);
    assert!(detect(&img, params(), 100).is_empty());
}

#[test]
fn isolated_dots_are_exact_corners() {
    let dots = [(5, 5), (20, 5), (12, 14), (26, 18)];
    let img = dots_image(32, 24, &dots, 200);
    let kps = detect(&img, params(), 100);
    let mut coords: Vec<(usize, usize)> = kps.iter().map(|k| (k.x, k.y)).collect();
    assert_eq!(kps.len(), 4);
    assert!(kps.iter().all(|k| k.score == 16 * 200));
    assert_eq!(coords, vec![(5, 5), (12, 14), (20, 5), (26, 18)]);
    coords.sort();
    assert_eq!(coords, vec![(5, 5), (12, 14), (20, 5), (26, 18)]);
}

#[test]
fn response_is_ring_contrast() {
    let img = dots_image(9, 9, &[(4, 4)], 50);
    assert_eq!(response_at(&img, params(), 4, 4), 800);
    assert_eq!(response_at(&img, params(), 5, 4), 0);
    assert_eq!(response_at(&img, params(), 0, 0), 0);
}

#[test]
fn stronger_corner_ranks_first() {
    let img = {
        let mut i = dots_image(32, 24, &[(5, 5), (20, 10)], 100);
        i.set(20, 10, 220);
        i
    };
    let kps = detect(&img, params(), 10);
    assert_eq!(kps.len(), 2);
    assert_eq!((kps[0].x, kps[0].y, kps[0].score), (20, 10, 16 * 220));
    assert_eq!((kps[1].x, kps[1].y, kps[1].score), (5, 5, 16 * 100));
}

#[test]
fn truncation_keeps_best_four_of_ten() {
    let cands: Vec<Keypoint> = [(9, 1), (3, 7), (3, 2), (8, 8), (1, 9), (5, 5), (7, 0), (2, 6), (6, 4), (4, 3)]
        .iter()
        .map(|&(x, y)| Keypoint { x, y, score: 50 })
        .collect();
    let first = select_top(&cands, 4);
    let second = select_top(&cands, 4);
    let coords: Vec<(usize, usize)> = first.iter().map(|k| (k.x, k.y)).collect();
    assert_eq!(coords, vec![(1, 9), (2, 6), (3, 2), (3, 7)]);
    assert_eq!(first, second);
}

#[test]
fn truncation_prefers_score_over_coordinate() {
    let cands = vec![
        Keypoint { x: 1, y: 1, score: 5 },
        Keypoint { x: 9, y: 9, score: 7 },
        Keypoint { x: 4, y: 4, score: 6 },
    ];
    let top = select_top(&cands, 2);
    assert_eq!(top, vec![Keypoint { x: 9, y: 9, score: 7 }, Keypoint { x: 4, y: 4, score: 6 }]);
    assert!(select_top(&cands, 0).is_empty());
    assert_eq!(select_top(&cands, 10).len(), 3);
}

#[test]
fn detector_truncates_ten_equal_dots_to_four() {
    let dots: Vec<(usize, usize)> = (0..10).map(|i| (5 + 8 * (i % 5), 5 + 10 * (i / 5))).collect();
    let img = dots_image(44, 24, &dots, 120);
    assert_eq!(detect(&img, params(), 100).len(), 10);
    let kps = detect(&img, params(), 4);
    let coords: Vec<(usize, usize)> = kps.iter().map(|k| (k.x, k.y)).collect();
    assert_eq!(coords, vec![(5, 5), (5, 15), (13, 5), (13, 15)]);
    assert_eq!(detect(&img, params(), 4), kps);
}

#[test]
fn descriptor_bits_follow_gradient() {
    let img = image_from(40, 40, |x, _| x as u8);
    let table = build_integral(&img);
    let kps = vec![Keypoint { x: 20, y: 20, score: 1 }];
    let ds = describe(&img, &table, &kps);
    assert!(ds[0].valid);
    for i in 0..DESC_BITS {
        let first = (i * 37 + 5) % 17;
        let second = (i * 73 + 3) % 17;
        assert_eq!(ds[0].bit(i), first > second, "bit {}", i);
    }
    assert!(ds[0].words.iter().any(|&w| w != 0));
}

#[test]
fn descriptor_is_deterministic() {
    let img = image_from(48, 40, |x, y| ((x * 13 + y * 29 + x * y) % 251) as u8);
    let table = build_integral(&img);
    let kps = vec![Keypoint { x: 20, y: 18, score: 3 }, Keypoint { x: 30, y: 25, score: 2 }];
    let a = describe(&img, &table, &kps);
    let b = describe(&img, &table, &kps);
    for i in 0..2 {
        assert_eq!(a[i].valid, b[i].valid);
        assert_eq!(a[i].words, b[i].words);
    }
}

#[test]
fn border_keypoints_get_invalid_descriptors() {
    let img = image_from(40, 40, |x, _| x as u8);
    let table = build_integral(&img);
    let kps = vec![Keypoint { x: 10, y: 20, score: 1 }, Keypoint { x: 29, y: 20, score: 1 }, Keypoint { x: 11, y: 11, score: 1 }];
    let ds = describe(&img, &table, &kps);
    assert!(!ds[0].valid);
    assert!(ds[0].words.iter().all(|&w| w == 0));
    assert!(!ds[1].valid);
    assert!(ds[2].valid);
}

#[test]
fn hamming_distance_counts_differing_bits() {
    let a = descriptor(|i| i % 2 == 0);
    let b = descriptor(|i| i % 4 == 0);
    assert_eq!(distance(&a, &b), 64);
    assert_eq!(distance(&a, &a), 0);
}

#[test]
fn self_matching_finds_itself_at_zero() {
    let ds: Vec<Descriptor> = (0..5).map(|k| descriptor(move |i| (i * (k + 3)) % 7 < k + 1)).collect();
    let ms = match_frame(&ds, &ds, open_matching(), 64);
    assert_eq!(ms.len(), 5);
    for (i, m) in ms.iter().enumerate() {
        assert_eq!(*m, Match { query: i, reference: i, distance: 0 });
    }
}

#[test]
fn nearest_prefers_earliest_among_equals() {
    let q = descriptor(|i| i < 10);
    let refs = vec![descriptor(|i| i < 12), descriptor(|i| i < 8), descriptor(|i| i < 40)];
    assert_eq!(nearest(&q, &refs), Some((0, 2, Some(2))));
}

#[test]
fn ratio_and_distance_tests_reject() {
    let q = vec![descriptor(|i| i < 10)];
    let refs = vec![descriptor(|i| i < 14), descriptor(|i| i < 15)];
    let strict = MatchParams { max_distance: 256, ratio_percent: 50 };
    assert!(match_frame(&q, &refs, strict, 8).is_empty());
    let loose = MatchParams { max_distance: 256, ratio_percent: 90 };
    assert_eq!(match_frame(&q, &refs, loose, 8), vec![Match { query: 0, reference: 0, distance: 4 }]);
    let near = MatchParams { max_distance: 3, ratio_percent: 100 };
    assert!(match_frame(&q, &refs, near, 8).is_empty());
}

#[test]
fn matches_sorted_by_distance_then_query_and_truncated() {
    let refs = vec![descriptor(|_| false)];
    let qs = vec![descriptor(|i| i < 5), descriptor(|i| i < 2), descriptor(|i| i < 5), descriptor(|i| i < 1)];
    let ms = match_frame(&qs, &refs, open_matching(), 3);
    assert_eq!(
        ms,
        vec![
            Match { query: 3, reference: 0, distance: 1 },
            Match { query: 1, reference: 0, distance: 2 },
            Match { query: 0, reference: 0, distance: 5 },
        ]
    );
}

#[test]
fn invalid_descriptors_take_no_part_in_matching() {
    let mut skipped = descriptor(|_| false);
    skipped.valid = false;
    let refs = vec![skipped, descriptor(|i| i < 3)];
    let qs = vec![descriptor(|_| false), Descriptor { valid: false, words: vec![0; DESC_WORDS] }];
    assert_eq!(match_frame(&qs, &refs, open_matching(), 8), vec![Match { query: 0, reference: 1, distance: 3 }]);
}

#[test]
fn construction_rejects_degenerate_configs() {
    assert_eq!(OrbProgram::init(config(32, 24, 0)).err(), Some(ConfigError::ZeroFeatures));
    assert_eq!(OrbProgram::init(config(0, 24, 8)).err(), Some(ConfigError::ZeroWidth));
    assert_eq!(OrbProgram::init(config(32, 0, 8)).err(), Some(ConfigError::ZeroHeight));
    let mut c = config(32, 24, 8);
    c.max_matches = 0;
    assert_eq!(OrbProgram::init(c).err(), Some(ConfigError::ZeroMatches));
    let mut c = config(32, 24, 8);
    c.corner.arc_length = 17;
    assert_eq!(OrbProgram::init(c).err(), Some(ConfigError::BadArcLength));
    assert_eq!(OrbProgram::init(config(1 << 14, 1 << 13, 8)).err(), Some(ConfigError::ImageTooLarge));
    assert!(OrbProgram::init(config(32, 24, 8)).is_ok());
}

#[test]
fn pipeline_detects_blurred_dots() {
    let dots = [(8, 8), (24, 16)];
    let frame = rgba_of(&dots_image(40, 30, &dots, 255));
    let mut prog = OrbProgram::init(config(40, 30, 16)).ok().unwrap();
    prog.run(&frame, false);
    let coords: Vec<(usize, usize)> = prog.keypoints.iter().map(|k| (k.x, k.y)).collect();
    assert_eq!(coords, vec![(8, 8), (24, 16)]);
    assert_eq!(prog.keypoint_count(), 2);
    assert_eq!(prog.match_count(), 0);
}

#[test]
fn keyframe_replacement_is_whole() {
    let first = rgba_of(&dots_image(48, 40, &[(20, 20)], 255));
    let second = {
        let mut img = dots_image(48, 40, &[(16, 14), (30, 25)], 255);
        img.set(33, 27, 40);
        img.set(34, 27, 40);
        rgba_of(&img)
    };
    let mut prog = OrbProgram::init(config(48, 40, 16)).ok().unwrap();
    prog.run(&first, true);
    assert_eq!(prog.keyframe.keypoints, prog.keypoints);
    assert_eq!(prog.keyframe.keypoints.len(), 1);
    assert_eq!(prog.matches, vec![Match { query: 0, reference: 0, distance: 0 }]);
    prog.run(&second, false);
    assert_eq!(prog.keyframe.keypoints.len(), 1);
    assert_eq!(prog.keypoints.len(), 2);
    assert!(prog.matches.iter().all(|m| m.reference == 0));
    prog.run(&second, true);
    assert_eq!(prog.keyframe.keypoints, prog.keypoints);
    assert_eq!(prog.keyframe.descriptors.len(), 2);
    for i in 0..2 {
        assert_eq!(prog.keyframe.descriptors[i].words, prog.descriptors[i].words);
    }
    assert_eq!(prog.matches.len(), 2);
    assert!(prog.matches.iter().all(|m| m.query == m.reference && m.distance == 0));
}

#[test]
fn visualization_paints_keypoints_red() {
    let frame = rgba_of(&dots_image(40, 30, &[(8, 8)], 255));
    let mut prog = OrbProgram::init(config(40, 30, 16)).ok().unwrap();
    prog.run(&frame, false);
    let vis = prog.visualization();
    assert_eq!(vis.len(), 4 * 40 * 30);
    let at = |x: usize, y: usize| {
        let n = 4 * (y * 40 + x);
        [vis[n], vis[n + 1], vis[n + 2], vis[n + 3]]
    };
    assert_eq!(at(8, 8), [255, 0, 0, 255]);
    let v = prog.blurred.get(9, 8);
    assert_eq!(v, 32);
    assert_eq!(at(9, 8), [v, v, v, 255]);
    assert_eq!(at(0, 0), [0, 0, 0, 255]);
}

#[test]
fn descriptor_bits_are_packed_low_bit_first() {
    let d = descriptor(|i| i == 0 || i == 65 || i == 255);
    assert_eq!(d.words, vec![1, 2, 0, 1u64 << 63]);
    assert!(d.bit(65));
    assert!(!d.bit(64));
}

#[test]
fn uniform_frame_yields_nothing_through_pipeline() {
    let frame = rgba_of(&GrayImage::filled(40, 30, 90));
    let mut prog = OrbProgram::init(config(40, 30, 16)).ok().unwrap();
    prog.run(&frame, true);
    assert_eq!(prog.keypoint_count(), 0);
    assert!(prog.keyframe.keypoints.is_empty());
    assert_eq!(prog.match_count(), 0);
}
