use fprint::bytes::{ByteSource, Lcg};
use fprint::fuzz::{well_separated, Bytes};
use fprint::gen::{gray_image, xyt, xyt_jittered, THETA_MAX, THETA_MIN};
use fprint::matcher::{best_score, identify_best, match_outcome, MatchScore};

#[test]
fn the_same_seed_gives_the_same_bytes() {
    let mut a = Lcg::new(42);
    let mut b = Lcg::new(42);
    let (mut x, mut y) = ([0u8; 64], [0u8; 64]);
    a.fill(&mut x);
    b.fill(&mut y);
    assert_eq!(x, y);
    assert_eq!(a.seed(), 42);
}

#[test]
fn different_seeds_diverge() {
    let (mut a, mut b) = (Lcg::new(1), Lcg::new(2));
    let (mut x, mut y) = ([0u8; 64], [0u8; 64]);
    a.fill(&mut x);
    b.fill(&mut y);
    assert_ne!(x, y);
}

#[test]
fn fill_covers_lengths_that_are_not_a_multiple_of_eight() {
    for len in 0..24usize {
        let mut buf = vec![0xAAu8; len];
        Lcg::new(7).fill(&mut buf);
        assert_eq!(buf.len(), len);
    }
}

#[test]
fn fill_takes_each_word_little_endian_from_the_next_state() {
    let mut buf = [0u8; 10];
    Lcg::new(0).fill(&mut buf);
    let s1: u64 = 1_442_695_040_888_963_407;
    let s2 = s1
        .wrapping_mul(6_364_136_223_846_793_005)
        .wrapping_add(1_442_695_040_888_963_407);
    assert_eq!(&buf[..8], &s1.to_le_bytes());
    assert_eq!(&buf[8..], &s2.to_le_bytes()[..2]);
}

#[test]
fn in_range_stays_in_range() {
    let mut lcg = Lcg::new(9);
    for _ in 0..2000 {
        let v = lcg.in_range(-5, 5);
        assert!((-5..=5).contains(&v), "{v} outside -5..=5");
    }
    assert_eq!(lcg.in_range(3, 3), 3);
    for _ in 0..2000 {
        let _ = lcg.in_range(i32::MIN, i32::MAX);
        let v = lcg.in_range(i32::MIN, 0);
        assert!(v <= 0, "{v} above 0");
        let v = lcg.in_range(0, i32::MAX);
        assert!(v >= 0, "{v} below 0");
    }
}

#[test]
fn ratio_bounds_are_never_and_always() {
    let mut lcg = Lcg::new(11);
    for _ in 0..200 {
        assert!(!lcg.ratio(0, 4), "0/4 must never fire");
        assert!(lcg.ratio(4, 4), "4/4 must always fire");
    }
}

#[test]
fn xyt_stays_inside_the_field_and_the_angle_range() {
    let mut lcg = Lcg::new(3);
    let m = xyt(&mut lcg, 200, 100, 80);
    assert_eq!(m.len(), 200);
    for (x, y, t) in m {
        assert!((0..=100).contains(&x), "x {x}");
        assert!((0..=80).contains(&y), "y {y}");
        assert!((THETA_MIN..=THETA_MAX).contains(&t), "theta {t}");
    }
}

#[test]
fn xyt_is_reproducible_from_its_seed() {
    assert_eq!(
        xyt(&mut Lcg::new(5), 32, 200, 200),
        xyt(&mut Lcg::new(5), 32, 200, 200)
    );
}

#[test]
fn xyt_jittered_stays_non_negative_and_in_angle_range() {
    let mut lcg = Lcg::new(8);
    let base = vec![(0, 0, 0); 64];
    for (x, y, t) in xyt_jittered(&mut lcg, &base, 5) {
        assert!(x >= 0 && y >= 0, "jitter went negative: ({x}, {y})");
        assert!((0..360).contains(&t), "theta {t}");
    }
}

#[test]
fn gray_image_is_exactly_width_times_height() {
    let mut lcg = Lcg::new(2);
    assert_eq!(gray_image(&mut lcg, 16, 9).len(), 144);
    assert_eq!(gray_image(&mut lcg, 0, 9).len(), 0);
    assert_eq!(gray_image(&mut lcg, 16, 0).len(), 0);
}

#[test]
fn fuzz_bytes_copy_the_input_then_pad_with_zeros() {
    let data = [1u8, 2, 3];
    let mut u = arbitrary::Unstructured::new(&data);
    let mut src = Bytes(&mut u);
    let mut buf = [9u8; 5];
    src.fill(&mut buf);
    assert_eq!(buf, [1, 2, 3, 0, 0]);
    assert_eq!(src.u8(), 0);
}

#[test]
fn well_separated_checks_every_pair() {
    assert!(well_separated(&[(0, 0, 0), (8, 0, 90), (0, 8, 180)]));
    assert!(!well_separated(&[(0, 0, 0), (8, 0, 90), (3, 4, 180)]));
    assert!(well_separated(&[]));
}

#[test]
fn accepts_needs_a_score_at_or_over_threshold() {
    assert!(MatchScore::Scored(50).accepts(40));
    assert!(MatchScore::Scored(40).accepts(40));
    assert!(!MatchScore::Scored(39).accepts(40));
    assert!(!MatchScore::Incomparable.accepts(0));
}

#[test]
fn two_templates_are_scored_even_when_empty() {
    assert_eq!(match_outcome(true, &[]), MatchScore::Scored(0));
    assert_eq!(match_outcome(true, &[]).score(), Some(0));
    assert_eq!(match_outcome(false, &[7]), MatchScore::Incomparable);
    assert_eq!(match_outcome(false, &[7]).score(), None);
    assert_eq!(best_score(&[3, 9, 4]), 9);
}

#[test]
fn identify_picks_the_first_best_above_the_threshold() {
    let scores = [
        MatchScore::Scored(10),
        MatchScore::Incomparable,
        MatchScore::Scored(42),
        MatchScore::Scored(42),
        MatchScore::Scored(30),
    ];
    assert_eq!(identify_best(&scores, 20), Some(2));
    assert_eq!(identify_best(&scores, 50), None);
    assert_eq!(identify_best(&[MatchScore::Incomparable], 0), None);
}

#[test]
fn fuzz_bytes_read_words_little_endian() {
    let data = [1u8, 2, 3, 4, 9];
    let mut u = arbitrary::Unstructured::new(&data);
    let mut src = Bytes(&mut u);
    assert_eq!(src.u32(), 0x0403_0201);
    assert_eq!(src.u8(), 9);
    assert_eq!(src.u32(), 0);
}

#[test]
fn generators_draw_their_values_from_the_source() {
    let data = [5u8, 0, 0, 0, 7, 0, 0, 0, 10, 0, 0, 0];
    let mut u = arbitrary::Unstructured::new(&data);
    let mut src = Bytes(&mut u);
    assert_eq!(xyt(&mut src, 1, 100, 100), vec![(5, 7, 10)]);

    let data = [0u8, 0, 0, 0, 6, 0, 0, 0, 1, 0, 0, 0];
    let mut u = arbitrary::Unstructured::new(&data);
    let mut src = Bytes(&mut u);
    assert_eq!(xyt_jittered(&mut src, &[(10, 10, 10)], 3), vec![(7, 13, 8)]);

    let data = [1u8, 2, 3];
    let mut u = arbitrary::Unstructured::new(&data);
    let mut src = Bytes(&mut u);
    assert_eq!(gray_image(&mut src, 2, 2), vec![1, 2, 3, 0]);
}
