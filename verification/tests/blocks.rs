use fprint::consts::{
    curve_params_v2, DFT_COEFS, MAP_BLOCKSIZE_V2, MAP_WINDOWOFFSET_V2, MAP_WINDOWSIZE_V2,
    MAX_MINUTIAE, NUM_DFT_WAVES, NUM_DIRECTIONS, PAD_VALUE, TRUNC_SCALE,
};
use fprint::maps::{
    accum_nbr_vorticity, curvature, find_valid_block, gen_high_curve_map, morph_tf_map,
    neighbor_dirs, num_valid_8nbrs, set_margin_blocks, sum_rot_block_rows, vorticity,
};
use fprint::quality::{gen_quality_map, neighborhood_sums};
use fprint::util::{closest_dir_dist, minmaxs};

const INVALID_DIR: i32 = -1;

#[test]
fn named_fixed_values() {
    assert_eq!(PAD_VALUE, 128);
    assert_eq!(NUM_DIRECTIONS, 16);
    assert_eq!(NUM_DFT_WAVES, 4);
    assert_eq!(MAX_MINUTIAE, 1000);
    assert_eq!(f64::from(TRUNC_SCALE), 16384.0);
    assert_eq!(MAP_BLOCKSIZE_V2, 8);
    assert_eq!(MAP_WINDOWSIZE_V2, 24);
    assert_eq!(MAP_WINDOWOFFSET_V2, 8);
}

#[test]
fn dft_coefs_match_globals() {
    assert_eq!(DFT_COEFS.map(f64::from), [1.0, 2.0, 3.0, 4.0]);
    assert_eq!(DFT_COEFS.len(), NUM_DFT_WAVES as usize);
}

#[test]
fn v2_window_geometry_invariant() {
    assert_eq!(MAP_WINDOWSIZE_V2, MAP_BLOCKSIZE_V2 + 2 * MAP_WINDOWOFFSET_V2);
}

#[test]
fn closest_dir_dist_wraps() {
    assert_eq!(closest_dir_dist(2, 14, 16), 4);
    assert_eq!(closest_dir_dist(0, 8, 16), 8);
    assert_eq!(closest_dir_dist(3, 3, 16), 0);
    assert_eq!(closest_dir_dist(-1, 5, 16), -1);
    assert_eq!(closest_dir_dist(5, -1, 16), -1);
}

#[test]
fn closest_dir_dist_wraps_and_guards() {
    assert_eq!(closest_dir_dist(1, 15, 16), 2);
    assert_eq!(closest_dir_dist(3, 5, 16), 2);
    assert_eq!(closest_dir_dist(-1, 5, 16), INVALID_DIR);
}

#[test]
fn closest_dir_dist_is_symmetric() {
    for a in 0..16 {
        for b in 0..16 {
            assert_eq!(closest_dir_dist(a, b, 16), closest_dir_dist(b, a, 16));
            assert!((0..=8).contains(&closest_dir_dist(a, b, 16)));
        }
    }
}

#[test]
fn accum_nbr_vorticity_signs() {
    let mut v = 0;
    accum_nbr_vorticity(&mut v, 2, 4, 16);
    assert_eq!(v, 1);
    accum_nbr_vorticity(&mut v, 8, 3, 16);
    assert_eq!(v, 0);
    accum_nbr_vorticity(&mut v, 5, 5, 16);
    accum_nbr_vorticity(&mut v, -1, 5, 16);
    assert_eq!(v, 0);
}

#[test]
fn num_valid_8nbrs_counts_in_bounds() {
    let all_valid = vec![0i32; 9];
    assert_eq!(num_valid_8nbrs(&all_valid, 1, 1, 3, 3), 8);
    assert_eq!(num_valid_8nbrs(&all_valid, 0, 0, 3, 3), 3);
    let mut m = vec![INVALID_DIR; 9];
    m[4] = 0;
    assert_eq!(num_valid_8nbrs(&m, 0, 0, 3, 3), 1);
}

#[test]
fn neighbor_dirs_reads_the_ring_from_north_west() {
    let m: Vec<i32> = (0..9).collect();
    assert_eq!(neighbor_dirs(&m, 1, 1, 3, 3), [0, 1, 2, 5, 8, 7, 6, 3]);
    assert_eq!(
        neighbor_dirs(&m, 0, 0, 3, 3),
        [INVALID_DIR, INVALID_DIR, INVALID_DIR, 1, 4, 3, INVALID_DIR, INVALID_DIR]
    );
}

#[test]
fn vorticity_of_a_whirl_and_curvature_of_a_bend() {
    // Directions turning steadily clockwise around the centre.
    let m = vec![0, 2, 4, 14, 9, 6, 12, 10, 8];
    assert_eq!(vorticity(&m, 1, 1, 3, 3, 16), 8);
    // The centre (9) is 7 away from 2 the short way round, and no neighbour is farther.
    assert_eq!(curvature(&m, 1, 1, 3, 3, 16), 7);
    let invalid = vec![INVALID_DIR; 9];
    assert_eq!(curvature(&invalid, 1, 1, 3, 3, 16), -1);
}

#[test]
fn high_curve_map_flags_a_bent_block() {
    let m = vec![0, 2, 4, 14, 9, 6, 12, 10, 8];
    let p = curve_params_v2();
    let hc = gen_high_curve_map(&m, 3, 3, &p);
    assert_eq!(hc[4], 1);
    let flat = vec![3i32; 9];
    assert!(gen_high_curve_map(&flat, 3, 3, &p).iter().all(|&v| v == 0));
}

#[test]
fn set_margin_blocks_sets_perimeter() {
    let mut m = vec![5i32; 16];
    set_margin_blocks(&mut m, 4, 4, -1);
    let expected = vec![
        -1, -1, -1, -1,
        -1,  5,  5, -1,
        -1,  5,  5, -1,
        -1, -1, -1, -1,
    ];
    assert_eq!(m, expected);
}

#[test]
fn morph_tf_map_closes_hole() {
    let mut map = vec![1i32; 25];
    map[12] = 0;
    morph_tf_map(&mut map, 5, 5);
    assert_eq!(map[12], 1, "center hole should be closed");
    let mut full = vec![1i32; 25];
    morph_tf_map(&mut full, 5, 5);
    assert!(full.iter().all(|&v| v == 1));
}

#[test]
fn find_valid_block_stops_at_low_contrast() {
    let dm = vec![INVALID_DIR, INVALID_DIR, 7, INVALID_DIR, INVALID_DIR];
    let lc = vec![0, 0, 0, 1, 0];
    assert_eq!(find_valid_block(&dm, &lc, (0, 0), (5, 1), (1, 0)), Some((7, 2, 0)));
    assert_eq!(find_valid_block(&dm, &lc, (4, 0), (5, 1), (-1, 0)), None);
    assert_eq!(find_valid_block(&dm, &lc, (2, 0), (5, 1), (0, 1)), None);
}

#[test]
fn sum_rot_block_rows_sums_each_row() {
    let pdata: Vec<u8> = (0..16).collect();
    let grid: Vec<i32> = vec![0, 1, 4, 5];
    let mut rows = vec![99i32; 3];
    sum_rot_block_rows(&mut rows, &pdata, 2, &grid, 2);
    assert_eq!(rows, vec![2 + 3, 6 + 7, 99]);
}

fn flat(val: i32, w: i32, h: i32) -> Vec<i32> {
    vec![val; (w * h) as usize]
}

#[test]
fn low_contrast_or_invalid_dir_is_zero() {
    let (w, h) = (5, 5);
    let mut low_contrast = flat(0, w, h);
    low_contrast[0] = 1;
    let mut dir = flat(0, w, h);
    dir[(4 * w + 4) as usize] = -1;
    let q = gen_quality_map(&dir, &low_contrast, &flat(0, w, h), &flat(0, w, h), w, h);
    assert_eq!(q[0], 0);
    assert_eq!(q[(4 * w + 4) as usize], 0);
}

#[test]
fn all_good_interior_is_four_edges_are_one() {
    let (w, h) = (5, 5);
    let q = gen_quality_map(&flat(0, w, h), &flat(0, w, h), &flat(0, w, h), &flat(0, w, h), w, h);
    assert_eq!(q[(2 * w + 2) as usize], 4);
    assert_eq!(q[0], 1);
    assert_eq!(q[(w * h - 1) as usize], 1);
}

#[test]
fn neighbor_low_contrast_subtracts_two() {
    let (w, h) = (5, 5);
    let mut low_contrast = flat(0, w, h);
    low_contrast[0] = 1;
    let q = gen_quality_map(&flat(0, w, h), &low_contrast, &flat(0, w, h), &flat(0, w, h), w, h);
    assert_eq!(q[(2 * w + 2) as usize], 2);
}

#[test]
fn neighbor_low_flow_subtracts_one() {
    let (w, h) = (5, 5);
    let mut low_flow = flat(0, w, h);
    low_flow[0] = 1;
    let q = gen_quality_map(&flat(0, w, h), &flat(0, w, h), &low_flow, &flat(0, w, h), w, h);
    assert_eq!(q[(2 * w + 2) as usize], 3);
}

#[test]
fn own_low_flow_counts_as_its_own_neighbor() {
    let (w, h) = (5, 5);
    let mut low_flow = flat(0, w, h);
    low_flow[(2 * w + 2) as usize] = 1;
    let q = gen_quality_map(&flat(0, w, h), &flat(0, w, h), &low_flow, &flat(0, w, h), w, h);
    assert_eq!(q[(2 * w + 2) as usize], 2);
}

#[test]
fn quality_levels_stay_within_zero_to_four() {
    let (w, h) = (7, 6);
    let dir: Vec<i32> = (0..w * h).map(|k| if k % 5 == 0 { -1 } else { k % 16 }).collect();
    let lc: Vec<i32> = (0..w * h).map(|k| i32::from(k % 11 == 0)).collect();
    let lf: Vec<i32> = (0..w * h).map(|k| i32::from(k % 3 == 0)).collect();
    let hc: Vec<i32> = (0..w * h).map(|k| i32::from(k % 7 == 0)).collect();
    let q = gen_quality_map(&dir, &lc, &lf, &hc, w, h);
    assert_eq!(q.len(), (w * h) as usize);
    assert!(q.iter().all(|&v| (0..=4).contains(&v)));
}

#[test]
fn minmaxs_finds_a_single_minimum() {
    let items = [5, 3, 1, 3, 5];
    let mm = minmaxs(&items);
    assert_eq!(mm.idx.len(), 1);
    assert_eq!(mm.kind[0], -1);
    assert_eq!(mm.idx[0], 1);
    assert_eq!(mm.val[0], 3);
}

#[test]
fn minmaxs_ignores_short_sequences() {
    assert_eq!(minmaxs(&[1, 2]).idx.len(), 0);
}

#[test]
fn minmaxs_alternates_minima_and_maxima() {
    let items = [0, 0, 0, 4, 4, 1, 1, 1, 6, 2];
    let mm = minmaxs(&items);
    // The level head of three points yields a minimum at its midpoint, then a maximum, a minimum
    // and a maximum at the midpoints of the runs that precede each turn.
    assert_eq!(mm.kind, vec![-1, 1, -1, 1]);
    assert_eq!(mm.idx, vec![1, 3, 5, 7]);
    assert_eq!(mm.val, vec![0, 4, 1, 1]);
    assert!(mm.idx.windows(2).all(|p| p[0] < p[1]));
}

#[test]
fn neighbourhood_sums_cover_the_square_or_nothing_at_the_border() {
    // 5x5 image whose pixel at (x, y) is 10 * y + x.
    let img: Vec<u8> = (0..25).map(|k| (10 * (k / 5) + k % 5) as u8).collect();
    let (n, s, q) = neighborhood_sums(2, 2, &img, 5, 5, 1).unwrap();
    let mut want_s = 0i64;
    let mut want_q = 0i64;
    for y in 1..=3 {
        for x in 1..=3 {
            let p = (10 * y + x) as i64;
            want_s += p;
            want_q += p * p;
        }
    }
    assert_eq!((n, s, q), (9, want_s, want_q));
    assert_eq!(neighborhood_sums(0, 2, &img, 5, 5, 1), None);
    assert_eq!(neighborhood_sums(2, 4, &img, 5, 5, 1), None);
    assert_eq!(neighborhood_sums(2, 2, &img, 5, 5, 2).map(|t| t.0), Some(25));
    assert_eq!(neighborhood_sums(1, 1, &img, 5, 5, 0), Some((1, 11, 121)));
}

#[test]
fn minmaxs_marks_each_turn_at_the_midpoint_of_its_run() {
    // Rise into a plateau at 1..=3, fall, then rise again from index 4.
    let mm = minmaxs(&[1, 3, 3, 3, 1, 2]);
    assert_eq!(mm.idx, vec![1, 3]);
    assert_eq!(mm.kind, vec![1, -1]);
    assert_eq!(mm.val, vec![3, 3]);
    // A level head longer than one step turns too.
    let mm = minmaxs(&[2, 2, 2, 5]);
    assert_eq!((mm.idx, mm.kind), (vec![1], vec![-1]));
}
