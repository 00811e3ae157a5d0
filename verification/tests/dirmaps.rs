use fprint::prune::remove_incon_dirs;
use fprint::smooth::{interpolate_direction_map, interpolation_weights, smooth_direction_map};
use std::cell::Cell;

fn valid_4nbrs(m: &[i32], w: i32, h: i32, x: i32, y: i32) -> i32 {
    let mut n = 0;
    for (dx, dy) in [(0, -1), (1, 0), (0, 1), (-1, 0)] {
        let (nx, ny) = (x + dx, y + dy);
        if nx >= 0 && nx < w && ny >= 0 && ny < h && m[(ny * w + nx) as usize] >= 0 {
            n += 1;
        }
    }
    n
}

#[test]
fn isolated_directions_are_pruned_and_the_rest_kept() {
    let mut map = vec![7, 7, -1, -1, -1, -1, -1, -1, 3];
    let isolated = |m: &[i32], x: i32, y: i32| valid_4nbrs(m, 3, 3, x, y) == 0;
    remove_incon_dirs(&mut map, 3, 3, &isolated);
    assert_eq!(map, vec![7, 7, -1, -1, -1, -1, -1, -1, -1]);
}

#[test]
fn removals_cascade_until_a_pass_removes_nothing() {
    // A block goes when the block to its left is missing; removing the leftmost exposes the next.
    let mut map = vec![1, 1, 1, 1, 1];
    let calls = Cell::new(0);
    let unsupported = |m: &[i32], x: i32, _y: i32| {
        calls.set(calls.get() + 1);
        x == 0 || m[(x - 1) as usize] < 0
    };
    remove_incon_dirs(&mut map, 5, 1, &unsupported);
    assert_eq!(map, vec![-1, -1, -1, -1, -1]);
    // Four passes: 5, 4, 3 and 0 blocks still valid when each starts.
    assert_eq!(calls.get(), 5 + 4 + 3);
}

#[test]
fn every_surviving_direction_is_kept_by_the_test() {
    let mut map = vec![2, -1, 4, 4, 4, 2, -1, 4, 9, -1, 2, 2];
    let before = map.clone();
    let lonely = |m: &[i32], x: i32, y: i32| valid_4nbrs(m, 4, 3, x, y) < 2;
    remove_incon_dirs(&mut map, 4, 3, &lonely);
    for y in 0..3 {
        for x in 0..4 {
            let k = (y * 4 + x) as usize;
            assert!(map[k] == before[k] || map[k] == -1);
            if map[k] != -1 {
                assert!(!lonely(&map, x, y));
            }
        }
    }
}

#[test]
fn smoothing_runs_in_place_in_raster_order() {
    let mut map = vec![5, 5, 5];
    let lc = vec![0, 0, 0];
    // The average reads the block to the left as already rewritten.
    let from_left = |m: &[i32], x: i32, _y: i32| {
        let d = if x == 0 { 0 } else { m[(x - 1) as usize] + 1 };
        (d, true, 8)
    };
    smooth_direction_map(&mut map, &lc, 3, 1, 3, 7, &from_left);
    assert_eq!(map, vec![0, 1, 2]);
}

#[test]
fn smoothing_skips_low_contrast_weak_and_sparse_blocks() {
    let mut map = vec![5, -1, 5, -1];
    let lc = vec![1, 0, 0, 0];
    let avg = |_m: &[i32], x: i32, _y: i32| match x {
        1 => (9, true, 6),
        2 => (9, false, 8),
        _ => (9, true, 8),
    };
    smooth_direction_map(&mut map, &lc, 4, 1, 3, 7, &avg);
    // Low contrast kept; invalid with 6 < 7 neighbours kept; weak kept; invalid with 8 filled.
    assert_eq!(map, vec![5, -1, 5, 9]);
}

#[test]
fn interpolation_weighs_nearer_neighbours_more() {
    let dm = vec![3, -1, -1, -1, 9];
    let lc = vec![0; 5];
    let (weights, total) = interpolation_weights(&dm, &lc, 1, 0, 5, 1);
    assert_eq!(weights, vec![(9, 1), (3, 3)]);
    assert_eq!(total, 4);
    let dm = vec![-1, 4, -1, -1, -1, 6, -1, -1, -1];
    let lc = vec![0; 9];
    let (weights, total) = interpolation_weights(&dm, &lc, 1, 1, 3, 3);
    assert_eq!(weights, vec![(4, 1), (6, 1)]);
    assert_eq!(total, 2);
}

#[test]
fn interpolation_stops_at_low_contrast_blocks() {
    let dm = vec![3, -1, -1, -1, 9];
    let lc = vec![0, 0, 0, 1, 0];
    let (weights, total) = interpolation_weights(&dm, &lc, 1, 0, 5, 1);
    assert_eq!(weights, vec![(3, 0)]);
    assert_eq!(total, 0);
}

#[test]
fn interpolation_reads_only_the_given_map() {
    let mut dm = vec![3, -1, -1, -1, 9];
    let lc = vec![0; 5];
    let rounded = |ws: &[(i32, i32)], total: i32| {
        let sum: i32 = ws.iter().map(|&(d, w)| d * w).sum();
        (sum + total / 2) / total
    };
    interpolate_direction_map(&mut dm, &lc, 5, 1, 2, &rounded);
    assert_eq!(dm, vec![3, 5, 6, 8, 9]);
}

#[test]
fn interpolation_needs_enough_neighbours() {
    let mut dm = vec![3, -1, -1, -1, 9];
    let lc = vec![0, 0, 0, 1, 0];
    let rounded = |_ws: &[(i32, i32)], _total: i32| 100;
    interpolate_direction_map(&mut dm, &lc, 5, 1, 2, &rounded);
    assert_eq!(dm, vec![3, -1, -1, -1, 9]);
}

#[test]
fn pruning_starts_at_the_centre_so_the_order_decides_what_survives() {
    // A block goes when a valid horizontal neighbour holds another direction.
    let differs = |m: &[i32], x: i32, _y: i32| {
        let v = m[x as usize];
        let left = if x > 0 { m[(x - 1) as usize] } else { -1 };
        let right = if x < 2 { m[(x + 1) as usize] } else { -1 };
        (left >= 0 && left != v) || (right >= 0 && right != v)
    };
    let mut map = vec![5, 1, 1];
    remove_incon_dirs(&mut map, 3, 1, &differs);
    // The centre is tested first and goes; its neighbours then have no valid neighbour left.
    assert_eq!(map, vec![5, -1, 1]);
}
