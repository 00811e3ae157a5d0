use fprint::chaincod::{chain_code_loop, is_chain_clockwise, FALSE, TRUE};
use fprint::contour::{
    contour_limits, fix_edge_pixel_pair, get_centered_contour, get_high_curvature_contour,
    next_contour_pixel, next_scan_nbr, search_contour, start_scan_nbr, trace_contour,
    CenteredContour, HighCurvatureContour, ScanDir, TraceResult, EAST, INVALID_DIR, NORTH, SOUTH,
    WEST,
};

fn half_plane() -> (Vec<u8>, i32, i32) {
    let iw = 5;
    let ih = 5;
    let mut b = vec![0u8; (iw * ih) as usize];
    for y in 2..ih {
        for x in 0..iw {
            b[(y * iw + x) as usize] = 1;
        }
    }
    (b, iw, ih)
}

fn block_3x3() -> (Vec<u8>, i32, i32) {
    let iw = 5;
    let ih = 5;
    let mut b = vec![0u8; (iw * ih) as usize];
    for y in 1..=3 {
        for x in 1..=3 {
            b[(y * iw + x) as usize] = 1;
        }
    }
    (b, iw, ih)
}

#[test]
fn scan_nbr_cardinal_directions() {
    assert_eq!(start_scan_nbr(2, 2, 2, 3), SOUTH);
    assert_eq!(start_scan_nbr(2, 2, 2, 1), NORTH);
    assert_eq!(start_scan_nbr(2, 2, 3, 2), EAST);
    assert_eq!(start_scan_nbr(2, 2, 1, 2), WEST);
    assert_eq!(start_scan_nbr(2, 2, 3, 3), INVALID_DIR);
}

#[test]
fn next_scan_nbr_wraps_both_ways() {
    assert_eq!(next_scan_nbr(0, ScanDir::Clockwise), 1);
    assert_eq!(next_scan_nbr(7, ScanDir::Clockwise), 0);
    assert_eq!(next_scan_nbr(0, ScanDir::CounterClockwise), 7);
    assert_eq!(next_scan_nbr(7, ScanDir::CounterClockwise), 6);
}

#[test]
fn next_contour_pixel_walks_along_a_straight_edge() {
    let (b, iw, ih) = half_plane();
    assert_eq!(
        next_contour_pixel(2, 2, 2, 1, ScanDir::Clockwise, &b, iw, ih),
        Some((3, 2, 3, 1))
    );
    assert_eq!(
        next_contour_pixel(2, 2, 2, 1, ScanDir::CounterClockwise, &b, iw, ih),
        Some((1, 2, 1, 1))
    );
}

#[test]
fn next_contour_pixel_none_for_isolated_pixel() {
    let iw = 5;
    let ih = 5;
    let mut b = vec![0u8; (iw * ih) as usize];
    b[(2 * iw + 2) as usize] = 1;
    assert_eq!(
        next_contour_pixel(2, 2, 2, 1, ScanDir::Clockwise, &b, iw, ih),
        None
    );
}

#[test]
fn trace_contour_ignores_same_colored_pair() {
    let (b, iw, ih) = half_plane();
    assert_eq!(
        trace_contour(4, 2, 2, 2, 2, 2, 3, ScanDir::Clockwise, &b, iw, ih),
        TraceResult::Ignore
    );
}

#[test]
fn trace_contour_stops_short_at_image_edge() {
    let (b, iw, ih) = half_plane();
    let res = trace_contour(4, 2, 2, 2, 2, 2, 1, ScanDir::Clockwise, &b, iw, ih);
    let TraceResult::Traced(c) = res else {
        panic!("expected a short traced contour, got {res:?}");
    };
    assert_eq!(c.x, vec![3, 4]);
    assert_eq!(c.y, vec![2, 2]);
    assert_eq!(c.ex, vec![3, 4]);
    assert_eq!(c.ey, vec![1, 1]);
}

#[test]
fn trace_contour_detects_a_loop_around_a_block() {
    let (b, iw, ih) = block_3x3();
    let res = trace_contour(20, 1, 1, 1, 1, 1, 0, ScanDir::Clockwise, &b, iw, ih);
    let TraceResult::Loop(c) = res else {
        panic!("expected a loop, got {res:?}");
    };
    assert_eq!(c.x, vec![2, 3, 3, 3, 2, 1, 1]);
    assert_eq!(c.y, vec![1, 1, 2, 3, 3, 3, 2]);
}

#[test]
fn search_contour_finds_and_misses() {
    let (b, iw, ih) = block_3x3();
    assert!(search_contour(3, 1, 8, 1, 1, 1, 0, ScanDir::Clockwise, &b, iw, ih));
    assert!(!search_contour(4, 4, 8, 1, 1, 1, 0, ScanDir::Clockwise, &b, iw, ih));
}

#[test]
fn contour_limits_bounds_the_points() {
    let x = [3, 1, 4, 1, 5];
    let y = [2, 7, 1, 8, 2];
    assert_eq!(contour_limits(&x, &y), (1, 1, 5, 8));
}

#[test]
fn fix_edge_pixel_pair_leaves_cardinal_pairs_untouched() {
    let (b, iw, _) = half_plane();
    assert_eq!(fix_edge_pixel_pair(2, 2, 2, 1, &b, iw), (2, 2, 2, 1));
}

#[test]
fn fix_edge_pixel_pair_shifts_edge_off_the_diagonal() {
    let iw = 5;
    let ih = 5;
    let mut b = vec![0u8; (iw * ih) as usize];
    b[(2 * iw + 2) as usize] = 1;
    assert_eq!(fix_edge_pixel_pair(2, 2, 3, 1, &b, iw), (2, 2, 2, 1));
}

#[test]
fn fix_edge_pixel_pair_shifts_feature_on_exposed_corner() {
    let iw = 5;
    let ih = 5;
    let mut b = vec![0u8; (iw * ih) as usize];
    for &(x, y) in &[(2, 2), (2, 1), (3, 2)] {
        b[(y * iw + x) as usize] = 1;
    }
    assert_eq!(fix_edge_pixel_pair(2, 2, 3, 1, &b, iw), (2, 1, 3, 1));
}

#[test]
fn get_centered_contour_concatenates_two_halves() {
    let (b, iw, ih) = half_plane();
    let res = get_centered_contour(1, 2, 2, 2, 1, &b, iw, ih);
    let CenteredContour::Complete(c) = res else {
        panic!("expected a centered contour, got {res:?}");
    };
    assert_eq!(c.x, vec![3, 2, 1]);
    assert_eq!(c.y, vec![2, 2, 2]);
    assert_eq!(c.len(), 3);
}

#[test]
fn get_centered_contour_incomplete_when_edge_too_close() {
    let (b, iw, ih) = half_plane();
    assert_eq!(
        get_centered_contour(3, 2, 2, 2, 1, &b, iw, ih),
        CenteredContour::Incomplete
    );
}

#[test]
fn get_centered_contour_ignores_same_colored_pair() {
    let (b, iw, ih) = half_plane();
    assert_eq!(
        get_centered_contour(1, 2, 2, 2, 3, &b, iw, ih),
        CenteredContour::Ignore
    );
}

#[test]
fn high_curvature_contour_on_a_block_corner_loops() {
    let (b, iw, ih) = block_3x3();
    let res = get_high_curvature_contour(8, 1, 1, 1, 0, &b, iw, ih);
    assert!(matches!(res, HighCurvatureContour::Loop(_)), "got {res:?}");
}

#[test]
fn high_curvature_contour_of_a_same_colored_pair_is_empty() {
    let (b, iw, ih) = half_plane();
    assert_eq!(
        get_high_curvature_contour(1, 2, 2, 2, 3, &b, iw, ih),
        HighCurvatureContour::Empty
    );
}

const SQUARE_X: [i32; 8] = [0, 1, 2, 2, 2, 1, 0, 0];
const SQUARE_Y: [i32; 8] = [0, 0, 0, 1, 2, 2, 2, 1];

#[test]
fn too_few_points_yields_empty_chain() {
    assert!(chain_code_loop(&[], &[]).is_empty());
    assert!(chain_code_loop(&[0, 1], &[0, 0]).is_empty());
    assert!(chain_code_loop(&[0, 1, 2], &[0, 0, 0]).is_empty());
}

#[test]
fn square_contour_encodes_expected_codes() {
    let chain = chain_code_loop(&SQUARE_X, &SQUARE_Y);
    assert_eq!(chain, vec![0, 0, 6, 6, 4, 4, 2, 2]);
    assert_eq!(chain.len(), SQUARE_X.len());
}

#[test]
fn winding_matches_traversal_order() {
    let cw = chain_code_loop(&SQUARE_X, &SQUARE_Y);
    assert_eq!(is_chain_clockwise(&cw, -1), TRUE);
    let mut rx = SQUARE_X;
    let mut ry = SQUARE_Y;
    rx.reverse();
    ry.reverse();
    let ccw = chain_code_loop(&rx, &ry);
    assert_eq!(is_chain_clockwise(&ccw, -1), FALSE);
}

#[test]
fn indeterminate_winding_returns_default() {
    let sentinel = 42;
    assert_eq!(is_chain_clockwise(&[0, 4, 0, 4], sentinel), sentinel);
}

#[test]
fn seam_crossing_folds_to_inner_distance() {
    let chain = [0, 1, 2, 3, 4, 5, 6, 7];
    assert_eq!(is_chain_clockwise(&chain, -1), FALSE);
}

#[test]
fn high_curvature_and_centered_contours_agree_off_the_loop_path() {
    let (b, iw, ih) = half_plane();
    for half in 1..4 {
        let centered = get_centered_contour(half, 2, 2, 2, 1, &b, iw, ih);
        let high = get_high_curvature_contour(half, 2, 2, 2, 1, &b, iw, ih);
        match (centered, high) {
            (CenteredContour::Complete(c1), HighCurvatureContour::Complete(c2)) => {
                assert_eq!((c1.x, c1.y, c1.ex, c1.ey), (c2.x, c2.y, c2.ex, c2.ey));
            }
            (CenteredContour::Complete(_), other) => panic!("centred complete, got {other:?}"),
            (_, HighCurvatureContour::Complete(_)) => panic!("only the high-curvature one completed"),
            _ => {}
        }
    }
}

#[test]
fn same_coloured_pixels_are_refused_whatever_the_length_or_place() {
    let (b, iw, ih) = half_plane();
    // (2,2) and (2,3) are both ridge: nothing is traced, even with no length to trace.
    assert_eq!(get_centered_contour(0, 2, 2, 2, 3, &b, iw, ih), CenteredContour::Ignore);
    assert_eq!(get_high_curvature_contour(-1, 2, 2, 2, 3, &b, iw, ih), HighCurvatureContour::Empty);
    // (5,2) lies past the right edge; its offset reads (0,3), ridge like (2,2).
    assert_eq!(get_centered_contour(2, 5, 2, 2, 2, &b, iw, ih), CenteredContour::Ignore);
    assert_eq!(trace_contour(3, 0, 0, 5, 2, 2, 2, ScanDir::Clockwise, &b, iw, ih), TraceResult::Ignore);
}

#[test]
fn a_trace_with_no_length_collects_nothing() {
    let (b, iw, ih) = half_plane();
    let TraceResult::Traced(c) = trace_contour(0, 0, 0, 2, 2, 2, 1, ScanDir::Clockwise, &b, iw, ih)
    else {
        panic!("expected an empty traced contour");
    };
    assert_eq!(c.len(), 0);
}

#[test]
fn a_feature_outside_the_image_ends_its_trace_at_once() {
    let (b, iw, ih) = half_plane();
    // (5,2) lies past the right edge, its offset reading (0,3), ridge; (5,0) reads (0,1), valley.
    // Its neighbours at x = 6 fall outside the image, so no contour pixel is found.
    assert_eq!(next_contour_pixel(5, 2, 5, 0, ScanDir::Clockwise, &b, iw, ih), None);
    assert_eq!(get_centered_contour(1, 5, 2, 5, 0, &b, iw, ih), CenteredContour::Incomplete);
    assert_eq!(get_high_curvature_contour(1, 5, 2, 5, 0, &b, iw, ih), HighCurvatureContour::Empty);
    assert!(!search_contour(2, 2, 3, 5, 2, 5, 0, ScanDir::Clockwise, &b, iw, ih));
}
