use fprint::contour::ScanDir;
use fprint::minutia::{
    choose_scan_direction, create_minutia, get_low_curvature_direction, is_minutia_appearing,
    minutia_type, remove_minutia, update_minutiae, update_minutiae_v2, DetMinutia, Reliability,
    APPEARING, BIFURCATION, DISAPPEARING, RIDGE_ENDING, SCAN_HORIZONTAL, SCAN_VERTICAL,
};
use fprint::ridges::{
    find_transition, ridge_count, rm_dup_minutiae, sort_minutiae_x_y, validate_ridge_crossing,
};
use fprint::shape::{alloc_shape, shape_from_contour, sort_row_on_x, Row};

fn mk(x: i32, y: i32) -> DetMinutia {
    create_minutia(x, y, x, y - 1, 0, Reliability::High, RIDGE_ENDING, true, 0)
}

#[test]
fn minutia_type_by_feature_colour() {
    assert_eq!(minutia_type(0), BIFURCATION);
    assert_eq!(minutia_type(1), RIDGE_ENDING);
}

#[test]
fn appearing_follows_the_edge_side() {
    assert_eq!(is_minutia_appearing(5, 5, 4, 5), Ok(APPEARING));
    assert_eq!(is_minutia_appearing(5, 5, 6, 5), Ok(DISAPPEARING));
    assert_eq!(is_minutia_appearing(5, 5, 5, 4), Ok(APPEARING));
    assert_eq!(is_minutia_appearing(5, 5, 5, 6), Ok(DISAPPEARING));
    assert_eq!(is_minutia_appearing(5, 5, 5, 5), Err(-240));
}

#[test]
fn scan_runs_across_the_flow() {
    assert_eq!(choose_scan_direction(0, 16), SCAN_HORIZONTAL);
    assert_eq!(choose_scan_direction(4, 16), SCAN_HORIZONTAL);
    assert_eq!(choose_scan_direction(5, 16), SCAN_VERTICAL);
    assert_eq!(choose_scan_direction(12, 16), SCAN_VERTICAL);
    assert_eq!(choose_scan_direction(13, 16), SCAN_HORIZONTAL);
}

#[test]
fn low_curvature_direction_turns_against_the_flow() {
    assert_eq!(get_low_curvature_direction(SCAN_HORIZONTAL, true, 3, 16), 19);
    assert_eq!(get_low_curvature_direction(SCAN_HORIZONTAL, false, 3, 16), 3);
    assert_eq!(get_low_curvature_direction(SCAN_VERTICAL, false, 3, 16), 19);
    assert_eq!(get_low_curvature_direction(SCAN_VERTICAL, true, 3, 16), 3);
    assert_eq!(get_low_curvature_direction(SCAN_HORIZONTAL, false, 12, 16), 28);
    assert_eq!(get_low_curvature_direction(SCAN_VERTICAL, true, 12, 16), 12);
}

#[test]
fn remove_minutia_slides_the_tail_down() {
    let mut list = vec![mk(1, 1), mk(2, 2), mk(3, 3)];
    remove_minutia(1, &mut list);
    assert_eq!(list.iter().map(|m| m.x).collect::<Vec<_>>(), vec![1, 3]);
}

#[test]
fn update_minutiae_drops_a_duplicate_on_the_same_pixel() {
    let b = vec![0u8; 100];
    let mut list = vec![mk(4, 4)];
    update_minutiae(&mut list, mk(4, 4), &b, 10, 10, 10, 16);
    assert_eq!(list.len(), 1);
    update_minutiae(&mut list, mk(8, 8), &b, 10, 10, 3, 16);
    assert_eq!(list.len(), 2);
    let mut bif = mk(4, 4);
    bif.kind = BIFURCATION;
    update_minutiae(&mut list, bif, &b, 10, 10, 10, 16);
    assert_eq!(list.len(), 3);
}

#[test]
fn update_minutiae_v2_prefers_the_scan_across_the_flow() {
    // A ridge (1) filling rows 5.. of a 10x10 image: both minutiae sit on its top edge.
    let mut b = vec![0u8; 100];
    for k in 50..100 {
        b[k] = 1;
    }
    // The existing minutia at (3,5) and a new one at (5,5) share that contour.
    let mut list = vec![mk(3, 5)];
    update_minutiae_v2(&mut list, mk(5, 5), SCAN_HORIZONTAL, 0, &b, 10, 10, 10, 16);
    assert_eq!(list.iter().map(|m| m.x).collect::<Vec<_>>(), vec![5]);
    // The block's scan is vertical here, so the existing minutia is kept.
    let mut list = vec![mk(3, 5)];
    update_minutiae_v2(&mut list, mk(5, 5), SCAN_HORIZONTAL, 8, &b, 10, 10, 10, 16);
    assert_eq!(list.iter().map(|m| m.x).collect::<Vec<_>>(), vec![3]);
    // An invalid block direction also keeps the existing one.
    let mut list = vec![mk(3, 5)];
    update_minutiae_v2(&mut list, mk(5, 5), SCAN_HORIZONTAL, -1, &b, 10, 10, 10, 16);
    assert_eq!(list.len(), 1);
    // Far apart, both stay.
    let mut list = vec![mk(0, 5)];
    update_minutiae_v2(&mut list, mk(9, 5), SCAN_HORIZONTAL, 0, &b, 10, 10, 3, 16);
    assert_eq!(list.len(), 2);
}

#[test]
fn find_transition_locates_pair_and_reports_end() {
    let bdata = [0u8, 0, 1, 0];
    let pts = [(0, 0), (1, 0), (2, 0), (3, 0)];
    let mut i = 0usize;
    assert!(find_transition(&mut i, 0, 1, &pts, 4, &bdata, 4, 1));
    assert_eq!(i, 2);
    assert!(find_transition(&mut i, 1, 0, &pts, 4, &bdata, 4, 1));
    assert_eq!(i, 3);
    let mut j = 3usize;
    assert!(!find_transition(&mut j, 0, 1, &pts, 4, &bdata, 4, 1));
    assert_eq!(j, 4);
}

#[test]
fn ridge_count_identical_points_is_zero() {
    let bdata = vec![0u8; 25];
    assert_eq!(ridge_count((5, 5), (5, 5), &[(5, 5)], &bdata, 5, 5, 10), 0);
}

#[test]
fn ridge_count_no_transition_is_zero() {
    let bdata = vec![0u8; 25];
    let pts = [(1, 2), (2, 2), (3, 2)];
    assert_eq!(ridge_count((1, 2), (3, 2), &pts, &bdata, 5, 5, 10), 0);
}

#[test]
fn ridge_count_counts_a_crossed_ridge() {
    // Ridges in columns 1 and 4 of a 7x7 image; the row-3 trajectory starts on the first and
    // crosses the second.
    let (iw, ih) = (7, 7);
    let mut b = vec![0u8; 49];
    for y in 0..ih {
        b[(y * iw + 1) as usize] = 1;
        b[(y * iw + 4) as usize] = 1;
    }
    let pts: Vec<(i32, i32)> = (1..6).map(|x| (x, 3)).collect();
    assert!(validate_ridge_crossing(3, 4, &pts, &b, iw, ih, 10));
    assert_eq!(ridge_count((1, 3), (5, 3), &pts, &b, iw, ih, 10), 1);
}

#[test]
fn sort_minutiae_x_y_orders_by_column_then_row() {
    let mut list = vec![mk(3, 1), mk(1, 2), mk(1, 1), mk(2, 9)];
    sort_minutiae_x_y(&mut list, 10);
    let got: Vec<(i32, i32)> = list.iter().map(|m| (m.x, m.y)).collect();
    assert_eq!(got, vec![(1, 1), (1, 2), (2, 9), (3, 1)]);
}

#[test]
fn rm_dup_minutiae_drops_coincident_pairs() {
    let mut list = vec![mk(1, 1), mk(1, 1), mk(2, 2), mk(3, 3), mk(3, 3), mk(3, 3)];
    list[0].feature_id = 7;
    rm_dup_minutiae(&mut list);
    let got: Vec<(i32, i32)> = list.iter().map(|m| (m.x, m.y)).collect();
    assert_eq!(got, vec![(1, 1), (2, 2), (3, 3)]);
    // Of a coincident pair the earlier entry is the one dropped.
    assert_eq!(list[0].feature_id, 0);
}

#[test]
fn alloc_shape_spans_the_rows() {
    let s = alloc_shape(2, 5, 4, 7);
    assert_eq!(s.rows.len(), 3);
    assert_eq!(s.rows.iter().map(|r| r.y).collect::<Vec<_>>(), vec![5, 6, 7]);
    assert!(s.rows.iter().all(|r| r.xs.is_empty() && r.alloc == 3));
}

#[test]
fn shape_from_contour_bins_dedups_and_sorts_rows() {
    // A small diamond loop, with one point revisited.
    let x = [2, 3, 4, 3, 2, 1, 2, 3];
    let y = [0, 1, 2, 3, 4, 2, 0, 1];
    let s = shape_from_contour(&x, &y).expect("a contour never overflows its rows");
    let rows: Vec<(i32, Vec<i32>)> = s.rows.iter().map(|r| (r.y, r.xs.clone())).collect();
    assert_eq!(
        rows,
        vec![
            (0, vec![2]),
            (1, vec![3]),
            (2, vec![1, 4]),
            (3, vec![3]),
            (4, vec![2]),
        ]
    );
}

#[test]
fn sort_row_on_x_orders_the_points() {
    let mut row = Row {
        y: 4,
        xs: vec![9, 2, 5],
        alloc: 8,
    };
    sort_row_on_x(&mut row);
    assert_eq!(row.xs, vec![2, 5, 9]);
    assert_eq!((row.y, row.alloc), (4, 8));
}

#[test]
fn scan_directions_are_distinct() {
    assert_ne!(ScanDir::Clockwise, ScanDir::CounterClockwise);
}

#[test]
fn find_neighbors_returns_k_nearest_in_distance_order() {
    // Primary at index 0; suffix candidates, already x_y-sorted.
    // Distances^2 from (0,0): (1,1)=2, (2,0)=4, (3,3)=18, (4,0)=16, (5,1)=26.
    let ms = vec![mk(0, 0), mk(1, 1), mk(2, 0), mk(3, 3), mk(4, 0), mk(5, 1)];
    let nbrs = fprint::neighbors::find_neighbors(5, 0, &ms);
    // Ascending squared distance: 2, 4, 16, 18, 26 → indices 1, 2, 4, 3, 5.
    assert_eq!(nbrs, vec![1, 2, 4, 3, 5]);
}

#[test]
fn find_neighbors_caps_at_max_nbrs_and_breaks_on_x() {
    // Only the three closest are kept when max_nbrs = 3.
    let ms = vec![mk(0, 0), mk(1, 1), mk(2, 0), mk(3, 3), mk(4, 0), mk(5, 1)];
    let nbrs = fprint::neighbors::find_neighbors(3, 0, &ms);
    assert_eq!(nbrs, vec![1, 2, 4]);
}

#[test]
fn equally_near_neighbours_keep_list_order_and_far_columns_are_skipped() {
    // From (0,0): (0,2), (2,0) and (1,1)... (1,1) is nearer (2) than both (4 each), which tie in
    // list order; the last minutia is too far right to be considered once the list is full.
    let ms = vec![mk(0, 0), mk(0, 2), mk(1, 1), mk(2, 0), mk(9, 0)];
    assert_eq!(fprint::neighbors::find_neighbors(2, 0, &ms), vec![2, 1]);
    assert_eq!(fprint::neighbors::find_neighbors(3, 0, &ms), vec![2, 1, 3]);
    // From the last minutia there is nobody after it.
    assert!(fprint::neighbors::find_neighbors(3, 4, &ms).is_empty());
    // From the second, only later ones count.
    assert_eq!(fprint::neighbors::find_neighbors(5, 1, &ms), vec![2, 3, 4]);
}

#[test]
fn dedup_removes_only_neighbouring_twins_and_keeps_every_pixel() {
    let mut ms = vec![mk(0, 0), mk(0, 0), mk(1, 1), mk(0, 0)];
    rm_dup_minutiae(&mut ms);
    let coords: Vec<(i32, i32)> = ms.iter().map(|m| (m.x, m.y)).collect();
    assert_eq!(coords, vec![(0, 0), (1, 1), (0, 0)]);
}

#[test]
fn the_search_stops_on_horizontal_distance_even_out_of_order() {
    // Not sorted left to right: the full list's farthest (25) is reached by the horizontal distance
    // to (6, 0) (36), so the search stops there and never meets the nearer (1, 0).
    let ms = vec![mk(0, 0), mk(5, 0), mk(6, 0), mk(1, 0)];
    assert_eq!(fprint::neighbors::find_neighbors(1, 0, &ms), vec![1]);
    assert_eq!(fprint::neighbors::find_neighbors(3, 0, &ms), vec![3, 1, 2]);
}
