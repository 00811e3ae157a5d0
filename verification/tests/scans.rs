use fprint::minutia::{to_raw, DetMinutia, RawMinutia, Reliability, BIFURCATION, RIDGE_ENDING};
use fprint::scan::{process_horizontal_scan_minutia_v2, process_vertical_scan_minutia_v2, AdjustResult};

const W: i32 = 6;
const H: i32 = 6;

fn maps(dir: i32, flow: i32, curve: i32) -> (Vec<u8>, Vec<i32>, Vec<i32>, Vec<i32>) {
    let n = (W * H) as usize;
    (vec![0; n], vec![dir; n], vec![flow; n], vec![curve; n])
}

fn never_called(_: i32, _: i32, _: i32, _: i32, _: &Vec<DetMinutia>, _: &Vec<u8>) -> AdjustResult {
    panic!("no adjustment outside high-curvature blocks")
}

#[test]
fn a_horizontal_feature_sits_half_way_between_its_pairs() {
    let (mut b, d, f, c) = maps(2, 0, 0);
    let mut list: Vec<DetMinutia> = Vec::new();
    process_horizontal_scan_minutia_v2(
        &mut list, 1, 2, 4, 3, RIDGE_ENDING, true, &mut b, W, H, &d, &f, &c, 10, 16, &never_called,
    );
    assert_eq!(list.len(), 1);
    let m = &list[0];
    // x half-way between 1 and 4; appearing puts the feature on the lower row.
    assert_eq!((m.x, m.y, m.ex, m.ey), (2, 3, 2, 2));
    // Direction 2 lies in the first half of the semicircle: a horizontal appearing feature
    // points against the flow.
    assert_eq!(m.direction, 18);
    assert_eq!(m.reliability, Reliability::High);
    assert_eq!((m.kind, m.appearing, m.feature_id), (RIDGE_ENDING, true, 3));
}

#[test]
fn a_vertical_disappearing_feature_keeps_the_block_direction() {
    let (mut b, d, f, c) = maps(12, 1, 0);
    let mut list: Vec<DetMinutia> = Vec::new();
    process_vertical_scan_minutia_v2(
        &mut list, 3, 0, 5, 7, BIFURCATION, false, &mut b, W, H, &d, &f, &c, 10, 16, &never_called,
    );
    assert_eq!(list.len(), 1);
    let m = &list[0];
    assert_eq!((m.x, m.y, m.ex, m.ey), (3, 2, 4, 2));
    // Direction 12 lies past half the semicircle: a disappearing feature turns half a circle.
    assert_eq!(m.direction, 28);
    assert_eq!(m.reliability, Reliability::Medium);
}

#[test]
fn a_block_without_direction_drops_the_feature() {
    let (mut b, d, f, c) = maps(-1, 0, 0);
    let mut list: Vec<DetMinutia> = Vec::new();
    process_horizontal_scan_minutia_v2(
        &mut list, 0, 0, 2, 0, RIDGE_ENDING, true, &mut b, W, H, &d, &f, &c, 10, 16, &never_called,
    );
    assert!(list.is_empty());
}

#[test]
fn a_high_curvature_feature_is_placed_where_the_adjustment_says() {
    let (mut b, d, f, c) = maps(4, 0, 1);
    let mut list: Vec<DetMinutia> = Vec::new();
    let moved = |x: i32, y: i32, ex: i32, ey: i32, _: &Vec<DetMinutia>, _: &Vec<u8>| {
        assert_eq!((x, y, ex, ey), (1, 4, 1, 3));
        AdjustResult::Adjusted { idir: 9, x_loc: 5, y_loc: 5, x_edge: 5, y_edge: 4 }
    };
    process_horizontal_scan_minutia_v2(
        &mut list, 0, 3, 2, 1, RIDGE_ENDING, true, &mut b, W, H, &d, &f, &c, 10, 16, &moved,
    );
    assert_eq!(list.len(), 1);
    assert_eq!((list[0].x, list[0].y, list[0].ex, list[0].ey, list[0].direction), (5, 5, 5, 4, 9));
    let mut list: Vec<DetMinutia> = Vec::new();
    let ignored = |_: i32, _: i32, _: i32, _: i32, _: &Vec<DetMinutia>, _: &Vec<u8>| AdjustResult::Ignore;
    process_horizontal_scan_minutia_v2(
        &mut list, 0, 3, 2, 1, RIDGE_ENDING, true, &mut b, W, H, &d, &f, &c, 10, 16, &ignored,
    );
    assert!(list.is_empty());
}

#[test]
fn a_second_feature_on_the_same_pixel_is_dropped() {
    let (mut b, d, f, c) = maps(2, 0, 0);
    let mut list: Vec<DetMinutia> = Vec::new();
    for _ in 0..2 {
        process_horizontal_scan_minutia_v2(
            &mut list, 1, 2, 4, 3, RIDGE_ENDING, true, &mut b, W, H, &d, &f, &c, 10, 16, &never_called,
        );
    }
    assert_eq!(list.len(), 1);
}

#[test]
fn raw_rows_follow_the_list() {
    let (mut b, d, f, c) = maps(2, 0, 0);
    let mut list: Vec<DetMinutia> = Vec::new();
    process_horizontal_scan_minutia_v2(
        &mut list, 1, 2, 4, 3, RIDGE_ENDING, true, &mut b, W, H, &d, &f, &c, 10, 16, &never_called,
    );
    process_vertical_scan_minutia_v2(
        &mut list, 0, 0, 0, 5, BIFURCATION, false, &mut b, W, H, &d, &f, &c, 10, 16, &never_called,
    );
    assert_eq!(
        to_raw(&list),
        vec![
            RawMinutia { x: 2, y: 3, direction: 18, kind: RIDGE_ENDING, appearing: 1 },
            RawMinutia { x: 0, y: 0, direction: 18, kind: BIFURCATION, appearing: 0 },
        ]
    );
}

#[test]
fn a_processed_loop_leaves_the_list_and_image_it_gives() {
    let (mut b, d, f, c) = maps(4, 0, 1);
    let mut list: Vec<DetMinutia> = Vec::new();
    let looped = |_: i32, _: i32, _: i32, _: i32, ms: &Vec<DetMinutia>, img: &Vec<u8>| {
        assert!(ms.is_empty());
        let mut filled = img.clone();
        filled[7] = 1;
        AdjustResult::Loop { minutiae: Vec::new(), bdata: filled }
    };
    process_horizontal_scan_minutia_v2(
        &mut list, 0, 3, 2, 1, RIDGE_ENDING, true, &mut b, W, H, &d, &f, &c, 10, 16, &looped,
    );
    assert!(list.is_empty());
    assert_eq!(b[7], 1);
    assert_eq!(b.iter().filter(|&&v| v != 0).count(), 1);
}
