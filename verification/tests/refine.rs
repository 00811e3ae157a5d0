use fprint::imagemaps::{refine_image_maps, MapParams};
use fprint::maps::{gen_high_curve_map, morph_tf_map, set_margin_blocks, CurveParams};
use fprint::prune::remove_incon_dirs;
use fprint::smooth::{interpolate_direction_map, smooth_direction_map};

const W: i32 = 6;
const H: i32 = 5;

fn params() -> MapParams {
    MapParams {
        rmv_valid_nbr_min: 3,
        smth_valid_nbr_min: 7,
        min_interpolate_nbrs: 2,
        curve: CurveParams {
            num_directions: 16,
            vort_valid_nbr_min: 7,
            highcurv_vorticity_min: 5,
            highcurv_curvature_min: 5,
        },
    }
}

fn valid_nbrs(m: &[i32], x: i32, y: i32) -> i32 {
    let mut n = 0;
    for dy in -1..=1 {
        for dx in -1..=1 {
            let (nx, ny) = (x + dx, y + dy);
            if (dx, dy) != (0, 0) && nx >= 0 && nx < W && ny >= 0 && ny < H && m[(ny * W + nx) as usize] >= 0 {
                n += 1;
            }
        }
    }
    n
}

fn rejects(m: &[i32], x: i32, y: i32) -> bool {
    valid_nbrs(m, x, y) < 2
}

fn average(m: &[i32], x: i32, y: i32) -> (i32, bool, i32) {
    let mut sum = 0;
    let n = valid_nbrs(m, x, y);
    for dy in -1..=1 {
        for dx in -1..=1 {
            let (nx, ny) = (x + dx, y + dy);
            if (dx, dy) != (0, 0) && nx >= 0 && nx < W && ny >= 0 && ny < H && m[(ny * W + nx) as usize] >= 0 {
                sum += m[(ny * W + nx) as usize];
            }
        }
    }
    if n == 0 {
        (0, false, 0)
    } else {
        (sum / n, n >= 4, n)
    }
}

fn weighted(ws: &[(i32, i32)], total: i32) -> i32 {
    let sum: i32 = ws.iter().map(|&(d, w)| d * w).sum();
    if total == 0 {
        ws[0].0
    } else {
        (sum + total / 2) / total
    }
}

#[test]
fn refinement_runs_the_stages_in_order() {
    let dm0 = vec![
        3, 3, 4, -1, 5, 5, //
        3, -1, 4, 4, -1, 5, //
        2, 3, -1, 4, 9, 5, //
        -1, 3, 3, -1, 4, 4, //
        12, -1, 3, 3, 4, -1,
    ];
    let lc = vec![
        0, 0, 0, 0, 0, 0, //
        0, 0, 0, 0, 0, 0, //
        0, 0, 0, 0, 0, 1, //
        0, 0, 0, 0, 0, 0, //
        1, 0, 0, 0, 0, 0,
    ];
    let lf0 = vec![
        0, 0, 0, 0, 0, 0, //
        0, 1, 1, 0, 0, 0, //
        0, 1, 0, 1, 0, 0, //
        0, 1, 1, 1, 0, 0, //
        0, 0, 0, 0, 0, 0,
    ];
    let p = params();

    let mut dm = dm0.clone();
    let mut lf = lf0.clone();
    let hc = refine_image_maps(&mut dm, &lc, &mut lf, W, H, &p, &rejects, &average, &weighted);

    let mut want = dm0.clone();
    let mut want_lf = lf0.clone();
    morph_tf_map(&mut want_lf, W, H);
    remove_incon_dirs(&mut want, W, H, &rejects);
    smooth_direction_map(&mut want, &lc, W, H, 3, 7, &average);
    interpolate_direction_map(&mut want, &lc, W, H, 2, &weighted);
    remove_incon_dirs(&mut want, W, H, &rejects);
    smooth_direction_map(&mut want, &lc, W, H, 3, 7, &average);
    set_margin_blocks(&mut want, W, H, -1);
    let want_hc = gen_high_curve_map(&want, W, H, &p.curve);

    assert_eq!(dm, want);
    assert_eq!(lf, want_lf);
    assert_eq!(hc, want_hc);
    // The margin holds no direction; the void in the low-flow map is closed.
    for x in 0..W {
        assert_eq!(dm[x as usize], -1);
        assert_eq!(dm[((H - 1) * W + x) as usize], -1);
    }
    assert_eq!(lf[(2 * W + 2) as usize], 1);
}
