//! The detector's fixed integer parameters: block and window geometry, the direction count,
//! the thresholds of the block-map rules, and the limits of minutia detection and ridge counting.

use vstd::prelude::*;

use crate::maps::CurveParams;

verus! {

/// Medium gray (`128`), the intensity the image border is padded with.
pub const PAD_VALUE: i32 = 128;

/// Half-width of the line drawn when joining two minutiae.
pub const JOIN_LINE_RADIUS: i32 = 1;

/// Pixel size of an image block.
pub const MAP_BLOCKSIZE_V2: i32 = 8;

/// Pixel size of the window surrounding a block.
pub const MAP_WINDOWSIZE_V2: i32 = 24;

/// Offset in X and Y from a block to its window origin.
pub const MAP_WINDOWOFFSET_V2: i32 = 8;

/// Number of discrete ridge-flow orientations in a semicircle.
pub const NUM_DIRECTIONS: i32 = 16;

/// Valid neighbours below which an isolated block direction is removed.
pub const RMV_VALID_NBR_MIN: i32 = 3;

/// Largest direction distance a block may keep from its neighbours' average.
pub const DIR_DISTANCE_MAX: i32 = 3;

/// Valid neighbours needed to smooth a block direction.
pub const SMTH_VALID_NBR_MIN: i32 = 7;

/// Valid neighbours needed for a vorticity measure.
pub const VORT_VALID_NBR_MIN: i32 = 7;

/// Vorticity at which a block is high curvature.
pub const HIGHCURV_VORTICITY_MIN: i32 = 5;

/// Curvature at which a block is high curvature.
pub const HIGHCURV_CURVATURE_MIN: i32 = 5;

/// Valid neighbours needed to interpolate a direction.
pub const MIN_INTERPOLATE_NBRS: i32 = 2;

/// Percentile used to derive a block's minimum and maximum intensity.
pub const PERCENTILE_MIN_MAX: i32 = 10;

/// Intensity spread below which a block is low contrast.
pub const MIN_CONTRAST_DELTA: i32 = 5;

/// Number of DFT frequencies analysed per block window.
pub const NUM_DFT_WAVES: i32 = 4;

/// The DFT frequency coefficients, in periods across the window.
pub const DFT_COEFS: [i32; 4] = [1, 2, 3, 4];

/// Direction interval tested for a fork.
pub const FORK_INTERVAL: i32 = 2;

/// Width of the directional binarization grid.
pub const DIRBIN_GRID_W: i32 = 7;

/// Height of the directional binarization grid.
pub const DIRBIN_GRID_H: i32 = 9;

/// Hole-filling passes over the binarized image.
pub const NUM_FILL_HOLES: i32 = 3;

/// Largest pixel delta between two minutiae still compared as duplicates.
pub const MAX_MINUTIA_DELTA: i32 = 10;

/// Half the contour length walked to test high curvature.
pub const HIGH_CURVE_HALF_CONTOUR: i32 = 14;

/// Shortest contour considered a loop.
pub const MIN_LOOP_LEN: i32 = 20;

/// Largest number of direction transitions tolerated.
pub const MAXTRANS: i32 = 2;

/// Largest distance between two minutiae still tested for removal.
pub const MAX_RMTEST_DIST_V2: i32 = 16;

/// Largest contour length of a hook removed as an artifact.
pub const MAX_HOOK_LEN_V2: i32 = 30;

/// Largest half-loop contour length treated as an artifact.
pub const MAX_HALF_LOOP_V2: i32 = 30;

/// Pixel step used when tracing minutia direction transitions.
pub const TRANS_DIR_PIX_V2: i32 = 4;

/// Largest contour length of a small loop removed outright.
pub const SMALL_LOOP_LEN: i32 = 15;

/// Half-contour length used to locate a loop's side points.
pub const SIDE_HALF_CONTOUR: i32 = 7;

/// Margin in pixels from an invalid block within which minutiae are dropped.
pub const INV_BLOCK_MARGIN_V2: i32 = 4;

/// Valid neighbour blocks a minutia must have to survive.
pub const RM_VALID_NBR_MIN: i32 = 7;

/// Largest distance between two minutiae tested as an overlap.
pub const MAX_OVERLAP_DIST: i32 = 8;

/// Largest distance over which an overlapping pair may be joined.
pub const MAX_OVERLAP_JOIN_DIST: i32 = 6;

/// First contour step count of the malformation test.
pub const MALFORMATION_STEPS_1: i32 = 10;

/// Second contour step count of the malformation test.
pub const MALFORMATION_STEPS_2: i32 = 20;

/// Largest distance over which malformation is tested.
pub const MAX_MALFORMATION_DIST: i32 = 20;

/// Translation radius of the pore test.
pub const PORES_TRANS_R: i32 = 3;

/// Perpendicular steps of the pore test.
pub const PORES_PERP_STEPS: i32 = 12;

/// Forward contour steps of the pore test.
pub const PORES_STEPS_FWD: i32 = 10;

/// Backward contour steps of the pore test.
pub const PORES_STEPS_BWD: i32 = 8;

/// Most nearest neighbours considered for ridge counting.
pub const MAX_NBRS: i32 = 5;

/// Most contour steps walked when validating a ridge crossing.
pub const MAX_RIDGE_STEPS: i32 = 10;

/// The quantization scale of intermediate fractions: `1/16384`.
pub const TRUNC_SCALE: i32 = 16384;

/// The cap on the number of minutiae detected.
pub const MAX_MINUTIAE: usize = 1000;

/// The window is centred on its block: `windowsize == blocksize + 2 * windowoffset`; and the
/// smallest detectable image dimension is the window plus one, the tighter of that and the block.
pub proof fn lemma_window_geometry()
    ensures
        MAP_WINDOWSIZE_V2 == MAP_BLOCKSIZE_V2 + 2 * MAP_WINDOWOFFSET_V2,
        crate::image::MIN_DETECTABLE_DIM == MAP_WINDOWSIZE_V2 + 1,
        MAP_WINDOWSIZE_V2 + 1 > MAP_BLOCKSIZE_V2,
{
}

/// The high-curvature thresholds of the shipped parameter set.
pub fn curve_params_v2() -> (p: CurveParams)
    ensures
        p.num_directions == NUM_DIRECTIONS,
        p.vort_valid_nbr_min == VORT_VALID_NBR_MIN,
        p.highcurv_vorticity_min == HIGHCURV_VORTICITY_MIN,
        p.highcurv_curvature_min == HIGHCURV_CURVATURE_MIN,
{
    CurveParams {
        num_directions: NUM_DIRECTIONS,
        vort_valid_nbr_min: VORT_VALID_NBR_MIN,
        highcurv_vorticity_min: HIGHCURV_VORTICITY_MIN,
        highcurv_curvature_min: HIGHCURV_CURVATURE_MIN,
    }
}

} // verus!
