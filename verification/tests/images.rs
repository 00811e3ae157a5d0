use fprint::image::{
    bits_6to8, bits_8to6, pad_gray_image, pad_uchar_image, GrayImage, ImageError, Minutia,
    MIN_DETECTABLE_DIM, PAD_VALUE,
};
use fprint::num::{bubble_sort_int_inc, bubble_sort_int_inc_2, sort_indices_int_inc};

#[test]
fn bits_8to6_shifts_right_two() {
    let mut v = [0u8, 3, 4, 5, 128, 254, 255];
    bits_8to6(&mut v);
    assert_eq!(v, [0, 0, 1, 1, 32, 63, 63]);
}

#[test]
fn bits_8to6_never_exceeds_6bit_limit() {
    for p in 0u8..=255 {
        let mut one = [p];
        bits_8to6(&mut one);
        assert!(one[0] < 64, "{p} >> 2 = {} should be < 64", one[0]);
    }
}

#[test]
fn bits_6to8_shifts_left_two() {
    let mut v = [0u8, 1, 32, 63];
    bits_6to8(&mut v);
    assert_eq!(v, [0, 4, 128, 252]);
}

#[test]
fn bits_6to8_wraps_like_unsigned_char() {
    let mut v = [64u8, 127, 128, 255];
    bits_6to8(&mut v);
    assert_eq!(v, [0, 252, 0, 252]);
}

#[test]
fn round_trip_drops_low_two_bits() {
    let mut v = [255u8, 5, 7, 200];
    bits_8to6(&mut v);
    bits_6to8(&mut v);
    assert_eq!(v, [252, 4, 4, 200]);
}

#[test]
fn six_bit_values_survive_the_round_trip_up_and_down() {
    let mut v: Vec<u8> = (0u8..64).collect();
    bits_6to8(&mut v);
    bits_8to6(&mut v);
    assert_eq!(v, (0u8..64).collect::<Vec<u8>>());
}

#[test]
fn pad_uchar_image_centers_and_fills() {
    let img = [1u8, 2, 3, 4];
    let (pdata, pw, ph) = pad_uchar_image(&img, 2, 2, 1, 128);
    assert_eq!((pw, ph), (4, 4));
    let expected = [
        128, 128, 128, 128,
        128,   1,   2, 128,
        128,   3,   4, 128,
        128, 128, 128, 128,
    ];
    assert_eq!(pdata, expected);
}

#[test]
fn pad_uchar_image_zero_pad_is_identity() {
    let img = [10u8, 20, 30, 40, 50, 60];
    let (pdata, pw, ph) = pad_uchar_image(&img, 3, 2, 0, 128);
    assert_eq!((pw, ph), (3, 2));
    assert_eq!(pdata, img);
}

#[test]
fn pad_uchar_image_nonsquare_and_pad2() {
    let img = [7u8, 8, 9];
    let (pdata, pw, ph) = pad_uchar_image(&img, 3, 1, 2, 128);
    assert_eq!((pw, ph), (7, 5));
    assert_eq!(&pdata[16..19], &[7, 8, 9]);
    assert!(pdata[..16].iter().all(|&b| b == 128));
    assert!(pdata[19..].iter().all(|&b| b == 128));
}

#[test]
fn pad_gray_image_pads_with_pad_value() {
    let data = [1u8, 2, 3, 4];
    let img = GrayImage::from_parts_unchecked(&data, 2, 2, 500);
    let (pdata, pw, ph) = pad_gray_image(&img, 1);
    assert_eq!((pw, ph), (4, 4));
    assert_eq!(&pdata[5..7], &[1, 2]);
    assert_eq!(&pdata[9..11], &[3, 4]);
    assert_eq!(pdata[0], PAD_VALUE);
}

#[test]
fn pad_gray_image_zero_maxpad_copies_unchanged() {
    let data = [11u8, 22, 33, 44, 55, 66];
    let img = GrayImage::from_parts_unchecked(&data, 3, 2, 500);
    let (pdata, pw, ph) = pad_gray_image(&img, 0);
    assert_eq!((pw, ph), (3, 2));
    assert_eq!(pdata, data);
}

#[test]
fn pad_gray_image_zero_maxpad_ignores_trailing_bytes() {
    let data = [11u8, 22, 33, 44, 55, 66, 77, 88];
    let img = GrayImage::from_parts_unchecked(&data, 3, 2, 500);
    let (pdata, pw, ph) = pad_gray_image(&img, 0);
    assert_eq!((pw, ph), (3, 2));
    assert_eq!(pdata, [11u8, 22, 33, 44, 55, 66]);
}

#[test]
fn the_detection_floor_is_twenty_five_pixels() {
    assert_eq!(MIN_DETECTABLE_DIM, 25);
}

#[test]
fn a_dimension_below_the_floor_is_rejected_at_construction() {
    let big = MIN_DETECTABLE_DIM + 7;
    for small in 0..MIN_DETECTABLE_DIM {
        for &(w, h) in &[(small, big), (big, small), (small, small)] {
            let data = vec![0x80u8; w * h];
            assert_eq!(
                GrayImage::new(&data, w, h, 500).unwrap_err(),
                ImageError::TooSmall {
                    width: w,
                    height: h,
                    min: MIN_DETECTABLE_DIM,
                },
                "a {w}x{h} image is under the floor and must be rejected"
            );
        }
    }
}

#[test]
fn an_image_at_the_floor_constructs() {
    let dim = MIN_DETECTABLE_DIM;
    let data = vec![0x80u8; dim * dim];
    let img = GrayImage::new(&data, dim, dim, 500).expect("an image at the floor is detectable");
    assert_eq!((img.width(), img.height(), img.ppi()), (dim, dim, 500));
    assert_eq!(img.data().len(), dim * dim);
}

#[test]
fn short_data_is_rejected_by_construction() {
    let data = vec![0u8; 10];
    assert_eq!(
        GrayImage::new(&data, 64, 64, 500).unwrap_err(),
        ImageError::BufferTooShort {
            width: 64,
            height: 64,
            got: 10,
        }
    );
}

#[test]
fn empty_data_with_detectable_dimensions_is_rejected() {
    assert_eq!(
        GrayImage::new(&[], 32, 32, 500).unwrap_err(),
        ImageError::BufferTooShort {
            width: 32,
            height: 32,
            got: 0,
        }
    );
}

#[test]
fn oversized_dimension_is_rejected_by_construction() {
    let too_wide = i32::MAX as usize + 1;
    assert_eq!(
        GrayImage::new(&[], too_wide, 32, 500).unwrap_err(),
        ImageError::TooLarge {
            width: too_wide,
            height: 32,
        }
    );
}

#[test]
fn an_area_past_i32_is_too_large_even_with_small_sides() {
    assert_eq!(
        GrayImage::new(&[], 70_000, 70_000, 500).unwrap_err(),
        ImageError::TooLarge {
            width: 70_000,
            height: 70_000,
        }
    );
}

#[test]
fn overlong_data_is_accepted_and_keeps_the_stated_size() {
    let data = vec![7u8; 40 * 30 + 99];
    let img = GrayImage::new(&data, 40, 30, 1000).expect("an over-long buffer is accepted");
    assert_eq!((img.width(), img.height()), (40, 30));
    assert_eq!(img.data().len(), 40 * 30 + 99);
}

#[test]
fn as_xyt_drops_the_quality() {
    let m = Minutia {
        x: 3,
        y: 4,
        theta: 270,
        quality: 55,
    };
    assert_eq!(m.as_xyt(), (3, 4, 270));
}

#[test]
fn bubble_sort_int_inc_sorts_ascending() {
    let mut v = [3, 1, 2, 1, 0];
    bubble_sort_int_inc(&mut v);
    assert_eq!(v, [0, 1, 1, 2, 3]);
}

#[test]
fn bubble_sort_int_inc_2_is_stable() {
    let mut ranks = [2, 1, 1, 0];
    let mut items = [0, 1, 2, 3];
    bubble_sort_int_inc_2(&mut ranks, &mut items);
    assert_eq!(ranks, [0, 1, 1, 2]);
    assert_eq!(items, [3, 1, 2, 0]);
}

#[test]
fn sort_indices_int_inc_returns_permutation() {
    let mut ranks = [30, 10, 20];
    let order = sort_indices_int_inc(&mut ranks);
    assert_eq!(ranks, [10, 20, 30]);
    assert_eq!(order, [1, 2, 0]);
}

#[test]
fn sorts_handle_degenerate_lengths() {
    let mut empty: [i32; 0] = [];
    bubble_sort_int_inc(&mut empty);
    let mut one = [42];
    bubble_sort_int_inc(&mut one);
    assert_eq!(one, [42]);
    let mut r0: [i32; 0] = [];
    assert_eq!(sort_indices_int_inc(&mut r0), Vec::<i32>::new());
}
