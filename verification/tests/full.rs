//! Decode sizes, refusals, and which window wants what.

use png_metadata_gui::full::{
    decode_full, decode_size, source_too_large, texture_side_limit, DecodeAction, DecodeEvent,
    FullPool, MAX_LIGHTBOX_PIXELS, MAX_SOURCE_PIXELS, TEXTURE_SIDE_GUARD,
};
use png_metadata_gui::thumbs::thumb_size;

/// A budget no test image reaches.
const NO_BUDGET: u64 = u64::MAX;

#[test]
fn the_long_side_lands_on_the_limit_and_the_ratio_holds() {
    // 12000×4000 is 3:1, and 8192/3 floors to 2730.
    assert_eq!(decode_size([12000, 4000], 8192, NO_BUDGET), [8192, 2730]);
}

#[test]
fn an_image_under_the_limit_is_never_enlarged() {
    assert_eq!(decode_size([512, 512], 4096, NO_BUDGET), [512, 512]);
    assert_eq!(decode_size([100, 40], 8192, NO_BUDGET), [100, 40]);
}

#[test]
fn an_extreme_ratio_keeps_its_short_axis_at_one_pixel() {
    // 3 × 8192/16000 is 1.536, and a zero-height texture is not uploadable.
    assert_eq!(decode_size([16000, 3], 8192, NO_BUDGET), [8192, 1]);
}

#[test]
fn the_pixel_budget_alone_shrinks_a_square_image() {
    assert_eq!(decode_size([4000, 4000], 8192, 1_000_000), [1000, 1000]);
}

#[test]
fn the_tighter_of_the_two_limits_wins() {
    assert_eq!(decode_size([20000, 20000], 8192, NO_BUDGET), [8192, 8192]);
    // The same source under a 4 megapixel budget is cut further.
    assert_eq!(decode_size([20000, 20000], 8192, 4_000_000), [2000, 2000]);
}

#[test]
fn a_zero_sized_source_does_not_panic() {
    assert_eq!(decode_size([0, 0], 8192, NO_BUDGET), [0, 0]);
    assert_eq!(decode_size([0, 100], 8192, 1000), [0, 100]);
    assert_eq!(decode_size([100, 0], 8192, 1000), [100, 0]);
}

#[test]
fn no_source_size_ever_produces_a_side_over_the_limit() {
    let sizes = [
        [1, 1],
        [512, 512],
        [8192, 8192],
        [8193, 1],
        [12000, 4000],
        [16000, 3],
        [30000, 30000],
        [65535, 65535],
        [1, 65535],
    ];
    for src in sizes {
        for max_side in [1, 64, 2048, 4096, 8192] {
            let result = decode_size(src, max_side, MAX_LIGHTBOX_PIXELS);
            assert!(
                result[0] <= max_side && result[1] <= max_side,
                "{src:?} at max_side {max_side} produced {result:?}"
            );
            assert!(result[0] >= 1 && result[1] >= 1);
            assert!(result[0] <= src[0] && result[1] <= src[1]);
        }
    }
}

#[test]
fn the_pixel_budget_binds_on_every_clamped_result() {
    for src in [[8192, 8192], [20000, 20000], [65535, 4]] {
        let result = decode_size(src, TEXTURE_SIDE_GUARD, MAX_LIGHTBOX_PIXELS);
        let pixels = u64::from(result[0]) * u64::from(result[1]);
        assert!(pixels <= MAX_LIGHTBOX_PIXELS, "{src:?} produced {result:?}");
    }
}

#[test]
fn the_refusal_cap_admits_up_to_itself_and_no_further() {
    // 10000×10000 is exactly 100 megapixels.
    assert!(!source_too_large([10000, 10000], MAX_SOURCE_PIXELS));
    assert!(source_too_large([10000, 10001], MAX_SOURCE_PIXELS));
    assert!(!source_too_large([4096, 4096], MAX_SOURCE_PIXELS));
    // The product overflows u32, so the check has to widen first.
    assert!(source_too_large([65535, 65535], MAX_SOURCE_PIXELS));
}

/// The size as doubles compute it.
fn size_in_doubles(src: [u32; 2], max_side: u32, max_pixels: u64) -> [u32; 2] {
    fn shrink(size: [u32; 2], scale: f64) -> [u32; 2] {
        [
            ((size[0] as f64 * scale).floor() as u32).max(1),
            ((size[1] as f64 * scale).floor() as u32).max(1),
        ]
    }
    if src[0] == 0 || src[1] == 0 {
        return src;
    }
    let mut size = src;
    let long = size[0].max(size[1]);
    if long > max_side {
        let fit = |axis: u32| ((u64::from(axis) * u64::from(max_side) / u64::from(long)) as u32).max(1);
        size = [fit(size[0]), fit(size[1])];
    }
    let pixels = u64::from(size[0]) * u64::from(size[1]);
    if pixels > max_pixels {
        size = shrink(size, (max_pixels as f64 / pixels as f64).sqrt());
        // An axis held at one pixel leaves the other one too long, and so can a
        // double that was rounded up.
        let budget = max_pixels.max(1);
        while u64::from(size[0]) * u64::from(size[1]) > budget {
            size = match size {
                [1, _] => [1, budget as u32],
                [_, 1] => [budget as u32, 1],
                [width, height] => [width - 1, height - 1],
            };
        }
    }
    size
}

#[test]
fn a_budgeted_size_is_what_doubles_compute() {
    for src in [[4000, 4000], [4001, 3999], [8192, 7], [65535, 65535], [12345, 6789], [3, 60000]] {
        for max_side in [8192, 4096, 65535] {
            for budget in [0, 1, 7, 1_000, 999_983, 4_000_000, 24_000_000] {
                assert_eq!(
                    decode_size(src, max_side, budget),
                    size_in_doubles(src, max_side, budget),
                    "{src:?} within {max_side} and {budget}"
                );
            }
        }
    }
}

#[test]
fn an_axis_held_at_one_pixel_stays_within_the_budget() {
    assert_eq!(decode_size([8192, 1], 8192, 100), [100, 1]);
    assert_eq!(decode_size([100, 1], 100, 25), [25, 1]);
    assert_eq!(decode_size([1, 100], 100, 25), [1, 25]);
    // No budget can take away the last pixel.
    assert_eq!(decode_size([100, 100], 100, 0), [1, 1]);
    assert_eq!(decode_size([100, 100], 100, 1), [1, 1]);
}

#[test]
fn the_pixel_budget_binds_on_every_source() {
    for width in [1, 2, 3, 64, 1000, 8192, 65535, u32::MAX] {
        for height in [1, 2, 5, 100, 4000, 65535, u32::MAX] {
            for max_side in [1, 64, 8192, u32::MAX] {
                for budget in [1, 2, 7, 25, 1000, 24_000_000, 1_853_006_413_926_720, u64::MAX] {
                    let size = decode_size([width, height], max_side, budget);
                    let pixels = u64::from(size[0]) * u64::from(size[1]);
                    assert!(
                        pixels <= budget,
                        "{width}×{height} within {max_side} and {budget} became {size:?}"
                    );
                    assert!(size[0] >= 1 && size[1] >= 1);
                }
            }
        }
    }
    // The doubles alone would land one pixel above this budget.
    assert_eq!(
        decode_size([1_371_223_498, 1_371_223_498], u32::MAX, 1_853_006_413_926_720),
        [43_046_560, 43_046_560]
    );
}

#[test]
fn a_transposed_source_gives_the_transposed_size() {
    let budget = 576_460_752_303_423_487;
    assert_eq!(
        decode_size([2_147_483_648, 1_073_741_824], u32::MAX, budget),
        [1_073_741_823, 536_870_911]
    );
    assert_eq!(
        decode_size([1_073_741_824, 2_147_483_648], u32::MAX, budget),
        [536_870_911, 1_073_741_823]
    );
    for width in [0, 1, 2, 3, 64, 1000, 8192, 65535, u32::MAX] {
        for height in [0, 1, 2, 5, 100, 4000, 65535, u32::MAX] {
            for max_side in [0, 1, 64, 8192, u32::MAX] {
                for max_pixels in [0, 1, 7, 25, 24_000_000, budget, u64::MAX] {
                    let [long, tall] = decode_size([width, height], max_side, max_pixels);
                    assert_eq!(
                        decode_size([height, width], max_side, max_pixels),
                        [tall, long],
                        "{width}×{height} within {max_side} and {max_pixels}"
                    );
                }
            }
        }
    }
}

#[test]
fn a_tall_image_lands_on_the_side_limit_too() {
    assert_eq!(decode_size([4000, 12000], 8192, NO_BUDGET), [2730, 8192]);
    assert_eq!(decode_size([3, 16000], 8192, NO_BUDGET), [1, 8192]);
}

#[test]
fn a_thumbnail_fits_its_box_and_is_never_enlarged() {
    assert_eq!(thumb_size([1024, 512]), [512, 256]);
    assert_eq!(thumb_size([100, 300]), [100, 300]);
    assert_eq!(thumb_size([0, 9]), [0, 9]);
}

#[test]
fn the_texture_limit_is_the_smaller_of_driver_and_guard() {
    assert_eq!(texture_side_limit(2048), 2048);
    assert_eq!(texture_side_limit(16384), 8192);
    assert_eq!(texture_side_limit(8192), 8192);
}

#[test]
fn a_decode_asks_for_the_header_only_when_the_size_is_missing() {
    assert!(matches!(decode_full([8, 8], 4096, DecodeEvent::Start), DecodeAction::Decode));
    assert!(matches!(decode_full([0, 8], 4096, DecodeEvent::Start), DecodeAction::ReadHeader));
    assert!(matches!(
        decode_full([0, 0], 4096, DecodeEvent::Header(Ok([16, 4]))),
        DecodeAction::Decode
    ));
}

#[test]
fn an_oversized_source_is_refused_with_its_size() {
    let DecodeAction::Refuse(message) = decode_full([20000, 10000], 8192, DecodeEvent::Start) else {
        panic!("a source over the cap is refused");
    };
    assert_eq!(
        message,
        "This image is 20000×10000 pixels. The viewer refuses anything above 100 megapixels."
    );
}

#[test]
fn a_decode_that_fails_says_which_half_failed() {
    let DecodeAction::Fail(header) =
        decode_full([0, 0], 8192, DecodeEvent::Header(Err("no such file".to_string())))
    else {
        panic!("an unreadable header fails");
    };
    assert_eq!(header, "The image header could not be read. no such file");
    let DecodeAction::Fail(pixels) =
        decode_full([8, 8], 8192, DecodeEvent::Decoded(Err("bad data".to_string())))
    else {
        panic!("undecodable pixels fail");
    };
    assert_eq!(pixels, "The image could not be decoded. bad data");
}

#[test]
fn a_decoded_image_is_resampled_only_past_the_limits() {
    assert!(matches!(
        decode_full([8, 8], 4096, DecodeEvent::Decoded(Ok([8, 8]))),
        DecodeAction::Keep
    ));
    assert!(matches!(
        decode_full([8192, 4096], 4096, DecodeEvent::Decoded(Ok([8192, 4096]))),
        DecodeAction::Resize([4096, 2048])
    ));
}

#[test]
fn the_last_request_of_a_window_is_the_one_it_wants() {
    let mut pool = FullPool::new();
    let first = pool.request(1);
    let other = pool.request(2);
    assert!(pool.still_wants(1, first));
    let second = pool.request(1);
    assert!(!pool.still_wants(1, first));
    assert!(pool.still_wants(1, second));
    assert!(pool.still_wants(2, other));
    assert!(!pool.still_wants(2, second));
    pool.forget(1);
    assert!(!pool.still_wants(1, second));
    assert!(pool.still_wants(2, other));
}

#[test]
fn coming_back_to_an_image_supersedes_the_earlier_request_for_it() {
    // A window that goes from one image to another and back decodes once.
    let mut pool = FullPool::new();
    let numbers: Vec<u64> = (0..3).map(|_| pool.request(7)).collect();
    let wanted: Vec<bool> = numbers.iter().map(|number| pool.still_wants(7, *number)).collect();
    assert_eq!(wanted, [false, false, true]);
    assert!(pool.can_request());
}
