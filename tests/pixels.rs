use mcsdf::clash::{correct_pixel, is_pixel_clashing, is_pixel_pair_clashing};
use mcsdf::math::{clamp, max, median, min};
use mcsdf::texture::PixelView;

#[test]
fn median_of_three_channels() {
    assert_eq!(median([1, 2, 3]), 2);
    assert_eq!(median([3, 1, 2]), 2);
    assert_eq!(median([200, 10, 100]), 100);
    assert_eq!(median([7, 7, 1]), 7);
    assert_eq!(median([0, 255, 0]), 0);
}

#[test]
fn clamp_limits_to_range() {
    assert_eq!(clamp(5, 10, 20), 10);
    assert_eq!(clamp(25, 10, 20), 20);
    assert_eq!(clamp(15, 10, 20), 15);
    assert_eq!(clamp(15, 20, 10), 10);
}

#[test]
fn min_and_max_of_channels() {
    assert_eq!(min([9, 3, 7]), 3);
    assert_eq!(max([9, 3, 7]), 9);
    assert_eq!(min([0, 0, 0]), 0);
    assert_eq!(max([255, 1, 254]), 255);
}

fn inner_view(top: [u8; 3], left: [u8; 3]) -> PixelView {
    PixelView {
        x: 2,
        y: 2,
        width: 8,
        height: 8,
        top_pixel: top,
        left_pixel: left,
        top_left_pixel: [0, 0, 0],
        top_right_pixel: [0, 0, 0],
    }
}

#[test]
fn pair_clash_needs_two_flipped_channels_far_apart() {
    // high bits 110 against 011: channels 0 and 2 flip
    assert!(is_pixel_pair_clashing(10, [255, 255, 0], [0, 255, 255]));
    // the same pattern but too close in value
    assert!(!is_pixel_pair_clashing(10, [105, 105, 100], [100, 105, 105]));
    // uniform pixels never clash
    assert!(!is_pixel_pair_clashing(1, [0, 0, 0], [0, 255, 255]));
    assert!(!is_pixel_pair_clashing(1, [9, 9, 9], [0, 255, 255]));
    // only one channel flips
    assert!(!is_pixel_pair_clashing(1, [255, 255, 0], [255, 0, 0]));
}

#[test]
fn border_pixels_always_clash() {
    let mut pv = inner_view([0, 0, 0], [0, 0, 0]);
    assert!(!is_pixel_clashing(10, &pv, [10, 200, 30]));
    pv.x = 7;
    assert!(is_pixel_clashing(10, &pv, [10, 200, 30]));
    pv.x = 0;
    assert!(is_pixel_clashing(10, &pv, [10, 200, 30]));
    pv.x = 3;
    pv.y = 7;
    assert!(is_pixel_clashing(10, &pv, [10, 200, 30]));
}

#[test]
fn neighbour_clash_is_detected() {
    let pv = inner_view([255, 255, 0], [0, 0, 0]);
    assert!(is_pixel_clashing(10, &pv, [0, 255, 255]));
    let pv = inner_view([0, 0, 0], [255, 255, 0]);
    assert!(is_pixel_clashing(10, &pv, [0, 255, 255]));
}

#[test]
fn clashing_pixel_is_flattened_to_median() {
    let pv = inner_view([255, 255, 0], [0, 0, 0]);
    assert_eq!(correct_pixel(10, &pv, [0, 255, 200]), [200, 200, 200]);
}

#[test]
fn zero_channels_are_stored_as_one() {
    let pv = inner_view([0, 0, 0], [0, 0, 0]);
    assert_eq!(correct_pixel(10, &pv, [0, 128, 0]), [1, 128, 1]);
    assert_eq!(correct_pixel(10, &pv, [30, 128, 90]), [30, 128, 90]);
    let mut border = pv;
    border.y = 0;
    assert_eq!(correct_pixel(10, &border, [0, 0, 0]), [1, 1, 1]);
}
