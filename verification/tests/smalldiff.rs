use qoi_encoder::chunk::{qoi_op_diff, smalldiff};
use qoi_encoder::pixel::RGBAPixel;

#[test]
fn test_smalldiff_1up_onechannel() {
    let previous_pixel: RGBAPixel = RGBAPixel { r: 0, g: 0, b: 0, a: 255 };
    let current_pixel = RGBAPixel { r: 1, g: 0, b: 0, a: 255 };
    assert_eq!(smalldiff(previous_pixel, current_pixel), true);
    assert_eq!(qoi_op_diff(previous_pixel, current_pixel), 0b01111010);
}

#[test]
fn test_smalldiff_1up_allchannel() {
    let previous_pixel: RGBAPixel = RGBAPixel { r: 0, g: 0, b: 0, a: 255 };
    let current_pixel = RGBAPixel { r: 1, g: 1, b: 1, a: 255 };
    assert_eq!(smalldiff(previous_pixel, current_pixel), true);
    assert_eq!(qoi_op_diff(previous_pixel, current_pixel), 0b01111111);
}

#[test]
fn test_smalldiff_1down_onechannel() {
    let previous_pixel: RGBAPixel = RGBAPixel { r: 1, g: 0, b: 0, a: 255 };
    let current_pixel = RGBAPixel { r: 0, g: 0, b: 0, a: 255 };
    assert_eq!(smalldiff(previous_pixel, current_pixel), true);
    assert_eq!(qoi_op_diff(previous_pixel, current_pixel), 0b01011010);
}

#[test]
fn test_smalldiff_1down_allchannel() {
    let previous_pixel: RGBAPixel = RGBAPixel { r: 1, g: 1, b: 1, a: 255 };
    let current_pixel = RGBAPixel { r: 0, g: 0, b: 0, a: 255 };
    assert_eq!(smalldiff(previous_pixel, current_pixel), true);
    assert_eq!(qoi_op_diff(previous_pixel, current_pixel), 0b01010101);
}

#[test]
fn test_smalldiff_2down_onechannel() {
    let previous_pixel: RGBAPixel = RGBAPixel { r: 2, g: 0, b: 0, a: 255 };
    let current_pixel = RGBAPixel { r: 0, g: 0, b: 0, a: 255 };
    assert_eq!(smalldiff(previous_pixel, current_pixel), true);
    assert_eq!(qoi_op_diff(previous_pixel, current_pixel), 0b01001010);
}

#[test]
fn test_smalldiff_2down_allchannel() {
    let previous_pixel: RGBAPixel = RGBAPixel { r: 2, g: 2, b: 2, a: 255 };
    let current_pixel = RGBAPixel { r: 0, g: 0, b: 0, a: 255 };
    assert_eq!(smalldiff(previous_pixel, current_pixel), true);
    assert_eq!(qoi_op_diff(previous_pixel, current_pixel), 0b01000000);
}

#[test]
fn test_smalldiff_1upwrap_onechannel() {
    let previous_pixel: RGBAPixel = RGBAPixel { r: 255, g: 0, b: 0, a: 255 };
    let current_pixel = RGBAPixel { r: 0, g: 0, b: 0, a: 255 };
    assert_eq!(smalldiff(previous_pixel, current_pixel), true);
    assert_eq!(qoi_op_diff(previous_pixel, current_pixel), 0b01111010);
}

#[test]
fn test_smalldiff_1downwrap_onechannel() {
    let previous_pixel: RGBAPixel = RGBAPixel { r: 0, g: 0, b: 0, a: 255 };
    let current_pixel = RGBAPixel { r: 255, g: 0, b: 0, a: 255 };
    assert_eq!(smalldiff(previous_pixel, current_pixel), true);
    assert_eq!(qoi_op_diff(previous_pixel, current_pixel), 0b01011010);
}

#[test]
fn test_smalldiff_2downwrap_onechannel() {
    let previous_pixel: RGBAPixel = RGBAPixel { r: 0, g: 0, b: 0, a: 255 };
    let current_pixel = RGBAPixel { r: 254, g: 0, b: 0, a: 255 };
    assert_eq!(smalldiff(previous_pixel, current_pixel), true);
    assert_eq!(qoi_op_diff(previous_pixel, current_pixel), 0b01001010);
}
