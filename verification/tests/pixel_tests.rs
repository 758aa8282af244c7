//! Pixel-format conversion and pitch removal.

use oxretro::pixel::depad_frame;
use oxretro::pixel::RetroPixelFormat;

#[test]
fn pixel_sizes() {
    assert_eq!(RetroPixelFormat::Format0RGB1555.get_pixel_size(), 2);
    assert_eq!(RetroPixelFormat::FormatXRGB8888.get_pixel_size(), 4);
    assert_eq!(RetroPixelFormat::FormatRGB565.get_pixel_size(), 2);
}

#[test]
fn format_from_raw_values() {
    assert_eq!(RetroPixelFormat::from(0), Some(RetroPixelFormat::Format0RGB1555));
    assert_eq!(RetroPixelFormat::from(1), Some(RetroPixelFormat::FormatXRGB8888));
    assert_eq!(RetroPixelFormat::from(2), Some(RetroPixelFormat::FormatRGB565));
    assert_eq!(RetroPixelFormat::from(3), None);
    assert_eq!(RetroPixelFormat::from(u32::MAX), None);
}

#[test]
fn convert_0rgb1555_blue_pixel() {
    // Little-endian 0x001F: blue channel at its maximum of 31.
    let data = [0x1Fu8, 0x00];
    let out = RetroPixelFormat::Format0RGB1555.convert(&data, 1, 1);
    assert_eq!(out, vec![0, 0, 248, 255]);
}

#[test]
fn convert_rgb565_red_pixel() {
    // Little-endian 0xF800: red channel at its maximum of 31.
    let data = [0x00u8, 0xF8];
    let out = RetroPixelFormat::FormatRGB565.convert(&data, 1, 1);
    assert_eq!(out, vec![255, 0, 0, 255]);
}

#[test]
fn convert_rgb565_green_pixel() {
    // Little-endian 0x07E0: green channel at its maximum of 63.
    let data = [0xE0u8, 0x07];
    let out = RetroPixelFormat::FormatRGB565.convert(&data, 1, 1);
    assert_eq!(out, vec![0, 255, 0, 255]);
}

#[test]
fn convert_xrgb8888_swizzles_and_sets_alpha() {
    // One pixel stored B, G, R, X.
    let data = [0x11u8, 0x22, 0x33, 0x44];
    let out = RetroPixelFormat::FormatXRGB8888.convert(&data, 1, 1);
    assert_eq!(out, vec![0x33, 0x22, 0x11, 255]);
}

#[test]
fn convert_walks_pixels_in_row_major_order() {
    // Two 0RGB1555 pixels: full blue then full red.
    let data = [0x1Fu8, 0x00, 0x00, 0x7C];
    let out = RetroPixelFormat::Format0RGB1555.convert(&data, 2, 1);
    assert_eq!(out, vec![0, 0, 248, 255, 248, 0, 0, 255]);
}

#[test]
fn depad_strips_row_padding() {
    // Two rows of two 2-byte pixels, with 2 bytes of padding per row.
    let data = [1u8, 2, 3, 4, 0xEE, 0xEE, 5, 6, 7, 8, 0xEE, 0xEE];
    let out = depad_frame(&data, 2, 2, 6, RetroPixelFormat::Format0RGB1555)
        .expect("valid pitch");
    assert_eq!(out, vec![1, 2, 3, 4, 5, 6, 7, 8]);
}

#[test]
fn depad_passes_tight_frames_through() {
    let data = [1u8, 2, 3, 4, 5, 6, 7, 8];
    let out = depad_frame(&data, 2, 2, 4, RetroPixelFormat::Format0RGB1555)
        .expect("tight pitch");
    assert_eq!(out, data.to_vec());
}

#[test]
fn depad_rejects_pitch_smaller_than_a_row() {
    let data = [0u8; 16];
    assert!(depad_frame(&data, 4, 2, 6, RetroPixelFormat::Format0RGB1555).is_none());
}

#[test]
fn depad_rejects_short_buffers() {
    let data = [0u8; 10];
    assert!(depad_frame(&data, 2, 2, 6, RetroPixelFormat::Format0RGB1555).is_none());
}
