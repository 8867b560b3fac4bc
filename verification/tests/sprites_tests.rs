use smart_road::geometry::Route;
use smart_road::sprites::{
    atlas_dimensions_match, decode_atlas, frame_to_rgba, route_color, to_rgba, vehicle_region,
    AtlasError, PixelLayout, PngFailure, PngFrame, ATLAS_H, ATLAS_W,
};
use smart_road::vehicle::VehicleVisual;

fn encode_png(width: u32, height: u32, color: png::ColorType, depth: png::BitDepth, data: &[u8]) -> Vec<u8> {
    let mut bytes = Vec::new();
    {
        let mut encoder = png::Encoder::new(&mut bytes, width, height);
        encoder.set_color(color);
        encoder.set_depth(depth);
        let mut writer = encoder.write_header().unwrap();
        writer.write_image_data(data).unwrap();
    }
    bytes
}

#[test]
fn rgb_pixels_gain_an_opaque_alpha() {
    let out = to_rgba(&vec![1, 2, 3, 4, 5, 6, 7], PixelLayout::Rgb).ok().unwrap();
    assert_eq!(out, vec![1, 2, 3, 255, 4, 5, 6, 255]);
}

#[test]
fn grey_pixels_fill_every_channel() {
    let out = to_rgba(&vec![9, 200], PixelLayout::Grayscale).ok().unwrap();
    assert_eq!(out, vec![9, 9, 9, 255, 200, 200, 200, 255]);
}

#[test]
fn grey_alpha_pixels_keep_their_alpha() {
    let out = to_rgba(&vec![10, 20, 30, 40, 50], PixelLayout::GrayscaleAlpha).ok().unwrap();
    assert_eq!(out, vec![10, 10, 10, 20, 30, 30, 30, 40]);
}

#[test]
fn rgba_pixels_are_kept() {
    let out = to_rgba(&vec![1, 2, 3, 4], PixelLayout::Rgba).ok().unwrap();
    assert_eq!(out, vec![1, 2, 3, 4]);
}

#[test]
fn indexed_pixels_are_refused() {
    assert!(matches!(to_rgba(&vec![0, 1], PixelLayout::Indexed), Err(AtlasError::StillIndexed)));
}

#[test]
fn decoding_an_rgb_png_gives_rgba_pixels() {
    let bytes = encode_png(2, 1, png::ColorType::Rgb, png::BitDepth::Eight, &[10, 20, 30, 40, 50, 60]);
    let image = decode_atlas(&bytes).ok().unwrap();
    assert_eq!(image.width, 2);
    assert_eq!(image.height, 1);
    assert_eq!(image.pixels, vec![10, 20, 30, 255, 40, 50, 60, 255]);
}

#[test]
fn decoding_a_sixteen_bit_png_strips_to_eight_bits() {
    let bytes = encode_png(1, 1, png::ColorType::Grayscale, png::BitDepth::Sixteen, &[0xAB, 0xCD]);
    let image = decode_atlas(&bytes).ok().unwrap();
    assert_eq!(image.pixels, vec![0xAB, 0xAB, 0xAB, 255]);
}

#[test]
fn decoding_garbage_fails_at_the_header() {
    match decode_atlas(&vec![1, 2, 3, 4]) {
        Err(AtlasError::Png(PngFailure::Header(message))) => assert!(!message.is_empty()),
        _ => panic!("garbage must be refused while reading the header"),
    }
}

#[test]
fn atlas_dimensions() {
    assert!(atlas_dimensions_match(ATLAS_W, ATLAS_H));
    assert!(atlas_dimensions_match(512, 896));
    assert!(!atlas_dimensions_match(896, 512));
}

#[test]
fn sprite_regions_and_route_colours() {
    assert_eq!(vehicle_region(VehicleVisual::Sedan), (0, 0, 88, 176));
    assert_eq!(vehicle_region(VehicleVisual::Bus), (0, 216, 96, 280));
    assert_eq!(vehicle_region(VehicleVisual::Fire), (104, 216, 104, 272));
    assert_eq!(route_color(Route::Right), (68, 199, 179));
    assert_eq!(route_color(Route::Straight), (153, 113, 228));
    assert_eq!(route_color(Route::Left), (240, 163, 58));
}

#[test]
fn frames_need_eight_bit_samples() {
    let frame = PngFrame { width: 1, height: 1, bit_depth: 16, color_type: 2, samples: vec![0; 6] };
    assert!(matches!(frame_to_rgba(frame), Err(AtlasError::UnsupportedBitDepth(16))));
}

#[test]
fn indexed_frames_are_refused() {
    let frame = PngFrame { width: 2, height: 1, bit_depth: 8, color_type: 3, samples: vec![0, 1] };
    assert!(matches!(frame_to_rgba(frame), Err(AtlasError::StillIndexed)));
}

#[test]
fn grey_alpha_frame_becomes_rgba() {
    let frame = PngFrame { width: 1, height: 2, bit_depth: 8, color_type: 4, samples: vec![7, 8, 9, 10] };
    let image = frame_to_rgba(frame).ok().unwrap();
    assert_eq!((image.width, image.height), (1, 2));
    assert_eq!(image.pixels, vec![7, 7, 7, 8, 9, 9, 9, 10]);
}
