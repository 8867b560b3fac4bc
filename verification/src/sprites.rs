//! The sprite atlas: decoding of the embedded PNG into RGBA pixels and the
//! source regions of every sprite in it.

use crate::geometry::Route;
use crate::vehicle::VehicleVisual;
use vstd::prelude::*;

verus! {

/// Expected atlas width in pixels.
pub const ATLAS_W: u32 = 512;
/// Expected atlas height in pixels.
pub const ATLAS_H: u32 = 896;

/// Source regions in the atlas: x, y, width, height.
pub const TREE: (i32, i32, u32, u32) = (216, 216, 112, 112);
pub const ROAD_H: (i32, i32, u32, u32) = (0, 504, 192, 192);
pub const ROAD_V: (i32, i32, u32, u32) = (200, 504, 192, 192);
pub const INTERSECTION: (i32, i32, u32, u32) = (0, 704, 192, 192);

/// Sample layout of decoded PNG pixels.
#[derive(Clone, Copy, Debug, PartialEq, Eq, Structural)]
pub enum PixelLayout {
    Grayscale,
    Rgb,
    Indexed,
    GrayscaleAlpha,
    Rgba,
}

/// The first frame of a PNG image, decoded with palette and low-depth
/// expansion and with 16-bit samples stripped to 8 bits.
pub struct PngFrame {
    pub width: u32,
    pub height: u32,
    /// Bits per sample after the transformations.
    pub bit_depth: u8,
    /// The PNG colour-type code of the output samples: 0 grey, 2 RGB,
    /// 3 palette, 4 grey with alpha, 6 RGBA.
    pub color_type: u8,
    /// The frame's samples, row after row.
    pub samples: Vec<u8>,
}

/// Why the PNG decoder gave up, with its message.
pub enum PngFailure {
    /// The header and metadata could not be read.
    Header(String),
    /// The image data of the first frame could not be decoded.
    Frame(String),
}

pub struct PngFrameView {
    pub width: u32,
    pub height: u32,
    pub bit_depth: u8,
    pub color_type: u8,
    pub samples: Seq<u8>,
}

pub enum PngFailureView {
    Header(Seq<char>),
    Frame(Seq<char>),
}

impl View for PngFrame {
    type V = PngFrameView;

    open spec fn view(&self) -> PngFrameView {
        PngFrameView {
            width: self.width,
            height: self.height,
            bit_depth: self.bit_depth,
            color_type: self.color_type,
            samples: self.samples@,
        }
    }
}

impl View for PngFailure {
    type V = PngFailureView;

    open spec fn view(&self) -> PngFailureView {
        match self {
            PngFailure::Header(message) => PngFailureView::Header(message@),
            PngFailure::Frame(message) => PngFailureView::Frame(message@),
        }
    }
}

/// The five colour-type codes of PNG.
pub open spec fn png_color_code(code: u8) -> bool {
    code == 0 || code == 2 || code == 3 || code == 4 || code == 6
}

/// The sample layout a PNG colour-type code stands for.
pub open spec fn layout_of_code(code: u8) -> PixelLayout {
    if code == 0 {
        PixelLayout::Grayscale
    } else if code == 2 {
        PixelLayout::Rgb
    } else if code == 3 {
        PixelLayout::Indexed
    } else if code == 4 {
        PixelLayout::GrayscaleAlpha
    } else {
        PixelLayout::Rgba
    }
}

impl PixelLayout {
    pub fn from_png_code(code: u8) -> (layout: PixelLayout)
        requires
            png_color_code(code),
        ensures
            layout == layout_of_code(code),
    {
        match code {
            0 => PixelLayout::Grayscale,
            2 => PixelLayout::Rgb,
            3 => PixelLayout::Indexed,
            4 => PixelLayout::GrayscaleAlpha,
            _ => PixelLayout::Rgba,
        }
    }
}

/// What the `png` crate's decoder makes of `bytes`.
pub uninterp spec fn png_decoded(bytes: Seq<u8>) -> Result<PngFrameView, PngFailureView>;

/// Decodes the first frame of a PNG image with the `png` crate: builds a
/// `png::Decoder` over the bytes, asks for `EXPAND | STRIP_16`, reads the
/// header (`read_info`), decodes one frame (`next_frame`) into a buffer of
/// `output_buffer_size` bytes and keeps the frame's `buffer_size` bytes of
/// it. The result is a function of the bytes alone and is named
/// `png_decoded`; of it, only that the colour type is one of the five
/// codes of `png::ColorType` (a `repr(u8)` enum) is stated.
#[verifier::external_body]
fn decode_png(bytes: &Vec<u8>) -> (decoded: Result<PngFrame, PngFailure>)
    ensures
        match decoded {
            Ok(frame) => png_decoded(bytes@) == Ok::<PngFrameView, PngFailureView>(frame@)
                && png_color_code(frame.color_type),
            Err(failure) => png_decoded(bytes@) == Err::<PngFrameView, PngFailureView>(failure@),
        },
{
    let mut decoder = png::Decoder::new(std::io::Cursor::new(bytes.as_slice()));
    decoder.set_transformations(png::Transformations::EXPAND | png::Transformations::STRIP_16);
    let mut reader = decoder.read_info().map_err(|e| PngFailure::Header(e.to_string()))?;
    let mut samples = vec![0; reader.output_buffer_size()];
    let info = reader.next_frame(&mut samples).map_err(|e| PngFailure::Frame(e.to_string()))?;
    samples.truncate(info.buffer_size());
    let color_type = info.color_type as u8;
    Ok(PngFrame { width: info.width, height: info.height, bit_depth: info.bit_depth as u8, color_type, samples })
}

/// Why the atlas could not be turned into RGBA pixels.
pub enum AtlasError {
    /// The PNG decoder failed.
    Png(PngFailure),
    /// The samples are not 8 bits wide after expansion.
    UnsupportedBitDepth(u8),
    /// The pixels are still palette indices after expansion.
    StillIndexed,
}

/// An image as RGBA bytes, four per pixel.
pub struct RgbaImage {
    pub width: u32,
    pub height: u32,
    pub pixels: Vec<u8>,
}

/// The four bytes of pixel `p` in an RGBA buffer.
pub open spec fn rgba_pixel(out: Seq<u8>, p: int) -> (u8, u8, u8, u8) {
    (out[4 * p], out[4 * p + 1], out[4 * p + 2], out[4 * p + 3])
}

/// Number of complete pixels in `source` under `layout`.
pub open spec fn pixel_count(source: Seq<u8>, layout: PixelLayout) -> nat {
    match layout {
        PixelLayout::Rgb => source.len() / 3,
        PixelLayout::GrayscaleAlpha => source.len() / 2,
        _ => source.len(),
    }
}

/// Pixel `p` of `source` as RGBA: missing colour channels repeat the grey
/// value and a missing alpha channel is opaque.
pub open spec fn source_pixel(source: Seq<u8>, layout: PixelLayout, p: int) -> (u8, u8, u8, u8) {
    match layout {
        PixelLayout::Rgb => (source[3 * p], source[3 * p + 1], source[3 * p + 2], 255u8),
        PixelLayout::GrayscaleAlpha => (source[2 * p], source[2 * p], source[2 * p], source[2 * p + 1]),
        _ => (source[p], source[p], source[p], 255u8),
    }
}

/// `out` is `source` converted to RGBA: RGBA samples are kept as they are;
/// otherwise each complete source pixel becomes four bytes and incomplete
/// trailing samples are dropped. Palette indices have no conversion.
pub open spec fn rgba_conversion(source: Seq<u8>, layout: PixelLayout, out: Seq<u8>) -> bool {
    if layout == PixelLayout::Rgba {
        out == source
    } else if layout == PixelLayout::Indexed {
        false
    } else {
        &&& out.len() == 4 * pixel_count(source, layout)
        &&& forall|p: int|
            0 <= p < pixel_count(source, layout) ==> #[trigger] rgba_pixel(out, p) == source_pixel(
                source,
                layout,
                p,
            )
    }
}

/// Converts decoded samples to RGBA bytes. Palette indices cannot be
/// converted and are refused.
pub fn to_rgba(source: &Vec<u8>, layout: PixelLayout) -> (converted: Result<Vec<u8>, AtlasError>)
    ensures
        layout == PixelLayout::Indexed <==> converted is Err,
        converted matches Err(e) ==> e is StillIndexed,
        converted matches Ok(out) ==> rgba_conversion(source@, layout, out@),
{
    let s = source;
    match layout {
        PixelLayout::Rgba => {
            let copy = s.clone();
            proof {
                assert(copy@ =~= s@);
            }
            return Ok(copy);
        },
        PixelLayout::Indexed => {
            return Err(AtlasError::StillIndexed);
        },
        _ => {},
    }
    let width: usize = match layout {
        PixelLayout::Rgb => 3,
        PixelLayout::GrayscaleAlpha => 2,
        _ => 1,
    };
    let len = s.len();
    let count = len / width;
    proof {
        assert(count == pixel_count(s@, layout));
    }
    let mut rgba: Vec<u8> = Vec::new();
    let mut p: usize = 0;
    while p < count
        invariant
            layout == PixelLayout::Rgb || layout == PixelLayout::Grayscale || layout
                == PixelLayout::GrayscaleAlpha,
            width == match layout {
                PixelLayout::Rgb => 3usize,
                PixelLayout::GrayscaleAlpha => 2usize,
                _ => 1usize,
            },
            len == s@.len(),
            count == s@.len() / (width as nat),
            count == pixel_count(s@, layout),
            p <= count,
            rgba@.len() == 4 * p,
            forall|q: int| 0 <= q < p ==> #[trigger] rgba_pixel(rgba@, q) == source_pixel(s@, layout, q),
        decreases count - p,
    {
        proof {
            assert(width * p + width <= s@.len()) by (nonlinear_arith)
                requires
                    p < count,
                    count == s@.len() / (width as nat),
                    width >= 1,
            ;
        }
        let base = width * p;
        let first = s[base];
        let (r, g, b, a) = match layout {
            PixelLayout::Rgb => (first, s[base + 1], s[base + 2], 255u8),
            PixelLayout::GrayscaleAlpha => (first, first, first, s[base + 1]),
            _ => (first, first, first, 255u8),
        };
        let ghost before = rgba@;
        rgba.push(r);
        rgba.push(g);
        rgba.push(b);
        rgba.push(a);
        proof {
            assert forall|q: int| 0 <= q < p + 1 implies #[trigger] rgba_pixel(rgba@, q) == source_pixel(s@, layout, q) by {
                if q < p {
                    assert(rgba_pixel(before, q) == source_pixel(s@, layout, q));
                    assert(rgba_pixel(rgba@, q) == rgba_pixel(before, q));
                }
            }
        }
        p += 1;
    }
    Ok(rgba)
}

/// The RGBA image a decoded frame gives: its samples must be 8 bits wide
/// and are converted to RGBA.
pub open spec fn frame_outcome(frame: PngFrameView, image: Result<RgbaImage, AtlasError>) -> bool {
    if frame.bit_depth != 8 {
        image matches Err(AtlasError::UnsupportedBitDepth(depth)) && depth == frame.bit_depth
    } else if layout_of_code(frame.color_type) == PixelLayout::Indexed {
        image matches Err(AtlasError::StillIndexed)
    } else {
        image matches Ok(img) && img.width == frame.width && img.height == frame.height
            && rgba_conversion(frame.samples, layout_of_code(frame.color_type), img.pixels@)
    }
}

/// What each PNG colour type becomes: an 8-bit RGBA frame (code 6) keeps its
/// samples as its pixels; RGB (code 2) gains an opaque alpha; grey (code 0)
/// is repeated into the three colour channels with an opaque alpha; grey
/// with alpha (code 4) repeats the grey and keeps the alpha; palette indices
/// (code 3) are refused.
pub proof fn colour_type_law(frame: PngFrameView, image: Result<RgbaImage, AtlasError>)
    requires
        frame_outcome(frame, image),
        frame.bit_depth == 8,
    ensures
        frame.color_type == 6 ==> (image matches Ok(img) && img.pixels@ == frame.samples),
        frame.color_type == 3 ==> (image matches Err(AtlasError::StillIndexed)),
        frame.color_type == 2 ==> (image matches Ok(img) && img.pixels@.len() == 4 * (
        frame.samples.len() / 3) && forall|p: int|
            0 <= p < frame.samples.len() / 3 ==> #[trigger] rgba_pixel(img.pixels@, p) == (
                frame.samples[3 * p],
                frame.samples[3 * p + 1],
                frame.samples[3 * p + 2],
                255u8,
            )),
        frame.color_type == 0 ==> (image matches Ok(img) && img.pixels@.len() == 4 * frame.samples.len()
            && forall|p: int|
            0 <= p < frame.samples.len() ==> #[trigger] rgba_pixel(img.pixels@, p) == (
                frame.samples[p],
                frame.samples[p],
                frame.samples[p],
                255u8,
            )),
        frame.color_type == 4 ==> (image matches Ok(img) && img.pixels@.len() == 4 * (
        frame.samples.len() / 2) && forall|p: int|
            0 <= p < frame.samples.len() / 2 ==> #[trigger] rgba_pixel(img.pixels@, p) == (
                frame.samples[2 * p],
                frame.samples[2 * p],
                frame.samples[2 * p],
                frame.samples[2 * p + 1],
            )),
{
}

/// Turns a decoded frame into an RGBA image.
pub fn frame_to_rgba(frame: PngFrame) -> (image: Result<RgbaImage, AtlasError>)
    requires
        png_color_code(frame.color_type),
    ensures
        frame_outcome(frame@, image),
{
    if frame.bit_depth != 8 {
        return Err(AtlasError::UnsupportedBitDepth(frame.bit_depth));
    }
    let layout = PixelLayout::from_png_code(frame.color_type);
    let pixels = to_rgba(&frame.samples, layout)?;
    Ok(RgbaImage { width: frame.width, height: frame.height, pixels })
}

/// Decodes the embedded atlas into RGBA pixels: the PNG is decoded, its
/// samples must be 8 bits wide, and they are converted to RGBA.
pub fn decode_atlas(bytes: &Vec<u8>) -> (image: Result<RgbaImage, AtlasError>)
    ensures
        match png_decoded(bytes@) {
            Err(failure) => image matches Err(AtlasError::Png(f)) && f@ == failure,
            Ok(frame) => frame_outcome(frame, image),
        },
{
    match decode_png(bytes) {
        Ok(frame) => frame_to_rgba(frame),
        Err(failure) => Err(AtlasError::Png(failure)),
    }
}

/// The atlas has the dimensions the sprite regions were laid out for.
pub fn atlas_dimensions_match(width: u32, height: u32) -> (matches: bool)
    ensures
        matches == (width == ATLAS_W && height == ATLAS_H),
{
    width == ATLAS_W && height == ATLAS_H
}

/// Atlas region (x, y, width, height) of a vehicle sprite.
pub fn vehicle_region(visual: VehicleVisual) -> (region: (i32, i32, u32, u32))
    ensures
        region == match visual {
            VehicleVisual::Sedan => (0i32, 0i32, 88u32, 176u32),
            VehicleVisual::Sport => (96, 0, 92, 184),
            VehicleVisual::RoboTaxi => (196, 0, 84, 144),
            VehicleVisual::Bus => (0, 216, 96, 280),
            VehicleVisual::Police => (288, 0, 88, 176),
            VehicleVisual::Ambulance => (384, 0, 96, 208),
            VehicleVisual::Fire => (104, 216, 104, 272),
        },
{
    match visual {
        VehicleVisual::Sedan => (0, 0, 88, 176),
        VehicleVisual::Sport => (96, 0, 92, 184),
        VehicleVisual::RoboTaxi => (196, 0, 84, 144),
        VehicleVisual::Bus => (0, 216, 96, 280),
        VehicleVisual::Police => (288, 0, 88, 176),
        VehicleVisual::Ambulance => (384, 0, 96, 208),
        VehicleVisual::Fire => (104, 216, 104, 272),
    }
}

/// Legend colour (red, green, blue) of a route.
pub fn route_color(route: Route) -> (rgb: (u8, u8, u8))
    ensures
        rgb == match route {
            Route::Right => (68u8, 199u8, 179u8),
            Route::Straight => (153, 113, 228),
            Route::Left => (240, 163, 58),
        },
{
    match route {
        Route::Right => (68, 199, 179),
        Route::Straight => (153, 113, 228),
        Route::Left => (240, 163, 58),
    }
}

} // verus!
