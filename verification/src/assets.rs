//! The asset deriver: rasterise one country's flag image, render both fixed
//! 40 by 17 ASCII grids, extract the palette, sort it by luminance and pick
//! the most distinctive colour.  A malformed or zero-area image is a
//! derivation failure, never a panic.

use vstd::prelude::*;

use crate::color::{most_colorful, sort_by_lum, sort_palette, pick_most_colorful, Rgb};
use crate::country::{AssetsView, RenderedFlagAssets};
use crate::grid::{grid_wf, validate_grid};

verus! {

/// Why deriving assets for one record failed; the record is excluded from
/// the archive, the run goes on.
#[derive(Clone, Copy, PartialEq, Eq, Structural, Debug)]
pub enum DeriveError {
    /// The image could not be rasterised (malformed, or zero-area canvas).
    Rasterize,
    /// The rasterised image could not be decoded into pixels.
    Decode,
    /// The ASCII renderer failed on the pixel buffer.
    Render,
    /// A rendered grid is not exactly 40 by 17 visible cells.
    GridShape,
    /// The image yielded no pixels to take a palette from.
    NoPixels,
}

/// A decoded raster image: row-major RGB bytes, three per pixel.
pub struct PixelBuffer {
    pub width: u32,
    pub height: u32,
    pub data: Vec<u8>,
}

impl PixelBuffer {
    /// The byte buffer holds exactly the image's pixels.
    pub open spec fn wf(&self) -> bool {
        self.data@.len() == 3 * (self.width as int) * (self.height as int)
    }
}

/// What the SVG rasteriser yields on a byte stream: PNG bytes of the
/// rendering at the image's intrinsic size, `None` where the image is
/// malformed or reduces to a zero-area canvas.  Embedded images are taken
/// from data URLs only, never from the filesystem, so this is a function of
/// the bytes alone.
pub uninterp spec fn svg_raster_of(svg: Seq<u8>) -> Option<Seq<u8>>;

/// Relies on `resvg::usvg::Tree::from_data` (parse), `tiny_skia::Pixmap::new`
/// (fails on a zero-area canvas), `resvg::render` and
/// `tiny_skia::Pixmap::encode_png`: rasterise an SVG at its intrinsic size
/// into PNG bytes.  The default options would resolve an image reference by
/// reading that path from the filesystem; the string resolver is replaced so
/// that such references stay unresolved and the result depends on the bytes
/// alone (data URLs still resolve, from the bytes themselves).
#[verifier::external_body]
fn rasterize_svg(svg: &Vec<u8>) -> (r: Result<Vec<u8>, DeriveError>)
    ensures
        match r {
            Ok(png) => svg_raster_of(svg@) == Some(png@),
            Err(e) => svg_raster_of(svg@) is None && e == DeriveError::Rasterize,
        },
{
    let mut options = resvg::usvg::Options::default();
    options.image_href_resolver.resolve_string = Box::new(|_, _| None);
    let tree = resvg::usvg::Tree::from_data(svg.as_slice(), &options)
        .map_err(|_| DeriveError::Rasterize)?;
    let size = tree.size().to_int_size();
    let mut pixmap = resvg::tiny_skia::Pixmap::new(size.width(), size.height())
        .ok_or(DeriveError::Rasterize)?;
    resvg::render(&tree, resvg::tiny_skia::Transform::default(), &mut pixmap.as_mut());
    pixmap.encode_png().map_err(|_| DeriveError::Rasterize)
}

/// What PNG decoding yields on a byte stream: the image's dimensions and its
/// row-major RGB pixel bytes, `None` where the bytes are not a well-formed
/// PNG.  A function of the bytes alone.
pub uninterp spec fn png_pixels_of(png: Seq<u8>) -> Option<(u32, u32, Seq<u8>)>;

/// Relies on `image::load_from_memory_with_format` and
/// `image::DynamicImage::to_rgb8`: decode PNG bytes into a row-major RGB
/// buffer of three bytes per pixel, so the buffer's length is three times
/// the pixel count.
#[verifier::external_body]
fn decode_png(png: &Vec<u8>) -> (r: Result<PixelBuffer, DeriveError>)
    ensures
        match r {
            Ok(pb) => png_pixels_of(png@) == Some((pb.width, pb.height, pb.data@)) && pb.wf(),
            Err(e) => png_pixels_of(png@) is None && e == DeriveError::Decode,
        },
{
    let img = image::load_from_memory_with_format(png.as_slice(), image::ImageFormat::Png)
        .map_err(|_| DeriveError::Decode)?;
    let rgb = img.to_rgb8();
    let (width, height) = rgb.dimensions();
    Ok(PixelBuffer { width, height, data: rgb.into_raw() })
}

/// What the ASCII renderer yields on a pixel buffer at the fixed 40 by 17
/// grid, plain or colourised.  A function of the pixels and the flag alone.
pub uninterp spec fn ascii_art_of(width: u32, height: u32, data: Seq<u8>, colored: bool) -> Option<
    Seq<char>,
>;

/// Relies on `image::RgbImage::from_raw` and `rascii_art::render_image` with
/// a fixed 40 by 17 grid: render a pixel buffer as ASCII art, plain or with
/// true-colour escapes.
#[verifier::external_body]
fn render_ascii(pb: &PixelBuffer, colored: bool) -> (r: Result<String, DeriveError>)
    ensures
        match r {
            Ok(s) => ascii_art_of(pb.width, pb.height, pb.data@, colored) == Some(s@),
            Err(e) => ascii_art_of(pb.width, pb.height, pb.data@, colored) is None && e
                == DeriveError::Render,
        },
{
    let raw = image::RgbImage::from_raw(pb.width, pb.height, pb.data.clone())
        .ok_or(DeriveError::Render)?;
    let img = image::DynamicImage::ImageRgb8(raw);
    let mut out = Vec::new();
    let options = rascii_art::RenderOptions::new().width(40).height(17).colored(colored);
    rascii_art::render_image(&img, &mut out, &options).map_err(|_| DeriveError::Render)?;
    String::from_utf8(out).map_err(|_| DeriveError::Render)
}

/// What palette extraction yields on an RGB byte buffer.  A function of the
/// bytes alone.
pub uninterp spec fn palette_of(data: Seq<u8>) -> Seq<(u8, u8, u8)>;

/// Colours of extracted palette entries.
pub open spec fn rgbs_of(s: Seq<(u8, u8, u8)>) -> Seq<Rgb> {
    s.map_values(|c: (u8, u8, u8)| Rgb { r: c.0, g: c.1, b: c.2 })
}

/// Relies on `palette_extract::get_palette_rgb`: quantise an RGB byte buffer
/// into a small discrete palette; on at least one pixel it yields at least
/// one colour and does not panic.
#[verifier::external_body]
fn extract_palette(pb: &PixelBuffer) -> (r: Vec<Rgb>)
    requires
        pb.data@.len() >= 3,
    ensures
        r@ == rgbs_of(palette_of(pb.data@)),
        r@.len() > 0,
{
    let colors = palette_extract::get_palette_rgb(pb.data.as_slice());
    colors.into_iter().map(|c| Rgb { r: c.r, g: c.g, b: c.b }).collect()
}

/// What deriving assets from raster (PNG) flag bytes yields: decode, render
/// both grids, check their fixed shape, extract and sort the palette, pick
/// the most distinctive colour.  `None` is a derivation failure.
pub open spec fn derive_png_spec(png: Seq<u8>) -> Option<AssetsView> {
    match png_pixels_of(png) {
        None => None,
        Some((w, h, px)) => if w == 0 || h == 0 || px.len() < 3 {
            None
        } else {
            match ascii_art_of(w, h, px, false) {
                None => None,
                Some(plain) => match ascii_art_of(w, h, px, true) {
                    None => None,
                    Some(colored) => if !grid_wf(vstd::utf8::encode_utf8(plain)) || !grid_wf(
                        vstd::utf8::encode_utf8(colored),
                    ) {
                        None
                    } else {
                        let palette = sort_by_lum(rgbs_of(palette_of(px)));
                        if palette.len() == 0 {
                            None
                        } else {
                            Some(
                                AssetsView {
                                    plain,
                                    colored,
                                    palette,
                                    brightest: most_colorful(palette),
                                },
                            )
                        }
                    },
                },
            }
        },
    }
}

/// What deriving assets from vector (SVG) flag bytes yields: rasterise at
/// the intrinsic size, then derive from the raster.
pub open spec fn derive_spec(svg: Seq<u8>) -> Option<AssetsView> {
    match svg_raster_of(svg) {
        None => None,
        Some(png) => derive_png_spec(png),
    }
}

/// Both grids of well-derived assets have the fixed shape, the palette is
/// sorted ascending by luminance, and the most distinctive colour maximises
/// colourfulness over the palette.
pub open spec fn assets_wf(a: AssetsView) -> bool {
    &&& grid_wf(vstd::utf8::encode_utf8(a.plain))
    &&& grid_wf(vstd::utf8::encode_utf8(a.colored))
    &&& vstd::relations::sorted_by(a.palette, |x: Rgb, y: Rgb| crate::color::lum_le(x, y))
    &&& a.palette.len() > 0
    &&& a.palette.contains(a.brightest)
    &&& forall|i: int| 0 <= i < a.palette.len() ==> crate::color::colorfulness(
        #[trigger] a.palette[i],
    ) <= crate::color::colorfulness(a.brightest)
}

/// Derive the presentation assets of one flag image.  Succeeds exactly when
/// every derivation step succeeds, and then the assets are well-formed: both
/// grids exactly 40 by 17 whatever the source image's aspect ratio, the
/// palette sorted ascending by luminance, the most distinctive colour
/// maximal by colourfulness.
pub fn derive_assets(svg: &Vec<u8>) -> (r: Result<RenderedFlagAssets, DeriveError>)
    ensures
        match r {
            Ok(a) => derive_spec(svg@) == Some(a@) && assets_wf(a@),
            Err(_) => derive_spec(svg@) is None,
        },
{
    let png = match rasterize_svg(svg) {
        Ok(p) => p,
        Err(e) => {
            return Err(e);
        },
    };
    derive_assets_from_png(&png)
}

/// Derive the presentation assets of one raster (PNG) flag image; the same
/// derivation without the rasterisation step.
pub fn derive_assets_from_png(png: &Vec<u8>) -> (r: Result<RenderedFlagAssets, DeriveError>)
    ensures
        match r {
            Ok(a) => derive_png_spec(png@) == Some(a@) && assets_wf(a@),
            Err(_) => derive_png_spec(png@) is None,
        },
{
    let pb = match decode_png(&png) {
        Ok(p) => p,
        Err(e) => {
            return Err(e);
        },
    };
    if pb.width == 0 || pb.height == 0 || pb.data.len() < 3 {
        return Err(DeriveError::NoPixels);
    }
    let plain = match render_ascii(&pb, false) {
        Ok(s) => s,
        Err(e) => {
            return Err(e);
        },
    };
    let colored = match render_ascii(&pb, true) {
        Ok(s) => s,
        Err(e) => {
            return Err(e);
        },
    };
    if !validate_grid(plain.as_str()) || !validate_grid(colored.as_str()) {
        return Err(DeriveError::GridShape);
    }
    let raw_palette = extract_palette(&pb);
    let palette = sort_palette(raw_palette);
    proof {
        crate::color::lemma_sort_by_lum_ensures(rgbs_of(palette_of(pb.data@)));
    }
    let brightest = pick_most_colorful(&palette);
    let assets = RenderedFlagAssets {
        flag_ascii_plain: plain,
        flag_ascii_colored: colored,
        flag_palette: palette,
        brightest_color: brightest,
    };
    Ok(assets)
}

} // verus!
