//! The asset deriver on real images: the fixed 40 by 17 grid whatever the
//! aspect ratio, the luminance-sorted palette, and the most distinctive
//! colour.

use countryfetch::assets::derive_assets;
use countryfetch::color::{luminance_value, Rgb};
use countryfetch::country::RenderedFlagAssets;

fn svg_flag(width: u32, height: u32) -> Vec<u8> {
    let svg = format!(
        "<svg xmlns=\"http://www.w3.org/2000/svg\" width=\"{w}\" height=\"{h}\"><rect width=\"{w}\" height=\"{h}\" fill=\"#204080\"/><rect width=\"{hw}\" height=\"{h}\" fill=\"#c01020\"/></svg>",
        w = width,
        h = height,
        hw = width / 2,
    );
    svg.into_bytes()
}

fn visible_row_widths(grid: &str) -> Vec<usize> {
    grid.lines()
        .map(|line| {
            let mut count = 0usize;
            let mut in_esc = false;
            for ch in line.chars() {
                if in_esc {
                    if ch == 'm' {
                        in_esc = false;
                    }
                } else if ch == '\u{1b}' {
                    in_esc = true;
                } else {
                    count += 1;
                }
            }
            count
        })
        .collect()
}

fn assert_fixed_grid(assets: &RenderedFlagAssets) {
    let plain_rows = visible_row_widths(&assets.flag_ascii_plain);
    assert_eq!(plain_rows.len(), 17);
    assert!(plain_rows.iter().all(|&w| w == 40));
    let colored_rows = visible_row_widths(&assets.flag_ascii_colored);
    assert_eq!(colored_rows.len(), 17);
    assert!(colored_rows.iter().all(|&w| w == 40));
}

#[test]
fn square_flag_fills_the_fixed_grid() {
    let assets = derive_assets(&svg_flag(64, 64)).unwrap();
    assert_fixed_grid(&assets);
}

#[test]
fn tiny_flag_fills_the_fixed_grid() {
    let assets = derive_assets(&svg_flag(1, 1)).unwrap();
    assert_fixed_grid(&assets);
}

#[test]
fn very_wide_flag_fills_the_fixed_grid() {
    let assets = derive_assets(&svg_flag(300, 2)).unwrap();
    assert_fixed_grid(&assets);
}

#[test]
fn very_tall_flag_fills_the_fixed_grid() {
    let assets = derive_assets(&svg_flag(2, 300)).unwrap();
    assert_fixed_grid(&assets);
}

#[test]
fn palette_comes_out_sorted_and_nonempty() {
    let assets = derive_assets(&svg_flag(64, 32)).unwrap();
    assert!(!assets.flag_palette.is_empty());
    let lums: Vec<u32> = assets.flag_palette.iter().map(luminance_value).collect();
    for pair in lums.windows(2) {
        assert!(pair[0] <= pair[1]);
    }
}

#[test]
fn brightest_color_is_maximal() {
    let assets = derive_assets(&svg_flag(64, 32)).unwrap();
    let best = assets.brightest_color;
    let colorfulness = |c: &Rgb| {
        let mx = c.r.max(c.g).max(c.b) as u32;
        let mn = c.r.min(c.g).min(c.b) as u32;
        if mx == 0 {
            0
        } else {
            (mx + mn) * (mx - mn) / mx
        }
    };
    assert!(assets.flag_palette.iter().any(|c| *c == best));
    for c in assets.flag_palette.iter() {
        assert!(colorfulness(c) <= colorfulness(&best));
    }
}

#[test]
fn colored_grid_carries_escapes() {
    let assets = derive_assets(&svg_flag(64, 32)).unwrap();
    assert!(assets.flag_ascii_colored.contains('\u{1b}'));
    assert!(!assets.flag_ascii_plain.contains('\u{1b}'));
}

#[test]
fn derivation_slots_follow_input_order() {
    let flags = vec![svg_flag(8, 8), b"broken".to_vec(), svg_flag(4, 4)];
    let derived = countryfetch::fanout::derive_all(&flags);
    assert_eq!(derived.len(), 3);
    assert!(derived[0].is_some());
    assert!(derived[1].is_none());
    assert!(derived[2].is_some());
}

#[test]
fn raster_flags_derive_too() {
    // Render the SVG to PNG bytes by deriving once, then feed the raster
    // path a PNG produced independently of the library.
    let mut img = image::RgbImage::new(6, 3);
    for (x, _y, p) in img.enumerate_pixels_mut() {
        *p = if x < 3 { image::Rgb([192, 16, 32]) } else { image::Rgb([32, 64, 128]) };
    }
    let mut png: Vec<u8> = Vec::new();
    let mut cursor = std::io::Cursor::new(&mut png);
    image::DynamicImage::ImageRgb8(img)
        .write_to(&mut cursor, image::ImageFormat::Png)
        .unwrap();
    let assets = countryfetch::assets::derive_assets_from_png(&png).unwrap();
    assert_fixed_grid(&assets);
}

#[test]
fn malformed_images_fail_cleanly() {
    assert!(derive_assets(&b"not an image".to_vec()).is_err());
    let zero = b"<svg xmlns=\"http://www.w3.org/2000/svg\" width=\"0\" height=\"0\"></svg>";
    assert!(derive_assets(&zero.to_vec()).is_err());
}
