use minecraft_raytracer::color::Color;
use minecraft_raytracer::renderer::{row_bands, scaled_size, upscale_into, upscale_rows_into};
use minecraft_raytracer::texture::Texture;
use minecraft_raytracer::textures::{Texture as Pattern, TextureType};

#[test]
fn colors_add_with_saturation() {
    let a = Color::new(200, 10, 255);
    let b = Color::new(100, 20, 0);
    assert_eq!(a.add_saturating(&b), Color::new(255, 30, 255));
    assert_eq!(Color::white(), Color::new(255, 255, 255));
    assert_eq!(Color::black(), Color::new(0, 0, 0));
}

#[test]
fn new_texture_is_white() {
    let t = Texture::new(2, 3);
    assert_eq!((t.width, t.height), (2, 3));
    assert_eq!(t.data.len(), 6);
    assert!(t.data.iter().all(|c| *c == Color::white()));
}

#[test]
fn texture_from_color_is_one_texel() {
    let c = Color::new(1, 2, 3);
    let t = Texture::from_color(c);
    assert_eq!((t.width, t.height), (1, 1));
    assert_eq!(t.data, vec![c]);
    assert_eq!(t.texel(5, 9), c);
}

#[test]
fn texture_from_rgb8_and_clamped_lookup() {
    let rgb = [1, 2, 3, 4, 5, 6, 7, 8, 9, 10, 11, 12];
    let t = Texture::from_rgb8(2, 2, &rgb);
    assert_eq!(t.data[3], Color::new(10, 11, 12));
    assert_eq!(t.texel(1, 0), Color::new(4, 5, 6));
    assert_eq!(t.texel(0, 1), Color::new(7, 8, 9));
    assert_eq!(t.texel(100, 0), Color::new(4, 5, 6));
    assert_eq!(t.texel(100, 100), Color::new(10, 11, 12));
}

#[test]
fn fallback_texture_is_checkerboard() {
    let t = Texture::from_load_result(None);
    assert_eq!((t.width, t.height, t.data.len()), (64, 64, 4096));
    let light = Color::new(204, 204, 204);
    let dark = Color::new(153, 153, 153);
    assert_eq!(t.texel(0, 0), light);
    assert_eq!(t.texel(7, 7), light);
    assert_eq!(t.texel(8, 0), dark);
    assert_eq!(t.texel(0, 8), dark);
    assert_eq!(t.texel(8, 8), light);
    assert_eq!(t.texel(63, 63), light);
}

#[test]
fn loaded_texture_uses_the_decoded_pixels() {
    let t = Texture::from_load_result(Some((1, 2, vec![9, 8, 7, 6, 5, 4])));
    assert_eq!((t.width, t.height), (1, 2));
    assert_eq!(t.data, vec![Color::new(9, 8, 7), Color::new(6, 5, 4)]);
}

#[test]
fn procedural_textures_keep_their_colors() {
    let a = Color::new(1, 1, 1);
    let b = Color::new(2, 2, 2);
    assert_eq!(Pattern::new_solid(a).texture_type, TextureType::Solid(a));
    assert_eq!(Pattern::new_checkerboard(a, b).texture_type, TextureType::Checkerboard(a, b));
    assert_eq!(Pattern::new_stripes(a, b).texture_type, TextureType::Stripes(a, b));
    assert_eq!(Pattern::new_brick(a, b).texture_type, TextureType::Brick(a, b));
}

#[test]
fn scaled_size_divides_toward_zero() {
    assert_eq!(scaled_size(800, 600, 4), (200, 150));
    assert_eq!(scaled_size(800, 600, 1), (800, 600));
    assert_eq!(scaled_size(5, 3, 2), (2, 1));
    assert_eq!(scaled_size(-7, 5, 2), (-3, 2));
}

#[test]
fn upscale_fills_blocks() {
    let mut buf = vec![0u8; 16];
    upscale_into(&mut buf, 4, 4, 2, &[1, 2, 3, 4]);
    assert_eq!(buf, vec![1, 1, 2, 2, 1, 1, 2, 2, 3, 3, 4, 4, 3, 3, 4, 4]);
}

#[test]
fn upscale_leaves_uncovered_pixels() {
    let mut buf = vec![9u8; 15];
    upscale_into(&mut buf, 5, 3, 2, &[1, 2]);
    assert_eq!(buf, vec![1, 1, 2, 2, 9, 1, 1, 2, 2, 9, 9, 9, 9, 9, 9]);
}

#[test]
fn upscale_of_empty_image_changes_nothing() {
    let mut buf = vec![7u8; 4];
    upscale_into(&mut buf, 1, 4, 2, &[]);
    assert_eq!(buf, vec![7, 7, 7, 7]);
}

#[test]
fn row_bands_split_rows_among_workers() {
    assert_eq!(row_bands(150, 4), vec![(0, 38), (38, 76), (76, 114), (114, 150)]);
    assert_eq!(row_bands(2, 4), vec![(0, 1), (1, 2), (2, 2), (3, 2)]);
    assert_eq!(row_bands(0, 4), vec![(0, 0), (0, 0), (0, 0), (0, 0)]);
}

#[test]
fn row_bands_cover_every_row_once() {
    for h in 0..40 {
        let bands = row_bands(h, 4);
        for r in 0..h {
            let n = bands.iter().filter(|(s, e)| *s <= r && r < *e).count();
            assert_eq!(n, 1);
        }
    }
}

#[test]
fn upscale_rows_draws_only_its_band() {
    let mut buf = vec![0u8; 24];
    // 6 by 4 buffer, scale 2: a 3 by 2 image; draw its second row only.
    upscale_rows_into(&mut buf, 6, 4, 2, 1, 2, &[4, 5, 6]);
    let mut expected = vec![0u8; 12];
    expected.extend_from_slice(&[4, 4, 5, 5, 6, 6, 4, 4, 5, 5, 6, 6]);
    assert_eq!(buf, expected);
}

#[test]
fn threaded_bands_draw_the_same_picture() {
    let (width, height, scale) = (10, 9, 2);
    let (sw, sh) = scaled_size(width, height, scale);
    let scaled: Vec<u32> = (0..(sw * sh) as u32).map(|v| v * 7 + 1).collect();
    let mut whole = vec![0u32; 90];
    upscale_into(&mut whole, width, height, scale, &scaled);
    let mut banded = vec![0u32; 90];
    for (start, end) in row_bands(sh, 4) {
        if start < end {
            let band = &scaled[(start * sw) as usize..(end * sw) as usize];
            upscale_rows_into(&mut banded, width, height, scale, start, end, band);
        }
    }
    assert_eq!(whole, banded);
    assert_eq!(whole[0], 1);
    assert_eq!(whole[8 * 10 + 9], 0);
    assert_eq!(whole[7 * 10 + 9], scaled[3 * 5 + 4]);
}
