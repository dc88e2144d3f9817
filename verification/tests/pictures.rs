use image::{DynamicImage, GrayImage, Luma, Rgb, RgbImage, Rgba, RgbaImage};
use pathtracer::frame::{assemble_rows, pixel_offset, ppm_bytes, push_decimal};
use pathtracer::raster::{frame_from_bytes, png_bytes};
use pathtracer::scalar::Scalar;
use pathtracer::texture::{Texture, TextureAtlas};

fn ramp(len: usize) -> Vec<u8> {
    (0..len).map(|i| (i * 7 % 251) as u8).collect()
}

#[test]
fn the_top_row_comes_first() {
    // 4 columns, 3 rows: the bottom row is row 0 and comes last
    assert_eq!(pixel_offset(0, 2, 4, 3), 0);
    assert_eq!(pixel_offset(3, 2, 4, 3), 9);
    assert_eq!(pixel_offset(0, 1, 4, 3), 12);
    assert_eq!(pixel_offset(2, 1, 4, 3), 18);
    assert_eq!(pixel_offset(0, 0, 4, 3), 24);
    assert_eq!(pixel_offset(3, 0, 4, 3), 33);
    assert_eq!(pixel_offset(0, 0, 1, 1), 0);
    assert_eq!(pixel_offset(639, 0, 640, 400), (399 * 640 + 639) * 3);
}

#[test]
fn every_pixel_has_three_bytes_of_its_own() {
    let (width, height) = (5u32, 4u32);
    let mut taken = vec![false; 60];
    for j in 0..height {
        for i in 0..width {
            let k = pixel_offset(i, j, width, height);
            for c in 0..3 {
                assert!(!taken[k + c]);
                taken[k + c] = true;
            }
        }
    }
    assert!(taken.iter().all(|t| *t));
}

#[test]
fn rows_are_stacked_from_the_top_down() {
    let rows = vec![vec![1u8, 2, 3, 4, 5, 6], vec![7, 8, 9, 10, 11, 12], vec![13, 14, 15, 16, 17, 18]];
    let out = assemble_rows(&rows, 2, 3);
    assert_eq!(out, vec![13, 14, 15, 16, 17, 18, 7, 8, 9, 10, 11, 12, 1, 2, 3, 4, 5, 6]);
    for j in 0..3u32 {
        for i in 0..2u32 {
            let k = pixel_offset(i, j, 2, 3);
            assert_eq!(&out[k..k + 3], &rows[j as usize][3 * i as usize..3 * i as usize + 3]);
        }
    }
    assert_eq!(assemble_rows(&vec![], 7, 0), Vec::<u8>::new());
    assert_eq!(assemble_rows(&vec![vec![], vec![]], 0, 2), Vec::<u8>::new());
    assert_eq!(assemble_rows(&vec![vec![9, 8, 7]], 1, 1), vec![9, 8, 7]);
}

#[test]
fn numbers_are_written_in_decimal() {
    for (n, text) in [(0u32, "0"), (7, "7"), (10, "10"), (640, "640"), (4294967295, "4294967295")] {
        let mut out = vec![b'x'];
        push_decimal(&mut out, n);
        assert_eq!(out, format!("x{}", text).into_bytes());
        assert_eq!(text, format!("{}", n));
    }
}

#[test]
fn a_pixmap_is_its_header_and_the_bytes() {
    let header = |size: &str| {
        let mut bytes = vec![b'P', b'6', b'\n'];
        bytes.extend(format!("{}\n255\n", size).into_bytes());
        bytes
    };
    let data = vec![255u8, 0, 0, 0, 255, 0];
    let mut expected = header("2 1");
    expected.extend(&data);
    assert_eq!(ppm_bytes(&data, 2, 1), expected);
    assert_eq!(expected.len(), 11 + 6);
    let data = ramp(640 * 3);
    let mut expected = header("640 1");
    expected.extend(&data);
    assert_eq!(ppm_bytes(&data, 640, 1), expected);
    assert_eq!(ppm_bytes(&vec![], 0, 0), header("0 0"));
}

#[test]
fn a_frame_holds_the_pixels_of_the_buffer() {
    let (width, height) = (5u32, 3u32);
    let data = ramp(45);
    let frame = frame_from_bytes(&data, width, height);
    assert_eq!(frame.size(), (5, 3));
    for y in 0..height {
        for x in 0..width {
            let k = ((y * width + x) * 3) as usize;
            assert_eq!(frame.pixel(x, y), Some((data[k], data[k + 1], data[k + 2])));
        }
    }
    assert_eq!(frame.pixel(5, 0), None);
    assert_eq!(frame.pixel(0, 3), None);
}

#[test]
fn a_frame_reads_no_more_than_its_size_asks() {
    let mut data = ramp(12);
    data.extend([9u8; 20]);
    let frame = frame_from_bytes(&data, 2, 2);
    assert_eq!(frame.size(), (2, 2));
    assert_eq!(frame.pixel(1, 1), Some((data[9], data[10], data[11])));
    let empty = frame_from_bytes(&vec![], 0, 0);
    assert_eq!(empty.size(), (0, 0));
    assert_eq!(empty.pixel(0, 0), None);
}

#[test]
fn the_png_file_decodes_to_the_pixels_given() {
    let (width, height) = (6u32, 4u32);
    let data = ramp(72);
    let bytes = png_bytes(&data, width, height).unwrap();
    assert_eq!(&bytes[..8], b"\x89PNG\r\n\x1a\n");
    let decoded = image::load_from_memory(&bytes).unwrap().to_rgb8();
    assert_eq!(decoded.dimensions(), (width, height));
    assert_eq!(decoded.into_raw(), data);
}

#[test]
fn the_same_image_gives_the_same_png_file() {
    let data = ramp(300);
    assert_eq!(png_bytes(&data, 10, 10), png_bytes(&data, 10, 10));
    let mut other = data.clone();
    other[17] ^= 1;
    assert_ne!(png_bytes(&data, 10, 10), png_bytes(&other, 10, 10));
}

fn tiles() -> DynamicImage {
    let mut img = RgbImage::new(3, 2);
    for y in 0..2 {
        for x in 0..3 {
            img.put_pixel(x, y, Rgb([10 * x as u8, 100 * y as u8, 200]));
        }
    }
    DynamicImage::ImageRgb8(img)
}

#[test]
fn textures_are_numbered_in_the_order_they_come() {
    let mut atlas = TextureAtlas::new();
    assert_eq!(atlas.len(), 0);
    let first = atlas.add(tiles()).ok().unwrap();
    let second = atlas.add(DynamicImage::ImageLuma8(GrayImage::new(4, 4))).ok().unwrap();
    let third = atlas.add(tiles()).ok().unwrap();
    assert_eq!((first, second, third), (Texture { id: 0 }, Texture { id: 1 }, Texture { id: 2 }));
    assert_eq!(atlas.len(), 3);
    assert_eq!(atlas.size(first), Some((3, 2)));
    assert_eq!(atlas.size(second), Some((4, 4)));
    assert_eq!(atlas.size(Texture { id: 3 }), None);
}

#[test]
fn a_texel_beyond_the_image_is_the_last_one() {
    let mut atlas = TextureAtlas::new();
    let t = atlas.add(tiles()).ok().unwrap();
    assert_eq!(atlas.texel(t, 0, 0), (0, 0, 200));
    assert_eq!(atlas.texel(t, 2, 1), (20, 100, 200));
    assert_eq!(atlas.texel(t, 1, 0), (10, 0, 200));
    assert_eq!(atlas.texel(t, 3, 0), (20, 0, 200));
    assert_eq!(atlas.texel(t, 0, 2), (0, 100, 200));
    assert_eq!(atlas.texel(t, 4000000000, 4000000000), (20, 100, 200));
    assert_eq!(atlas.texel_checked(t, 1, 1), Some((10, 100, 200)));
    assert_eq!(atlas.texel_checked(t, 9, 9), Some((20, 100, 200)));
}

#[test]
fn an_unknown_or_empty_texture_has_no_texel() {
    let mut atlas = TextureAtlas::new();
    assert_eq!(atlas.texel_checked(Texture { id: 0 }, 0, 0), None);
    let empty = atlas.add(DynamicImage::ImageRgb8(RgbImage::new(0, 5))).ok().unwrap();
    assert_eq!(atlas.size(empty), Some((0, 5)));
    assert_eq!(atlas.texel_checked(empty, 0, 0), None);
    assert_eq!(atlas.texel_checked(Texture { id: 1 }, 0, 0), None);
}

#[test]
fn a_texel_is_the_colour_without_its_alpha() {
    let mut atlas = TextureAtlas::new();
    let mut clear = RgbaImage::new(2, 2);
    clear.put_pixel(1, 0, Rgba([1, 2, 3, 4]));
    let t = atlas.add(DynamicImage::ImageRgba8(clear)).ok().unwrap();
    assert_eq!(atlas.texel(t, 1, 0), (1, 2, 3));
    assert_eq!(atlas.texel(t, 0, 0), (0, 0, 0));
    let mut grey = GrayImage::new(1, 1);
    grey.put_pixel(0, 0, Luma([77]));
    let g = atlas.add(DynamicImage::ImageLuma8(grey)).ok().unwrap();
    assert_eq!(atlas.texel(g, 0, 0), (77, 77, 77));
}

#[test]
fn a_sample_is_the_texel_under_the_coordinates() {
    let at = |x: f32| Scalar::from_bits(x.to_bits());
    let mut atlas = TextureAtlas::new();
    let t = atlas.add(tiles()).ok().unwrap();
    // the texture is 3 texels wide and 2 high
    assert_eq!(atlas.sample(t, at(0.0), at(0.0)), Some((0, 0, 200)));
    assert_eq!(atlas.sample(t, at(0.99), at(0.99)), Some((0, 0, 200)));
    assert_eq!(atlas.sample(t, at(1.0), at(1.5)), Some((10, 100, 200)));
    assert_eq!(atlas.sample(t, at(2.999), at(1.999)), Some((20, 100, 200)));
    // the far edges, and what lies beyond them, fall on the last texel
    assert_eq!(atlas.sample(t, at(3.0), at(2.0)), Some((20, 100, 200)));
    assert_eq!(atlas.sample(t, at(1.0e12), at(f32::INFINITY)), Some((20, 100, 200)));
    // what lies before the near edges falls on the first
    assert_eq!(atlas.sample(t, at(-0.5), at(-7.0)), Some((0, 0, 200)));
    assert_eq!(atlas.sample(t, at(f32::NAN), at(1.0)), Some((0, 100, 200)));
    assert_eq!(atlas.sample(Texture { id: 9 }, at(0.0), at(0.0)), None);
}
