use rust_fun_apps::imaging::{decode_picture, resize_exact, resize_to_fill, Picture};
use rust_fun_apps::pixels::{Rgb, RgbFrame};
use rust_fun_apps::resample::{rotation_canvas_dim, sample_with_background};

#[test]
fn raw_buffers() {
    assert!(RgbFrame::from_raw(2, 2, vec![0; 12]).is_some());
    assert!(RgbFrame::from_raw(2, 2, vec![0; 11]).is_none());
    assert!(RgbFrame::from_raw(2, 2, vec![0; 13]).is_none());
    assert!(RgbFrame::from_raw(0, 5, vec![]).is_some());
    let f = RgbFrame::new(3, 2);
    assert_eq!(f.as_raw().len(), 18);
    assert_eq!(f.width(), 3);
    assert_eq!(f.height(), 2);
}

#[test]
fn pixels_round_trip() {
    let mut f = RgbFrame::new(3, 2);
    f.put_pixel(2, 1, Rgb { r: 1, g: 2, b: 3 });
    assert_eq!(f.get_pixel(2, 1), Rgb { r: 1, g: 2, b: 3 });
    assert_eq!(f.get_pixel(1, 1), Rgb { r: 0, g: 0, b: 0 });
    let raw = f.into_raw();
    assert_eq!(&raw[15..18], &[1, 2, 3]);
}

#[test]
fn sampling_uses_background_outside() {
    let mut src = RgbFrame::new(2, 2);
    src.put_pixel(0, 0, Rgb { r: 10, g: 0, b: 0 });
    src.put_pixel(1, 1, Rgb { r: 0, g: 20, b: 0 });
    let bg = Rgb { r: 7, g: 7, b: 7 };
    let points = vec![Some((1, 1)), None, Some((2, 0)), Some((0, 0)), Some((0, 5)), Some((1, 0))];
    let out = sample_with_background(&src, &points, 3, 2, bg);
    assert_eq!(out.width(), 3);
    assert_eq!(out.height(), 2);
    assert_eq!(out.get_pixel(0, 0), Rgb { r: 0, g: 20, b: 0 });
    assert_eq!(out.get_pixel(1, 0), bg);
    assert_eq!(out.get_pixel(2, 0), bg);
    assert_eq!(out.get_pixel(0, 1), Rgb { r: 10, g: 0, b: 0 });
    assert_eq!(out.get_pixel(1, 1), bg);
    assert_eq!(out.get_pixel(2, 1), Rgb { r: 0, g: 0, b: 0 });
}

#[test]
fn canvas_dimension() {
    assert_eq!(rotation_canvas_dim(100, 30), 200);
    assert_eq!(rotation_canvas_dim(30, 150), 300);
    assert_eq!(rotation_canvas_dim(250, 10), 400);
    assert_eq!(rotation_canvas_dim(1, 1), 2);
}

fn encoded(img: image::DynamicImage, format: image::ImageFormat) -> Vec<u8> {
    let mut out = std::io::Cursor::new(Vec::new());
    img.write_to(&mut out, format).unwrap();
    out.into_inner()
}

fn uniform_picture(width: u32, height: u32, c: (u8, u8, u8)) -> Picture {
    let img = image::RgbImage::from_pixel(width, height, image::Rgb([c.0, c.1, c.2]));
    let bytes = encoded(image::DynamicImage::ImageRgb8(img), image::ImageFormat::Png);
    decode_picture(&bytes, "png").ok().unwrap()
}

#[test]
fn resize_changes_size_and_keeps_flat_colour() {
    let src = uniform_picture(8, 6, (40, 80, 120));
    assert_eq!((src.width(), src.height()), (8, 6));
    let out = resize_exact(&src, 4, 3).unwrap();
    assert_eq!(out.width(), 4);
    assert_eq!(out.height(), 3);
    assert_eq!(out.as_raw().len(), 36);
    for y in 0..3 {
        for x in 0..4 {
            assert_eq!(out.get_pixel(x, y), Rgb { r: 40, g: 80, b: 120 });
        }
    }
}

#[test]
fn resize_works_in_the_decoded_colour_type() {
    let mut img = image::ImageBuffer::<image::Rgb<u16>, Vec<u16>>::new(5, 3);
    for (x, y, p) in img.enumerate_pixels_mut() {
        *p = image::Rgb([(x * 13000 + 129) as u16, (y * 20000 + 300) as u16, 65535 - (x * y * 4000) as u16]);
    }
    let original = image::DynamicImage::ImageRgb16(img);
    let bytes = encoded(original.clone(), image::ImageFormat::Png);
    let picture = decode_picture(&bytes, "png").ok().unwrap();
    let out = resize_exact(&picture, 2, 2).unwrap();
    let expected = original
        .resize_exact(2, 2, image::imageops::FilterType::Triangle)
        .to_rgb8()
        .into_raw();
    assert_eq!(out.as_raw(), &expected);
}

#[test]
fn resize_refuses_huge_targets() {
    let src = uniform_picture(2, 2, (1, 1, 1));
    assert!(resize_exact(&src, u32::MAX, u32::MAX).is_none());
}

#[test]
fn fill_gives_a_square() {
    let src = uniform_picture(10, 4, (200, 100, 50));
    let out = resize_to_fill(&src, 6).unwrap();
    assert_eq!(out.width(), 6);
    assert_eq!(out.height(), 6);
    assert_eq!(out.get_pixel(3, 3), Rgb { r: 200, g: 100, b: 50 });
    assert!(resize_to_fill(&src, 0).is_none());
}

#[test]
fn decodes_png_by_content() {
    let img = image::RgbImage::from_raw(2, 1, vec![255, 0, 0, 0, 0, 255]).unwrap();
    let bytes = encoded(image::DynamicImage::ImageRgb8(img), image::ImageFormat::Png);
    for ext in ["png", "", "jpg", "xyz"] {
        let p = decode_picture(&bytes, ext).ok().unwrap();
        assert_eq!((p.width(), p.height()), (2, 1));
        let f = resize_exact(&p, 2, 1).unwrap();
        assert_eq!(f.get_pixel(0, 0), Rgb { r: 255, g: 0, b: 0 });
        assert_eq!(f.get_pixel(1, 0), Rgb { r: 0, g: 0, b: 255 });
    }
}

fn unsupported_hint(e: &image::ImageError) -> Option<image::error::ImageFormatHint> {
    match e {
        image::ImageError::Unsupported(u) => Some(u.format_hint()),
        _ => None,
    }
}

#[test]
fn rejects_garbage() {
    let e = decode_picture(b"not an image at all", "xyz").err().unwrap();
    assert_eq!(
        unsupported_hint(&e.source),
        Some(image::error::ImageFormatHint::PathExtension("xyz".into()))
    );
    let e = decode_picture(b"not an image at all", "").err().unwrap();
    assert_eq!(unsupported_hint(&e.source), Some(image::error::ImageFormatHint::Unknown));
    assert!(decode_picture(b"not an image at all", "png").is_err());
    assert!(decode_picture(&[], "").is_err());
}

#[test]
fn extension_names_format_without_signature() {
    let img = image::RgbImage::from_raw(1, 2, vec![10, 20, 30, 40, 50, 60]).unwrap();
    let bytes = encoded(image::DynamicImage::ImageRgb8(img), image::ImageFormat::Tga);
    let p = decode_picture(&bytes, "tga").ok().unwrap();
    assert_eq!((p.width(), p.height()), (1, 2));
    let f = resize_exact(&p, 1, 2).unwrap();
    assert_eq!(f.get_pixel(0, 1), Rgb { r: 40, g: 50, b: 60 });
    assert!(decode_picture(&bytes, "").is_err());
}
