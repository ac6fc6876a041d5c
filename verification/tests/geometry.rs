use image_thumbs::geometry::{crop_rect, limit_size_crop, limit_size_fit};
use image_thumbs::image::{crop_aspect_ratio_with_center, calculate_thumbnail, decode_image, Image};
use image_thumbs::model::{FocalPoint, ImageFormat, Mode, Params};

fn blank_bytes(w: u32, h: u32, fmt: ImageFormat) -> Vec<u8> {
    let d = image::DynamicImage::new(w, h, image::ColorType::L8);
    let mut buf = std::io::Cursor::new(Vec::new());
    let f = match fmt {
        ImageFormat::Jpeg => image::ImageFormat::Jpeg,
        ImageFormat::Png => image::ImageFormat::Png,
    };
    d.write_to(&mut buf, f).unwrap();
    buf.into_inner()
}

fn blank_image(w: u32, h: u32) -> Image {
    let bytes = blank_bytes(w, h, ImageFormat::Png);
    decode_image(&bytes, ImageFormat::Png).unwrap()
}

#[test]
fn fit_dimensions_no_upscale() {
    assert_eq!(limit_size_fit((200, 200), (100, 100)), (100, 100));
}

#[test]
fn fit_dimensions_partial_clamp() {
    assert_eq!(limit_size_fit((90, 200), (100, 100)), (90, 100));
    assert_eq!(limit_size_fit((200, 90), (100, 100)), (100, 90));
}

#[test]
fn crop_fill_dimensions_clamp() {
    assert_eq!(limit_size_crop((90, 200), (45, 100)), (45, 100));
    assert_eq!(limit_size_crop((10, 10), (100, 100)), (10, 10));
}

#[test]
fn crop_rect_values() {
    let r = crop_rect((100, 150), (15, 10), FocalPoint::new(500, 500));
    assert_eq!((r.w, r.h), (100, 67));
    let r = crop_rect((100, 150), (15, 10), FocalPoint::new(0, 1000));
    assert_eq!((r.w, r.h), (100, 66));
    let r = crop_rect((100, 150), (15, 10), FocalPoint::new(900, 100));
    assert_eq!((r.w, r.h), (100, 67));
}

#[test]
fn crop_rect_equal_aspect_any_focus() {
    for (fx, fy) in [(500, 500), (900, 1000), (0, 500)] {
        let r = crop_rect((100, 100), (10, 10), FocalPoint::new(fx, fy));
        assert_eq!((r.x, r.y, r.w, r.h), (0, 0, 100, 100));
    }
}

#[test]
fn crop_center_1() {
    let image = blank_image(100, 100);

    let cropped = crop_aspect_ratio_with_center(&image, (10, 10), FocalPoint::new(500, 500));
    assert_eq!(
        cropped.width(),
        100,
        "As the source and target aspect ratio is the same, the image should not crop be cropped"
    );
    assert_eq!(
        cropped.height(),
        100,
        "As the source and target aspect ratio is the same, the image should not crop be cropped"
    );

    let cropped = crop_aspect_ratio_with_center(&image, (200, 200), FocalPoint::new(500, 500));
    assert_eq!(
        cropped.width(),
        100,
        "As the source and target aspect ratio is the same, the image should not crop be cropped"
    );
    assert_eq!(
        cropped.height(),
        100,
        "As the source and target aspect ratio is the same, the image should not crop be cropped"
    );

    let cropped = crop_aspect_ratio_with_center(&image, (10, 10), FocalPoint::new(900, 1000));
    assert_eq!(
        cropped.width(),
        100,
        "As the source and target aspect ratio is the same, the image should not crop be cropped"
    );
    assert_eq!(
        cropped.height(),
        100,
        "As the source and target aspect ratio is the same, the image should not crop be cropped"
    );

    let cropped = crop_aspect_ratio_with_center(&image, (10, 10), FocalPoint::new(0, 500));
    assert_eq!(
        cropped.width(),
        100,
        "As the source and target aspect ratio is the same, the image should not crop be cropped"
    );
    assert_eq!(
        cropped.height(),
        100,
        "As the source and target aspect ratio is the same, the image should not crop be cropped"
    );
}

#[test]
fn crop_center_2() {
    let image = blank_image(100, 150);

    let cropped = crop_aspect_ratio_with_center(&image, (10, 15), FocalPoint::new(500, 500));
    assert_eq!(
        cropped.width(),
        100,
        "As the source and target aspect ratio is the same, the image should not crop be cropped"
    );
    assert_eq!(
        cropped.height(),
        150,
        "As the source and target aspect ratio is the same, the image should not crop be cropped"
    );

    let cropped = crop_aspect_ratio_with_center(&image, (15, 10), FocalPoint::new(500, 500));
    assert_eq!(cropped.width(), 100);
    assert_eq!(cropped.height(), 67);

    let cropped = crop_aspect_ratio_with_center(&image, (15, 10), FocalPoint::new(0, 1000));
    assert_eq!(cropped.width(), 100);
    assert_eq!(cropped.height(), 66);

    let cropped = crop_aspect_ratio_with_center(&image, (15, 10), FocalPoint::new(900, 100));
    assert_eq!(cropped.width(), 100);
    assert_eq!(cropped.height(), 67);
}

#[test]
fn crop_center_3() {
    let image = blank_image(150, 100);

    let cropped = crop_aspect_ratio_with_center(&image, (15, 10), FocalPoint::new(500, 500));
    assert_eq!(
        cropped.width(),
        150,
        "As the source and target aspect ratio is the same, the image should not crop be cropped"
    );
    assert_eq!(
        cropped.height(),
        100,
        "As the source and target aspect ratio is the same, the image should not crop be cropped"
    );

    let cropped = crop_aspect_ratio_with_center(&image, (10, 15), FocalPoint::new(500, 500));
    assert_eq!(cropped.width(), 67);
    assert_eq!(cropped.height(), 100);

    let cropped = crop_aspect_ratio_with_center(&image, (10, 15), FocalPoint::new(0, 1000));
    assert_eq!(cropped.width(), 67);
    assert_eq!(cropped.height(), 100);

    let cropped = crop_aspect_ratio_with_center(&image, (10, 15), FocalPoint::new(900, 100));
    assert_eq!(cropped.width(), 66);
    assert_eq!(cropped.height(), 100);
}

#[test]
fn crop_center_4() {
    let image = blank_image(150, 100);

    let cropped = crop_aspect_ratio_with_center(&image, (15, 10), FocalPoint::new(500, 500));
    assert_eq!(
        cropped.width(),
        150,
        "As the source and target aspect ratio is the same, the image should not crop be cropped"
    );
    assert_eq!(
        cropped.height(),
        100,
        "As the source and target aspect ratio is the same, the image should not crop be cropped"
    );

    let cropped = crop_aspect_ratio_with_center(&image, (100, 150), FocalPoint::new(500, 500));
    assert_eq!(cropped.width(), 67);
    assert_eq!(cropped.height(), 100);

    let cropped = crop_aspect_ratio_with_center(&image, (100, 150), FocalPoint::new(0, 1000));
    assert_eq!(cropped.width(), 67);
    assert_eq!(cropped.height(), 100);

    let cropped = crop_aspect_ratio_with_center(&image, (100, 150), FocalPoint::new(900, 100));
    assert_eq!(cropped.width(), 66);
    assert_eq!(cropped.height(), 100);
}

fn base_params(mode: Mode) -> Params {
    Params {
        name: "".to_string(),
        naming_pattern: None,
        quality: 0,
        size: (0, 0),
        mode,
    }
}

#[test]
fn correct_final_size_crop_square() {
    let image = blank_image(100, 100);
    let params = base_params(Mode::Crop);

    for (target_size, expect_output) in [
        ((10, 10), (10, 10)),
        ((200, 200), (100, 100)),
        ((90, 200), (45, 100)),
        ((200, 90), (100, 45)),
    ] {
        let cropped = calculate_thumbnail(
            &image,
            &Params { size: target_size, ..params.clone() },
            FocalPoint::new(500, 500),
        )
        .unwrap();
        assert_eq!(cropped.width(), expect_output.0);
        assert_eq!(cropped.height(), expect_output.1);
    }
}

#[test]
fn correct_final_size_crop_non_square() {
    let portrait = blank_image(100, 150);
    let landscape = blank_image(150, 100);
    let params = base_params(Mode::Crop);

    for (image, (target_size, expect_output)) in [
        (&portrait, ((10, 10), (10, 10))),
        (&portrait, ((200, 200), (100, 100))),
        (&portrait, ((90, 200), (68, 150))),
        (&portrait, ((200, 90), (100, 45))),
        (&landscape, ((10, 10), (10, 10))),
        (&landscape, ((200, 200), (100, 100))),
        (&landscape, ((90, 200), (45, 100))),
        (&landscape, ((200, 90), (150, 68))),
    ] {
        let cropped = calculate_thumbnail(
            image,
            &Params { size: target_size, ..params.clone() },
            FocalPoint::new(500, 500),
        )
        .unwrap();
        assert_eq!(cropped.width(), expect_output.0);
        assert_eq!(cropped.height(), expect_output.1);
    }
}

#[test]
fn correct_final_size_fit_square() {
    let image = blank_image(100, 100);
    let params = base_params(Mode::Fit);

    for (target_size, expect_output) in [
        ((10, 10), (10, 10)),
        ((200, 200), (100, 100)),
        ((90, 200), (90, 90)),
        ((200, 90), (90, 90)),
    ] {
        let cropped = calculate_thumbnail(
            &image,
            &Params { size: target_size, ..params.clone() },
            FocalPoint::new(500, 500),
        )
        .unwrap();
        assert_eq!(cropped.width(), expect_output.0);
        assert_eq!(cropped.height(), expect_output.1);
    }
}

#[test]
fn correct_final_size_fit_non_square() {
    let portrait = blank_image(100, 150);
    let landscape = blank_image(150, 100);
    let params = base_params(Mode::Fit);

    for (image, (target_size, expect_output)) in [
        (&portrait, ((10, 10), (7, 10))),
        (&portrait, ((200, 200), (100, 150))),
        (&portrait, ((90, 200), (90, 135))),
        (&portrait, ((200, 90), (60, 90))),
        (&landscape, ((10, 10), (10, 7))),
        (&landscape, ((200, 200), (150, 100))),
        (&landscape, ((90, 200), (90, 60))),
        (&landscape, ((200, 90), (135, 90))),
    ] {
        let cropped = calculate_thumbnail(
            image,
            &Params { size: target_size, ..params.clone() },
            FocalPoint::new(500, 500),
        )
        .unwrap();
        assert_eq!(cropped.width(), expect_output.0);
        assert_eq!(cropped.height(), expect_output.1);
    }
}
