use std::collections::HashMap;

use image_thumbs::error::Error;
use image_thumbs::generate::{create_thumb_images_from_bytes, destination_path, thumb_paths};
use image_thumbs::image::{decode_image, encode_image, guess_image_format, source_image_from_bytes};
use image_thumbs::model::{FocalPoint, ImageDetails, ImageFormat, Mode, Params};

fn blank_bytes(w: u32, h: u32, fmt: ImageFormat) -> Vec<u8> {
    let d = image::DynamicImage::new(w, h, image::ColorType::L8);
    let mut buf = std::io::Cursor::new(Vec::new());
    let f = match fmt {
        ImageFormat::Jpeg => image::ImageFormat::Jpeg,
        ImageFormat::Png => image::ImageFormat::Png,
    };
    d.write_to(&mut buf, f).unwrap();
    buf.into_inner()
}

fn test_specs() -> Vec<Params> {
    vec![
        Params {
            name: "standard".to_string(),
            naming_pattern: None,
            quality: 80,
            size: (150, 100),
            mode: Mode::Crop,
        },
        Params {
            name: "mini".to_string(),
            naming_pattern: None,
            quality: 80,
            size: (50, 50),
            mode: Mode::Fit,
        },
    ]
}

fn full_path(t: &ImageDetails) -> String {
    destination_path(t).unwrap()
}

fn existing_for(store: &HashMap<String, Vec<u8>>, paths: &[String]) -> Vec<bool> {
    paths.iter().map(|p| store.contains_key(p)).collect()
}

fn upload(store: &mut HashMap<String, Vec<u8>>, thumbs: &[ImageDetails]) {
    for t in thumbs {
        store.insert(full_path(t), t.bytes.clone());
    }
}

#[test]
fn generates_all_expected_thumbs() {
    let specs = test_specs();
    let bytes = blank_bytes(100, 100, ImageFormat::Png);
    let existing = vec![false, false];
    let thumbs = create_thumb_images_from_bytes(
        &bytes,
        "penguin",
        ImageFormat::Png,
        "thumbs",
        &specs,
        &existing,
        false,
        FocalPoint::center(),
    )
    .unwrap();
    assert_eq!(thumbs.len(), 2);
    assert_eq!(thumbs[0].stem, "/penguin_standard");
    assert_eq!(thumbs[1].stem, "/penguin_mini");
    assert_eq!(thumbs[0].format, ImageFormat::Png);
    assert_eq!(thumbs[0].path, "thumbs");
    // crop 100x100 to 150x100: crop rect 100x67, fill clamped to the sub-image
    assert_eq!((thumbs[0].width, thumbs[0].height), (100, 67));
    // fit 100x100 into 50x50
    assert_eq!((thumbs[1].width, thumbs[1].height), (50, 50));
    assert_eq!(full_path(&thumbs[0]), "thumbs/penguin_standard.png");
    assert_eq!(full_path(&thumbs[1]), "thumbs/penguin_mini.png");
}

#[test]
fn fit_end_to_end_dimensions() {
    let bytes = blank_bytes(100, 100, ImageFormat::Jpeg);
    for (target, expect) in [
        ((90, 200), (90, 90)),
        ((200, 90), (90, 90)),
        ((10, 10), (10, 10)),
        ((200, 200), (100, 100)),
    ] {
        let specs = vec![Params {
            name: "one".to_string(),
            naming_pattern: None,
            quality: 75,
            size: target,
            mode: Mode::Fit,
        }];
        let thumbs = create_thumb_images_from_bytes(
            &bytes,
            "img",
            ImageFormat::Jpeg,
            "t",
            &specs,
            &vec![false],
            false,
            FocalPoint::center(),
        )
        .unwrap();
        assert_eq!((thumbs[0].width, thumbs[0].height), expect);
    }
}

#[test]
fn crop_end_to_end_dimensions() {
    let bytes = blank_bytes(100, 100, ImageFormat::Jpeg);
    for (target, expect) in [
        ((90, 200), (45, 100)),
        ((200, 90), (100, 45)),
        ((10, 10), (10, 10)),
        ((200, 200), (100, 100)),
    ] {
        let specs = vec![Params {
            name: "one".to_string(),
            naming_pattern: None,
            quality: 75,
            size: target,
            mode: Mode::Crop,
        }];
        let thumbs = create_thumb_images_from_bytes(
            &bytes,
            "img",
            ImageFormat::Jpeg,
            "t",
            &specs,
            &vec![false],
            false,
            FocalPoint::center(),
        )
        .unwrap();
        assert_eq!((thumbs[0].width, thumbs[0].height), expect);
    }
}

#[test]
fn dedup_rerun_uploads_nothing() {
    let specs = test_specs();
    let bytes = blank_bytes(100, 100, ImageFormat::Png);
    let paths = thumb_paths(&specs, "penguin", ImageFormat::Png, "thumbs").unwrap();
    let mut store: HashMap<String, Vec<u8>> = HashMap::new();

    let existing = existing_for(&store, &paths);
    let thumbs = create_thumb_images_from_bytes(
        &bytes,
        "penguin",
        ImageFormat::Png,
        "thumbs",
        &specs,
        &existing,
        false,
        FocalPoint::center(),
    )
    .unwrap();
    assert_eq!(thumbs.len(), 2);
    upload(&mut store, &thumbs);

    let existing = existing_for(&store, &paths);
    let rerun = create_thumb_images_from_bytes(
        &bytes,
        "penguin",
        ImageFormat::Png,
        "thumbs",
        &specs,
        &existing,
        false,
        FocalPoint::center(),
    )
    .unwrap();
    assert_eq!(rerun.len(), 0);
}

#[test]
fn no_override_preserves_existing_bytes() {
    let specs = test_specs();
    let bytes = blank_bytes(100, 100, ImageFormat::Png);
    let paths = thumb_paths(&specs, "penguin", ImageFormat::Png, "thumbs").unwrap();
    let broken = vec![1u8, 2, 3, 4, 5, 6, 7, 8, 9];
    let mut store: HashMap<String, Vec<u8>> = HashMap::new();
    store.insert(paths[0].clone(), broken.clone());

    let existing = existing_for(&store, &paths);
    assert_eq!(existing, vec![true, false]);
    let thumbs = create_thumb_images_from_bytes(
        &bytes,
        "penguin",
        ImageFormat::Png,
        "thumbs",
        &specs,
        &existing,
        false,
        FocalPoint::center(),
    )
    .unwrap();
    assert_eq!(thumbs.len(), 1);
    assert_eq!(thumbs[0].stem, "/penguin_mini");
    upload(&mut store, &thumbs);

    // the stale destination was skipped and keeps its bytes
    assert_eq!(store.get(&paths[0]).unwrap(), &broken);
}

#[test]
fn force_override_replaces_stale_bytes() {
    let specs = test_specs();
    let bytes = blank_bytes(100, 100, ImageFormat::Png);
    let paths = thumb_paths(&specs, "penguin", ImageFormat::Png, "thumbs").unwrap();
    let broken = vec![1u8, 2, 3, 4, 5, 6, 7, 8, 9];
    let mut store: HashMap<String, Vec<u8>> = HashMap::new();
    store.insert(paths[0].clone(), broken.clone());

    let existing = existing_for(&store, &paths);
    let thumbs = create_thumb_images_from_bytes(
        &bytes,
        "penguin",
        ImageFormat::Png,
        "thumbs",
        &specs,
        &existing,
        true,
        FocalPoint::center(),
    )
    .unwrap();
    assert_eq!(thumbs.len(), 2);
    upload(&mut store, &thumbs);

    assert_ne!(store.get(&paths[0]).unwrap(), &broken);
}

#[test]
fn custom_naming_pattern_is_honoured() {
    let specs = vec![Params {
        name: "mini".to_string(),
        naming_pattern: Some("{thumb_name}/{image_stem}".to_string()),
        quality: 80,
        size: (50, 50),
        mode: Mode::Fit,
    }];
    let bytes = blank_bytes(100, 100, ImageFormat::Png);
    let thumbs = create_thumb_images_from_bytes(
        &bytes,
        "penguin",
        ImageFormat::Png,
        "thumbs",
        &specs,
        &vec![false],
        false,
        FocalPoint::center(),
    )
    .unwrap();
    assert_eq!(thumbs[0].stem, "mini/penguin");
    assert_eq!(full_path(&thumbs[0]), "thumbs/mini/penguin.png");
    let paths = thumb_paths(&specs, "penguin", ImageFormat::Png, "thumbs").unwrap();
    assert_eq!(paths[0], "thumbs/mini/penguin.png");
}

#[test]
fn undecodable_bytes_fail_decode() {
    let junk = vec![0u8; 32];
    assert!(matches!(decode_image(&junk, ImageFormat::Png), Err(Error::Image)));
    let specs = test_specs();
    let r = create_thumb_images_from_bytes(
        &junk,
        "x",
        ImageFormat::Jpeg,
        "t",
        &specs,
        &vec![false, false],
        false,
        FocalPoint::center(),
    );
    assert_eq!(r.unwrap_err(), Error::Image);
}

#[test]
fn unknown_magic_is_not_supported() {
    assert_eq!(guess_image_format(&vec![0u8; 16]).unwrap_err(), Error::NotSupported);
    let png = blank_bytes(3, 3, ImageFormat::Png);
    assert_eq!(guess_image_format(&png).unwrap(), ImageFormat::Png);
    let jpg = blank_bytes(3, 3, ImageFormat::Jpeg);
    assert_eq!(guess_image_format(&jpg).unwrap(), ImageFormat::Jpeg);
}

#[test]
fn bad_naming_pattern_gives_path_error() {
    let specs = vec![Params {
        name: "mini".to_string(),
        naming_pattern: Some("/{image_stem}/../{thumb_name}".to_string()),
        quality: 80,
        size: (50, 50),
        mode: Mode::Fit,
    }];
    let r = thumb_paths(&specs, "penguin", ImageFormat::Png, "thumbs");
    assert_eq!(r.unwrap_err(), Error::Path);
}

#[test]
fn jpeg_rejects_oversize_dimensions() {
    // JPEG holds sizes up to 65535 per axis; PNG does not share the limit
    let bytes = blank_bytes(70000, 1, ImageFormat::Png);
    let img = decode_image(&bytes, ImageFormat::Png).unwrap();
    assert_eq!(encode_image(&img, ImageFormat::Jpeg, 75).unwrap_err(), Error::Image);
    assert!(encode_image(&img, ImageFormat::Png, 75).is_ok());
}

#[test]
fn encode_roundtrip_keeps_dimensions() {
    let bytes = blank_bytes(40, 30, ImageFormat::Png);
    let img = decode_image(&bytes, ImageFormat::Png).unwrap();
    assert_eq!((img.width(), img.height()), (40, 30));
    let png = encode_image(&img, ImageFormat::Png, 0).unwrap();
    let back = decode_image(&png, ImageFormat::Png).unwrap();
    assert_eq!((back.width(), back.height()), (40, 30));
    let jpg = encode_image(&img, ImageFormat::Jpeg, 90).unwrap();
    let back = decode_image(&jpg, ImageFormat::Jpeg).unwrap();
    assert_eq!((back.width(), back.height()), (40, 30));
}

#[test]
fn source_image_description() {
    let bytes = blank_bytes(8, 8, ImageFormat::Png);
    let src = source_image_from_bytes("dir/sub/penguin.png", bytes.clone()).unwrap();
    assert_eq!(src.stem, "penguin");
    assert_eq!(src.path, "dir/sub");
    assert_eq!(src.format, ImageFormat::Png);
    assert_eq!(src.bytes, bytes);

    assert_eq!(
        source_image_from_bytes("", bytes).unwrap_err(),
        Error::NotSupported
    );
}
