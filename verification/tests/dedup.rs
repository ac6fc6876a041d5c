use image_thumbs::dedup::filter_existent_thumbs;
use image_thumbs::error::Error;
use image_thumbs::model::{Mode, Params};

fn test_specs() -> Vec<Params> {
    vec![
        Params {
            name: "standard".to_string(),
            naming_pattern: None,
            quality: 80,
            size: (150, 100),
            mode: Mode::Crop,
        },
        Params {
            name: "mini".to_string(),
            naming_pattern: None,
            quality: 80,
            size: (50, 50),
            mode: Mode::Fit,
        },
    ]
}

#[test]
fn fully_covered_candidates_are_dropped() {
    let specs = test_specs();
    let images = vec!["penguin.jpg".to_string(), "cat.png".to_string()];
    let thumbs = vec![
        "thumbs/penguin_standard.jpg".to_string(),
        "thumbs/penguin_mini.jpg".to_string(),
    ];
    let pending = filter_existent_thumbs(&specs, images, &thumbs).unwrap();
    assert_eq!(pending, vec!["cat.png".to_string()]);
}

#[test]
fn partially_covered_candidates_are_kept() {
    let specs = test_specs();
    let images = vec!["penguin.jpg".to_string()];
    let thumbs = vec!["thumbs/penguin_standard.jpg".to_string()];
    let pending = filter_existent_thumbs(&specs, images, &thumbs).unwrap();
    assert_eq!(pending, vec!["penguin.jpg".to_string()]);
}

#[test]
fn membership_is_by_filename_only() {
    let specs = test_specs();
    let images = vec!["penguin.png".to_string()];
    // stored under another directory, yet the filenames match
    let thumbs = vec![
        "elsewhere/penguin_standard.png".to_string(),
        "elsewhere/deep/penguin_mini.png".to_string(),
    ];
    let pending = filter_existent_thumbs(&specs, images, &thumbs).unwrap();
    assert_eq!(pending, Vec::<String>::new());
}

#[test]
fn jpeg_candidates_expect_jpg_thumbs() {
    let specs = test_specs();
    let images = vec!["dir/penguin.jpeg".to_string()];
    let thumbs = vec![
        "thumbs/penguin_standard.jpg".to_string(),
        "thumbs/penguin_mini.jpg".to_string(),
    ];
    let pending = filter_existent_thumbs(&specs, images, &thumbs).unwrap();
    assert_eq!(pending, Vec::<String>::new());
}

#[test]
fn unrecognized_extension_is_not_supported() {
    let specs = test_specs();
    let images = vec!["penguin.txt".to_string()];
    let r = filter_existent_thumbs(&specs, images, &Vec::new());
    assert_eq!(r.unwrap_err(), Error::NotSupported);

    let images = vec!["noextension".to_string()];
    let r = filter_existent_thumbs(&specs, images, &Vec::new());
    assert_eq!(r.unwrap_err(), Error::NotSupported);
}

#[test]
fn empty_spec_list_drops_everything() {
    let specs: Vec<Params> = Vec::new();
    let images = vec!["penguin.jpg".to_string()];
    let pending = filter_existent_thumbs(&specs, images, &Vec::new()).unwrap();
    assert_eq!(pending, Vec::<String>::new());
}
