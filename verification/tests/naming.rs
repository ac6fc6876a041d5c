use image_thumbs::error::Error;
use image_thumbs::model::ImageFormat;
use image_thumbs::naming::{extract_stem, generate_path, generate_thumb_stem, parent_dir, parse_path};

#[test]
fn thumb_stem_default_pattern() {
    assert_eq!(
        generate_thumb_stem("penguin", "mini", "/{image_stem}_{thumb_name}"),
        "/penguin_mini"
    );
}

#[test]
fn thumb_stem_custom_pattern() {
    assert_eq!(
        generate_thumb_stem("penguin", "mini", "{thumb_name}/{image_stem}"),
        "mini/penguin"
    );
    assert_eq!(generate_thumb_stem("penguin", "mini", "plain"), "plain");
}

#[test]
fn thumb_stem_substitution_is_not_recursive() {
    // a token arriving inside a substituted value is not re-expanded
    assert_eq!(
        generate_thumb_stem("S", "{image_stem}", "{thumb_name}"),
        "{image_stem}"
    );
    assert_eq!(
        generate_thumb_stem("{thumb_name}", "N", "{image_stem}_{thumb_name}"),
        "{thumb_name}_N"
    );
}

#[test]
fn thumb_stem_scans_left_to_right() {
    // overlapping text is consumed by the leftmost complete token
    assert_eq!(generate_thumb_stem("S", "N", "{{image_stem}x{thumb_name}"), "{SxN");
}

#[test]
fn path_join_strips_one_leading_slash() {
    assert_eq!(generate_path("thumbs", "/penguin_mini", ImageFormat::Jpeg), "thumbs/penguin_mini.jpg");
    assert_eq!(generate_path("thumbs", "penguin_mini", ImageFormat::Png), "thumbs/penguin_mini.png");
}

#[test]
fn extract_stem_cases() {
    assert_eq!(extract_stem("dir/penguin.jpg").unwrap(), "penguin");
    assert_eq!(extract_stem("penguin.tar.gz").unwrap(), "penguin.tar");
    assert_eq!(extract_stem("noext").unwrap(), "noext");
    assert_eq!(extract_stem(""), Err(Error::NotSupported));
}

#[test]
fn parent_dir_cases() {
    assert_eq!(parent_dir("a/b/penguin.jpg"), "a/b");
    assert_eq!(parent_dir("penguin.jpg"), "");
}

#[test]
fn parse_path_normalizes() {
    assert_eq!(parse_path("/thumbs/").unwrap(), "thumbs");
    assert_eq!(parse_path("a/b.jpg").unwrap(), "a/b.jpg");
    assert_eq!(parse_path("/").unwrap(), "");
    assert_eq!(parse_path("").unwrap(), "");
}

#[test]
fn parse_path_rejects_bad_segments() {
    assert_eq!(parse_path("a//b"), Err(Error::Path));
    assert_eq!(parse_path("a/./b"), Err(Error::Path));
    assert_eq!(parse_path("a/../b"), Err(Error::Path));
    assert_eq!(parse_path(".."), Err(Error::Path));
    assert_eq!(parse_path("a/\u{7}bell"), Err(Error::Path));
    assert_eq!(parse_path("//"), Err(Error::Path));
}

#[test]
fn format_from_extension() {
    assert_eq!(ImageFormat::from_extension("jpg"), Some(ImageFormat::Jpeg));
    assert_eq!(ImageFormat::from_extension("JPEG"), Some(ImageFormat::Jpeg));
    assert_eq!(ImageFormat::from_extension("png"), Some(ImageFormat::Png));
    assert_eq!(ImageFormat::from_extension("Png"), Some(ImageFormat::Png));
    assert_eq!(ImageFormat::from_extension("gif"), None);
    assert_eq!(ImageFormat::from_extension(""), None);
}
