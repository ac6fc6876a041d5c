use vstd::prelude::*;

use crate::text::{eq_ignore_case, matches_ignore_case, str_to_chars};

verus! {

/// The format a file extension stands for: `jpg`, `jpeg` and `jfif` mean
/// JPEG, `png` and `apng` mean PNG, compared without regard to ASCII case;
/// everything else is unrecognized.
pub open spec fn format_from_ext(e: Seq<char>) -> Option<ImageFormat> {
    if matches_ignore_case(e, "jpg"@) || matches_ignore_case(e, "jpeg"@) || matches_ignore_case(
        e,
        "jfif"@,
    ) {
        Some(ImageFormat::Jpeg)
    } else if matches_ignore_case(e, "png"@) || matches_ignore_case(e, "apng"@) {
        Some(ImageFormat::Png)
    } else {
        None
    }
}

/// How a thumbnail is derived from the source image.
#[derive(Debug, Clone, Copy, PartialEq, Eq, Structural)]
pub enum Mode {
    /// The image's aspect ratio is preserved. The image is scaled to the
    /// maximum possible size that fits within the bounds, and is never
    /// upscaled past its original resolution.
    Fit,
    /// The image is cropped to the target aspect ratio around a focal point,
    /// then resized to the target size, never upscaling.
    Crop,
}

/// The format of a source image; thumbnails always keep the source format.
#[derive(Debug, Clone, Copy, PartialEq, Eq, Structural)]
pub enum ImageFormat {
    Jpeg,
    Png,
}

impl ImageFormat {
    /// The canonical file extension of this format.
    pub open spec fn ext_view(self) -> Seq<char> {
        match self {
            ImageFormat::Jpeg => "jpg"@,
            ImageFormat::Png => "png"@,
        }
    }

    pub fn ext(self) -> (r: &'static str)
        ensures
            r@ == self.ext_view(),
    {
        match self {
            ImageFormat::Jpeg => "jpg",
            ImageFormat::Png => "png",
        }
    }

    /// The format a file extension names, if it is recognized.
    pub fn from_extension(ext: &str) -> (r: Option<ImageFormat>)
        ensures
            r == format_from_ext(ext@),
    {
        let e = str_to_chars(ext);
        let jpg = str_to_chars("jpg");
        let jpeg = str_to_chars("jpeg");
        let jfif = str_to_chars("jfif");
        let png = str_to_chars("png");
        let apng = str_to_chars("apng");
        if eq_ignore_case(&e, &jpg) || eq_ignore_case(&e, &jpeg) || eq_ignore_case(&e, &jfif) {
            Some(ImageFormat::Jpeg)
        } else if eq_ignore_case(&e, &png) || eq_ignore_case(&e, &apng) {
            Some(ImageFormat::Png)
        } else {
            None
        }
    }
}

/// One thumbnail specification: its name, how its destination is derived,
/// the JPEG quality, the target size and the resize mode.
#[derive(Debug)]
pub struct Params {
    /// Substituted for `{thumb_name}` in the naming pattern. Unique within a
    /// configured list.
    pub name: String,
    /// Template with the tokens `{image_stem}` and `{thumb_name}`; when
    /// absent, the default `"/{image_stem}_{thumb_name}"` is used.
    pub naming_pattern: Option<String>,
    /// JPEG quality, 0 to 100. PNG output ignores it, being always lossless.
    pub quality: u8,
    /// Target (width, height) in pixels, both positive.
    pub size: (u32, u32),
    pub mode: Mode,
}

impl Clone for Params {
    fn clone(&self) -> (r: Self)
        ensures
            r == *self,
    {
        Params {
            name: self.name.clone(),
            naming_pattern: match &self.naming_pattern {
                Some(p) => Some(p.clone()),
                None => None,
            },
            quality: self.quality,
            size: (self.size.0, self.size.1),
            mode: self.mode,
        }
    }
}

impl Params {
    pub open spec fn wf(self) -> bool {
        &&& 1 <= self.size.0
        &&& 1 <= self.size.1
        &&& self.quality <= 100
    }
}

/// A normalized focal point, each coordinate a fraction of the image's width
/// or height expressed in thousandths (0 to 1000).
#[derive(Debug, Clone, Copy, PartialEq, Eq, Structural)]
pub struct FocalPoint {
    pub x_per_mille: u32,
    pub y_per_mille: u32,
}

impl FocalPoint {
    pub open spec fn wf(self) -> bool {
        self.x_per_mille <= 1000 && self.y_per_mille <= 1000
    }

    pub fn new(x_per_mille: u32, y_per_mille: u32) -> (r: FocalPoint)
        requires
            x_per_mille <= 1000,
            y_per_mille <= 1000,
        ensures
            r.wf(),
            r.x_per_mille == x_per_mille,
            r.y_per_mille == y_per_mille,
    {
        FocalPoint { x_per_mille, y_per_mille }
    }

    /// The default focal point, the centre of the image.
    pub fn center() -> (r: FocalPoint)
        ensures
            r.wf(),
            r.x_per_mille == 500,
            r.y_per_mille == 500,
    {
        FocalPoint { x_per_mille: 500, y_per_mille: 500 }
    }
}

/// One source image as downloaded: the stem and directory of its location,
/// the format guessed from its bytes, and the raw bytes themselves.
#[derive(Debug)]
pub struct SourceImage {
    /// Source filename without directory and extension.
    pub stem: String,
    pub format: ImageFormat,
    /// The directory the source lies in.
    pub path: String,
    pub bytes: Vec<u8>,
}

/// One generated thumbnail, between generation and upload: the destination
/// stem and directory, the kept source format, the pixel size of the rendered
/// image and its encoded bytes.
#[derive(Debug)]
pub struct ImageDetails {
    /// Destination filename without directory and extension.
    pub stem: String,
    pub format: ImageFormat,
    /// Destination directory, a normalized path.
    pub path: String,
    pub bytes: Vec<u8>,
    /// Pixel width of the rendered thumbnail.
    pub width: u32,
    /// Pixel height of the rendered thumbnail.
    pub height: u32,
}

} // verus!
