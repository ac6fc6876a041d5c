use vstd::prelude::*;

use crate::error::{Error, ThumbsResult};
use crate::geometry::{
    crop_rect, crop_rect_view, fit_within, limit_size_crop, limit_size_fit, thumb_size_view, Rect,
};
use crate::model::{FocalPoint, ImageFormat, Mode, Params, SourceImage};
use crate::naming::{extract_stem, filename_view, parent_dir, parent_view, stem_view};

verus! {

#[verifier::external_type_specification]
#[verifier::external_body]
pub struct ExDynamicImage(image::DynamicImage);

/// The pixel size the bytes decode to in the given format, when they decode
/// at all. The decoders are deterministic, so this is a function of the
/// bytes and the format alone; `decode_wrapper` below says what it is.
pub uninterp spec fn decoded_dims(bytes: Seq<u8>, format: ImageFormat) -> Option<(u32, u32)>;

/// A decoded image: its pixel size and sample class as plain values, and the
/// decoded pixels behind an opaque handle. The trusted wrappers below keep
/// `width` and `height` equal to the handle's real dimensions and
/// `integer_samples` equal to whether the handle's samples are integers
/// rather than floating-point (PNG cannot encode the latter).
#[derive(Debug)]
pub struct Image {
    width: u32,
    height: u32,
    integer_samples: bool,
    handle: image::DynamicImage,
}

/// Whether an image of this size and sample class encodes without error:
/// the JPEG encoder takes sizes of 1 to 65535 on each axis, the PNG encoder
/// any nonzero size with integer samples.
pub open spec fn encodable(format: ImageFormat, w: int, h: int, integer_samples: bool) -> bool {
    match format {
        ImageFormat::Jpeg => 1 <= w <= 65535 && 1 <= h <= 65535,
        ImageFormat::Png => 1 <= w && 1 <= h && integer_samples,
    }
}

/// The resampling filter of a resize: `Nearest` for the crop fill, as a
/// fast pixel-preserving choice, `Triangle` for the smoother fit scale.
#[derive(Debug, Clone, Copy, PartialEq, Eq, Structural)]
pub enum ResizeFilter {
    Nearest,
    Triangle,
}

impl Image {
    /// The pixel width, as the wrappers recorded it from the handle.
    pub closed spec fn spec_width(self) -> u32 {
        self.width
    }

    /// The pixel height, as the wrappers recorded it from the handle.
    pub closed spec fn spec_height(self) -> u32 {
        self.height
    }

    /// Whether the samples are integers, as the wrappers recorded it from
    /// the handle's colour type.
    pub closed spec fn spec_integer_samples(self) -> bool {
        self.integer_samples
    }

    /// An image the geometry can work on: at least one pixel on each axis.
    pub open spec fn wf(self) -> bool {
        1 <= self.spec_width() && 1 <= self.spec_height()
    }

    pub fn width(&self) -> (r: u32)
        ensures
            r == self.spec_width(),
    {
        self.width
    }

    pub fn height(&self) -> (r: u32)
        ensures
            r == self.spec_height(),
    {
        self.height
    }
}

/// Relies on `image::load_from_memory_with_format`: it is deterministic in
/// the bytes and the format, so `decoded_dims` names when it succeeds and
/// with what size, reported by `width()`/`height()`. A JPEG frame header
/// stores its size in 16 bits, so a decoded JPEG is at most 65535 on each
/// axis; the JPEG and PNG decoders produce only integer sample types. An
/// unsupported-format failure maps to `NotSupported`, any other decode
/// failure to `Image`.
#[verifier::external_body]
fn decode_wrapper(bytes: &Vec<u8>, format: ImageFormat) -> (r: ThumbsResult<Image>)
    ensures
        r is Ok <==> decoded_dims(bytes@, format) is Some,
        r matches Ok(img) ==> decoded_dims(bytes@, format) == Some(
            (img.spec_width(), img.spec_height()),
        ) && img.spec_integer_samples() && (format == ImageFormat::Jpeg ==> img.spec_width()
            <= 65535 && img.spec_height() <= 65535),
        r matches Err(e) ==> (e == Error::NotSupported || e == Error::Image),
{
    let fmt = match format {
        ImageFormat::Jpeg => image::ImageFormat::Jpeg,
        ImageFormat::Png => image::ImageFormat::Png,
    };
    match image::load_from_memory_with_format(bytes, fmt) {
        Ok(d) => {
            let float = matches!(
                d,
                image::DynamicImage::ImageRgb32F(_) | image::DynamicImage::ImageRgba32F(_)
            );
            Ok(Image { width: d.width(), height: d.height(), integer_samples: !float, handle: d })
        },
        Err(image::ImageError::Unsupported(_)) => Err(Error::NotSupported),
        Err(_) => Err(Error::Image),
    }
}

/// Relies on `DynamicImage::crop_imm`: a rectangle that lies within the
/// image's bounds is cut out exactly, keeping the colour type.
#[verifier::external_body]
fn crop_wrapper(img: &Image, r: &Rect) -> (out: Image)
    requires
        r.x + r.w <= img.spec_width(),
        r.y + r.h <= img.spec_height(),
    ensures
        out.spec_width() == r.w,
        out.spec_height() == r.h,
        out.spec_integer_samples() == img.spec_integer_samples(),
{
    Image {
        width: r.w,
        height: r.h,
        integer_samples: img.integer_samples,
        handle: img.handle.crop_imm(r.x, r.y, r.w, r.h),
    }
}

/// Relies on `DynamicImage::resize_exact`: the result has exactly the
/// requested dimensions and keeps the colour type.
#[verifier::external_body]
fn resize_wrapper(img: &Image, w: u32, h: u32, filter: ResizeFilter) -> (out: Image)
    requires
        1 <= w,
        1 <= h,
    ensures
        out.spec_width() == w,
        out.spec_height() == h,
        out.spec_integer_samples() == img.spec_integer_samples(),
{
    let f = match filter {
        ResizeFilter::Nearest => image::imageops::FilterType::Nearest,
        ResizeFilter::Triangle => image::imageops::FilterType::Triangle,
    };
    Image {
        width: w,
        height: h,
        integer_samples: img.integer_samples,
        handle: img.handle.resize_exact(w, h, f),
    }
}

/// Relies on `JpegEncoder::new_with_quality` and
/// `DynamicImage::write_with_encoder`: encoding into an in-memory buffer
/// yields the JPEG bytes. The encoder clamps the quality into 1..=100
/// itself; it converts every colour type, writes cannot fail in memory, and
/// its one error is a size outside 1..=65535 on some axis, so within those
/// sizes it succeeds, and success always writes at least the opening marker.
/// Failures map to the library's error kinds.
#[verifier::external_body]
fn encode_jpeg_wrapper(img: &Image, quality: u8) -> (r: ThumbsResult<Vec<u8>>)
    ensures
        r is Err ==> (img.spec_width() == 0 || img.spec_width() > 65535 || img.spec_height() == 0
            || img.spec_height() > 65535),
        r matches Ok(b) ==> 1 <= b@.len(),
        r matches Err(e) ==> (e == Error::NotSupported || e == Error::Image),
{
    let mut buf = Vec::new();
    let writer = std::io::Cursor::new(&mut buf);
    let encoder = image::codecs::jpeg::JpegEncoder::new_with_quality(writer, quality);
    match img.handle.write_with_encoder(encoder) {
        Ok(()) => Ok(buf),
        Err(image::ImageError::Unsupported(_)) => Err(Error::NotSupported),
        Err(_) => Err(Error::Image),
    }
}

/// Relies on `PngEncoder::new_with_quality` and
/// `DynamicImage::write_with_encoder`: encoding into an in-memory buffer
/// yields the PNG bytes, losslessly. Writes cannot fail in memory, and the
/// encoder's errors are a zero size or a floating-point colour type, so an
/// image with nonzero size and integer samples succeeds, and success always
/// writes at least the PNG signature. Failures map to the library's error
/// kinds.
#[verifier::external_body]
fn encode_png_wrapper(img: &Image) -> (r: ThumbsResult<Vec<u8>>)
    ensures
        r is Err ==> (img.spec_width() == 0 || img.spec_height() == 0
            || !img.spec_integer_samples()),
        r matches Ok(b) ==> 1 <= b@.len(),
        r matches Err(e) ==> (e == Error::NotSupported || e == Error::Image),
{
    let mut buf = Vec::new();
    let writer = std::io::Cursor::new(&mut buf);
    let encoder = image::codecs::png::PngEncoder::new_with_quality(
        writer,
        image::codecs::png::CompressionType::default(),
        image::codecs::png::FilterType::default(),
    );
    match img.handle.write_with_encoder(encoder) {
        Ok(()) => Ok(buf),
        Err(image::ImageError::Unsupported(_)) => Err(Error::NotSupported),
        Err(_) => Err(Error::Image),
    }
}

/// Whether the bytes begin with the PNG signature.
pub open spec fn is_png_magic(b: Seq<u8>) -> bool {
    b.len() >= 8 && b[0] == 0x89u8 && b[1] == 0x50u8 && b[2] == 0x4eu8 && b[3] == 0x47u8 && b[4]
        == 0x0du8 && b[5] == 0x0au8 && b[6] == 0x1au8 && b[7] == 0x0au8
}

/// Whether the bytes begin with the JPEG signature.
pub open spec fn is_jpeg_magic(b: Seq<u8>) -> bool {
    b.len() >= 3 && b[0] == 0xffu8 && b[1] == 0xd8u8 && b[2] == 0xffu8
}

/// Relies on `image::guess_format` and its magic-byte table: it reports PNG
/// exactly for bytes that begin with the PNG signature, JPEG exactly for
/// bytes that begin with `FF D8 FF`; any other detected or undetected format
/// is not supported here.
#[verifier::external_body]
fn guess_wrapper(bytes: &Vec<u8>) -> (r: ThumbsResult<ImageFormat>)
    ensures
        r == (if is_png_magic(bytes@) {
            Ok::<ImageFormat, Error>(ImageFormat::Png)
        } else if is_jpeg_magic(bytes@) {
            Ok::<ImageFormat, Error>(ImageFormat::Jpeg)
        } else {
            Err::<ImageFormat, Error>(Error::NotSupported)
        }),
{
    match image::guess_format(bytes) {
        Ok(image::ImageFormat::Jpeg) => Ok(ImageFormat::Jpeg),
        Ok(image::ImageFormat::Png) => Ok(ImageFormat::Png),
        _ => Err(Error::NotSupported),
    }
}

/// The format of the image the bytes hold, read from their magic numbers;
/// only JPEG and PNG are supported.
pub fn guess_image_format(bytes: &Vec<u8>) -> (r: ThumbsResult<ImageFormat>)
    ensures
        r == (if is_png_magic(bytes@) {
            Ok::<ImageFormat, Error>(ImageFormat::Png)
        } else if is_jpeg_magic(bytes@) {
            Ok::<ImageFormat, Error>(ImageFormat::Jpeg)
        } else {
            Err::<ImageFormat, Error>(Error::NotSupported)
        }),
{
    guess_wrapper(bytes)
}

/// Decodes source bytes of the given format: it succeeds exactly when the
/// bytes decode to an image with at least one pixel on each axis.
pub fn decode_image(bytes: &Vec<u8>, format: ImageFormat) -> (r: ThumbsResult<Image>)
    ensures
        r is Ok <==> (decoded_dims(bytes@, format) matches Some(d) && 1 <= d.0 && 1 <= d.1),
        r matches Ok(img) ==> img.wf() && decoded_dims(bytes@, format) == Some(
            (img.spec_width(), img.spec_height()),
        ) && img.spec_integer_samples() && (format == ImageFormat::Jpeg ==> img.spec_width()
            <= 65535 && img.spec_height() <= 65535),
        r matches Err(e) ==> (e == Error::NotSupported || e == Error::Image),
{
    let img = decode_wrapper(bytes, format)?;
    if img.width() == 0 || img.height() == 0 {
        return Err(Error::Image);
    }
    Ok(img)
}

/// Encodes with the encoder of the source's own format, never converting:
/// JPEG with the specification's quality, PNG losslessly. An encodable image
/// is guaranteed to succeed.
pub fn encode_image(img: &Image, format: ImageFormat, quality: u8) -> (r: ThumbsResult<Vec<u8>>)
    ensures
        r matches Ok(b) ==> 1 <= b@.len(),
        r is Err ==> !encodable(
            format,
            img.spec_width() as int,
            img.spec_height() as int,
            img.spec_integer_samples(),
        ),
        r matches Err(e) ==> (e == Error::NotSupported || e == Error::Image),
{
    match format {
        ImageFormat::Jpeg => encode_jpeg_wrapper(img, quality),
        ImageFormat::Png => encode_png_wrapper(img),
    }
}

/// Describes a downloaded object: the stem and the directory come from its
/// location, the format from the bytes' magic numbers.
pub fn source_image_from_bytes(location: &str, bytes: Vec<u8>) -> (r: ThumbsResult<SourceImage>)
    ensures
        r matches Ok(s) ==> {
            &&& s.stem@ == stem_view(filename_view(location@))
            &&& s.path@ == parent_view(location@)
            &&& s.bytes == bytes
            &&& (is_png_magic(s.bytes@) <==> s.format == ImageFormat::Png)
            &&& (is_jpeg_magic(s.bytes@) <==> s.format == ImageFormat::Jpeg)
        },
        r is Err <==> location@.len() == 0 || (!is_png_magic(bytes@) && !is_jpeg_magic(bytes@)),
        r matches Err(e) ==> e == Error::NotSupported,
{
    let stem = extract_stem(location)?;
    let path = parent_dir(location);
    let format = guess_image_format(&bytes)?;
    Ok(SourceImage { stem, format, path, bytes })
}

/// Cuts the focal-point crop rectangle out of the image; an image already of
/// the target's aspect ratio comes back whole.
pub fn crop_aspect_ratio_with_center(image: &Image, target_size: (u32, u32), center: FocalPoint) -> (r: Image)
    requires
        image.wf(),
        1 <= target_size.0,
        1 <= target_size.1,
        center.wf(),
    ensures
        ({
            let rv = crop_rect_view(
                image.spec_width() as int,
                image.spec_height() as int,
                target_size.0 as int,
                target_size.1 as int,
                center.x_per_mille as int,
                center.y_per_mille as int,
            );
            r.spec_width() == rv.2 && r.spec_height() == rv.3
        }),
        r.wf(),
        r.spec_integer_samples() == image.spec_integer_samples(),
{
    let rect = crop_rect((image.width(), image.height()), target_size, center);
    crop_wrapper(image, &rect)
}

/// Renders one thumbnail from the decoded image: `Fit` scales into the
/// clamped target box, `Crop` cuts the focal rectangle and fills it to the
/// clamped target size; neither ever upscales.
pub fn calculate_thumbnail(image: &Image, params: &Params, center: FocalPoint) -> (r: ThumbsResult<
    Image,
>)
    requires
        image.wf(),
        params.wf(),
        center.wf(),
    ensures
        r matches Ok(t) && t.wf() && t.spec_integer_samples() == image.spec_integer_samples() && (
        t.spec_width() as int,
        t.spec_height() as int,
        ) == thumb_size_view(
            params.mode,
            (params.size.0 as int, params.size.1 as int),
            (image.spec_width() as int, image.spec_height() as int),
            center.x_per_mille as int,
            center.y_per_mille as int,
        ),
{
    match params.mode {
        Mode::Fit => {
            let (bw, bh) = limit_size_fit(params.size, (image.width(), image.height()));
            let (nw, nh) = fit_within(image.width(), image.height(), bw, bh);
            Ok(resize_wrapper(image, nw, nh, ResizeFilter::Triangle))
        },
        Mode::Crop => {
            let cropped = crop_aspect_ratio_with_center(image, params.size, center);
            let (fw, fh) = limit_size_crop(params.size, (cropped.width(), cropped.height()));
            Ok(resize_wrapper(&cropped, fw, fh, ResizeFilter::Nearest))
        },
    }
}

} // verus!
