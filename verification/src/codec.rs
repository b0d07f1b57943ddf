//! The calls into the `image` crate: recognising, reading, resampling and
//! writing pictures. Nothing in this file is proved; each contract states
//! what the crate's source shows of the function that is called.
//!
//! A picture is read into eight-bit RGBA, whatever its file holds, and is
//! written from eight-bit RGBA.

use crate::raster::Raster;
use crate::raster::RasterView;
use vstd::prelude::*;

verus! {

#[verifier::external_type_specification]
#[verifier::external_body]
pub struct ExImageFormat(image::ImageFormat);

#[verifier::external_type_specification]
#[verifier::external_body]
pub struct ExImageError(image::ImageError);

/// What `image::ImageFormat::from_path` makes of a path: the picture format
/// that its extension stands for, if it stands for one.
pub uninterp spec fn format_named(path: Seq<char>) -> Option<image::ImageFormat>;

/// Whether a path goes under the name of a picture.
pub open spec fn names_picture(path: Seq<char>) -> bool {
    format_named(path) is Some
}

/// `image::ImageFormat::from_path`: the picture format that the extension of
/// `path` stands for.
#[verifier::external_body]
pub(crate) fn format_of_path(path: &str) -> (format: Option<image::ImageFormat>)
    ensures
        format == format_named(path@),
{
    image::ImageFormat::from_path(path).ok()
}

/// What `image::ImageFormat::from_extension` makes of a file extension: the
/// picture format that it stands for, if it stands for one.
pub uninterp spec fn extension_format(extension: Seq<char>) -> Option<image::ImageFormat>;

/// `image::ImageFormat::from_extension`: the picture format that a file
/// extension such as `png` stands for.
#[verifier::external_body]
pub(crate) fn format_of_extension(extension: &str) -> (format: Option<image::ImageFormat>)
    ensures
        format == extension_format(extension@),
{
    image::ImageFormat::from_extension(extension)
}

/// The first entry of `image::ImageFormat::extensions_str`: the extension
/// under which files of a format go before all others.
pub uninterp spec fn extension_of(format: image::ImageFormat) -> Seq<char>;

/// `image::ImageFormat::extensions_str`: the first of the extensions under
/// which files of `format` go. Every format of the crate has one.
#[verifier::external_body]
pub(crate) fn first_extension(format: image::ImageFormat) -> (extension: String)
    ensures
        extension@ == extension_of(format),
{
    format.extensions_str()[0].to_string()
}

/// What `image::load_from_memory_with_format` reads out of bytes, brought
/// to eight-bit RGBA by `DynamicImage::into_rgba8`: the picture, or nothing
/// where the bytes are no picture of that format.
pub uninterp spec fn decoded_picture(bytes: Seq<u8>, format: image::ImageFormat) -> Option<
    RasterView,
>;

/// `image::load_from_memory_with_format`, followed by
/// `DynamicImage::into_rgba8`: the picture that `bytes` hold when read as
/// `format`, as RGBA samples, or the crate's error. The crate reads with
/// its fixed limits and asks nothing but the bytes and the format.
#[verifier::external_body]
pub(crate) fn decode(bytes: &[u8], format: image::ImageFormat) -> (decoded: Result<
    Raster,
    image::ImageError,
>)
    ensures
        match decoded_picture(bytes@, format) {
            Some(view) => decoded matches Ok(image) && image@ == view,
            None => decoded is Err,
        },
{
    let picture = image::load_from_memory_with_format(bytes, format)?.into_rgba8();
    let (width, height) = picture.dimensions();
    Ok(Raster::from_samples(width, height, picture.into_raw()).unwrap())
}

/// Whether the source shows that files of a format come out the same on
/// every machine. Of three encoders it does not: the one for `avif` cuts
/// the picture into as many tiles as there are threads at hand, the one for
/// `exr` hands its blocks to a pool of threads, and the one for `hdr` goes
/// through floating-point logarithms.
pub open spec fn writes_alike_everywhere(format: image::ImageFormat) -> bool {
    &&& extension_of(format) != "avif"@
    &&& extension_of(format) != "exr"@
    &&& extension_of(format) != "hdr"@
}

/// What `DynamicImage::write_to` writes for a picture in a format that
/// comes out the same everywhere: the bytes of the file, or nothing where
/// the format cannot hold the picture.
pub uninterp spec fn encoded_picture(image: RasterView, format: image::ImageFormat) -> Option<
    Seq<u8>,
>;

/// `DynamicImage::write_to`: the bytes of a file of `format` that shows
/// `image`, or the crate's error. Of a format that the machine has a say in
/// nothing is stated.
#[verifier::external_body]
pub(crate) fn encode(image: &Raster, format: image::ImageFormat) -> (encoded: Result<
    Vec<u8>,
    image::ImageError,
>)
    requires
        image.complete(),
    ensures
        writes_alike_everywhere(format) ==> match encoded_picture(image@, format) {
            Some(bytes) => encoded matches Ok(data) && data@ == bytes,
            None => encoded is Err,
        },
{
    let samples = image.samples().clone();
    let picture = image::RgbaImage::from_raw(image.width(), image.height(), samples).unwrap();
    let mut file = std::io::Cursor::new(Vec::new());
    image::DynamicImage::ImageRgba8(picture).write_to(&mut file, format)?;
    Ok(file.into_inner())
}

/// `image::imageops::resize` with the filter `Lanczos3`: a picture of
/// exactly `width` by `height` pixels. The sample values come out of
/// floating-point arithmetic and nothing is stated of them. The call makes
/// one buffer of `image.width * height` and one of `width * height` pixels,
/// four numbers each; the crate counts a row first and the rows after, and
/// panics when either count is no `usize`.
#[verifier::external_body]
pub(crate) fn resample(image: &Raster, width: u32, height: u32) -> (resized: Raster)
    requires
        image.complete(),
        4 * width <= usize::MAX,
        4 * image@.width * height <= usize::MAX,
        4 * width * height <= usize::MAX,
    ensures
        resized@.width == width,
        resized@.height == height,
        resized@.well_formed(),
{
    let samples = image.samples().clone();
    let picture = image::RgbaImage::from_raw(image.width(), image.height(), samples).unwrap();
    let resized =
        image::imageops::resize(&picture, width, height, image::imageops::FilterType::Lanczos3);
    Raster::from_samples(width, height, resized.into_raw()).unwrap()
}

} // verus!
