//! From a file's bytes to a raster, and from a raster to the bytes of a PNG
//! file.
//!
//! In which format a file is read follows from its extension alone. The
//! decoders and the encoder are those of the `image` crate.

use vstd::prelude::*;
use vstd::string::*;
use crate::paths::{chars_of, extension_of, file_name, file_name_of, lower_extension, lowered, spells};
use crate::raster::{Raster, RasterData};

verus! {

/// The formats in which source images are read.
#[derive(Debug, Clone, Copy, PartialEq, Eq, Structural)]
pub enum SourceFormat {
    Jpeg,
    Png,
    Gif,
    Bmp,
    Tiff,
    WebP,
}

/// Why a file gave no image.
#[derive(Debug)]
pub enum LoadError {
    /// The file's extension names no format that is read.
    UnsupportedFormat,
    /// The file's bytes are no image of the format that its extension names;
    /// `reason` is what the decoder said.
    DecodeFailed { reason: String },
}

/// What a `LoadError` is.
pub ghost enum LoadFault {
    UnsupportedFormat,
    DecodeFailed { reason: Seq<char> },
}

impl LoadFault {
    /// What the error says of itself: for a failed decoding, what the decoder
    /// said.
    pub open spec fn message_text(self) -> Seq<char> {
        match self {
            LoadFault::UnsupportedFormat => "The file extension names no image format"@,
            LoadFault::DecodeFailed { reason } => reason,
        }
    }
}

impl View for LoadError {
    type V = LoadFault;

    open spec fn view(&self) -> LoadFault {
        match self {
            LoadError::UnsupportedFormat => LoadFault::UnsupportedFormat,
            LoadError::DecodeFailed { reason } => LoadFault::DecodeFailed { reason: reason@ },
        }
    }
}

impl LoadError {
    /// What the error says of itself.
    pub fn message(&self) -> (text: String)
        ensures
            text@ == self@.message_text(),
    {
        match self {
            LoadError::UnsupportedFormat => String::from_str(
                "The file extension names no image format",
            ),
            LoadError::DecodeFailed { reason } => reason.clone(),
        }
    }
}

/// The format that an extension in lower case names.
pub open spec fn format_of_extension(ext: Seq<char>) -> Option<SourceFormat> {
    if ext == "jpg"@ || ext == "jpeg"@ {
        Some(SourceFormat::Jpeg)
    } else if ext == "png"@ {
        Some(SourceFormat::Png)
    } else if ext == "gif"@ {
        Some(SourceFormat::Gif)
    } else if ext == "bmp"@ {
        Some(SourceFormat::Bmp)
    } else if ext == "tiff"@ || ext == "tif"@ {
        Some(SourceFormat::Tiff)
    } else if ext == "webp"@ {
        Some(SourceFormat::WebP)
    } else {
        None
    }
}

/// The format in which the file at `path` is read: the one that the extension
/// of its file name names, capitals counting as small letters. A path without
/// a file name names none.
pub open spec fn format_of_path(path: Seq<char>) -> Option<SourceFormat> {
    match file_name_of(path) {
        Some(name) => match extension_of(name) {
            Some(ext) => format_of_extension(lowered(ext)),
            None => None,
        },
        None => None,
    }
}

/// The format in which the file at `path` is read, if it is an image file.
pub fn source_format(path: &str) -> (r: Option<SourceFormat>)
    ensures
        r == format_of_path(path@),
{
    let chars = chars_of(path);
    let name = match file_name(&chars) {
        Some(name) => name,
        None => {
            return None;
        },
    };
    let ext = match lower_extension(&name) {
        Some(ext) => ext,
        None => {
            return None;
        },
    };
    if spells(&ext, "jpg") || spells(&ext, "jpeg") {
        Some(SourceFormat::Jpeg)
    } else if spells(&ext, "png") {
        Some(SourceFormat::Png)
    } else if spells(&ext, "gif") {
        Some(SourceFormat::Gif)
    } else if spells(&ext, "bmp") {
        Some(SourceFormat::Bmp)
    } else if spells(&ext, "tiff") || spells(&ext, "tif") {
        Some(SourceFormat::Tiff)
    } else if spells(&ext, "webp") {
        Some(SourceFormat::WebP)
    } else {
        None
    }
}

/// What decoding `bytes` as a file of the given format gives: the image as
/// RGBA pixels of eight bits to the channel, or, where the bytes are no such
/// file, what the decoder says of them.
pub uninterp spec fn decoded_image(format: SourceFormat, bytes: Seq<u8>) -> Result<
    RasterData,
    Seq<char>,
>;

/// What encoding the raster of the given size and pixels as a PNG file gives:
/// the bytes of the file, or, where the encoder refuses the raster, what it
/// says of it.
pub uninterp spec fn png_encoding(pixels: Seq<u8>, width: nat, height: nat) -> Result<
    Seq<u8>,
    Seq<char>,
>;

/// Calls `image::load_from_memory_with_format` and turns what it gives into
/// RGBA pixels with `DynamicImage::into_rgba8`, or into the error's text with
/// `to_string`. The result depends on the format and the bytes alone and is
/// named, not stated; what is claimed beside the name is that the buffer that
/// comes out holds four bytes to the pixel, no more.
#[verifier::external_body]
fn decode(format: SourceFormat, bytes: &Vec<u8>) -> (r: Result<Raster, String>)
    ensures
        match r {
            Ok(raster) => decoded_image(format, bytes@) == Ok::<RasterData, Seq<char>>(raster@)
                && raster@.wf(),
            Err(reason) => decoded_image(format, bytes@) == Err::<RasterData, Seq<char>>(reason@),
        },
{
    let format = match format {
        SourceFormat::Jpeg => image::ImageFormat::Jpeg,
        SourceFormat::Png => image::ImageFormat::Png,
        SourceFormat::Gif => image::ImageFormat::Gif,
        SourceFormat::Bmp => image::ImageFormat::Bmp,
        SourceFormat::Tiff => image::ImageFormat::Tiff,
        SourceFormat::WebP => image::ImageFormat::WebP,
    };
    match image::load_from_memory_with_format(bytes.as_slice(), format) {
        Ok(image) => {
            let pixels = image.into_rgba8();
            Ok(Raster { width: pixels.width(), height: pixels.height(), data: pixels.into_raw() })
        },
        Err(e) => Err(e.to_string()),
    }
}

/// Calls `image::write_buffer_with_format` with `ExtendedColorType::Rgba8` and
/// `ImageFormat::Png` on a buffer in memory, and turns an error into its text
/// with `to_string`. What comes out depends on the raster alone and is named,
/// not stated. The encoder panics on a buffer that is not four bytes to the
/// pixel: `requires` leaves that out.
#[verifier::external_body]
fn encode_png(image: &Raster) -> (r: Result<Vec<u8>, String>)
    requires
        image@.wf(),
    ensures
        match r {
            Ok(bytes) => png_encoding(image@.pixels, image@.width, image@.height) == Ok::<
                Seq<u8>,
                Seq<char>,
            >(bytes@),
            Err(reason) => png_encoding(image@.pixels, image@.width, image@.height) == Err::<
                Seq<u8>,
                Seq<char>,
            >(reason@),
        },
{
    let mut bytes: Vec<u8> = Vec::new();
    let written = image::write_buffer_with_format(
        &mut std::io::Cursor::new(&mut bytes),
        image.data.as_slice(),
        image.width,
        image.height,
        image::ExtendedColorType::Rgba8,
        image::ImageFormat::Png,
    );
    match written {
        Ok(()) => Ok(bytes),
        Err(e) => Err(e.to_string()),
    }
}

/// What reading the file at `path` with the content `bytes` gives.
pub open spec fn loaded(path: Seq<char>, bytes: Seq<u8>) -> Result<RasterData, LoadFault> {
    match format_of_path(path) {
        None => Err(LoadFault::UnsupportedFormat),
        Some(format) => match decoded_image(format, bytes) {
            Err(reason) => Err(LoadFault::DecodeFailed { reason }),
            Ok(image) => Ok(image),
        },
    }
}

/// Decodes the content `bytes` of the file at `path`, in the format that the
/// path's extension names.
pub fn load_raster(path: &str, bytes: &Vec<u8>) -> (r: Result<Raster, LoadError>)
    ensures
        match r {
            Ok(raster) => loaded(path@, bytes@) == Ok::<RasterData, LoadFault>(raster@)
                && raster@.wf(),
            Err(e) => loaded(path@, bytes@) == Err::<RasterData, LoadFault>(e@),
        },
{
    let format = match source_format(path) {
        Some(format) => format,
        None => {
            return Err(LoadError::UnsupportedFormat);
        },
    };
    match decode(format, bytes) {
        Ok(raster) => Ok(raster),
        Err(reason) => Err(LoadError::DecodeFailed { reason }),
    }
}

/// The bytes of the PNG file that holds `image`, or what the encoder says of
/// an image that it refuses.
pub fn to_png(image: &Raster) -> (r: Result<Vec<u8>, String>)
    requires
        image@.wf(),
    ensures
        match r {
            Ok(bytes) => png_encoding(image@.pixels, image@.width, image@.height) == Ok::<
                Seq<u8>,
                Seq<char>,
            >(bytes@),
            Err(reason) => png_encoding(image@.pixels, image@.width, image@.height) == Err::<
                Seq<u8>,
                Seq<char>,
            >(reason@),
        },
{
    encode_png(image)
}

} // verus!
