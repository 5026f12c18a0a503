//! Pictures as plain bytes, and the PNG codec that outside code provides.
use image::{ImageFormat, RgbaImage};
use std::io::Cursor;
use vstd::prelude::*;

verus! {

/// The most pixels that a decoded picture has: the codec sets aside half a gibibyte for a picture,
/// and a pixel takes at least one byte.
pub const MAX_DECODED_PIXELS: u64 = 0x2000_0000;

/// The most bytes that the codec sets aside for a picture it decodes.
pub const MAX_DECODED_BYTES: u64 = 0x2000_0000;

/// The most pixels of a picture whose pixels a 32-bit number can count through.
pub const MAX_PIXELS: u64 = 0x1_0000_0000;

/// A picture of red, green, blue and alpha bytes, row by row.
pub struct Raster {
    pub width: u32,
    pub height: u32,
    pub bytes: Vec<u8>,
}

impl Raster {
    /// Number of pixels.
    pub open spec fn pixels(&self) -> nat {
        self.width as nat * self.height as nat
    }

    /// There are four bytes for each pixel, and pixels can be counted with 32 bits.
    pub open spec fn wf(&self) -> bool {
        &&& self.bytes@.len() == 4 * self.pixels()
        &&& self.pixels() <= MAX_PIXELS
    }

    /// Number of pixels.
    pub fn pixel_count(&self) -> (count: usize)
        requires
            self.wf(),
        ensures
            count == self.pixels(),
            4 * count <= usize::MAX,
    {
        self.bytes.len() / 4
    }
}

/// `image::ImageError`, a failure to decode or encode a picture.
#[verifier::external_type_specification]
#[verifier::external_body]
pub struct ExImageError(image::ImageError);

/// Whether data starts with the signature of PNG files.
pub open spec fn is_png(data: Seq<u8>) -> bool {
    &&& data.len() >= 8
    &&& data.take(8) == seq![0x89u8, 0x50, 0x4E, 0x47, 0x0D, 0x0A, 0x1A, 0x0A]
}

/// The width, height and RGBA bytes of a PNG file, or nothing where it cannot be decoded.
pub uninterp spec fn picture_decoded(data: Seq<u8>) -> Option<(u32, u32, Seq<u8>)>;

/// The PNG file of a picture with the given width, height and RGBA bytes.
pub uninterp spec fn png_encoded(width: u32, height: u32, bytes: Seq<u8>) -> Seq<u8>;

/// `image::load_from_memory` and `DynamicImage::to_rgba8`: four bytes for each pixel. PNG is the only
/// codec that `image` is built with: data without its signature is refused, and so is a picture over
/// half a gibibyte in its own pixel format.
#[verifier::external_body]
pub(crate) fn decode_picture(data: &[u8]) -> (result: Result<Raster, image::ImageError>)
    ensures
        match result {
            Ok(raster) => is_png(data@) && picture_decoded(data@) == Some(
                (raster.width, raster.height, raster.bytes@),
            ) && raster.bytes@.len() == 4 * raster.pixels() && raster.pixels()
                <= MAX_DECODED_PIXELS,
            Err(_) => picture_decoded(data@) is None,
        },
{
    let picture = image::load_from_memory(data)?.to_rgba8();
    let (width, height) = picture.dimensions();
    Ok(Raster { width, height, bytes: picture.into_raw() })
}

/// `image::ImageBuffer::write_to` in PNG format: fails exactly on a picture without pixels. PNG is
/// lossless, so that a file within what the codec sets aside decodes to the same picture.
#[verifier::external_body]
pub(crate) fn encode_png(raster: Raster) -> (result: Result<Vec<u8>, image::ImageError>)
    requires
        raster.wf(),
    ensures
        match result {
            Ok(file) => raster.pixels() > 0 && file@ == png_encoded(
                raster.width,
                raster.height,
                raster.bytes@,
            ) && (4 * raster.pixels() <= MAX_DECODED_BYTES ==> picture_decoded(file@) == Some(
                (raster.width, raster.height, raster.bytes@),
            )),
            Err(_) => raster.pixels() == 0,
        },
{
    let picture = RgbaImage::from_raw(raster.width, raster.height, raster.bytes)
        .expect("there are four bytes for each pixel");
    let mut file = Vec::new();
    picture.write_to(&mut Cursor::new(&mut file), ImageFormat::Png)?;
    Ok(file)
}

/// The size of a picture, and what makes it well formed.
pub proof fn law_raster(raster: Raster)
    ensures
        raster.pixels() == raster.width * raster.height,
        raster.wf() == (raster.bytes@.len() == 4 * (raster.width * raster.height) && raster.width
            * raster.height <= 0x1_0000_0000),
{
}

/// Which data has the signature of PNG files.
pub proof fn law_png_signature(data: Seq<u8>)
    ensures
        is_png(data) == (data.len() >= 8 && data[0] == 0x89 && data[1] == 0x50 && data[2] == 0x4E
            && data[3] == 0x47 && data[4] == 0x0D && data[5] == 0x0A && data[6] == 0x1A && data[7]
            == 0x0A),
{
    if data.len() >= 8 {
        let start = data.take(8);
        let signature = seq![0x89u8, 0x50, 0x4E, 0x47, 0x0D, 0x0A, 0x1A, 0x0A];
        if data[0] == 0x89 && data[1] == 0x50 && data[2] == 0x4E && data[3] == 0x47 && data[4]
            == 0x0D && data[5] == 0x0A && data[6] == 0x1A && data[7] == 0x0A {
            assert(start =~= signature);
        }
        if start == signature {
            assert(start[0] == data[0] && start[1] == data[1] && start[2] == data[2] && start[3]
                == data[3] && start[4] == data[4] && start[5] == data[5] && start[6] == data[6]
                && start[7] == data[7]);
        }
    }
}

} // verus!
