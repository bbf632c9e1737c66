//! Laying the caption over the base image, and encoding the result.

use vstd::prelude::*;
use image::ImageEncoder;
use crate::canvas::AlphaCanvas;
use crate::error::RenderError;
use crate::outline::HaloLayer;

verus! {

/// Number of bytes of one pixel: red, green, blue and alpha.
pub const CHANNELS: usize = 4;

/// An image of `width` by `height` pixels; `pixels` holds four bytes for
/// each pixel (red, green, blue, alpha), row by row.
#[derive(Clone, Debug, PartialEq, Eq)]
pub struct BaseImage {
    pub width: u32,
    pub height: u32,
    pub pixels: Vec<u8>,
}

impl BaseImage {
    /// The buffer holds four bytes for each pixel.
    pub open spec fn wf(&self) -> bool {
        &&& 4 * (self.width * self.height) <= usize::MAX
        &&& self.pixels@.len() == 4 * (self.width * self.height)
    }

    /// Checks that the buffer holds four bytes for each pixel.
    pub fn is_valid(&self) -> (ok: bool)
        ensures
            ok == self.wf(),
    {
        assert(self.width * self.height <= 0xffff_ffff * 0xffff_ffff) by (nonlinear_arith)
            requires
                0 <= self.width <= 0xffff_ffff,
                0 <= self.height <= 0xffff_ffff,
        ;
        let area: u64 = (self.width as u64) * (self.height as u64);
        let len: u64 = self.pixels.len() as u64;
        len % 4 == 0 && len / 4 == area
    }
}

/// The caption as one layer of four bytes a pixel: the coverage is the
/// brightness of all three colours, the halo opacity is the alpha. Ink is
/// white, the halo around it black, and where there is neither the layer is
/// transparent.
pub open spec fn layer_of(coverage: Seq<u8>, opacity: Seq<u8>) -> Seq<u8> {
    Seq::new(
        4 * coverage.len(),
        |i: int|
            if i % 4 == 3 {
                opacity[i / 4]
            } else {
                coverage[i / 4]
            },
    )
}

/// The result of `image::imageops::overlay` at offset zero for two RGBA
/// images of `width` by `height` pixels, given as their bytes: `over` laid
/// on `under`, pixel by pixel, with source-over blending.
pub uninterp spec fn overlaid(under: Seq<u8>, over: Seq<u8>, width: u32, height: u32) -> Seq<u8>;

/// The PNG file that `image::codecs::png::PngEncoder` writes for an RGBA
/// image with eight bits a channel, or `None` where it reports an error.
pub uninterp spec fn png_encoding(pixels: Seq<u8>, width: u32, height: u32) -> Option<Seq<u8>>;

/// Builds the caption layer from the coverage of a canvas and its halo.
pub fn combine_layers(canvas: &AlphaCanvas, halo: &HaloLayer) -> (layer: Vec<u8>)
    requires
        canvas.wf(),
        halo.wf(),
        halo.width == canvas.width,
        halo.height == canvas.height,
        4 * (canvas.width * canvas.height) <= usize::MAX,
    ensures
        layer@ == layer_of(canvas.coverage@, halo.opacity@),
{
    let n: usize = canvas.coverage.len();
    let mut layer: Vec<u8> = Vec::with_capacity(CHANNELS * n);
    let mut k: usize = 0;
    while k < n
        invariant
            n == canvas.coverage@.len(),
            n == halo.opacity@.len(),
            4 * n <= usize::MAX,
            k <= n,
            layer@.len() == 4 * k,
            forall|i: int|
                0 <= i < 4 * k ==> layer@[i] == (if i % 4 == 3 {
                    halo.opacity@[i / 4]
                } else {
                    canvas.coverage@[i / 4]
                }),
        decreases n - k,
    {
        let ink: u8 = canvas.coverage[k];
        layer.push(ink);
        layer.push(ink);
        layer.push(ink);
        layer.push(halo.opacity[k]);
        k += 1;
    }
    assert(layer@ =~= layer_of(canvas.coverage@, halo.opacity@));
    layer
}

/// Calls `image::imageops::overlay` at offset zero on two RGBA images of
/// the same size. The function blends every pixel of `top` onto the pixel
/// below it, in floating point; the contract names the outcome, and adds
/// that the number of bytes stays what it was.
#[verifier::external_body]
fn overlay_rgba(bottom: &Vec<u8>, top: &Vec<u8>, width: u32, height: u32) -> (merged: Vec<u8>)
    requires
        bottom@.len() == 4 * (width * height),
        top@.len() == 4 * (width * height),
    ensures
        merged@ == overlaid(bottom@, top@, width, height),
        merged@.len() == bottom@.len(),
{
    let mut under = image::RgbaImage::from_raw(width, height, bottom.clone()).unwrap();
    let over = image::RgbaImage::from_raw(width, height, top.clone()).unwrap();
    image::imageops::overlay(&mut under, &over, 0, 0);
    under.into_raw()
}

/// Calls `image::codecs::png::PngEncoder::write_image` for an RGBA image
/// with eight bits a channel, writing into memory. The contract names the
/// file that comes out, and adds when one comes out: the encoder refuses
/// an image without pixels, and writing any other image whose buffer has
/// four bytes a pixel cannot fail in memory.
#[verifier::external_body]
fn png_encode(pixels: &Vec<u8>, width: u32, height: u32) -> (file: Result<Vec<u8>, image::ImageError>)
    requires
        pixels@.len() == 4 * (width * height),
    ensures
        match file {
            Ok(bytes) => png_encoding(pixels@, width, height) == Some(bytes@),
            Err(_) => png_encoding(pixels@, width, height) is None,
        },
        (width == 0 || height == 0) ==> file is Err,
        (width > 0 && height > 0) ==> file is Ok,
{
    let mut out = Vec::new();
    let encoder = image::codecs::png::PngEncoder::new(&mut out);
    match encoder.write_image(pixels, width, height, image::ColorType::Rgba8) {
        Ok(()) => Ok(out),
        Err(e) => Err(e),
    }
}

/// The error type of the `image` crate.
#[verifier::external_type_specification]
#[verifier::external_body]
pub struct ExImageError(image::ImageError);

/// A layer laid over an image of the same size: where the layer is
/// transparent the image keeps its pixel, everywhere else the pixel is
/// what blending gives.
pub open spec fn laid_over(under: Seq<u8>, layer: Seq<u8>, width: u32, height: u32) -> Seq<u8> {
    Seq::new(
        under.len(),
        |j: int|
            if layer[4 * (j / 4) + 3] == 0 {
                under[j]
            } else {
                overlaid(under, layer, width, height)[j]
            },
    )
}

/// Lays the caption, made of the canvas coverage and the halo, over the
/// base image. Pixels without halo stay exactly as they are.
pub fn composite(base: BaseImage, canvas: &AlphaCanvas, halo: &HaloLayer) -> (merged: BaseImage)
    requires
        base.wf(),
        canvas.wf(),
        halo.wf(),
        canvas.width == base.width,
        canvas.height == base.height,
        halo.width == base.width,
        halo.height == base.height,
    ensures
        merged.wf(),
        merged.width == base.width,
        merged.height == base.height,
        merged.pixels@ == laid_over(
            base.pixels@,
            layer_of(canvas.coverage@, halo.opacity@),
            base.width,
            base.height,
        ),
{
    let layer: Vec<u8> = combine_layers(canvas, halo);
    let width: u32 = base.width;
    let height: u32 = base.height;
    let mut pixels: Vec<u8> = overlay_rgba(&base.pixels, &layer, width, height);
    let ghost blended = pixels@;
    let n: usize = halo.opacity.len();
    let mut k: usize = 0;
    while k < n
        invariant
            n == width * height,
            4 * n <= usize::MAX,
            k <= n,
            base.pixels@.len() == 4 * n,
            layer@.len() == 4 * n,
            pixels@.len() == 4 * n,
            blended == overlaid(base.pixels@, layer@, width, height),
            forall|j: int|
                0 <= j < 4 * k ==> pixels@[j] == (if layer@[4 * (j / 4) + 3] == 0 {
                    base.pixels@[j]
                } else {
                    blended[j]
                }),
            forall|j: int| 4 * k <= j < 4 * n ==> pixels@[j] == blended[j],
        decreases n - k,
    {
        if layer[4 * k + 3] == 0 {
            pixels[4 * k] = base.pixels[4 * k];
            pixels[4 * k + 1] = base.pixels[4 * k + 1];
            pixels[4 * k + 2] = base.pixels[4 * k + 2];
            pixels[4 * k + 3] = base.pixels[4 * k + 3];
        }
        k += 1;
    }
    assert(pixels@ =~= laid_over(base.pixels@, layer@, width, height));
    BaseImage { width, height, pixels }
}

/// Encodes an image as a PNG file. An image with pixels, four bytes for
/// each, is always encoded; any other is refused with `EncodingFailure`.
pub fn encode(image: &BaseImage) -> (file: Result<Vec<u8>, RenderError>)
    ensures
        match file {
            Ok(bytes) => png_encoding(image.pixels@, image.width, image.height) == Some(bytes@),
            Err(e) => e == RenderError::EncodingFailure && (image.wf() ==> png_encoding(
                image.pixels@,
                image.width,
                image.height,
            ) is None),
        },
        file is Ok <==> image.wf() && image.width > 0 && image.height > 0,
{
    if !image.is_valid() {
        return Err(RenderError::EncodingFailure);
    }
    match png_encode(&image.pixels, image.width, image.height) {
        Ok(bytes) => Ok(bytes),
        Err(_) => Err(RenderError::EncodingFailure),
    }
}

/// Encoding depends on nothing but the size and the pixels: two images
/// that agree in both are encoded to the same file, or are both refused.
pub proof fn lemma_encoding_repeatable(
    first: BaseImage,
    second: BaseImage,
    first_file: Result<Vec<u8>, RenderError>,
    second_file: Result<Vec<u8>, RenderError>,
)
    requires
        first.width == second.width,
        first.height == second.height,
        first.pixels@ == second.pixels@,
        match first_file {
            Ok(bytes) => png_encoding(first.pixels@, first.width, first.height) == Some(bytes@),
            Err(e) => e == RenderError::EncodingFailure && png_encoding(
                first.pixels@,
                first.width,
                first.height,
            ) is None,
        },
        match second_file {
            Ok(bytes) => png_encoding(second.pixels@, second.width, second.height) == Some(
                bytes@,
            ),
            Err(e) => e == RenderError::EncodingFailure && png_encoding(
                second.pixels@,
                second.width,
                second.height,
            ) is None,
        },
    ensures
        first_file is Ok <==> second_file is Ok,
        first_file matches Ok(a) ==> second_file matches Ok(b) && a@ == b@,
        first_file is Err ==> first_file == second_file,
{
}

} // verus!
