//! Canvas images, their byte layout, and their PNG encoding.
use vstd::prelude::*;

use image::codecs::png::{CompressionType, FilterType, PngEncoder};
use image::ImageEncoder;

use crate::pixel::{Rgb, CANVASH, CANVASW};

verus! {

/// Number of pixels on the canvas.
pub const CANVAS_PIXELS: usize = 262_144;

/// Result of the content classifier for the current canvas.
#[derive(Copy, Clone, Debug, PartialEq, Eq)]
pub struct NudityResult {
    pub is_nude: bool,
}

/// Why a canvas could not be encoded.
#[derive(Copy, Clone, Debug, PartialEq, Eq)]
pub enum CanvasError {
    /// The pixel buffer does not hold a full canvas.
    WrongSize,
    /// The PNG encoder failed.
    Encode,
}

/// The index of pixel `(x, y)` in a row-major canvas.
pub open spec fn pixel_index(x: int, y: int) -> int {
    y * CANVASW + x
}

/// Row-major RGB bytes of a sequence of pixels.
pub open spec fn rgb_bytes(px: Seq<Rgb>) -> Seq<u8>
    decreases px.len(),
{
    if px.len() == 0 {
        seq![]
    } else {
        let c = px.last();
        rgb_bytes(px.drop_last()) + seq![c.r, c.g, c.b]
    }
}

/// Row-major RGBA bytes of a sequence of overlay pixels: a painted pixel is
/// opaque, an unpainted one fully transparent black.
pub open spec fn rgba_bytes(px: Seq<Option<Rgb>>) -> Seq<u8>
    decreases px.len(),
{
    if px.len() == 0 {
        seq![]
    } else {
        rgba_bytes(px.drop_last()) + match px.last() {
            Some(c) => seq![c.r, c.g, c.b, 0xffu8],
            None => seq![0u8, 0u8, 0u8, 0u8],
        }
    }
}

pub proof fn lemma_rgb_bytes_len(px: Seq<Rgb>)
    ensures
        rgb_bytes(px).len() == 3 * px.len(),
    decreases px.len(),
{
    if px.len() > 0 {
        lemma_rgb_bytes_len(px.drop_last());
    }
}

pub proof fn lemma_rgba_bytes_len(px: Seq<Option<Rgb>>)
    ensures
        rgba_bytes(px).len() == 4 * px.len(),
    decreases px.len(),
{
    if px.len() > 0 {
        lemma_rgba_bytes_len(px.drop_last());
    }
}

/// The bytes of overlay pixel `p` are its color and alpha 0xFF when it is
/// painted, and four zero bytes when it is not.
pub proof fn lemma_rgba_bytes_at(px: Seq<Option<Rgb>>, p: int)
    requires
        0 <= p < px.len(),
    ensures
        rgba_bytes(px).len() == 4 * px.len(),
        rgba_bytes(px)[4 * p + 3] == (if px[p] is Some {
            0xffu8
        } else {
            0u8
        }),
        px[p] matches Some(c) ==> rgba_bytes(px)[4 * p] == c.r && rgba_bytes(px)[4 * p + 1] == c.g
            && rgba_bytes(px)[4 * p + 2] == c.b,
    decreases px.len(),
{
    lemma_rgba_bytes_len(px);
    lemma_rgba_bytes_len(px.drop_last());
    if p < px.len() - 1 {
        lemma_rgba_bytes_at(px.drop_last(), p);
    }
}

/// The PNG file that the encoder writes for a `width` × `height` image with
/// the given pixel bytes (RGBA when `rgba`, else RGB).
pub uninterp spec fn png_of(pixels: Seq<u8>, width: u32, height: u32, rgba: bool) -> Seq<u8>;

/// The encoder's error type.
#[verifier::external_type_specification]
#[verifier::external_body]
pub struct ExImageError(image::ImageError);

/// Relies on image's `PngEncoder::write_image` with fast compression and
/// the default filter: the bytes it writes are a function of the pixels,
/// the size and the color type. It panics unless the buffer holds exactly
/// `width × height` pixels, which `requires` rules out; writing into a `Vec`
/// cannot fail, so png's encoder fails only on a zero width or height.
#[verifier::external_body]
fn write_png(pixels: &[u8], width: u32, height: u32, rgba: bool) -> (r: Result<
    Vec<u8>,
    image::ImageError,
>)
    requires
        pixels@.len() == width * height * (if rgba {
            4int
        } else {
            3int
        }),
    ensures
        width > 0 && height > 0 ==> r is Ok,
        r matches Ok(bytes) ==> bytes@ == png_of(pixels@, width, height, rgba),
{
    let mut png_writer: Vec<u8> = Vec::new();
    let color = if rgba {
        image::ColorType::Rgba8
    } else {
        image::ColorType::Rgb8
    };
    PngEncoder::new_with_quality(&mut png_writer, CompressionType::Fast, FilterType::default())
        .write_image(pixels, width, height, color)?;
    Ok(png_writer)
}

/// The latest PNG encoding of a canvas.
pub struct EncodedCanvas {
    encoded: Vec<u8>,
}

impl EncodedCanvas {
    /// Encode a full canvas of row-major pixel bytes (RGBA when `rgba`, else RGB) as PNG.
    pub fn encode(canvas: &[u8], rgba: bool) -> (r: Result<Vec<u8>, CanvasError>)
        ensures
            (r == Err::<Vec<u8>, CanvasError>(CanvasError::WrongSize)) <==> canvas@.len()
                != CANVAS_PIXELS * (if rgba {
                4int
            } else {
                3int
            }),
            canvas@.len() == CANVAS_PIXELS * (if rgba {
                4int
            } else {
                3int
            }) ==> (r matches Ok(bytes) && bytes@ == png_of(
                canvas@,
                CANVASW as u32,
                CANVASH as u32,
                rgba,
            )),
    {
        let bpp: usize = if rgba {
            4
        } else {
            3
        };
        if canvas.len() != CANVAS_PIXELS * bpp {
            return Err(CanvasError::WrongSize);
        }
        match write_png(canvas, CANVASW as u32, CANVASH as u32, rgba) {
            Ok(bytes) => Ok(bytes),
            Err(_) => Err(CanvasError::Encode),
        }
    }

    pub closed spec fn spec_encoded(&self) -> Seq<u8> {
        self.encoded@
    }

    /// Encode a first canvas.
    pub fn new(canvas: &[u8], rgba: bool) -> (r: Result<Self, CanvasError>)
        ensures
            canvas@.len() == CANVAS_PIXELS * (if rgba {
                4int
            } else {
                3int
            }) ==> (r matches Ok(e) && e.spec_encoded() == png_of(
                canvas@,
                CANVASW as u32,
                CANVASH as u32,
                rgba,
            )),
            canvas@.len() != CANVAS_PIXELS * (if rgba {
                4int
            } else {
                3int
            }) ==> r == Err::<Self, CanvasError>(CanvasError::WrongSize),
    {
        match Self::encode(canvas, rgba) {
            Ok(encoded) => Ok(EncodedCanvas { encoded }),
            Err(e) => Err(e),
        }
    }

    /// Keep the given, already encoded PNG as the latest.
    pub fn update(&mut self, encoded: Vec<u8>)
        ensures
            final(self).spec_encoded() == encoded@,
    {
        self.encoded = encoded;
    }

    /// A copy of the latest PNG.
    pub fn get_encoded(&self) -> (r: Vec<u8>)
        ensures
            r@ == self.spec_encoded(),
    {
        self.encoded.clone()
    }
}

/// Flatten row-major pixels into RGB bytes.
pub fn rgb_canvas_bytes(px: &Vec<Rgb>) -> (r: Vec<u8>)
    ensures
        r@ == rgb_bytes(px@),
{
    let mut out: Vec<u8> = Vec::new();
    let mut i: usize = 0;
    while i < px.len()
        invariant
            0 <= i <= px@.len(),
            out@ == rgb_bytes(px@.subrange(0, i as int)),
        decreases px@.len() - i,
    {
        let c = px[i];
        out.push(c.r);
        out.push(c.g);
        out.push(c.b);
        assert(px@.subrange(0, i + 1).drop_last() =~= px@.subrange(0, i as int));
        assert(out@ =~= rgb_bytes(px@.subrange(0, i + 1)));
        i = i + 1;
    }
    assert(px@.subrange(0, px@.len() as int) =~= px@);
    out
}

/// Flatten row-major overlay pixels into RGBA bytes.
pub fn rgba_canvas_bytes(px: &Vec<Option<Rgb>>) -> (r: Vec<u8>)
    ensures
        r@ == rgba_bytes(px@),
{
    let mut out: Vec<u8> = Vec::new();
    let mut i: usize = 0;
    while i < px.len()
        invariant
            0 <= i <= px@.len(),
            out@ == rgba_bytes(px@.subrange(0, i as int)),
        decreases px@.len() - i,
    {
        match px[i] {
            Some(c) => {
                out.push(c.r);
                out.push(c.g);
                out.push(c.b);
                out.push(0xff);
            },
            None => {
                out.push(0);
                out.push(0);
                out.push(0);
                out.push(0);
            },
        }
        assert(px@.subrange(0, i + 1).drop_last() =~= px@.subrange(0, i as int));
        assert(out@ =~= rgba_bytes(px@.subrange(0, i + 1)));
        i = i + 1;
    }
    assert(px@.subrange(0, px@.len() as int) =~= px@);
    out
}

} // verus!
