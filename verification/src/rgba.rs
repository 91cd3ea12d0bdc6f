//! Decoded RGBA images: pixel conversion, layer compositing, grid assembly, thumbnails and PNG.

use image::codecs::png::PngEncoder;
use image::imageops::FilterType;
use image::{ExtendedColorType, ImageEncoder};
use vstd::arithmetic::div_mod::{lemma_fundamental_div_mod, lemma_fundamental_div_mod_converse};
use vstd::prelude::*;

verus! {

/// An RGBA8 image whose pixel buffer holds exactly `width * height` pixels.
#[derive(Debug, PartialEq, Eq)]
pub struct RgbaImage {
    width: u32,
    height: u32,
    pixels: Vec<u8>,
}

/// The mathematical content of an image: its size and its RGBA bytes, row by row.
pub struct ImageView {
    pub width: u32,
    pub height: u32,
    pub pixels: Seq<u8>,
}

impl View for RgbaImage {
    type V = ImageView;

    closed spec fn view(&self) -> ImageView {
        ImageView { width: self.width, height: self.height, pixels: self.pixels@ }
    }
}

/// Number of RGBA bytes of a `width` x `height` image.
pub open spec fn rgba_len(width: u32, height: u32) -> int {
    width as int * height as int * 4
}

impl Clone for RgbaImage {
    fn clone(&self) -> (copy: Self)
        ensures
            copy@ == self@,
    {
        proof {
            use_type_invariant(self);
        }
        RgbaImage { width: self.width, height: self.height, pixels: self.pixels.clone() }
    }
}

impl RgbaImage {
    #[verifier::type_invariant]
    spec fn pixels_fit_dimensions(self) -> bool {
        self.pixels@.len() == rgba_len(self.width, self.height)
    }
}

/// Invalid dimensions or byte counts in a decoded image block.
#[derive(Debug, Clone, PartialEq, Eq, Structural)]
pub enum PixelDecodeError {
    DimensionOverflow { width: u32, height: u32 },
    ByteLengthMismatch { width: u32, height: u32, expected_len: usize, actual_len: usize },
}

/// Failures while shrinking an image.
#[derive(Debug, Clone, PartialEq, Eq, Structural)]
pub enum ThumbnailError {
    EmptyBounds { max_width: u32, max_height: u32 },
    DimensionOverflow { width: u32, height: u32, max_width: u32, max_height: u32 },
    OutputTooLarge { required: usize, maximum: usize },
}

/// Failure returned by the PNG encoder.
#[derive(Debug, Clone, PartialEq, Eq)]
pub struct PngEncodeError {
    pub message: String,
}

/// A structural or resource-limit failure while joining decoded tiles.
#[derive(Debug, Clone, Copy, PartialEq, Eq)]
pub enum ImageAssemblyError {
    LayerDimensionMismatch { base: (u32, u32), layer: (u32, u32) },
    EmptyGrid { columns: u32, rows: u32 },
    GridOverflow { columns: u32, rows: u32 },
    TileCountMismatch { columns: u32, rows: u32, expected: usize, actual: usize },
    ColumnWidthMismatch { tile_index: usize, column: u32, expected: u32, actual: u32 },
    RowHeightMismatch { tile_index: usize, row: u32, expected: u32, actual: u32 },
    OutputDimensionMismatch { expected: (u32, u32), actual: (u32, u32) },
    DimensionOverflow { output_width: u32, output_height: u32 },
    OutputTooLarge { required: usize, maximum: usize },
}

// ---------------------------------------------------------------------------
// Sizes
// ---------------------------------------------------------------------------

/// Number of pixels of a `width` x `height` image, if it fits in `usize`.
pub open spec fn spec_pixel_count(width: u32, height: u32) -> Option<usize> {
    if width as int * height as int <= usize::MAX {
        Some((width as int * height as int) as usize)
    } else {
        None
    }
}

/// Number of RGBA bytes of a `width` x `height` image, if it fits in `usize`.
pub open spec fn spec_pixel_byte_len(width: u32, height: u32) -> Option<usize> {
    if rgba_len(width, height) <= usize::MAX {
        Some(rgba_len(width, height) as usize)
    } else {
        None
    }
}

fn pixel_count(width: u32, height: u32) -> (count: Result<usize, PixelDecodeError>)
    ensures
        match spec_pixel_count(width, height) {
            Some(n) => count == Ok::<usize, PixelDecodeError>(n),
            None => count == Err::<usize, PixelDecodeError>(
                PixelDecodeError::DimensionOverflow { width, height },
            ),
        },
{
    match (width as usize).checked_mul(height as usize) {
        Some(count) => Ok(count),
        None => Err(PixelDecodeError::DimensionOverflow { width, height }),
    }
}

fn pixel_byte_len(width: u32, height: u32) -> (len: Result<usize, PixelDecodeError>)
    ensures
        match spec_pixel_byte_len(width, height) {
            Some(n) => len == Ok::<usize, PixelDecodeError>(n),
            None => len == Err::<usize, PixelDecodeError>(
                PixelDecodeError::DimensionOverflow { width, height },
            ),
        },
{
    let count = pixel_count(width, height)?;
    match count.checked_mul(4) {
        Some(len) => Ok(len),
        None => Err(PixelDecodeError::DimensionOverflow { width, height }),
    }
}

// ---------------------------------------------------------------------------
// Pixel conversion
// ---------------------------------------------------------------------------

/// BGRA bytes rewritten pixel by pixel as RGBA: blue and red swap, green and alpha stay.
pub open spec fn bgra_to_rgba(bytes: Seq<u8>) -> Seq<u8>
    decreases bytes.len(),
{
    if bytes.len() < 4 {
        Seq::empty()
    } else {
        let n = bytes.len() - 4;
        bgra_to_rgba(bytes.subrange(0, n)) + seq![bytes[n + 2], bytes[n + 1], bytes[n], bytes[n + 3]]
    }
}

/// Grayscale bytes expanded to opaque RGBA pixels of the same intensity.
pub open spec fn gray_to_rgba(bytes: Seq<u8>) -> Seq<u8>
    decreases bytes.len(),
{
    if bytes.len() == 0 {
        Seq::empty()
    } else {
        let g = bytes.last();
        gray_to_rgba(bytes.drop_last()) + seq![g, g, g, 0xffu8]
    }
}

/// The image that BGRA `bytes` describe at `width` x `height`, or why they do not.
pub open spec fn bgra_image(width: u32, height: u32, bytes: Seq<u8>) -> Result<ImageView, PixelDecodeError> {
    match spec_pixel_byte_len(width, height) {
        None => Err(PixelDecodeError::DimensionOverflow { width, height }),
        Some(expected_len) => if bytes.len() != expected_len {
            Err(
                PixelDecodeError::ByteLengthMismatch {
                    width,
                    height,
                    expected_len,
                    actual_len: bytes.len() as usize,
                },
            )
        } else {
            Ok(ImageView { width, height, pixels: bgra_to_rgba(bytes) })
        },
    }
}

/// The image that grayscale `bytes` describe at `width` x `height`, or why they do not.
pub open spec fn gray_image(width: u32, height: u32, bytes: Seq<u8>) -> Result<ImageView, PixelDecodeError> {
    match spec_pixel_count(width, height) {
        None => Err(PixelDecodeError::DimensionOverflow { width, height }),
        Some(expected_len) => if bytes.len() != expected_len {
            Err(
                PixelDecodeError::ByteLengthMismatch {
                    width,
                    height,
                    expected_len,
                    actual_len: bytes.len() as usize,
                },
            )
        } else if spec_pixel_byte_len(width, height) is None {
            Err(PixelDecodeError::DimensionOverflow { width, height })
        } else {
            Ok(ImageView { width, height, pixels: gray_to_rgba(bytes) })
        },
    }
}

proof fn lemma_bgra_to_rgba_len(bytes: Seq<u8>)
    requires
        bytes.len() % 4 == 0,
    ensures
        bgra_to_rgba(bytes).len() == bytes.len(),
    decreases bytes.len(),
{
    if bytes.len() >= 4 {
        lemma_bgra_to_rgba_len(bytes.subrange(0, bytes.len() - 4));
    }
}

proof fn lemma_gray_to_rgba_len(bytes: Seq<u8>)
    ensures
        gray_to_rgba(bytes).len() == 4 * bytes.len(),
    decreases bytes.len(),
{
    if bytes.len() > 0 {
        lemma_gray_to_rgba_len(bytes.drop_last());
    }
}

impl RgbaImage {
    /// Converts BGRA bytes of a `width` x `height` image to RGBA.
    pub fn from_bgra(width: u32, height: u32, bytes: &[u8]) -> (image: Result<Self, PixelDecodeError>)
        ensures
            match bgra_image(width, height, bytes@) {
                Ok(view) => image matches Ok(converted) && converted@ == view,
                Err(error) => image == Err::<Self, PixelDecodeError>(error),
            },
    {
        let expected_len = pixel_byte_len(width, height)?;
        if bytes.len() != expected_len {
            return Err(
                PixelDecodeError::ByteLengthMismatch {
                    width,
                    height,
                    expected_len,
                    actual_len: bytes.len(),
                },
            );
        }
        let mut pixels: Vec<u8> = Vec::with_capacity(expected_len);
        let mut offset: usize = 0;
        while offset < expected_len
            invariant
                offset <= expected_len == bytes@.len(),
                offset % 4 == 0,
                expected_len % 4 == 0,
                pixels@ == bgra_to_rgba(bytes@.subrange(0, offset as int)),
            decreases expected_len - offset,
        {
            let next = offset + 4;
            proof {
                let prefix = bytes@.subrange(0, next as int);
                assert(prefix.subrange(0, offset as int) =~= bytes@.subrange(0, offset as int));
            }
            pixels.push(bytes[offset + 2]);
            pixels.push(bytes[offset + 1]);
            pixels.push(bytes[offset]);
            pixels.push(bytes[offset + 3]);
            offset = next;
        }
        assert(bytes@.subrange(0, offset as int) =~= bytes@);
        proof {
            lemma_bgra_to_rgba_len(bytes@);
        }
        Ok(RgbaImage { width, height, pixels })
    }

    /// Expands one grayscale byte per pixel of a `width` x `height` image to opaque RGBA.
    pub fn from_gray8(width: u32, height: u32, bytes: &[u8]) -> (image: Result<Self, PixelDecodeError>)
        ensures
            match gray_image(width, height, bytes@) {
                Ok(view) => image matches Ok(converted) && converted@ == view,
                Err(error) => image == Err::<Self, PixelDecodeError>(error),
            },
    {
        let expected_len = pixel_count(width, height)?;
        if bytes.len() != expected_len {
            return Err(
                PixelDecodeError::ByteLengthMismatch {
                    width,
                    height,
                    expected_len,
                    actual_len: bytes.len(),
                },
            );
        }
        let rgba_len = pixel_byte_len(width, height)?;
        let mut pixels: Vec<u8> = Vec::with_capacity(rgba_len);
        let mut index: usize = 0;
        while index < bytes.len()
            invariant
                index <= bytes@.len(),
                pixels@ == gray_to_rgba(bytes@.subrange(0, index as int)),
            decreases bytes@.len() - index,
        {
            proof {
                assert(bytes@.subrange(0, index + 1).drop_last() =~= bytes@.subrange(
                    0,
                    index as int,
                ));
            }
            let gray = bytes[index];
            pixels.push(gray);
            pixels.push(gray);
            pixels.push(gray);
            pixels.push(0xff);
            index += 1;
        }
        assert(bytes@.subrange(0, index as int) =~= bytes@);
        proof {
            lemma_gray_to_rgba_len(bytes@);
        }
        Ok(RgbaImage { width, height, pixels })
    }

    pub fn width(&self) -> (width: u32)
        ensures
            width == self@.width,
    {
        self.width
    }

    pub fn height(&self) -> (height: u32)
        ensures
            height == self@.height,
    {
        self.height
    }

    pub fn pixels(&self) -> (pixels: &[u8])
        ensures
            pixels@ == self@.pixels,
            pixels@.len() == rgba_len(self@.width, self@.height),
    {
        proof {
            use_type_invariant(self);
        }
        self.pixels.as_slice()
    }
}


// ---------------------------------------------------------------------------
// Layer compositing
// ---------------------------------------------------------------------------

/// Alpha of a layer pixel with alpha `source` drawn over a base pixel with alpha `base`,
/// rounded to the nearest integer.
pub open spec fn composite_alpha(source: int, base: int) -> int {
    source + (base * (255 - source) + 127) / 255
}

/// One colour channel of the composite: the alpha-weighted mean of the layer and base
/// channels, rounded to the nearest integer.
pub open spec fn composite_channel(layer: int, base: int, source: int, base_alpha: int) -> int {
    let divisor = composite_alpha(source, base_alpha) * 255;
    (layer * source * 255 + base * base_alpha * (255 - source) + divisor / 2) / divisor
}

/// The RGBA bytes of `layer` (one pixel) drawn over `base` (one pixel); a fully transparent
/// result is all zeros.
pub open spec fn composite_pixel(base: Seq<u8>, layer: Seq<u8>) -> Seq<u8> {
    let source = layer[3] as int;
    let base_alpha = base[3] as int;
    let alpha = composite_alpha(source, base_alpha);
    if alpha == 0 {
        seq![0u8, 0u8, 0u8, 0u8]
    } else {
        seq![
            composite_channel(layer[0] as int, base[0] as int, source, base_alpha) as u8,
            composite_channel(layer[1] as int, base[1] as int, source, base_alpha) as u8,
            composite_channel(layer[2] as int, base[2] as int, source, base_alpha) as u8,
            alpha as u8,
        ]
    }
}

/// `layer` drawn over `base`, pixel by pixel.
pub open spec fn composite(base: Seq<u8>, layer: Seq<u8>) -> Seq<u8>
    decreases base.len(),
{
    if base.len() < 4 {
        Seq::empty()
    } else {
        let n = base.len() - 4;
        composite(base.subrange(0, n), layer.subrange(0, n)) + composite_pixel(
            base.subrange(n, n + 4),
            layer.subrange(n, n + 4),
        )
    }
}

proof fn lemma_composite_len(base: Seq<u8>, layer: Seq<u8>)
    requires
        base.len() % 4 == 0,
    ensures
        composite(base, layer).len() == base.len(),
    decreases base.len(),
{
    if base.len() >= 4 {
        let n = base.len() - 4;
        lemma_composite_len(base.subrange(0, n), layer.subrange(0, n));
    }
}

/// Computes one composite channel with `u32` arithmetic.
fn blend_channel(layer: u8, base: u8, source: u32, base_alpha: u32, alpha: u32) -> (channel: u8)
    requires
        source <= 255,
        base_alpha <= 255,
        0 < alpha <= 510,
        alpha == composite_alpha(source as int, base_alpha as int),
    ensures
        channel == composite_channel(layer as int, base as int, source as int, base_alpha as int)
            as u8,
{
    let inverse = 255 - source;
    let layer_value = layer as u32;
    let base_value = base as u32;
    assert(layer_value * source <= 255 * 255) by (nonlinear_arith)
        requires
            layer_value <= 255,
            source <= 255,
    ;
    assert(base_value * base_alpha <= 255 * 255) by (nonlinear_arith)
        requires
            base_value <= 255,
            base_alpha <= 255,
    ;
    let weighted_layer = layer_value * source;
    let weighted_base = base_value * base_alpha;
    assert(weighted_base * inverse <= 255 * 255 * 255) by (nonlinear_arith)
        requires
            weighted_base <= 255 * 255,
            inverse <= 255,
    ;
    let premultiplied = weighted_layer * 255 + weighted_base * inverse;
    let divisor = alpha * 255;
    let value = (premultiplied + divisor / 2) / divisor;
    assert(premultiplied == layer as int * source as int * 255 + base as int * base_alpha as int
        * (255 - source as int)) by (nonlinear_arith)
        requires
            premultiplied == weighted_layer * 255 + weighted_base * inverse,
            weighted_layer == layer_value * source,
            weighted_base == base_value * base_alpha,
            inverse == 255 - source,
            layer_value == layer,
            base_value == base,
    ;
    value as u8
}

impl RgbaImage {
    /// Draws `layer` over this image with straight-alpha compositing, pixel by pixel.
    pub fn overlay(&mut self, layer: &Self) -> (result: Result<(), ImageAssemblyError>)
        ensures
            old(self)@.width != layer@.width || old(self)@.height != layer@.height ==> {
                &&& result == Err::<(), ImageAssemblyError>(
                    ImageAssemblyError::LayerDimensionMismatch {
                        base: (old(self)@.width, old(self)@.height),
                        layer: (layer@.width, layer@.height),
                    },
                )
                &&& final(self)@ == old(self)@
            },
            old(self)@.width == layer@.width && old(self)@.height == layer@.height ==> {
                &&& result is Ok
                &&& final(self)@.width == old(self)@.width
                &&& final(self)@.height == old(self)@.height
                &&& final(self)@.pixels == composite(old(self)@.pixels, layer@.pixels)
            },
    {
        proof {
            use_type_invariant(&*self);
            use_type_invariant(layer);
        }
        if self.width != layer.width || self.height != layer.height {
            return Err(
                ImageAssemblyError::LayerDimensionMismatch {
                    base: (self.width, self.height),
                    layer: (layer.width, layer.height),
                },
            );
        }
        let base = &self.pixels;
        let top = &layer.pixels;
        let total = base.len();
        proof {
            assert(total % 4 == 0) by (nonlinear_arith)
                requires
                    total == self.width as int * self.height as int * 4,
            ;
        }
        let mut blended: Vec<u8> = Vec::with_capacity(total);
        let mut offset: usize = 0;
        while offset < total
            invariant
                total == base@.len() == top@.len(),
                total % 4 == 0,
                offset <= total,
                offset % 4 == 0,
                blended@ == composite(
                    base@.subrange(0, offset as int),
                    top@.subrange(0, offset as int),
                ),
            decreases total - offset,
        {
            let next = offset + 4;
            let ghost base_prefix = base@.subrange(0, next as int);
            let ghost top_prefix = top@.subrange(0, next as int);
            proof {
                assert(base_prefix.subrange(0, offset as int) =~= base@.subrange(0, offset as int));
                assert(top_prefix.subrange(0, offset as int) =~= top@.subrange(0, offset as int));
            }
            let source = top[offset + 3] as u32;
            let base_alpha = base[offset + 3] as u32;
            let inverse = 255 - source;
            assert(base_alpha * inverse <= 255 * 255) by (nonlinear_arith)
                requires
                    base_alpha <= 255,
                    inverse <= 255,
            ;
            let alpha = source + (base_alpha * inverse + 127) / 255;
            if alpha == 0 {
                blended.push(0);
                blended.push(0);
                blended.push(0);
                blended.push(0);
            } else {
                blended.push(blend_channel(top[offset], base[offset], source, base_alpha, alpha));
                blended.push(
                    blend_channel(top[offset + 1], base[offset + 1], source, base_alpha, alpha),
                );
                blended.push(
                    blend_channel(top[offset + 2], base[offset + 2], source, base_alpha, alpha),
                );
                blended.push(alpha as u8);
            }
            proof {
                let pixel = composite_pixel(
                    base_prefix.subrange(offset as int, next as int),
                    top_prefix.subrange(offset as int, next as int),
                );
                assert(blended@ =~= composite(base_prefix, top_prefix));
            }
            offset = next;
        }
        assert(base@.subrange(0, offset as int) =~= base@);
        assert(top@.subrange(0, offset as int) =~= top@);
        proof {
            lemma_composite_len(base@, top@);
        }
        self.pixels = blended;
        Ok(())
    }
}

/// A fully opaque layer pixel replaces the base pixel; a fully transparent layer pixel leaves
/// a visible base pixel unchanged.
pub proof fn lemma_composite_extremes(base: Seq<u8>, layer: Seq<u8>)
    requires
        base.len() == 4,
        layer.len() == 4,
    ensures
        layer[3] == 255 ==> composite_pixel(base, layer) == layer,
        layer[3] == 0 && base[3] > 0 ==> composite_pixel(base, layer) == base,
{
    if layer[3] == 255 {
        let b = base[3] as int;
        assert(composite_alpha(255, b) == 255);
        assert forall|c: int| 0 <= c < 3 implies composite_channel(
            layer[c] as int,
            base[c] as int,
            255,
            b,
        ) == layer[c] as int by {
            let l = layer[c] as int;
            let x = base[c] as int;
            assert(x * b * (255 - 255) == 0) by (nonlinear_arith);
            assert((l * 255 * 255 + 0 + 65025int / 2) / 65025 == l) by (nonlinear_arith)
                requires
                    0 <= l <= 255,
            ;
        }
        assert(composite_pixel(base, layer) =~= layer);
    }
    if layer[3] == 0 && base[3] > 0 {
        let b = base[3] as int;
        assert((b * 255 + 127) / 255 == b) by (nonlinear_arith)
            requires
                0 < b <= 255,
        ;
        assert(composite_alpha(0, b) == b);
        assert forall|c: int| 0 <= c < 3 implies composite_channel(
            layer[c] as int,
            base[c] as int,
            0,
            b,
        ) == base[c] as int by {
            let l = layer[c] as int;
            let x = base[c] as int;
            assert(l * 0 * 255 == 0) by (nonlinear_arith);
            assert((x * b * 255 + (b * 255) / 2) / (b * 255) == x) by (nonlinear_arith)
                requires
                    0 <= x <= 255,
                    0 < b <= 255,
            ;
        }
        assert(composite_pixel(base, layer) =~= base);
    }
}

// ---------------------------------------------------------------------------
// Thumbnails and PNG
// ---------------------------------------------------------------------------

/// The size of a thumbnail of a `width` x `height` image bounded by `max_width` x
/// `max_height`: the image's own size when it fits, otherwise the bound on the limiting side
/// and the other side scaled in proportion (rounded, at least 1). `None` for an empty image or
/// a scaled side beyond `u32`.
pub open spec fn spec_thumbnail_dimensions(width: u32, height: u32, max_width: u32, max_height: u32) -> Option<
    (u32, u32),
> {
    if width == 0 || height == 0 {
        None
    } else if width <= max_width && height <= max_height {
        Some((width, height))
    } else if width as int * max_height as int > height as int * max_width as int {
        let scaled = (height as int * max_width as int + width as int / 2) / width as int;
        let scaled_height = if scaled < 1 { 1 } else { scaled };
        if scaled_height > u32::MAX {
            None
        } else {
            Some((max_width, scaled_height as u32))
        }
    } else {
        let scaled = (width as int * max_height as int + height as int / 2) / height as int;
        let scaled_width = if scaled < 1 { 1 } else { scaled };
        if scaled_width > u32::MAX {
            None
        } else {
            Some((scaled_width as u32, max_height))
        }
    }
}

/// A thumbnail of an image that does not fit its bounds keeps the image's aspect ratio: one
/// side takes the whole bound on its side and the other is the rounded proportional length, so
/// that `w * height` and `h * width` differ by at most the longer source side.
pub proof fn lemma_thumbnail_keeps_aspect_ratio(width: u32, height: u32, max_width: u32, max_height: u32)
    requires
        width > 0,
        height > 0,
        max_width > 0,
        max_height > 0,
        !(width <= max_width && height <= max_height),
    ensures
        spec_thumbnail_dimensions(width, height, max_width, max_height) matches Some((w, h)) && {
            &&& (w == max_width || h == max_height)
            &&& -(if width >= height { width as int } else { height as int }) <= w as int * height as int
                - h as int * width as int <= (if width >= height { width as int } else { height as int })
            &&& (width as int * max_height as int <= height as int * max_width as int ==> h == max_height)
            &&& (width as int * max_height as int > height as int * max_width as int ==> w == max_width)
        },
{
    lemma_thumbnail_fits_bounds(width, height, max_width, max_height);
    let wi = width as int;
    let hi = height as int;
    let mwi = max_width as int;
    let mhi = max_height as int;
    if wi * mhi > hi * mwi {
        let q = (hi * mwi + wi / 2) / wi;
        assert(q * wi <= hi * mwi + wi / 2 < q * wi + wi) by (nonlinear_arith)
            requires
                wi > 0,
                q == (hi * mwi + wi / 2) / wi,
        ;
        let h = if q < 1 { 1 } else { q };
        assert(-wi <= mwi * hi - h * wi <= wi) by (nonlinear_arith)
            requires
                wi > 0,
                hi > 0,
                mwi > 0,
                q * wi <= hi * mwi + wi / 2 < q * wi + wi,
                h == if q < 1 { 1 } else { q },
                q >= 0,
        ;
    } else {
        let q = (wi * mhi + hi / 2) / hi;
        assert(q * hi <= wi * mhi + hi / 2 < q * hi + hi) by (nonlinear_arith)
            requires
                hi > 0,
                q == (wi * mhi + hi / 2) / hi,
        ;
        let w = if q < 1 { 1 } else { q };
        assert(-hi <= w * hi - mhi * wi <= hi) by (nonlinear_arith)
            requires
                wi > 0,
                hi > 0,
                mhi > 0,
                q * hi <= wi * mhi + hi / 2 < q * hi + hi,
                w == if q < 1 { 1 } else { q },
                q >= 0,
        ;
    }
}

/// Rounded `numerator / denominator` computed as `(numerator + denominator / 2) / denominator`,
/// and at least 1.
fn scaled_side(numerator: u64, denominator: u64) -> (side: u64)
    requires
        denominator > 0,
        numerator <= u32::MAX as int * u32::MAX as int,
        denominator <= u32::MAX,
    ensures
        side == if (numerator as int + denominator as int / 2) / (denominator as int) < 1 {
            1
        } else {
            (numerator as int + denominator as int / 2) / (denominator as int)
        },
{
    let rounded = (numerator + denominator / 2) / denominator;
    if rounded < 1 {
        1
    } else {
        rounded
    }
}

fn thumbnail_dimensions(width: u32, height: u32, max_width: u32, max_height: u32) -> (dimensions:
    Option<(u32, u32)>)
    ensures
        dimensions == spec_thumbnail_dimensions(width, height, max_width, max_height),
{
    if width == 0 || height == 0 {
        return None;
    }
    if width <= max_width && height <= max_height {
        return Some((width, height));
    }
    let w = width as u64;
    let h = height as u64;
    let mw = max_width as u64;
    let mh = max_height as u64;
    assert(w * mh <= u32::MAX as int * u32::MAX as int) by (nonlinear_arith)
        requires
            w <= u32::MAX,
            mh <= u32::MAX,
    ;
    assert(h * mw <= u32::MAX as int * u32::MAX as int) by (nonlinear_arith)
        requires
            h <= u32::MAX,
            mw <= u32::MAX,
    ;
    if w * mh > h * mw {
        let scaled_height = scaled_side(h * mw, w);
        if scaled_height > u32::MAX as u64 {
            None
        } else {
            Some((max_width, scaled_height as u32))
        }
    } else {
        let scaled_width = scaled_side(w * mh, h);
        if scaled_width > u32::MAX as u64 {
            None
        } else {
            Some((scaled_width as u32, max_height))
        }
    }
}

/// A thumbnail never exceeds its bounds and never has an empty side: for a non-empty image and
/// non-empty bounds the size always exists, fits within the bounds, and is the image's own
/// size exactly when the image already fits.
pub proof fn lemma_thumbnail_fits_bounds(width: u32, height: u32, max_width: u32, max_height: u32)
    requires
        width > 0,
        height > 0,
        max_width > 0,
        max_height > 0,
    ensures
        spec_thumbnail_dimensions(width, height, max_width, max_height) matches Some((w, h)) && 1
            <= w <= max_width && 1 <= h <= max_height && ((w == width && h == height) <==> (width
            <= max_width && height <= max_height)),
{
    let wi = width as int;
    let hi = height as int;
    let mwi = max_width as int;
    let mhi = max_height as int;
    if !(width <= max_width && height <= max_height) {
        if wi * mhi > hi * mwi {
            let scaled = (hi * mwi + wi / 2) / wi;
            assert(scaled <= mhi) by (nonlinear_arith)
                requires
                    wi * mhi > hi * mwi,
                    wi > 0,
                    scaled == (hi * mwi + wi / 2) / wi,
            {
                assert(hi * mwi + wi / 2 < wi * (mhi + 1));
            }
            if max_width == width {
                assert(hi > mhi);
                assert(wi * mhi < hi * mwi) by (nonlinear_arith)
                    requires
                        hi > mhi,
                        mwi == wi,
                        wi > 0,
                ;
            }
        } else {
            let scaled = (wi * mhi + hi / 2) / hi;
            assert(scaled <= mwi) by (nonlinear_arith)
                requires
                    wi * mhi <= hi * mwi,
                    hi > 0,
                    scaled == (wi * mhi + hi / 2) / hi,
            {
                assert(wi * mhi + hi / 2 < hi * (mwi + 1));
            }
            if max_height == height {
                assert(wi > mwi);
                assert(wi * mhi > hi * mwi) by (nonlinear_arith)
                    requires
                        wi > mwi,
                        mhi == hi,
                        hi > 0,
                ;
            }
        }
    }
}

/// What `image::imageops::resize` with `FilterType::Triangle` produces from RGBA bytes of a
/// `width` x `height` image when asked for `new_width` x `new_height`.
pub uninterp spec fn triangle_resize(
    pixels: Seq<u8>,
    width: u32,
    height: u32,
    new_width: u32,
    new_height: u32,
) -> Seq<u8>;

/// Wraps the RGBA bytes in an `image::RgbaImage` (`ImageBuffer::from_raw`, which accepts a
/// buffer of exactly `width * height * 4` bytes), resizes it with
/// `image::imageops::resize(.., FilterType::Triangle)` and returns the raw bytes. The result is
/// named by `triangle_resize`; `resize` builds its output as a `new_width` x `new_height`
/// buffer, so it holds that many RGBA pixels.
#[verifier::external_body]
fn resize_triangle(pixels: &Vec<u8>, width: u32, height: u32, new_width: u32, new_height: u32) -> (resized:
    Vec<u8>)
    requires
        pixels@.len() == rgba_len(width, height),
    ensures
        resized@ == triangle_resize(pixels@, width, height, new_width, new_height),
        resized@.len() == rgba_len(new_width, new_height),
{
    let source = image::RgbaImage::from_raw(width, height, pixels.clone()).expect(
        "the buffer holds width * height RGBA pixels",
    );
    image::imageops::resize(&source, new_width, new_height, FilterType::Triangle).into_raw()
}

/// What `image::codecs::png::PngEncoder::write_image` writes for RGBA8 bytes of a `width` x
/// `height` image: the PNG file, or the text of the encoder's error.
pub uninterp spec fn png_rgba8_encoding(pixels: Seq<u8>, width: u32, height: u32) -> Result<
    Seq<u8>,
    Seq<char>,
>;

/// Calls `PngEncoder::new(&mut output).write_image(pixels, width, height, Rgba8)`, which
/// asserts that the buffer holds exactly `width * height * 4` bytes. The written bytes, or the
/// `to_string` of the error, are named by `png_rgba8_encoding`.
#[verifier::external_body]
fn encode_rgba8_png(pixels: &[u8], width: u32, height: u32) -> (encoded: Result<Vec<u8>, String>)
    requires
        pixels@.len() == rgba_len(width, height),
    ensures
        match encoded {
            Ok(bytes) => png_rgba8_encoding(pixels@, width, height) == Ok::<Seq<u8>, Seq<char>>(
                bytes@,
            ),
            Err(message) => png_rgba8_encoding(pixels@, width, height) == Err::<
                Seq<u8>,
                Seq<char>,
            >(message@),
        },
{
    let mut output = Vec::new();
    match PngEncoder::new(&mut output).write_image(pixels, width, height, ExtendedColorType::Rgba8) {
        Ok(()) => Ok(output),
        Err(error) => Err(error.to_string()),
    }
}

/// The thumbnail of `source` bounded by `max_width` x `max_height` and `max_output_size`
/// bytes: the source itself when it already fits, otherwise its triangle-filtered resize; or
/// the reason none can be made.
pub open spec fn thumbnail_outcome(
    source: ImageView,
    max_width: u32,
    max_height: u32,
    max_output_size: usize,
) -> Result<ImageView, ThumbnailError> {
    let overflow = ThumbnailError::DimensionOverflow {
        width: source.width,
        height: source.height,
        max_width,
        max_height,
    };
    if max_width == 0 || max_height == 0 {
        Err(ThumbnailError::EmptyBounds { max_width, max_height })
    } else {
        match spec_thumbnail_dimensions(source.width, source.height, max_width, max_height) {
            None => Err(overflow),
            Some((w, h)) => match spec_pixel_byte_len(w, h) {
                None => Err(overflow),
                Some(required) => if required > max_output_size {
                    Err(ThumbnailError::OutputTooLarge { required, maximum: max_output_size })
                } else if w == source.width && h == source.height {
                    Ok(source)
                } else {
                    Ok(
                        ImageView {
                            width: w,
                            height: h,
                            pixels: triangle_resize(source.pixels, source.width, source.height, w, h),
                        },
                    )
                },
            },
        }
    }
}


/// A thumbnail made of an image that does not fit its bounds fits them and keeps the image's
/// aspect ratio, up to rounding.
pub proof fn lemma_thumbnail_outcome_keeps_aspect_ratio(
    source: ImageView,
    max_width: u32,
    max_height: u32,
    max_output_size: usize,
)
    requires
        source.width > 0,
        source.height > 0,
        !(source.width <= max_width && source.height <= max_height),
    ensures
        thumbnail_outcome(source, max_width, max_height, max_output_size) matches Ok(v) ==> {
            let longer = if source.width >= source.height { source.width as int } else { source.height as int };
            &&& v.width <= max_width && v.height <= max_height
            &&& (v.width == max_width || v.height == max_height)
            &&& -longer <= v.width as int * source.height as int - v.height as int * source.width as int <= longer
        },
{
    if max_width > 0 && max_height > 0 {
        lemma_thumbnail_keeps_aspect_ratio(source.width, source.height, max_width, max_height);
        lemma_thumbnail_fits_bounds(source.width, source.height, max_width, max_height);
    }
}

impl RgbaImage {
    /// A copy shrunk to fit `max_width` x `max_height`, keeping the aspect ratio; an image
    /// that already fits is returned unchanged.
    pub fn thumbnail(&self, max_width: u32, max_height: u32, max_output_size: usize) -> (thumbnail:
        Result<Self, ThumbnailError>)
        ensures
            match thumbnail_outcome(self@, max_width, max_height, max_output_size) {
                Ok(view) => thumbnail matches Ok(image) && image@ == view,
                Err(error) => thumbnail == Err::<Self, ThumbnailError>(error),
            },
    {
        proof {
            use_type_invariant(self);
        }
        if max_width == 0 || max_height == 0 {
            return Err(ThumbnailError::EmptyBounds { max_width, max_height });
        }
        let overflow = ThumbnailError::DimensionOverflow {
            width: self.width,
            height: self.height,
            max_width,
            max_height,
        };
        let (width, height) = match thumbnail_dimensions(
            self.width,
            self.height,
            max_width,
            max_height,
        ) {
            Some(dimensions) => dimensions,
            None => return Err(overflow),
        };
        let required = match pixel_byte_len(width, height) {
            Ok(required) => required,
            Err(_) => return Err(overflow),
        };
        if required > max_output_size {
            return Err(ThumbnailError::OutputTooLarge { required, maximum: max_output_size });
        }
        if width == self.width && height == self.height {
            return Ok(self.clone());
        }
        let pixels = resize_triangle(&self.pixels, self.width, self.height, width, height);
        Ok(RgbaImage { width, height, pixels })
    }

    /// The image encoded as an RGBA8 PNG file.
    pub fn encode_png(&self) -> (encoded: Result<Vec<u8>, PngEncodeError>)
        ensures
            match png_rgba8_encoding(self@.pixels, self@.width, self@.height) {
                Ok(bytes) => encoded matches Ok(out) && out@ == bytes,
                Err(message) => encoded matches Err(error) && error.message@ == message,
            },
    {
        proof {
            use_type_invariant(self);
        }
        match encode_rgba8_png(self.pixels.as_slice(), self.width, self.height) {
            Ok(bytes) => Ok(bytes),
            Err(message) => Err(PngEncodeError { message }),
        }
    }
}

// ---------------------------------------------------------------------------
// Grid assembly
// ---------------------------------------------------------------------------

/// The tile at `row` and `column` of a row-major grid with `columns` columns.
pub open spec fn tile_at(tiles: Seq<RgbaImage>, columns: int, row: int, column: int) -> ImageView {
    tiles[row * columns + column]@
}

/// The RGBA bytes of pixel row `y` of `tile`.
pub open spec fn tile_row(tile: ImageView, y: int) -> Seq<u8> {
    tile.pixels.subrange(y * tile.width * 4, (y + 1) * tile.width * 4)
}

/// Pixel row `y` of the tiles in grid row `row`, for the first `count` columns, left to right.
pub open spec fn grid_line(tiles: Seq<RgbaImage>, columns: int, row: int, y: int, count: int) -> Seq<
    u8,
>
    decreases count,
{
    if count <= 0 {
        Seq::empty()
    } else {
        grid_line(tiles, columns, row, y, count - 1) + tile_row(
            tile_at(tiles, columns, row, count - 1),
            y,
        )
    }
}

/// The first `count` pixel rows of grid row `row`, top to bottom.
pub open spec fn grid_band(tiles: Seq<RgbaImage>, columns: int, row: int, count: int) -> Seq<u8>
    decreases count,
{
    if count <= 0 {
        Seq::empty()
    } else {
        grid_band(tiles, columns, row, count - 1) + grid_line(tiles, columns, row, count - 1, columns)
    }
}

/// The first `count` grid rows, each `heights[row]` pixels tall, top to bottom: the RGBA bytes
/// of the assembled image when `count` is the number of grid rows.
pub open spec fn grid_pixels(tiles: Seq<RgbaImage>, columns: int, heights: Seq<u32>, count: int) -> Seq<
    u8,
>
    decreases count,
{
    if count <= 0 {
        Seq::empty()
    } else {
        grid_pixels(tiles, columns, heights, count - 1) + grid_band(
            tiles,
            columns,
            count - 1,
            heights[count - 1] as int,
        )
    }
}

/// Sum of `values`.
pub open spec fn dimension_sum(values: Seq<u32>) -> int
    decreases values.len(),
{
    if values.len() == 0 {
        0
    } else {
        dimension_sum(values.drop_last()) + values.last()
    }
}

/// Every tile in column `c` is `widths[c]` wide and every tile in row `r` is `heights[r]`
/// tall.
pub open spec fn grid_consistent(
    tiles: Seq<RgbaImage>,
    columns: int,
    rows: int,
    widths: Seq<u32>,
    heights: Seq<u32>,
) -> bool {
    &&& columns > 0
    &&& rows > 0
    &&& tiles.len() == columns * rows
    &&& widths.len() == columns
    &&& heights.len() == rows
    &&& forall|r: int, c: int|
        0 <= r < rows && 0 <= c < columns ==> (#[trigger] tile_at(tiles, columns, r, c)).width
            == widths[c] && tile_at(tiles, columns, r, c).height == heights[r]
    &&& forall|i: int| 0 <= i < tiles.len() ==> (#[trigger] tiles[i])@.pixels.len() == rgba_len(
        tiles[i]@.width,
        tiles[i]@.height,
    )
}

proof fn lemma_grid_index(columns: int, rows: int, r: int, c: int)
    requires
        0 <= r < rows,
        0 <= c < columns,
    ensures
        0 <= r * columns + c < rows * columns,
        rows * columns == columns * rows,
{
    assert(rows * columns == columns * rows) by (nonlinear_arith);
    assert(r * columns + c < rows * columns) by (nonlinear_arith)
        requires
            0 <= r < rows,
            0 <= c < columns,
    {
        assert(r * columns <= (rows - 1) * columns);
    }
    assert(0 <= r * columns) by (nonlinear_arith)
        requires
            0 <= r,
            0 <= c < columns,
    ;
}

proof fn lemma_tile_row_bounds(width: int, height: int, y: int)
    requires
        0 <= y < height,
        0 <= width,
    ensures
        0 <= y * width * 4,
        y * width * 4 + width * 4 == (y + 1) * width * 4,
        (y + 1) * width * 4 <= width * height * 4,
{
    assert((y + 1) * width * 4 <= width * height * 4) by (nonlinear_arith)
        requires
            0 <= y < height,
            0 <= width,
    ;
    assert(0 <= y * width * 4) by (nonlinear_arith)
        requires
            0 <= y,
            0 <= width,
    ;
    assert(y * width * 4 + width * 4 == (y + 1) * width * 4) by (nonlinear_arith);
}

proof fn lemma_grid_line_len(
    tiles: Seq<RgbaImage>,
    columns: int,
    rows: int,
    widths: Seq<u32>,
    heights: Seq<u32>,
    r: int,
    y: int,
    count: int,
)
    requires
        grid_consistent(tiles, columns, rows, widths, heights),
        0 <= r < rows,
        0 <= y < heights[r],
        0 <= count <= columns,
    ensures
        grid_line(tiles, columns, r, y, count).len() == 4 * dimension_sum(widths.subrange(0, count)),
    decreases count,
{
    if count > 0 {
        lemma_grid_line_len(tiles, columns, rows, widths, heights, r, y, count - 1);
        let tile = tile_at(tiles, columns, r, count - 1);
        lemma_grid_index(columns, rows, r, count - 1);
        assert(tiles[r * columns + count - 1]@.pixels.len() == rgba_len(tile.width, tile.height));
        lemma_tile_row_bounds(tile.width as int, tile.height as int, y);
        assert(widths.subrange(0, count).drop_last() =~= widths.subrange(0, count - 1));
    }
}

proof fn lemma_grid_band_len(
    tiles: Seq<RgbaImage>,
    columns: int,
    rows: int,
    widths: Seq<u32>,
    heights: Seq<u32>,
    r: int,
    count: int,
)
    requires
        grid_consistent(tiles, columns, rows, widths, heights),
        0 <= r < rows,
        0 <= count <= heights[r],
    ensures
        grid_band(tiles, columns, r, count).len() == count * (4 * dimension_sum(widths)),
    decreases count,
{
    if count > 0 {
        lemma_grid_band_len(tiles, columns, rows, widths, heights, r, count - 1);
        lemma_grid_line_len(tiles, columns, rows, widths, heights, r, count - 1, columns);
        assert(widths.subrange(0, columns) =~= widths);
        assert((count - 1) * (4 * dimension_sum(widths)) + 4 * dimension_sum(widths) == count * (4
            * dimension_sum(widths))) by (nonlinear_arith);
    } else {
        assert(count * (4 * dimension_sum(widths)) == 0) by (nonlinear_arith)
            requires
                count == 0,
        ;
    }
}

proof fn lemma_grid_pixels_len(
    tiles: Seq<RgbaImage>,
    columns: int,
    rows: int,
    widths: Seq<u32>,
    heights: Seq<u32>,
    count: int,
)
    requires
        grid_consistent(tiles, columns, rows, widths, heights),
        0 <= count <= rows,
    ensures
        grid_pixels(tiles, columns, heights, count).len() == dimension_sum(heights.subrange(0, count))
            * (4 * dimension_sum(widths)),
    decreases count,
{
    if count > 0 {
        lemma_grid_pixels_len(tiles, columns, rows, widths, heights, count - 1);
        lemma_grid_band_len(tiles, columns, rows, widths, heights, count - 1, heights[count - 1] as int);
        assert(heights.subrange(0, count).drop_last() =~= heights.subrange(0, count - 1));
        let a = dimension_sum(heights.subrange(0, count - 1));
        let h = heights[count - 1] as int;
        let w = 4 * dimension_sum(widths);
        assert(a * w + h * w == (a + h) * w) by (nonlinear_arith);
    } else {
        assert(heights.subrange(0, 0) =~= Seq::<u32>::empty());
    }
}

/// Copies the tiles of a consistent grid into one row-major RGBA buffer.
fn copy_grid(
    tiles: &[RgbaImage],
    columns: usize,
    rows: usize,
    heights: &Vec<u32>,
    Ghost(widths): Ghost<Seq<u32>>,
    capacity: usize,
) -> (pixels: Vec<u8>)
    requires
        grid_consistent(tiles@, columns as int, rows as int, widths, heights@),
    ensures
        pixels@ == grid_pixels(tiles@, columns as int, heights@, rows as int),
{
    let tile_count = tiles.len();
    let mut pixels: Vec<u8> = Vec::with_capacity(capacity);
    let mut r: usize = 0;
    while r < rows
        invariant
            grid_consistent(tiles@, columns as int, rows as int, widths, heights@),
            r <= rows,
            tile_count == tiles@.len(),
            pixels@ == grid_pixels(tiles@, columns as int, heights@, r as int),
        decreases rows - r,
    {
        let band_height = heights[r] as usize;
        let ghost before_band = pixels@;
        let mut y: usize = 0;
        while y < band_height
            invariant
                grid_consistent(tiles@, columns as int, rows as int, widths, heights@),
                r < rows,
                band_height == heights@[r as int],
                y <= band_height,
                tile_count == tiles@.len(),
                pixels@ == before_band + grid_band(tiles@, columns as int, r as int, y as int),
            decreases band_height - y,
        {
            let ghost before_line = pixels@;
            let mut c: usize = 0;
            while c < columns
                invariant
                    grid_consistent(tiles@, columns as int, rows as int, widths, heights@),
                    r < rows,
                    band_height == heights@[r as int],
                    y < band_height,
                    c <= columns,
                    tile_count == tiles@.len(),
                    pixels@ == before_line + grid_line(tiles@, columns as int, r as int, y as int, c as int),
                decreases columns - c,
            {
                proof {
                    lemma_grid_index(columns as int, rows as int, r as int, c as int);
                    assert(r * columns <= r * columns + c);
                }
                let index = r * columns + c;
                let tile = &tiles[index];
                proof {
                    assert(tile_at(tiles@, columns as int, r as int, c as int) == tile@);
                    assert(tiles@[index as int]@.pixels.len() == rgba_len(tile@.width, tile@.height));
                    lemma_tile_row_bounds(tile@.width as int, tile@.height as int, y as int);
                }
                proof {
                    assert(tile.width * 4 <= tile.pixels@.len()) by (nonlinear_arith)
                        requires
                            tile.pixels@.len() == tile.width * tile.height * 4,
                            tile.height > 0,
                    ;
                }
                let tile_len = tile.pixels.len();
                let stride = tile.width as usize * 4;
                proof {
                    assert(y * stride == y * tile@.width * 4) by (nonlinear_arith)
                        requires
                            stride == tile@.width * 4,
                    ;
                }
                let start = y * stride;
                let ghost before_tile = pixels@;
                let mut k: usize = 0;
                while k < stride
                    invariant
                        stride == tile@.width * 4,
                        start == y * tile@.width * 4,
                        start + stride <= tile_len == tile.pixels@.len(),
                        tile.pixels@ == tile@.pixels,
                        k <= stride,
                        pixels@ == before_tile + tile@.pixels.subrange(start as int, start + k),
                    decreases stride - k,
                {
                    pixels.push(tile.pixels[start + k]);
                    k += 1;
                    assert(pixels@ =~= before_tile + tile@.pixels.subrange(start as int, start + k));
                }
                c += 1;
                proof {
                    assert(pixels@ =~= before_line + grid_line(
                        tiles@,
                        columns as int,
                        r as int,
                        y as int,
                        c as int,
                    ));
                }
            }
            y += 1;
            assert(pixels@ =~= before_band + grid_band(tiles@, columns as int, r as int, y as int));
        }
        r += 1;
        assert(pixels@ =~= grid_pixels(tiles@, columns as int, heights@, r as int));
    }
    pixels
}

/// Whether tile `t` of a row-major grid has the width of its column's first tile and the
/// height of its row's first tile.
pub open spec fn tile_fits_grid(tiles: Seq<RgbaImage>, columns: int, t: int) -> bool {
    &&& tiles[t]@.width == tiles[t % columns]@.width
    &&& tiles[t]@.height == tiles[(t / columns) * columns]@.height
}

/// The error for tile `t`, which does not fit its grid: its width is checked before its height.
pub open spec fn tile_misfit_error(tiles: Seq<RgbaImage>, columns: int, t: int) -> ImageAssemblyError {
    if tiles[t]@.width != tiles[t % columns]@.width {
        ImageAssemblyError::ColumnWidthMismatch {
            tile_index: t as usize,
            column: (t % columns) as u32,
            expected: tiles[t % columns]@.width,
            actual: tiles[t]@.width,
        }
    } else {
        ImageAssemblyError::RowHeightMismatch {
            tile_index: t as usize,
            row: (t / columns) as u32,
            expected: tiles[(t / columns) * columns]@.height,
            actual: tiles[t]@.height,
        }
    }
}

/// The first of the first `count` tiles that does not fit its grid.
pub open spec fn first_misfit(tiles: Seq<RgbaImage>, columns: int, count: int) -> Option<int>
    decreases count,
{
    if count <= 0 {
        None
    } else {
        match first_misfit(tiles, columns, count - 1) {
            Some(t) => Some(t),
            None => if !tile_fits_grid(tiles, columns, count - 1) {
                Some(count - 1)
            } else {
                None
            },
        }
    }
}

/// Widths of the grid's columns, taken from its first row.
pub open spec fn column_widths(tiles: Seq<RgbaImage>, columns: int) -> Seq<u32> {
    Seq::new(columns as nat, |c: int| tiles[c]@.width)
}

/// Heights of the grid's rows, taken from its first column.
pub open spec fn row_heights(tiles: Seq<RgbaImage>, columns: int, rows: int) -> Seq<u32> {
    Seq::new(rows as nat, |r: int| tiles[r * columns]@.height)
}

/// The image assembled from `columns` x `rows` tiles in row-major order, or the first problem
/// found: an empty or oversized grid, a wrong tile count, a tile that disagrees with its column
/// width or row height, dimensions that overflow or differ from the requested output, or an
/// output beyond `max_output_size` bytes.
pub open spec fn spec_assemble_grid(
    tiles: Seq<RgbaImage>,
    columns: u32,
    rows: u32,
    output_width: u32,
    output_height: u32,
    max_output_size: usize,
) -> Result<ImageView, ImageAssemblyError> {
    let count = columns as int * rows as int;
    if columns == 0 || rows == 0 {
        Err(ImageAssemblyError::EmptyGrid { columns, rows })
    } else if count > usize::MAX {
        Err(ImageAssemblyError::GridOverflow { columns, rows })
    } else if tiles.len() != count {
        Err(
            ImageAssemblyError::TileCountMismatch {
                columns,
                rows,
                expected: count as usize,
                actual: tiles.len() as usize,
            },
        )
    } else if first_misfit(tiles, columns as int, tiles.len() as int) is Some {
        Err(
            tile_misfit_error(
                tiles,
                columns as int,
                first_misfit(tiles, columns as int, tiles.len() as int).unwrap(),
            ),
        )
    } else {
        let widths = column_widths(tiles, columns as int);
        let heights = row_heights(tiles, columns as int, rows as int);
        let width = dimension_sum(widths);
        let height = dimension_sum(heights);
        if width > u32::MAX || height > u32::MAX {
            Err(ImageAssemblyError::DimensionOverflow { output_width, output_height })
        } else if width != output_width || height != output_height {
            Err(
                ImageAssemblyError::OutputDimensionMismatch {
                    expected: (output_width, output_height),
                    actual: (width as u32, height as u32),
                },
            )
        } else {
            match spec_pixel_byte_len(output_width, output_height) {
                None => Err(ImageAssemblyError::DimensionOverflow { output_width, output_height }),
                Some(required) => if required > max_output_size {
                    Err(
                        ImageAssemblyError::OutputTooLarge {
                            required,
                            maximum: max_output_size,
                        },
                    )
                } else {
                    Ok(
                        ImageView {
                            width: output_width,
                            height: output_height,
                            pixels: grid_pixels(tiles, columns as int, heights, rows as int),
                        },
                    )
                },
            }
        }
    }
}

proof fn lemma_first_misfit_stays(tiles: Seq<RgbaImage>, columns: int, count: int, later: int)
    requires
        0 <= count <= later,
        first_misfit(tiles, columns, count) is Some,
    ensures
        first_misfit(tiles, columns, later) == first_misfit(tiles, columns, count),
    decreases later - count,
{
    if later > count {
        lemma_first_misfit_stays(tiles, columns, count, later - 1);
    }
}

proof fn lemma_dimension_sum_prefix(values: Seq<u32>, count: int)
    requires
        0 <= count <= values.len(),
    ensures
        0 <= dimension_sum(values.subrange(0, count)) <= dimension_sum(values),
    decreases values.len() - count,
{
    if count < values.len() {
        lemma_dimension_sum_prefix(values, count + 1);
        assert(values.subrange(0, count + 1).drop_last() =~= values.subrange(0, count));
        lemma_dimension_sum_nonnegative(values.subrange(0, count));
    } else {
        assert(values.subrange(0, count) =~= values);
        lemma_dimension_sum_nonnegative(values);
    }
}

proof fn lemma_dimension_sum_nonnegative(values: Seq<u32>)
    ensures
        dimension_sum(values) >= 0,
    decreases values.len(),
{
    if values.len() > 0 {
        lemma_dimension_sum_nonnegative(values.drop_last());
    }
}

/// The sum of `values`, if it fits in `u32`.
fn checked_dimension_sum(values: &Vec<u32>) -> (total: Option<u32>)
    ensures
        total == if dimension_sum(values@) > u32::MAX {
            None::<u32>
        } else {
            Some(dimension_sum(values@) as u32)
        },
{
    let mut total: u32 = 0;
    let mut index: usize = 0;
    while index < values.len()
        invariant
            index <= values@.len(),
            total == dimension_sum(values@.subrange(0, index as int)),
        decreases values@.len() - index,
    {
        proof {
            assert(values@.subrange(0, index + 1).drop_last() =~= values@.subrange(0, index as int));
            lemma_dimension_sum_prefix(values@, index + 1);
        }
        match total.checked_add(values[index]) {
            Some(next) => total = next,
            None => return None,
        }
        index += 1;
    }
    assert(values@.subrange(0, index as int) =~= values@);
    Some(total)
}

impl RgbaImage {
    /// Joins `columns` x `rows` tiles, given row by row, into one image: every tile of a
    /// column has the column's width, every tile of a row has the row's height.
    #[verifier::loop_isolation(false)]
    pub fn assemble_grid(
        tiles: &[Self],
        columns: u32,
        rows: u32,
        output_width: u32,
        output_height: u32,
        max_output_size: usize,
    ) -> (assembled: Result<Self, ImageAssemblyError>)
        ensures
            match spec_assemble_grid(
                tiles@,
                columns,
                rows,
                output_width,
                output_height,
                max_output_size,
            ) {
                Ok(view) => assembled matches Ok(image) && image@ == view,
                Err(error) => assembled == Err::<Self, ImageAssemblyError>(error),
            },
    {
        if columns == 0 || rows == 0 {
            return Err(ImageAssemblyError::EmptyGrid { columns, rows });
        }
        let columns_usize = columns as usize;
        let rows_usize = rows as usize;
        let expected_tile_count = match columns_usize.checked_mul(rows_usize) {
            Some(count) => count,
            None => return Err(ImageAssemblyError::GridOverflow { columns, rows }),
        };
        if tiles.len() != expected_tile_count {
            return Err(
                ImageAssemblyError::TileCountMismatch {
                    columns,
                    rows,
                    expected: expected_tile_count,
                    actual: tiles.len(),
                },
            );
        }
        let ghost cols = columns as int;
        let ghost n = tiles@.len() as int;
        proof {
            assert(rows_usize >= 1 && columns_usize <= n) by (nonlinear_arith)
                requires
                    n == cols * rows,
                    rows >= 1,
                    cols >= 1,
                    columns_usize == cols,
                    rows_usize == rows,
            ;
        }
        let mut widths: Vec<u32> = Vec::new();
        let mut c: usize = 0;
        while c < columns_usize
            invariant
                columns_usize == cols <= n == tiles@.len(),
                c <= columns_usize,
                widths@ == column_widths(tiles@, cols).subrange(0, c as int),
            decreases columns_usize - c,
        {
            widths.push(tiles[c].width);
            c += 1;
            assert(widths@ =~= column_widths(tiles@, cols).subrange(0, c as int));
        }
        assert(widths@ =~= column_widths(tiles@, cols));
        let mut heights: Vec<u32> = Vec::new();
        let mut r: usize = 0;
        while r < rows_usize
            invariant
                columns_usize == cols,
                n == tiles@.len() == cols * rows_usize,
                r <= rows_usize,
                heights@ == row_heights(tiles@, cols, rows_usize as int).subrange(0, r as int),
            decreases rows_usize - r,
        {
            proof {
                lemma_grid_index(cols, rows_usize as int, r as int, 0);
            }
            heights.push(tiles[r * columns_usize].height);
            r += 1;
            assert(heights@ =~= row_heights(tiles@, cols, rows_usize as int).subrange(0, r as int));
        }
        assert(heights@ =~= row_heights(tiles@, cols, rows_usize as int));
        let mut t: usize = 0;
        while t < tiles.len()
            invariant
                columns_usize == cols > 0,
                n == tiles@.len() == cols * rows_usize,
                widths@ == column_widths(tiles@, cols),
                heights@ == row_heights(tiles@, cols, rows_usize as int),
                t <= n,
                first_misfit(tiles@, cols, t as int) is None,
                forall|i: int| 0 <= i < t ==> tile_fits_grid(tiles@, cols, i),
                forall|i: int| 0 <= i < t ==> (#[trigger] tiles@[i])@.pixels.len() == rgba_len(
                    tiles@[i]@.width,
                    tiles@[i]@.height,
                ),
            decreases n - t,
        {
            let tile = &tiles[t];
            proof {
                use_type_invariant(tile);
                lemma_fundamental_div_mod(t as int, cols);
                assert((t / columns_usize) * columns_usize <= t) by (nonlinear_arith)
                    requires
                        t == cols * (t / columns_usize) + t % columns_usize,
                        t % columns_usize >= 0,
                        columns_usize == cols,
                ;
            }
            let row = t / columns_usize;
            let column = t % columns_usize;
            if tile.width != widths[column] {
                proof {
                    assert(!tile_fits_grid(tiles@, cols, t as int));
                    assert(first_misfit(tiles@, cols, t + 1) == Some(t as int));
                    lemma_first_misfit_stays(tiles@, cols, t + 1, n);
                }
                return Err(
                    ImageAssemblyError::ColumnWidthMismatch {
                        tile_index: t,
                        column: column as u32,
                        expected: widths[column],
                        actual: tile.width,
                    },
                );
            }
            proof {
                assert(row < rows_usize) by (nonlinear_arith)
                    requires
                        row * cols <= t < n,
                        n == cols * rows_usize,
                        cols > 0,
                {
                    assert(row * cols < cols * rows_usize);
                }
            }
            if tile.height != heights[row] {
                proof {
                    assert(!tile_fits_grid(tiles@, cols, t as int));
                    assert(first_misfit(tiles@, cols, t + 1) == Some(t as int));
                    lemma_first_misfit_stays(tiles@, cols, t + 1, n);
                }
                return Err(
                    ImageAssemblyError::RowHeightMismatch {
                        tile_index: t,
                        row: row as u32,
                        expected: heights[row],
                        actual: tile.height,
                    },
                );
            }
            t += 1;
        }
        proof {
            assert forall|rr: int, cc: int|
                0 <= rr < rows_usize && 0 <= cc < cols implies (#[trigger] tile_at(
                tiles@,
                cols,
                rr,
                cc,
            )).width == widths@[cc] && tile_at(tiles@, cols, rr, cc).height == heights@[rr] by {
                lemma_grid_index(cols, rows_usize as int, rr, cc);
                lemma_fundamental_div_mod_converse(rr * cols + cc, cols, rr, cc);
                assert(tile_fits_grid(tiles@, cols, rr * cols + cc));
            }
        }
        proof {
            lemma_dimension_sum_nonnegative(widths@);
            lemma_dimension_sum_nonnegative(heights@);
        }
        let width = match checked_dimension_sum(&widths) {
            Some(width) => width,
            None => return Err(ImageAssemblyError::DimensionOverflow { output_width, output_height }),
        };
        let height = match checked_dimension_sum(&heights) {
            Some(height) => height,
            None => return Err(ImageAssemblyError::DimensionOverflow { output_width, output_height }),
        };
        if width != output_width || height != output_height {
            return Err(
                ImageAssemblyError::OutputDimensionMismatch {
                    expected: (output_width, output_height),
                    actual: (width, height),
                },
            );
        }
        let output_len = match pixel_byte_len(output_width, output_height) {
            Ok(len) => len,
            Err(_) => return Err(ImageAssemblyError::DimensionOverflow { output_width, output_height }),
        };
        if output_len > max_output_size {
            return Err(
                ImageAssemblyError::OutputTooLarge { required: output_len, maximum: max_output_size },
            );
        }
        let pixels = copy_grid(tiles, columns_usize, rows_usize, &heights, Ghost(widths@), output_len);
        proof {
            lemma_grid_pixels_len(tiles@, cols, rows_usize as int, widths@, heights@, rows_usize as int);
            assert(heights@.subrange(0, rows_usize as int) =~= heights@);
            assert(height * (4 * width) == rgba_len(width, height)) by (nonlinear_arith);
        }
        Ok(RgbaImage { width: output_width, height: output_height, pixels })
    }
}
} // verus!
