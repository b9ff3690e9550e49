//! Pixels of captures and icons: conversion, encoding and comparison.
use base64::Engine;
use image::ImageEncoder;
use vstd::arithmetic::div_mod::*;
use vstd::arithmetic::mul::*;
use vstd::prelude::*;
use vstd::string::*;

verus! {

/// The pixels of a mapped texture as packed red, green and blue bytes: the
/// texture has blue, green, red and alpha bytes, in rows of `pitch` bytes.
pub open spec fn rgb_of(raw: Seq<u8>, pitch: nat, width: nat, height: nat) -> Seq<u8>
    decreases height,
{
    if height == 0 {
        Seq::empty()
    } else {
        rgb_of(raw, pitch, width, (height - 1) as nat) + rgb_row(
            raw,
            ((height - 1) * pitch) as nat,
            width,
        )
    }
}

/// The first `width` pixels from `start` on, without their alpha bytes and in
/// the order red, green, blue.
pub open spec fn rgb_row(raw: Seq<u8>, start: nat, width: nat) -> Seq<u8>
    decreases width,
{
    if width == 0 {
        Seq::empty()
    } else {
        let at = start + (width - 1) * 4;
        rgb_row(raw, start, (width - 1) as nat).push(raw[at + 2]).push(raw[at + 1]).push(raw[at])
    }
}

proof fn lemma_row_len(raw: Seq<u8>, start: nat, width: nat)
    ensures
        rgb_row(raw, start, width).len() == 3 * width,
    decreases width,
{
    if width > 0 {
        lemma_row_len(raw, start, (width - 1) as nat);
    }
}

proof fn lemma_rgb_len(raw: Seq<u8>, pitch: nat, width: nat, height: nat)
    ensures
        rgb_of(raw, pitch, width, height).len() == 3 * width * height,
    decreases height,
{
    if height > 0 {
        lemma_rgb_len(raw, pitch, width, (height - 1) as nat);
        lemma_row_len(raw, ((height - 1) * pitch) as nat, width);
        assert(3 * width * height == 3 * width * (height - 1) + 3 * width) by (nonlinear_arith)
            requires
                height > 0,
        ;
    } else {
        assert(3 * width * 0 == 0) by (nonlinear_arith);
    }
}

/// Takes the pixels out of a mapped texture.
pub fn bgra_to_rgb(raw: &[u8], pitch: usize, width: u32, height: u32) -> (result: Vec<u8>)
    requires
        4 * width <= pitch,
        pitch * height <= raw@.len(),
        3 * width * height <= usize::MAX,
    ensures
        result@ == rgb_of(raw@, pitch as nat, width as nat, height as nat),
        result@.len() == 3 * width * height,
{
    let mut rgb: Vec<u8> = Vec::new();
    let mut row: u32 = 0;
    let available: usize = raw.len();
    while row < height
        invariant
            row <= height,
            4 * width <= pitch,
            pitch * height <= raw@.len(),
            raw@.len() == available,
            rgb@ == rgb_of(raw@, pitch as nat, width as nat, row as nat),
        decreases height - row,
    {
        assert(row * pitch + pitch <= pitch * height) by (nonlinear_arith)
            requires
                row + 1 <= height,
        ;
        assert(row * pitch <= raw@.len());
        assert(row <= row * pitch || pitch == 0) by (nonlinear_arith);
        let row_start: usize = if pitch == 0 {
            0
        } else {
            row as usize * pitch
        };
        let ghost before = rgb@;
        let mut col: u32 = 0;
        assert(rgb@ =~= before + rgb_row(raw@, row_start as nat, 0));
        while col < width
            invariant
                col <= width,
                4 * width <= pitch,
                row_start + pitch <= raw@.len(),
                raw@.len() == available,
                rgb@ == before + rgb_row(raw@, row_start as nat, col as nat),
            decreases width - col,
        {
            let offset: usize = row_start + col as usize * 4;
            rgb.push(raw[offset + 2]);
            rgb.push(raw[offset + 1]);
            rgb.push(raw[offset]);
            assert(rgb@ =~= before + rgb_row(raw@, row_start as nat, (col + 1) as nat));
            col = col + 1;
        }
        row = row + 1;
    }
    proof {
        lemma_rgb_len(raw@, pitch as nat, width as nat, height as nat);
    }
    rgb
}

/// The bytes of pixels with red and blue exchanged.
pub open spec fn swapped(pixels: Seq<u8>) -> Seq<u8> {
    Seq::new(
        pixels.len(),
        |i: int|
            if i % 4 == 0 {
                pixels[i + 2]
            } else if i % 4 == 2 {
                pixels[i - 2]
            } else {
                pixels[i]
            },
    )
}

/// Exchanges red and blue in pixels of four bytes.
pub fn bgra_to_rgba(pixels: &[u8]) -> (result: Vec<u8>)
    requires
        pixels@.len() % 4 == 0,
    ensures
        result@ == swapped(pixels@),
{
    let mut rgba: Vec<u8> = Vec::new();
    let mut i: usize = 0;
    while i < pixels.len()
        invariant
            i <= pixels@.len(),
            i % 4 == 0,
            pixels@.len() % 4 == 0,
            rgba@ == swapped(pixels@).take(i as int),
        decreases pixels@.len() - i,
    {
        rgba.push(pixels[i + 2]);
        rgba.push(pixels[i + 1]);
        rgba.push(pixels[i]);
        rgba.push(pixels[i + 3]);
        assert(rgba@ =~= swapped(pixels@).take(i + 4));
        i = i + 4;
    }
    assert(swapped(pixels@).take(pixels@.len() as int) =~= swapped(pixels@));
    rgba
}

/// Exchanging red and blue twice gives the pixels back.
pub proof fn law_swapping_twice_restores(pixels: Seq<u8>)
    requires
        pixels.len() % 4 == 0,
    ensures
        swapped(swapped(pixels)) == pixels,
{
    let once = swapped(pixels);
    assert forall|i: int| 0 <= i < pixels.len() implies swapped(once)[i] == pixels[i] by {
        if i % 4 == 0 {
            assert((i + 2) % 4 == 2);
        } else if i % 4 == 2 {
            assert((i - 2) % 4 == 0);
        }
    }
    assert(swapped(once) =~= pixels);
}

/// The base 64 character for a number below 64.
pub open spec fn base64_char(n: int) -> char {
    if n < 26 {
        ('A' as int + n) as char
    } else if n < 52 {
        ('a' as int + n - 26) as char
    } else if n < 62 {
        ('0' as int + n - 52) as char
    } else if n == 62 {
        '+'
    } else {
        '/'
    }
}

/// The base 64 text of bytes, with padding: four characters for every three
/// bytes.
pub open spec fn base64_text(bytes: Seq<u8>) -> Seq<char>
    decreases bytes.len(),
{
    if bytes.len() == 0 {
        Seq::empty()
    } else {
        let a = bytes[0] as int;
        let b = if bytes.len() > 1 {
            bytes[1] as int
        } else {
            0
        };
        let c = if bytes.len() > 2 {
            bytes[2] as int
        } else {
            0
        };
        seq![
            base64_char(a / 4),
            base64_char(a % 4 * 16 + b / 16),
            if bytes.len() > 1 {
                base64_char(b % 16 * 4 + c / 64)
            } else {
                '='
            },
            if bytes.len() > 2 {
                base64_char(c % 64)
            } else {
                '='
            },
        ] + base64_text(
            if bytes.len() > 3 {
                bytes.skip(3)
            } else {
                Seq::empty()
            },
        )
    }
}

/// `base64::engine::general_purpose::STANDARD.encode`: the text in the standard
/// alphabet, with padding. It panics where the text would be longer than a
/// length can say.
#[verifier::external_body]
fn base64_encode(bytes: &[u8]) -> (result: String)
    requires
        bytes@.len() <= usize::MAX / 4,
    ensures
        result@ == base64_text(bytes@),
{
    base64::engine::general_purpose::STANDARD.encode(bytes)
}

/// The PNG file for red, green, blue and alpha bytes, where it can be made.
pub uninterp spec fn png_of(rgba: Seq<u8>, width: u32, height: u32) -> Option<Seq<u8>>;

/// `image::codecs::png::PngEncoder` writing pixels of four bytes: the file, or
/// nothing where the encoder fails. What it writes is left to the name. It
/// panics where the bytes are not those of an image of that size.
#[verifier::external_body]
fn encode_png(rgba: &[u8], width: u32, height: u32) -> (result: Option<Vec<u8>>)
    requires
        rgba@.len() == 4 * width * height,
    ensures
        match result {
            Some(file) => png_of(rgba@, width, height) == Some(file@),
            None => png_of(rgba@, width, height) is None,
        },
{
    let mut file = Vec::new();
    let encoder = image::codecs::png::PngEncoder::new(&mut file);
    match encoder.write_image(rgba, width, height, image::ExtendedColorType::Rgba8) {
        Ok(_) => Some(file),
        Err(_) => None,
    }
}

/// The JPEG file for red, green and blue bytes at a quality, where it can be
/// made.
pub uninterp spec fn jpeg_of(rgb: Seq<u8>, width: u32, height: u32, quality: u8) -> Option<Seq<u8>>;

/// `image::codecs::jpeg::JpegEncoder` encoding an image of three bytes a
/// pixel: the file, or nothing where the encoder fails or the bytes do not
/// suffice for the size. What it writes is left to the name.
#[verifier::external_body]
fn encode_jpeg(rgb: &[u8], width: u32, height: u32, quality: u8) -> (result: Option<Vec<u8>>)
    ensures
        match result {
            Some(file) => jpeg_of(rgb@, width, height, quality) == Some(file@),
            None => jpeg_of(rgb@, width, height, quality) is None,
        },
{
    let image = image::DynamicImage::ImageRgb8(
        image::RgbImage::from_raw(width, height, rgb.to_vec())?,
    );
    let mut file = Vec::new();
    let mut encoder = image::codecs::jpeg::JpegEncoder::new_with_quality(&mut file, quality);
    match encoder.encode_image(&image) {
        Ok(_) => Some(file),
        Err(_) => None,
    }
}

/// A length, or one where there is none.
pub open spec fn at_least_one(n: u32) -> u32 {
    if n == 0 {
        1
    } else {
        n
    }
}

/// An image of three bytes a pixel fits into a box, and touches its far sides
/// in at least one direction.
pub open spec fn fits(
    image: (Seq<u8>, u32, u32),
    box_width: u32,
    box_height: u32,
) -> bool {
    &&& image.0.len() == 3 * image.1 * image.2
    &&& 1 <= image.1 <= at_least_one(box_width)
    &&& 1 <= image.2 <= at_least_one(box_height)
    &&& image.1 == at_least_one(box_width) || image.2 == at_least_one(box_height)
}

/// The size in which an image fits into a box.
pub uninterp spec fn fitted_size(width: u32, height: u32, box_width: u32, box_height: u32) -> (
    u32,
    u32,
);

/// `image::DynamicImage::resize` with the Lanczos filter: the image in the
/// largest size with the same proportions that fits into the box, where a
/// length never becomes zero. How the proportions are rounded is left to the
/// name. An image that has the size of the box stays as it is. Of other images
/// nothing is said of the pixels: the filter takes sines, whose last digits
/// depend on the machine.
#[verifier::external_body]
fn fit_into(rgb: &[u8], width: u32, height: u32, box_width: u32, box_height: u32) -> (result: Option<
    (Vec<u8>, u32, u32),
>)
    requires
        width > 0,
        height > 0,
        box_width <= width,
        box_height <= height,
        rgb@.len() == 3 * width * height,
        16 * width * height <= isize::MAX,
    ensures
        match result {
            Some(image) => {
                &&& fits((image.0@, image.1, image.2), box_width, box_height)
                &&& (image.1, image.2) == fitted_size(width, height, box_width, box_height)
                &&& (box_width, box_height) == (width, height) ==> image.0@ == rgb@ && (
                    image.1,
                    image.2,
                ) == (width, height)
            },
            None => false,
        },
{
    let image = image::DynamicImage::ImageRgb8(
        image::RgbImage::from_raw(width, height, rgb.to_vec())?,
    );
    let image = image.resize(box_width, box_height, image::imageops::FilterType::Lanczos3);
    let image = image.into_rgb8();
    let (new_width, new_height) = image.dimensions();
    Some((image.into_raw(), new_width, new_height))
}

/// The brightness of an image of three bytes a pixel.
pub uninterp spec fn luma_of(rgb: Seq<u8>, width: u32, height: u32) -> Option<Seq<u8>>;

/// An image of one byte a pixel, sampled to a size.
pub uninterp spec fn resized_gray(
    gray: Seq<u8>,
    width: u32,
    height: u32,
    new_width: u32,
    new_height: u32,
) -> Option<Seq<u8>>;

/// The brightness of an image of three bytes a pixel, sampled to a size.
pub open spec fn sampled_gray(
    rgb: Seq<u8>,
    width: u32,
    height: u32,
    new_width: u32,
    new_height: u32,
) -> Option<Seq<u8>> {
    match luma_of(rgb, width, height) {
        Some(gray) => resized_gray(gray, width, height, new_width, new_height),
        None => None,
    }
}

/// `image::DynamicImage::to_luma8`: the brightness of each pixel, or nothing
/// where the bytes do not suffice for the size. The values are left to the name.
#[verifier::external_body]
fn to_luma(rgb: &[u8], width: u32, height: u32) -> (result: Option<Vec<u8>>)
    ensures
        match result {
            Some(gray) => luma_of(rgb@, width, height) == Some(gray@),
            None => luma_of(rgb@, width, height) is None,
        },
{
    let image = image::DynamicImage::ImageRgb8(
        image::RgbImage::from_raw(width, height, rgb.to_vec())?,
    );
    Some(image.to_luma8().into_raw())
}

/// `image::imageops::resize` with the triangle filter, of an image of one byte a
/// pixel: one byte a pixel of the new size, or nothing where the bytes do not
/// suffice for the size. The values are left to the name.
#[verifier::external_body]
fn resize_gray(gray: Vec<u8>, width: u32, height: u32, new_width: u32, new_height: u32) -> (result:
    Option<Vec<u8>>)
    requires
        new_width <= 17,
        new_height <= 17,
        16 * 17 * width <= isize::MAX,
    ensures
        match result {
            Some(small) => {
                &&& resized_gray(gray@, width, height, new_width, new_height) == Some(small@)
                &&& small@.len() == new_width * new_height
            },
            None => resized_gray(gray@, width, height, new_width, new_height) is None,
        },
{
    let image = image::GrayImage::from_raw(width, height, gray)?;
    let filter = image::imageops::FilterType::Triangle;
    Some(image::imageops::resize(&image, new_width, new_height, filter).into_raw())
}

/// The brightness of an image of three bytes a pixel, sampled to a size.
fn sample_gray(rgb: &[u8], width: u32, height: u32, new_width: u32, new_height: u32) -> (result: Option<
    Vec<u8>,
>)
    requires
        new_width <= 17,
        new_height <= 17,
        16 * 17 * width <= isize::MAX,
    ensures
        match result {
            Some(gray) => {
                &&& sampled_gray(rgb@, width, height, new_width, new_height) == Some(gray@)
                &&& gray@.len() == new_width * new_height
            },
            None => sampled_gray(rgb@, width, height, new_width, new_height) is None,
        },
{
    match to_luma(rgb, width, height) {
        Some(gray) => resize_gray(gray, width, height, new_width, new_height),
        None => None,
    }
}

/// A capture that is ready to be stored.
#[derive(Debug)]
pub struct CapturedImage {
    pub jpeg_bytes: Vec<u8>,
    pub width: u32,
    pub height: u32,
    pub rgb: Vec<u8>,
}

impl CapturedImage {
    /// The pixels and their size.
    pub open spec fn pixels(&self) -> (Seq<u8>, u32, u32) {
        (self.rgb@, self.width, self.height)
    }

    /// Both are the same capture.
    pub open spec fn same(&self, other: CapturedImage) -> bool {
        self.jpeg_bytes@ == other.jpeg_bytes@ && self.pixels() == other.pixels()
    }

    /// The file is that of the pixels.
    pub open spec fn encoded(&self, quality: u8) -> bool {
        jpeg_of(self.rgb@, self.width, self.height, quality) == Some(self.jpeg_bytes@)
    }

    /// A second copy.
    pub fn copy(&self) -> (result: CapturedImage)
        ensures
            result.same(*self),
    {
        let jpeg_bytes = self.jpeg_bytes.clone();
        let rgb = self.rgb.clone();
        assert(jpeg_bytes@ =~= self.jpeg_bytes@);
        assert(rgb@ =~= self.rgb@);
        CapturedImage { jpeg_bytes, width: self.width, height: self.height, rgb }
    }
}

/// Encodes a capture in its final size.
pub fn encode_pixels(rgb: Vec<u8>, width: u32, height: u32, quality: u8) -> (result: Option<
    CapturedImage,
>)
    ensures
        match result {
            Some(captured) => captured.pixels() == (rgb@, width, height) && captured.encoded(
                quality,
            ),
            None => jpeg_of(rgb@, width, height, quality) is None,
        },
{
    match encode_jpeg(&rgb, width, height, quality) {
        Some(jpeg_bytes) => Some(CapturedImage { jpeg_bytes, width, height, rgb }),
        None => None,
    }
}

/// What scaling pixels so that they fit into a box may come to.
pub open spec fn scaled_to(
    rgb: Seq<u8>,
    width: u32,
    height: u32,
    size: (u32, u32),
    scaled: (Seq<u8>, u32, u32),
) -> bool {
    &&& fits(scaled, size.0, size.1)
    &&& (scaled.1, scaled.2) == fitted_size(width, height, size.0, size.1)
    &&& size == (width, height) ==> scaled == (rgb, width, height)
}

/// What scaling a capture, where it is too large, and encoding it may come to.
pub open spec fn capture_encoded(
    rgb: Seq<u8>,
    width: u32,
    height: u32,
    scaled: Option<(u32, u32)>,
    quality: u8,
    result: Option<CapturedImage>,
) -> bool {
    match (scaled, result) {
        (None, Some(captured)) => captured.pixels() == (rgb, width, height) && captured.encoded(
            quality,
        ),
        (None, None) => jpeg_of(rgb, width, height, quality) is None,
        (Some(size), Some(captured)) => {
            &&& scaled_to(rgb, width, height, size, captured.pixels())
            &&& captured.encoded(quality)
        },
        (Some(size), None) => exists|pixels: Seq<u8>, w: u32, h: u32|
            scaled_to(rgb, width, height, size, (pixels, w, h)) && (#[trigger] jpeg_of(
                pixels,
                w,
                h,
                quality,
            )) is None,
    }
}

/// Scales a capture where it is too large, and encodes it. `scaled` is the box
/// that a capture that is too large is made to fit into.
pub fn encode_capture(
    rgb: Vec<u8>,
    width: u32,
    height: u32,
    scaled: Option<(u32, u32)>,
    quality: u8,
) -> (result: Option<CapturedImage>)
    requires
        width > 0,
        height > 0,
        rgb@.len() == 3 * width * height,
        16 * width * height <= isize::MAX,
        scaled matches Some(size) ==> size.0 <= width && size.1 <= height,
    ensures
        capture_encoded(rgb@, width, height, scaled, quality, result),
{
    match scaled {
        Some(size) => match fit_into(&rgb, width, height, size.0, size.1) {
            Some((pixels, w, h)) => encode_pixels(pixels, w, h, quality),
            None => None,
        },
        None => encode_pixels(rgb, width, height, quality),
    }
}

/// The text form in which an image file is stored.
pub fn image_data(bytes: &[u8]) -> (result: String)
    requires
        bytes@.len() <= usize::MAX / 4,
    ensures
        result@ == base64_text(bytes@),
{
    base64_encode(bytes)
}

/// The icon of a program, from its blue, green, red and alpha bytes: a PNG file
/// in text form. A file whose text would be longer than a length can say gives
/// none.
pub fn icon_text(pixels: &[u8], size: u32) -> (result: Option<String>)
    requires
        pixels@.len() == 4 * size * size,
    ensures
        match png_of(swapped(pixels@), size, size) {
            Some(file) => if file.len() <= usize::MAX / 4 {
                result is Some && result->0@ == base64_text(file)
            } else {
                result is None
            },
            None => result is None,
        },
{
    assert(pixels@.len() % 4 == 0) by {
        assert(4 * size * size == 4 * (size * size)) by (nonlinear_arith);
    }
    let rgba = bgra_to_rgba(pixels);
    match encode_png(&rgba, size, size) {
        Some(file) => if file.len() <= usize::MAX / 4 {
            Some(base64_encode(&file))
        } else {
            None
        },
        None => None,
    }
}

/// A difference hash: 256 bits, one for each pair of neighbouring samples.
pub type DHash = [u64; 4];

/// The ones in the binary form of a number.
pub open spec fn ones(n: nat) -> nat
    decreases n,
{
    if n == 0 {
        0
    } else {
        n % 2 + ones(n / 2)
    }
}

proof fn lemma_ones_bound(n: nat, bits: nat)
    requires
        n < vstd::arithmetic::power2::pow2(bits),
    ensures
        ones(n) <= bits,
    decreases bits,
{
    if n > 0 {
        if bits == 0 {
            vstd::arithmetic::power2::lemma2_to64();
        } else {
            vstd::arithmetic::power2::lemma_pow2_unfold(bits);
            lemma_ones_bound(n / 2, (bits - 1) as nat);
        }
    }
}

proof fn lemma_no_ones(n: nat)
    ensures
        ones(n) == 0 <==> n == 0,
    decreases n,
{
    if n > 0 {
        lemma_no_ones(n / 2);
    }
}

fn count_ones(x: u64) -> (result: u32)
    ensures
        result == ones(x as nat),
        result <= 64,
{
    proof {
        vstd::arithmetic::power2::lemma2_to64();
        vstd::arithmetic::power2::lemma2_to64_rest();
        lemma_ones_bound(x as nat, 64);
    }
    let mut rest: u64 = x;
    let mut count: u32 = 0;
    while rest > 0
        invariant
            count + ones(rest as nat) == ones(x as nat),
            ones(x as nat) <= 64,
        decreases rest,
    {
        count = count + (rest % 2) as u32;
        rest = rest / 2;
    }
    count
}

/// The bits in which two hashes differ.
pub open spec fn distance(a: DHash, b: DHash) -> nat {
    ones((a@[0] ^ b@[0]) as nat) + ones((a@[1] ^ b@[1]) as nat) + ones((a@[2] ^ b@[2]) as nat)
        + ones((a@[3] ^ b@[3]) as nat)
}

/// The bits in which two hashes differ.
pub fn hamming_distance(a: &DHash, b: &DHash) -> (result: u32)
    ensures
        result == distance(*a, *b),
        result <= 256,
{
    count_ones(a[0] ^ b[0]) + count_ones(a[1] ^ b[1]) + count_ones(a[2] ^ b[2]) + count_ones(
        a[3] ^ b[3],
    )
}

/// The distance is a metric in the sense that it tells hashes apart, and does
/// not depend on their order.
pub proof fn law_distance_tells_hashes_apart(a: DHash, b: DHash)
    ensures
        distance(a, b) == 0 <==> a@ == b@,
        distance(a, b) == distance(b, a),
{
    assert forall|i: int| 0 <= i < 4 implies (#[trigger] a@[i] ^ b@[i]) == (b@[i] ^ a@[i]) && ((
    a@[i] ^ b@[i]) == 0 <==> a@[i] == b@[i]) by {
        let x = a@[i];
        let y = b@[i];
        assert(x ^ y == y ^ x && (x ^ y == 0 <==> x == y)) by (bit_vector);
    }
    assert((a@[0] ^ b@[0]) == (b@[0] ^ a@[0]));
    assert((a@[1] ^ b@[1]) == (b@[1] ^ a@[1]));
    assert((a@[2] ^ b@[2]) == (b@[2] ^ a@[2]));
    assert((a@[3] ^ b@[3]) == (b@[3] ^ a@[3]));
    lemma_no_ones((a@[0] ^ b@[0]) as nat);
    lemma_no_ones((a@[1] ^ b@[1]) as nat);
    lemma_no_ones((a@[2] ^ b@[2]) as nat);
    lemma_no_ones((a@[3] ^ b@[3]) as nat);
    if distance(a, b) == 0 {
        assert(a@ =~= b@);
    }
    if a@ == b@ {
        assert(a@[0] == b@[0] && a@[1] == b@[1] && a@[2] == b@[2] && a@[3] == b@[3]);
    }
}

/// A capture that differs too little from one of the last ones is not kept.
pub open spec fn redundant(current: DHash, history: Seq<DHash>, threshold: u32) -> bool {
    exists|i: int| 0 <= i < history.len() && distance(current, #[trigger] history[i]) < threshold
}

/// A capture that differs too little from one of the last ones is not kept.
pub fn is_redundant(current: &DHash, history: &[DHash], threshold: u32) -> (result: bool)
    ensures
        result == redundant(*current, history@, threshold),
{
    let mut i: usize = 0;
    while i < history.len()
        invariant
            i <= history@.len(),
            forall|j: int|
                0 <= j < i ==> distance(*current, #[trigger] history@[j]) >= threshold,
        decreases history@.len() - i,
    {
        if hamming_distance(current, &history[i]) < threshold {
            return true;
        }
        i = i + 1;
    }
    false
}

/// Bit `k` of a hash.
pub open spec fn hash_bit(hash: Seq<u64>, k: int) -> bool {
    (hash[k / 64] >> ((k % 64) as u64)) & 1 == 1
}

/// Bit `k` of the hash of samples in rows of `size + 1`: sample `k % size` of
/// row `k / size` is brighter than the one to its right.
pub open spec fn brighter(gray: Seq<u8>, size: nat, k: int) -> bool {
    let at = (k / size as int) * (size + 1) + k % (size as int);
    gray[at] > gray[at + 1]
}

/// The hash of samples.
pub open spec fn is_dhash(hash: Seq<u64>, gray: Seq<u8>, size: nat) -> bool {
    &&& hash.len() == 4
    &&& forall|k: int|
        0 <= k < 256 ==> #[trigger] hash_bit(hash, k) == (k < size * size && brighter(
            gray,
            size,
            k,
        ))
}

proof fn lemma_bit_set(word: u64, at: u64, probe: u64)
    by (bit_vector)
    requires
        at < 64,
        probe < 64,
    ensures
        ((word | (1u64 << at)) >> probe) & 1 == if probe == at {
            1u64
        } else {
            (word >> probe) & 1
        },
{
}

proof fn lemma_no_bit(probe: u64)
    by (bit_vector)
    requires
        probe < 64,
    ensures
        (0u64 >> probe) & 1 == 0,
{
}

proof fn lemma_place(row: int, col: int, size: int)
    requires
        0 <= col < size,
        0 <= row,
    ensures
        (row * size + col) / size == row,
        (row * size + col) % size == col,
{
    lemma_fundamental_div_mod_converse(row * size + col, size, row, col);
}

/// The hash of samples in rows of `size + 1`.
pub fn dhash_of(gray: &[u8], size: u32) -> (result: DHash)
    requires
        size <= 16,
        gray@.len() == (size + 1) * size,
    ensures
        is_dhash(result@, gray@, size as nat),
{
    let mut hash: DHash = [0u64; 4];
    let mut row: u32 = 0;
    let ghost n = size as int;
    proof {
        assert forall|k: int| 0 <= k < 256 implies !#[trigger] hash_bit(hash@, k) by {
            lemma_no_bit((k % 64) as u64);
        }
    }
    while row < size
        invariant
            row <= size <= 16,
            n == size,
            gray@.len() == (size + 1) * size,
            hash@.len() == 4,
            forall|k: int|
                0 <= k < 256 ==> #[trigger] hash_bit(hash@, k) == (k < row * n && brighter(
                    gray@,
                    n as nat,
                    k,
                )),
        decreases size - row,
    {
        let mut col: u32 = 0;
        assert(row * n + n <= n * n) by (nonlinear_arith)
            requires
                row + 1 <= n,
                n > 0,
        ;
        assert(n * n <= 256) by (nonlinear_arith)
            requires
                0 < n <= 16,
        ;
        while col < size
            invariant
                col <= size,
                row < size,
                0 < size <= 16,
                n == size,
                row * n + n <= n * n,
                n * n <= 256,
                gray@.len() == (size + 1) * size,
                hash@.len() == 4,
                forall|k: int|
                    0 <= k < 256 ==> #[trigger] hash_bit(hash@, k) == (k < row * n + col
                        && brighter(gray@, n as nat, k)),
            decreases size - col,
        {
            assert(row * (n + 1) == row * n + row) by (nonlinear_arith);
            assert(row * (n + 1) + n + 1 <= (n + 1) * n) by (nonlinear_arith)
                requires
                    row + 1 <= n,
            ;
            assert(row * size <= 256 && row * (size + 1) <= 512) by (nonlinear_arith)
                requires
                    row < size <= 16,
            ;
            let at: usize = (row * (size + 1) + col) as usize;
            let index: u32 = row * size + col;
            proof {
                lemma_place(row as int, col as int, n);
            }
            let ghost before = hash@;
            if gray[at] > gray[at + 1] {
                let word: usize = (index / 64) as usize;
                let bit: u64 = (index % 64) as u64;
                let set: u64 = hash[word] | (1u64 << bit);
                hash[word] = set;
                proof {
                    assert forall|k: int| 0 <= k < 256 implies #[trigger] hash_bit(hash@, k) == (k
                        < row * n + col + 1 && brighter(gray@, n as nat, k)) by {
                        assert(hash_bit(before, k) == (k < row * n + col && brighter(
                            gray@,
                            n as nat,
                            k,
                        )));
                        if k / 64 == word {
                            lemma_bit_set(before[word as int], bit, (k % 64) as u64);
                        }
                        if k == index {
                            assert(brighter(gray@, n as nat, k));
                        }
                    }
                }
            } else {
                proof {
                    assert forall|k: int| 0 <= k < 256 implies #[trigger] hash_bit(hash@, k) == (k
                        < row * n + col + 1 && brighter(gray@, n as nat, k)) by {
                        if k == index {
                            assert(!brighter(gray@, n as nat, k));
                        }
                    }
                }
            }
            col = col + 1;
        }
        assert(row * n + n == (row + 1) * n) by (nonlinear_arith);
        row = row + 1;
    }
    hash
}

/// The difference hash of an image of three bytes a pixel.
pub fn compute_dhash(rgb: &[u8], width: u32, height: u32, hash_size: u32) -> (result: Option<DHash>)
    requires
        hash_size <= 16,
        16 * 17 * width <= isize::MAX,
    ensures
        match sampled_gray(rgb@, width, height, (hash_size + 1) as u32, hash_size) {
            Some(gray) => result is Some && is_dhash(result->0@, gray, hash_size as nat),
            None => result is None,
        },
{
    match sample_gray(rgb, width, height, hash_size + 1, hash_size) {
        Some(gray) => Some(dhash_of(&gray, hash_size)),
        None => None,
    }
}

proof fn lemma_row_pixel(raw: Seq<u8>, start: nat, width: nat, x: int)
    requires
        0 <= x < width,
    ensures
        rgb_row(raw, start, width).len() == 3 * width,
        rgb_row(raw, start, width)[3 * x] == raw[start + 4 * x + 2],
        rgb_row(raw, start, width)[3 * x + 1] == raw[start + 4 * x + 1],
        rgb_row(raw, start, width)[3 * x + 2] == raw[start + 4 * x],
    decreases width,
{
    lemma_row_len(raw, start, width);
    lemma_row_len(raw, start, (width - 1) as nat);
    if x < width - 1 {
        lemma_row_pixel(raw, start, (width - 1) as nat, x);
    }
}

/// Every pixel keeps its place: that of row `y` and column `x` of the texture is
/// that of row `y` and column `x` of the image, with its red, green and blue
/// bytes.
pub proof fn law_pixels_keep_their_place(
    raw: Seq<u8>,
    pitch: nat,
    width: nat,
    height: nat,
    x: int,
    y: int,
)
    requires
        0 <= x < width,
        0 <= y < height,
    ensures
        rgb_of(raw, pitch, width, height).len() == 3 * width * height,
        ({
            let rgb = rgb_of(raw, pitch, width, height);
            let at = 3 * (y * width + x);
            let from = y * pitch + 4 * x;
            &&& 0 <= at && at + 2 < rgb.len()
            &&& rgb[at] == raw[from + 2]
            &&& rgb[at + 1] == raw[from + 1]
            &&& rgb[at + 2] == raw[from]
        }),
    decreases height,
{
    lemma_rgb_len(raw, pitch, width, height);
    lemma_rgb_len(raw, pitch, width, (height - 1) as nat);
    let start = ((height - 1) * pitch) as nat;
    assert((height - 1) * pitch >= 0) by (nonlinear_arith)
        requires
            height >= 1,
            pitch >= 0,
    ;
    lemma_row_len(raw, start, width);
    assert(3 * width * (height - 1) == 3 * ((height - 1) * width)) by (nonlinear_arith);
    assert(3 * width * height == 3 * ((height - 1) * width) + 3 * width) by (nonlinear_arith);
    if y < height - 1 {
        law_pixels_keep_their_place(raw, pitch, width, (height - 1) as nat, x, y);
    } else {
        lemma_row_pixel(raw, start, width, x);
    }
}

/// Of every pixel of four bytes the first and the third change places, and the
/// other two stay.
pub proof fn law_red_and_blue_change_places(pixels: Seq<u8>, i: int)
    requires
        0 <= i,
        4 * i + 3 < pixels.len(),
    ensures
        swapped(pixels).len() == pixels.len(),
        swapped(pixels)[4 * i] == pixels[4 * i + 2],
        swapped(pixels)[4 * i + 1] == pixels[4 * i + 1],
        swapped(pixels)[4 * i + 2] == pixels[4 * i],
        swapped(pixels)[4 * i + 3] == pixels[4 * i + 3],
{
}

/// The number that a base 64 character stands for.
pub open spec fn base64_digit(c: char) -> int {
    if 'A' <= c <= 'Z' {
        c as int - 65
    } else if 'a' <= c <= 'z' {
        c as int - 97 + 26
    } else if '0' <= c <= '9' {
        c as int - 48 + 52
    } else if c == '+' {
        62
    } else {
        63
    }
}

/// The text can be read back: each three bytes, as one number, are the four
/// digits in their place, and at the end one or two bytes are the digits before
/// the padding. The text has four characters for each three bytes or part of
/// them.
pub proof fn law_base64_text_tells_the_bytes(bytes: Seq<u8>, group: int)
    requires
        0 <= group,
        3 * group < bytes.len(),
    ensures
        ({
            let text = base64_text(bytes);
            let at = 4 * group;
            let from = 3 * group;
            let a = base64_digit(text[at]);
            let b = base64_digit(text[at + 1]);
            let c = base64_digit(text[at + 2]);
            let d = base64_digit(text[at + 3]);
            &&& text.len() == 4 * ((bytes.len() + 2) / 3)
            &&& bytes[from] as int == a * 4 + b / 16
            &&& from + 1 == bytes.len() ==> text[at + 2] == '=' && text[at + 3] == '='
            &&& from + 1 < bytes.len() ==> bytes[from + 1] as int == b % 16 * 16 + c / 4
                && text[at + 2] != '='
            &&& from + 2 == bytes.len() ==> text[at + 3] == '='
            &&& from + 2 < bytes.len() ==> bytes[from + 2] as int == c % 4 * 64 + d && text[at + 3]
                != '='
        }),
    decreases group,
{
    lemma_base64_len(bytes);
    if group == 0 {
        lemma_base64_group(bytes);
    } else {
        let rest = bytes.skip(3);
        let text = base64_text(bytes);
        let later = base64_text(rest);
        law_base64_text_tells_the_bytes(rest, group - 1);
        lemma_base64_len(rest);
        lemma_base64_group(bytes);
        let at = 4 * group;
        assert(later[at - 4] == text[at] && later[at - 3] == text[at + 1] && later[at - 2]
            == text[at + 2] && later[at - 1] == text[at + 3]);
        let from = 3 * group;
        assert(rest[from - 3] == bytes[from]);
        assert(from + 1 < bytes.len() ==> rest[from - 2] == bytes[from + 1]);
        assert(from + 2 < bytes.len() ==> rest[from - 1] == bytes[from + 2]);
    }
}

proof fn lemma_base64_digit(n: int)
    requires
        0 <= n < 64,
    ensures
        base64_digit(base64_char(n)) == n,
        base64_char(n) != '=',
{
}

proof fn lemma_base64_group(bytes: Seq<u8>)
    requires
        bytes.len() > 0,
    ensures
        ({
            let text = base64_text(bytes);
            let a = base64_digit(text[0]);
            let b = base64_digit(text[1]);
            let c = base64_digit(text[2]);
            let d = base64_digit(text[3]);
            &&& text.len() >= 4
            &&& bytes[0] as int == a * 4 + b / 16
            &&& 1 == bytes.len() ==> text[2] == '=' && text[3] == '='
            &&& 1 < bytes.len() ==> bytes[1] as int == b % 16 * 16 + c / 4 && text[2] != '='
            &&& 2 == bytes.len() ==> text[3] == '='
            &&& 2 < bytes.len() ==> bytes[2] as int == c % 4 * 64 + d && text[3] != '='
            &&& 3 < bytes.len() ==> text.skip(4) == base64_text(bytes.skip(3))
        }),
{
    let text = base64_text(bytes);
    let a = bytes[0] as int;
    let b = if bytes.len() > 1 {
        bytes[1] as int
    } else {
        0
    };
    let c = if bytes.len() > 2 {
        bytes[2] as int
    } else {
        0
    };
    lemma_base64_digit(a / 4);
    lemma_base64_digit(a % 4 * 16 + b / 16);
    lemma_base64_digit(b % 16 * 4 + c / 64);
    lemma_base64_digit(c % 64);
    assert(text[0] == base64_char(a / 4));
    assert(text[1] == base64_char(a % 4 * 16 + b / 16));
    if bytes.len() > 3 {
        assert(text.skip(4) =~= base64_text(bytes.skip(3)));
    }
}

proof fn lemma_base64_len(bytes: Seq<u8>)
    ensures
        base64_text(bytes).len() == 4 * ((bytes.len() + 2) / 3),
    decreases bytes.len(),
{
    if bytes.len() > 3 {
        lemma_base64_len(bytes.skip(3));
    } else if bytes.len() > 0 {
        assert(base64_text(Seq::empty()).len() == 0);
    }
}

/// The ones of a number are those of its half, and one more if it is odd.
pub proof fn law_ones_are_counted(n: nat)
    ensures
        ones(0) == 0,
        ones(2 * n) == ones(n),
        ones(2 * n + 1) == ones(n) + 1,
{
    assert((2 * n) / 2 == n && (2 * n) % 2 == 0);
    assert((2 * n + 1) / 2 == n && (2 * n + 1) % 2 == 1);
}

proof fn lemma_one_one(k: nat)
    ensures
        ones(vstd::arithmetic::power2::pow2(k)) == 1,
    decreases k,
{
    if k == 0 {
        vstd::arithmetic::power2::lemma2_to64();
        law_ones_are_counted(0);
        assert(vstd::arithmetic::power2::pow2(0) == 2 * 0 + 1);
    } else {
        vstd::arithmetic::power2::lemma_pow2_unfold(k);
        lemma_one_one((k - 1) as nat);
        law_ones_are_counted(vstd::arithmetic::power2::pow2((k - 1) as nat));
    }
}

/// Hashes that differ in one bit, whichever it is, have the distance one.
pub proof fn law_each_bit_counts_once(a: DHash, b: DHash, word: int, bit: u64)
    requires
        0 <= word < 4,
        bit < 64,
        b@ == a@.update(word, a@[word] ^ (1u64 << bit)),
    ensures
        distance(a, b) == 1,
{
    let x = a@[word];
    let flip = 1u64 << bit;
    assert(x ^ (x ^ flip) == flip) by (bit_vector);
    vstd::bits::lemma_u64_pow2_no_overflow(bit as nat);
    vstd::bits::lemma_u64_shl_is_mul(1, bit);
    lemma_one_one(bit as nat);
    assert(ones(flip as nat) == 1);
    assert forall|i: int| 0 <= i < 4 && i != word implies (#[trigger] a@[i] ^ b@[i]) == 0 by {
        let y = a@[i];
        assert(b@[i] == y);
        assert(y ^ y == 0) by (bit_vector);
    }
    assert(b@[word] == x ^ flip);
    assert((a@[word] ^ b@[word]) == flip);
    assert(ones(0) == 0);
    assert(word == 0 || word == 1 || word == 2 || word == 3);
}

/// A capture is compared with each that is remembered, and only with those: it
/// is redundant next to one that differs in fewer bits than the threshold, and
/// stays so with more to compare with and with a larger threshold; one that
/// differs in as many bits from everything that is remembered is not.
pub proof fn law_redundant_captures_are_near_one(
    current: DHash,
    history: Seq<DHash>,
    threshold: u32,
    near: int,
)
    ensures
        0 <= near < history.len() && distance(current, history[near]) < threshold ==> redundant(
            current,
            history,
            threshold,
        ),
        (forall|i: int| 0 <= i < history.len() ==> distance(current, #[trigger] history[i])
            >= threshold) ==> !redundant(current, history, threshold),
        !redundant(current, history, 0),
        !redundant(current, Seq::empty(), threshold),
{
}

/// A bit of the hash tells whether a sample is brighter than the one to its
/// right: of row `row` and column `col`, that bit is number `row * size + col`,
/// counted from the lowest bit of the first word.
pub proof fn law_hash_bits_compare_neighbours(
    hash: Seq<u64>,
    gray: Seq<u8>,
    size: nat,
    row: int,
    col: int,
)
    requires
        is_dhash(hash, gray, size),
        0 < size <= 16,
        0 <= row < size,
        0 <= col < size,
    ensures
        ({
            let k = row * size + col;
            let left = gray[row * (size + 1) + col];
            let right = gray[row * (size + 1) + col + 1];
            &&& 0 <= k < 256
            &&& (hash[k / 64] >> ((k % 64) as u64)) & 1 == 1 <==> left > right
        }),
{
    let k = row * size + col;
    lemma_place(row, col, size as int);
    assert(0 <= row * size && row * size + size <= size * size && size * size <= 256)
        by (nonlinear_arith)
        requires
            0 <= row < size,
            0 < size <= 16,
    ;
    assert(hash_bit(hash, k) == (k < size * size && brighter(gray, size, k)));
}

} // verus!
