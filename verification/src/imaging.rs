//! The preparation of images for a model.

use vstd::prelude::*;

use crate::tagger::{options_error, validate_options, PredictionError, TaggerOptions};

verus! {

/// An image with red, green, blue and alpha for each pixel, row by row.
#[derive(Debug)]
pub struct RgbaPixels {
    pub width: u32,
    pub height: u32,
    pub bytes: Vec<u8>,
}

impl RgbaPixels {
    /// Whether there are four bytes for each pixel.
    pub open spec fn is_image(&self) -> bool {
        self.bytes@.len() == self.width * self.height * 4
    }
}

/// The longer side of an image.
pub open spec fn long_side(width: u32, height: u32) -> u32 {
    if width > height {
        width
    } else {
        height
    }
}

/// A channel on a white ground, where the pixel has the given alpha.
pub open spec fn on_white(channel: u8, alpha: u8) -> u8 {
    ((channel * alpha + 255 * (255 - alpha) + 127) / 255) as u8
}

/// One channel of the square image: the image in its centre on a white ground.
/// Where the padding is odd, the extra pixel is at the right or at the bottom.
pub open spec fn squared_at(
    bytes: Seq<u8>,
    width: int,
    height: int,
    x: int,
    y: int,
    channel: int,
) -> u8 {
    let side = if width > height {
        width
    } else {
        height
    };
    let column = x - (side - width) / 2;
    let row = y - (side - height) / 2;
    if 0 <= column < width && 0 <= row < height {
        let at = (row * width + column) * 4;
        on_white(bytes[at + channel], bytes[at + 3])
    } else {
        255u8
    }
}

/// The square image, with three bytes for each pixel.
pub open spec fn squared(bytes: Seq<u8>, width: int, height: int) -> Seq<u8> {
    let side = if width > height {
        width
    } else {
        height
    };
    Seq::new(
        (side * side * 3) as nat,
        |i: int| squared_at(bytes, width, height, i / 3 % side, i / 3 / side, i % 3),
    )
}

/// The pixels with blue first and red last.
pub open spec fn bgr(pixels: Seq<u8>) -> Seq<u8> {
    Seq::new(pixels.len(), |i: int| pixels[i / 3 * 3 + 2 - i % 3])
}

/// Why an image cannot be prepared.
#[derive(Clone, Copy, Debug, PartialEq, Eq, Structural)]
pub enum ImageError {
    /// The size of the model's images is zero.
    NoSize,
    /// The image has no pixels.
    NoPixels,
}

impl ImageError {
    /// What the error says.
    pub open spec fn text(&self) -> Seq<char> {
        match *self {
            ImageError::NoSize => "model image size must be non-zero"@,
            ImageError::NoPixels => "image has zero width or height"@,
        }
    }

    /// What the error says.
    pub fn message(&self) -> (text: String)
        ensures
            text@ == self.text(),
    {
        match self {
            ImageError::NoSize => "model image size must be non-zero".to_owned(),
            ImageError::NoPixels => "image has zero width or height".to_owned(),
        }
    }
}

/// Whether the buffers for the resizing of an image fit into memory, and 32-bit
/// floating point numbers count its pixels exactly.
pub open spec fn fits(side: int, size: int) -> bool {
    &&& side <= 0x100_0000
    &&& size <= 0x100_0000
    &&& side * side * 3 <= isize::MAX
    &&& side * size * 16 <= isize::MAX
    &&& size * size * 3 <= isize::MAX
}

/// Whether an image with the given sides can be resized.
pub fn can_resize(width: u32, height: u32, size: u32) -> (yes: bool)
    ensures
        yes == fits(long_side(width, height) as int, size as int),
{
    let side: u32 = if width > height {
        width
    } else {
        height
    };
    if side > 0x100_0000 || size > 0x100_0000 {
        return false;
    }
    let a: u128 = side as u128;
    let b: u128 = size as u128;
    let limit: u128 = isize::MAX as u128;
    assert(a * a * 3 <= 0x100_0000 * 0x100_0000 * 3 && a * b * 16 <= 0x100_0000 * 0x100_0000 * 16
        && b * b * 3 <= 0x100_0000 * 0x100_0000 * 3 && a * a <= 0x100_0000 * 0x100_0000 && a * b
        <= 0x100_0000 * 0x100_0000 && b * b <= 0x100_0000 * 0x100_0000) by (nonlinear_arith)
        requires
            0 <= a <= 0x100_0000,
            0 <= b <= 0x100_0000,
    ;
    a * a * 3 <= limit && a * b * 16 <= limit && b * b * 3 <= limit
}

/// Whether a square image with three bytes for each pixel can be what
/// `imageops::resize` of the `image` crate, with the Catmull-Rom filter, makes of
/// another one.
pub uninterp spec fn resizes_to(pixels: Seq<u8>, side: u32, size: u32, result: Seq<u8>) -> bool;

/// Calls `imageops::resize` of the `image` crate, with the Catmull-Rom filter,
/// on a square image with three bytes for each pixel. The contract claims that
/// the result is one that the call can give for these pixels and sizes, its
/// length, and that an image which has the wanted size already is returned
/// unchanged. What the filter makes of the pixels otherwise is left open: it is
/// computed in floating point with `f32::powi`, whose precision depends on the
/// machine.
#[verifier::external_body]
fn resize_square(pixels: Vec<u8>, side: u32, size: u32) -> (resized: Vec<u8>)
    requires
        side > 0,
        size > 0,
        fits(side as int, size as int),
        pixels@.len() == side * side * 3,
    ensures
        resizes_to(pixels@, side, size, resized@),
        resized@.len() == size * size * 3,
        size == side ==> resized@ == pixels@,
{
    let image = image::RgbImage::from_raw(side, side, pixels).expect("three bytes for each pixel");
    let filter = image::imageops::FilterType::CatmullRom;
    image::imageops::resize(&image, size, size, filter).into_raw()
}

fn white_channel(channel: u8, alpha: u8) -> (result: u8)
    ensures
        result == on_white(channel, alpha),
{
    let c: u32 = channel as u32;
    let a: u32 = alpha as u32;
    assert(c * a <= 255 * 255) by (nonlinear_arith)
        requires
            c <= 255,
            a <= 255,
    ;
    assert(c * a + 255 * (255 - a) <= 255 * 255) by (nonlinear_arith)
        requires
            c <= 255,
            a <= 255,
    ;
    let sum: u32 = c * a + 255 * (255 - a) + 127;
    assert(sum / 255 <= 255);
    (sum / 255) as u8
}

proof fn lemma_pixel_bound(row: int, column: int, width: int, height: int, step: int)
    requires
        0 <= row < height,
        0 <= column < width,
        step > 0,
    ensures
        0 <= row * width + column < width * height,
        0 <= (row * width + column) * step,
        (row * width + column) * step + step <= width * height * step,
{
    assert(row * width + column < width * height) by (nonlinear_arith)
        requires
            0 <= row < height,
            0 <= column < width,
    ;
    assert(0 <= row * width) by (nonlinear_arith)
        requires
            0 <= row,
            0 <= width,
    ;
    let at = row * width + column;
    let all = width * height;
    assert(0 <= at * step) by (nonlinear_arith)
        requires
            0 <= at,
            step > 0,
    ;
    assert(at * step + step <= all * step) by (nonlinear_arith)
        requires
            at + 1 <= all,
            step > 0,
    ;
}

proof fn lemma_place(side: int, x: int, y: int, channel: int)
    requires
        0 <= x < side,
        0 <= y < side,
        0 <= channel < 3,
    ensures
        ({
            let i = (y * side + x) * 3 + channel;
            &&& i / 3 == y * side + x
            &&& i % 3 == channel
            &&& i / 3 % side == x
            &&& i / 3 / side == y
        }),
{
    let p = y * side + x;
    assert((p * 3 + channel) / 3 == p && (p * 3 + channel) % 3 == channel);
    vstd::arithmetic::div_mod::lemma_fundamental_div_mod_converse(p, side, y, x);
}

/// The image in the centre of a white square.
fn square(image: &RgbaPixels) -> (pixels: Vec<u8>)
    requires
        image.is_image(),
        image.width > 0,
        image.height > 0,
        long_side(image.width, image.height) * long_side(image.width, image.height) * 3
            <= isize::MAX,
    ensures
        pixels@ == squared(image.bytes@, image.width as int, image.height as int),
{
    let width: u32 = image.width;
    let height: u32 = image.height;
    let side: u32 = if width > height {
        width
    } else {
        height
    };
    let left: u32 = (side - width) / 2;
    let top: u32 = (side - height) / 2;
    let ghost n = side as int;
    let ghost target = squared(image.bytes@, width as int, height as int);
    let mut pixels: Vec<u8> = Vec::new();
    let length: usize = image.bytes.len();
    assert(0 * n * 3 == 0) by (nonlinear_arith);
    for y in 0..side
        invariant
            n == side,
            side == long_side(width, height),
            width == image.width,
            height == image.height,
            image.is_image(),
            length == image.bytes@.len(),
            left == (side - width) / 2,
            top == (side - height) / 2,
            target == squared(image.bytes@, width as int, height as int),
            target.len() == n * n * 3,
            n * n * 3 <= isize::MAX,
            pixels@.len() == y * n * 3,
            forall|k: int| 0 <= k < pixels@.len() ==> pixels@[k] == target[k],
    {
        for x in 0..side
            invariant
                n == side,
                y < side,
                side == long_side(width, height),
                width == image.width,
                height == image.height,
                image.is_image(),
                length == image.bytes@.len(),
                left == (side - width) / 2,
                top == (side - height) / 2,
                target == squared(image.bytes@, width as int, height as int),
                target.len() == n * n * 3,
                n * n * 3 <= isize::MAX,
                pixels@.len() == (y * n + x) * 3,
                forall|k: int| 0 <= k < pixels@.len() ==> pixels@[k] == target[k],
        {
            let ghost at = (y * n + x) * 3;
            proof {
                lemma_pixel_bound(y as int, x as int, n, n, 3);
                lemma_place(n, x as int, y as int, 0);
                lemma_place(n, x as int, y as int, 1);
                lemma_place(n, x as int, y as int, 2);
            }
            if x >= left && x - left < width && y >= top && y - top < height {
                let column: usize = (x - left) as usize;
                let row: usize = (y - top) as usize;
                proof {
                    lemma_pixel_bound(row as int, column as int, width as int, height as int, 4);
                    assert((row * width + column) * 4 + 4 <= length);
                    assert(0 <= row * width <= row * width + column) by (nonlinear_arith)
                        requires
                            0 <= row,
                            0 <= width,
                            0 <= column,
                    ;
                }
                let from: usize = (row * (width as usize) + column) * 4;
                let alpha: u8 = image.bytes[from + 3];
                pixels.push(white_channel(image.bytes[from], alpha));
                pixels.push(white_channel(image.bytes[from + 1], alpha));
                pixels.push(white_channel(image.bytes[from + 2], alpha));
            } else {
                pixels.push(255);
                pixels.push(255);
                pixels.push(255);
            }
            assert(pixels@[at] == target[at]);
            assert(pixels@[at + 1] == target[at + 1]);
            assert(pixels@[at + 2] == target[at + 2]);
            assert((y * n + x + 1) * 3 == at + 3);
        }
        assert((y * n + n) * 3 == (y + 1) * n * 3) by (nonlinear_arith);
    }
    assert(pixels@ =~= target);
    pixels
}

/// The pixels with blue first and red last.
pub fn reverse_channels(pixels: &Vec<u8>) -> (result: Vec<u8>)
    requires
        pixels@.len() % 3 == 0,
    ensures
        result@ == bgr(pixels@),
{
    let mut result: Vec<u8> = Vec::new();
    let mut i: usize = 0;
    while i < pixels.len()
        invariant
            pixels@.len() % 3 == 0,
            i <= pixels@.len(),
            i % 3 == 0,
            result@.len() == i,
            forall|k: int| 0 <= k < i ==> result@[k] == pixels@[k / 3 * 3 + 2 - k % 3],
        decreases pixels@.len() - i,
    {
        assert(i + 3 <= pixels@.len());
        result.push(pixels[i + 2]);
        result.push(pixels[i + 1]);
        result.push(pixels[i]);
        i = i + 3;
    }
    assert(result@ =~= bgr(pixels@));
    result
}

/// Whether pixels can be what a model is given for an image: the image on a white
/// ground, in the centre of a square, resized, and with blue first.
pub open spec fn is_model_image(image: RgbaPixels, size: u32, pixels: Seq<u8>) -> bool {
    let side = long_side(image.width, image.height);
    let centred = squared(image.bytes@, image.width as int, image.height as int);
    exists|resized: Seq<u8>|
        {
            &&& #[trigger] resizes_to(centred, side, size, resized)
            &&& resized.len() == size * size * 3
            &&& size == side ==> resized == centred
            &&& pixels == bgr(resized)
        }
}

/// Prepares an image for a model: on a white ground, in the centre of a square,
/// resized, and with blue first. Each byte is a number that the model takes.
pub fn preprocess_image(image: &RgbaPixels, size: u32) -> (result: Result<Vec<u8>, ImageError>)
    requires
        image.is_image(),
        fits(long_side(image.width, image.height) as int, size as int),
    ensures
        match result {
            Ok(pixels) => {
                &&& size > 0
                &&& image.width > 0
                &&& image.height > 0
                &&& pixels@.len() == size * size * 3
                &&& is_model_image(*image, size, pixels@)
            },
            Err(ImageError::NoSize) => size == 0,
            Err(ImageError::NoPixels) => size > 0 && (image.width == 0 || image.height == 0),
        },
{
    if size == 0 {
        return Err(ImageError::NoSize);
    }
    if image.width == 0 || image.height == 0 {
        return Err(ImageError::NoPixels);
    }
    let side: u32 = if image.width > image.height {
        image.width
    } else {
        image.height
    };
    let pixels = square(image);
    assert(pixels@.len() == side * side * 3) by {
        assert(0 <= side * side * 3) by (nonlinear_arith);
    }
    let resized = resize_square(pixels, side, size);
    assert((size * size * 3) % 3 == 0) by (nonlinear_arith);
    Ok(reverse_channels(&resized))
}

/// Why a model is not asked about an image.
#[derive(Clone, Copy, Debug, PartialEq, Eq, Structural)]
pub enum InputRefusal {
    /// The thresholds cannot be used.
    Options(PredictionError),
    /// The image is too large to be resized.
    TooLarge,
    /// The image cannot be prepared.
    Image(ImageError),
}

impl InputRefusal {
    /// What the error says.
    pub fn message(&self) -> (text: String)
        ensures
            match *self {
                InputRefusal::Options(error) => text@ == error.text(),
                InputRefusal::TooLarge => text@ == "image is too large"@,
                InputRefusal::Image(error) => text@ == error.text(),
            },
    {
        match self {
            InputRefusal::Options(error) => error.message(),
            InputRefusal::TooLarge => "image is too large".to_owned(),
            InputRefusal::Image(error) => error.message(),
        }
    }
}

/// What a model is given for an image, once the thresholds with which its answer
/// will be read were looked at.
pub fn model_input(image: &RgbaPixels, size: u32, options: TaggerOptions) -> (result: Result<
    Vec<u8>,
    InputRefusal,
>)
    requires
        image.is_image(),
    ensures
        ({
            let empty = image.width == 0 || image.height == 0;
            let large = !fits(long_side(image.width, image.height) as int, size as int);
            match (options_error(options), result) {
                (Some(expected), Err(InputRefusal::Options(error))) => error == expected,
                (None, Err(InputRefusal::Image(ImageError::NoSize))) => size == 0,
                (None, Err(InputRefusal::Image(ImageError::NoPixels))) => size > 0 && empty,
                (None, Err(InputRefusal::TooLarge)) => size > 0 && !empty && large,
                (None, Ok(pixels)) => {
                    &&& size > 0
                    &&& !empty
                    &&& !large
                    &&& pixels@.len() == size * size * 3
                    &&& is_model_image(*image, size, pixels@)
                },
                _ => false,
            }
        }),
{
    match validate_options(options) {
        Ok(_) => {},
        Err(error) => {
            return Err(InputRefusal::Options(error));
        },
    }
    if size == 0 {
        return Err(InputRefusal::Image(ImageError::NoSize));
    }
    if image.width == 0 || image.height == 0 {
        return Err(InputRefusal::Image(ImageError::NoPixels));
    }
    if !can_resize(image.width, image.height, size) {
        return Err(InputRefusal::TooLarge);
    }
    match preprocess_image(image, size) {
        Ok(pixels) => Ok(pixels),
        Err(error) => Err(InputRefusal::Image(error)),
    }
}

/// An image that has the size of the model's images already, and no
/// transparency, goes to the model as it is, with blue first.
pub proof fn law_opaque_square_is_kept(bytes: Seq<u8>, side: int, x: int, y: int, channel: int)
    requires
        bytes.len() == side * side * 4,
        0 <= x < side,
        0 <= y < side,
        0 <= channel < 3,
        bytes[(y * side + x) * 4 + 3] == 255,
    ensures
        bgr(squared(bytes, side, side))[(y * side + x) * 3 + 2 - channel] == bytes[(y * side + x) * 4
            + channel],
{
    lemma_pixel_bound(y, x, side, side, 3);
    lemma_place(side, x, y, channel);
    lemma_place(side, x, y, 2 - channel);
    let p = y * side + x;
    let pixels = squared(bytes, side, side);
    assert(0 <= side * side * 3) by (nonlinear_arith)
        requires
            side > 0,
    ;
    assert(pixels.len() == side * side * 3);
    assert(pixels[p * 3 + channel] == squared_at(bytes, side, side, x, y, channel));
    let c = bytes[p * 4 + channel];
    assert((c * 255 + 255 * (255 - 255) + 127) / 255 == c) by (nonlinear_arith)
        requires
            0 <= c <= 255,
    ;
}

/// A colour laid on white is the nearest to the mean of both by its opacity: a
/// colour that is not transparent stays, and one that is wholly so gives white.
pub proof fn law_colours_are_laid_on_white(channel: u8, alpha: u8)
    ensures
        -127 <= 255 * on_white(channel, alpha) - (channel * alpha + 255 * (255 - alpha)) <= 127,
        on_white(channel, 255) == channel,
        on_white(channel, 0) == 255,
        channel <= on_white(channel, alpha),
{
    let exact = channel * alpha + 255 * (255 - alpha);
    assert(channel * 255 <= exact <= 255 * 255) by (nonlinear_arith)
        requires
            exact == channel * alpha + 255 * (255 - alpha),
            0 <= channel <= 255,
            0 <= alpha <= 255,
    ;
    assert(channel * 0 == 0 && channel * 255 == 255 * channel) by (nonlinear_arith);
}

/// An image is put in the middle of a square: its pixel in column `x` and row
/// `y` is found as many columns and rows further on as there are margins to the
/// left and at the top, and of the margins on opposite sides the second is as wide
/// as the first or one pixel wider.
pub proof fn law_image_is_centred(
    bytes: Seq<u8>,
    width: int,
    height: int,
    side: int,
    left: int,
    top: int,
    x: int,
    y: int,
    channel: int,
)
    requires
        bytes.len() == width * height * 4,
        side == width && width >= height || side == height && height >= width,
        0 <= left <= side - width - left <= left + 1,
        0 <= top <= side - height - top <= top + 1,
        0 <= x < width,
        0 <= y < height,
        0 <= channel < 3,
    ensures
        squared(bytes, width, height).len() == side * side * 3,
        squared(bytes, width, height)[((y + top) * side + (x + left)) * 3 + channel] == on_white(
            bytes[(y * width + x) * 4 + channel],
            bytes[(y * width + x) * 4 + 3],
        ),
{
    lemma_pixel_bound(y + top, x + left, side, side, 3);
    lemma_place(side, x + left, y + top, channel);
    assert(left == (side - width) / 2);
    assert(top == (side - height) / 2);
    assert(0 <= side * side * 3) by (nonlinear_arith)
        requires
            side > 0,
    ;
    let i = ((y + top) * side + (x + left)) * 3 + channel;
    assert(squared(bytes, width, height)[i] == squared_at(
        bytes,
        width,
        height,
        x + left,
        y + top,
        channel,
    ));
}

/// The margins around a centred image are white.
pub proof fn law_margins_are_white(
    bytes: Seq<u8>,
    width: int,
    height: int,
    side: int,
    left: int,
    top: int,
    x: int,
    y: int,
    channel: int,
)
    requires
        0 < width,
        0 < height,
        side == width && width >= height || side == height && height >= width,
        0 <= left <= side - width - left <= left + 1,
        0 <= top <= side - height - top <= top + 1,
        0 <= x < side,
        0 <= y < side,
        x < left || left + width <= x || y < top || top + height <= y,
        0 <= channel < 3,
    ensures
        squared(bytes, width, height)[(y * side + x) * 3 + channel] == 255,
{
    lemma_pixel_bound(y, x, side, side, 3);
    lemma_place(side, x, y, channel);
    assert(left == (side - width) / 2);
    assert(top == (side - height) / 2);
    assert(0 <= side * side * 3) by (nonlinear_arith)
        requires
            side > 0,
    ;
    assert(squared(bytes, width, height)[(y * side + x) * 3 + channel] == squared_at(
        bytes,
        width,
        height,
        x,
        y,
        channel,
    ));
}

/// Of each pixel the first and the last colour change places, and nothing else
/// does; twice is as before.
pub proof fn law_blue_comes_first(pixels: Seq<u8>, pixel: int)
    requires
        pixels.len() % 3 == 0,
        0 <= pixel,
        pixel * 3 + 2 < pixels.len(),
    ensures
        bgr(pixels).len() == pixels.len(),
        bgr(pixels)[pixel * 3] == pixels[pixel * 3 + 2],
        bgr(pixels)[pixel * 3 + 1] == pixels[pixel * 3 + 1],
        bgr(pixels)[pixel * 3 + 2] == pixels[pixel * 3],
        bgr(bgr(pixels)) == pixels,
{
    assert(bgr(bgr(pixels)) =~= pixels);
}

/// Where a model takes images of the size that an image has, it gets the image
/// in the middle of a white square, pixel by pixel, with blue first.
pub proof fn law_model_sees_the_image(
    image: RgbaPixels,
    size: u32,
    pixels: Seq<u8>,
    left: int,
    top: int,
    x: int,
    y: int,
    channel: int,
)
    requires
        image.is_image(),
        is_model_image(image, size, pixels),
        size == image.width && image.width >= image.height || size == image.height && image.height
            >= image.width,
        0 <= left <= size - image.width - left <= left + 1,
        0 <= top <= size - image.height - top <= top + 1,
        0 <= x < image.width,
        0 <= y < image.height,
        0 <= channel < 3,
    ensures
        pixels.len() == size * size * 3,
        pixels[((y + top) * size + (x + left)) * 3 + (2 - channel)] == on_white(
            image.bytes@[(y * image.width + x) * 4 + channel],
            image.bytes@[(y * image.width + x) * 4 + 3],
        ),
{
    let width = image.width as int;
    let height = image.height as int;
    let centred = squared(image.bytes@, width, height);
    let p = (y + top) * size + (x + left);
    law_image_is_centred(image.bytes@, width, height, size as int, left, top, x, y, channel);
    lemma_pixel_bound(y + top, x + left, size as int, size as int, 3);
    assert(0 <= p * 3 && p * 3 + 3 <= size * size * 3);
    assert(bgr(centred)[p * 3 + (2 - channel)] == centred[p * 3 + channel]);
}

/// What is resized for a model is the image in the middle of a white square, and
/// what comes out goes to the model with blue first.
pub proof fn law_centred_image_is_resized(
    image: RgbaPixels,
    size: u32,
    pixels: Seq<u8>,
    side: u32,
    left: int,
    top: int,
) -> (resized: Seq<u8>)
    requires
        image.is_image(),
        image.width > 0,
        image.height > 0,
        is_model_image(image, size, pixels),
        side == image.width && image.width >= image.height || side == image.height && image.height
            >= image.width,
        0 <= left <= side - image.width - left <= left + 1,
        0 <= top <= side - image.height - top <= top + 1,
    ensures
        exists|given: Seq<u8>|
            {
                &&& #[trigger] resizes_to(given, side, size, resized)
                &&& given.len() == side * side * 3
                &&& forall|x: int, y: int, channel: int|
                    0 <= x < image.width && 0 <= y < image.height && 0 <= channel < 3
                        ==> #[trigger] given[((y + top) * side + (x + left)) * 3 + channel]
                        == on_white(
                        image.bytes@[(y * image.width + x) * 4 + channel],
                        image.bytes@[(y * image.width + x) * 4 + 3],
                    )
                &&& forall|x: int, y: int, channel: int|
                    0 <= x < side && 0 <= y < side && 0 <= channel < 3 && (x < left || left
                        + image.width <= x || y < top || top + image.height <= y)
                        ==> #[trigger] given[(y * side + x) * 3 + channel] == 255
            },
        pixels.len() == resized.len() == size * size * 3,
        forall|k: int|
            0 <= k && k * 3 + 2 < pixels.len() ==> {
                &&& #[trigger] pixels[k * 3] == resized[k * 3 + 2]
                &&& pixels[k * 3 + 1] == resized[k * 3 + 1]
                &&& pixels[k * 3 + 2] == resized[k * 3]
            },
{
    let width = image.width as int;
    let height = image.height as int;
    let given = squared(image.bytes@, width, height);
    let resized = choose|resized: Seq<u8>|
        {
            &&& #[trigger] resizes_to(given, side, size, resized)
            &&& resized.len() == size * size * 3
            &&& pixels == bgr(resized)
        };
    law_image_is_centred(image.bytes@, width, height, side as int, left, top, 0, 0, 0);
    assert forall|x: int, y: int, channel: int|
        0 <= x < image.width && 0 <= y < image.height && 0 <= channel
            < 3 implies #[trigger] given[((y + top) * side + (x + left)) * 3 + channel] == on_white(
        image.bytes@[(y * image.width + x) * 4 + channel],
        image.bytes@[(y * image.width + x) * 4 + 3],
    ) by {
        law_image_is_centred(image.bytes@, width, height, side as int, left, top, x, y, channel);
    }
    assert forall|x: int, y: int, channel: int|
        0 <= x < side && 0 <= y < side && 0 <= channel < 3 && (x < left || left + image.width <= x
            || y < top || top + image.height
            <= y) implies #[trigger] given[(y * side + x) * 3 + channel] == 255 by {
        law_margins_are_white(image.bytes@, width, height, side as int, left, top, x, y, channel);
    }
    resized
}

/// Images of any usual size can be resized to any usual size of a model.
pub proof fn law_usual_images_fit(side: int, size: int)
    requires
        0 <= side <= 16_384,
        0 <= size <= 4_096,
    ensures
        fits(side, size),
{
    assert(side * side <= 16_384 * 16_384) by (nonlinear_arith)
        requires
            0 <= side <= 16_384,
    ;
    assert(side * size <= 16_384 * 4_096) by (nonlinear_arith)
        requires
            0 <= side <= 16_384,
            0 <= size <= 4_096,
    ;
    assert(size * size <= 4_096 * 4_096) by (nonlinear_arith)
        requires
            0 <= size <= 4_096,
    ;
}

} // verus!
