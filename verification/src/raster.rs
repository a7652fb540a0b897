//! Decoded images as plain samples, and what the `image` crate computes on them.

use crate::text::begins_with;
use image::ImageEncoder;
use vstd::prelude::*;

verus! {

/// A decoded image: its luminance, its colours, and whether the file stored no colour.
pub struct Picture {
    pub width: u32,
    pub height: u32,
    /// Row-major 8-bit luminance.
    pub gray: Vec<u8>,
    /// Row-major interleaved 8-bit red, green and blue.
    pub rgb: Vec<u8>,
    /// Whether the image has luminance (and perhaps alpha) channels only.
    pub monochrome: bool,
}

impl Picture {
    /// The buffers hold one sample, and three samples, per pixel.
    pub open spec fn wf(&self) -> bool {
        &&& self.gray@.len() == self.width * self.height
        &&& self.rgb@.len() == self.width * self.height * 3
    }

    /// What decoding fixes of the picture: the width, the height, the colours, and the
    /// luminance where the image has no colour.
    pub open spec fn value(&self) -> (u32, u32, Seq<u8>, Option<Seq<u8>>) {
        (
            self.width,
            self.height,
            self.rgb@,
            if self.monochrome {
                Some(self.gray@)
            } else {
                None
            },
        )
    }
}

/// Samples of one image: luminance only, or interleaved red, green and blue.
pub struct Frame {
    pub width: u32,
    pub height: u32,
    pub samples: Vec<u8>,
    pub monochrome: bool,
}

/// How many samples a pixel has.
pub open spec fn channels(monochrome: bool) -> int {
    if monochrome {
        1
    } else {
        3
    }
}

/// The colours of a luminance plane: every sample three times.
pub open spec fn tripled(gray: Seq<u8>) -> Seq<u8> {
    Seq::new(gray.len() * 3, |i: int| gray[i / 3])
}

/// The interleaved colours of an image.
pub open spec fn colors_of(samples: Seq<u8>, monochrome: bool) -> Seq<u8> {
    if monochrome {
        tripled(samples)
    } else {
        samples
    }
}

/// The colours of an image saved as JPEG at a quality and read back, where both succeed and
/// the size is kept.
pub open spec fn resaved(
    samples: Seq<u8>,
    width: u32,
    height: u32,
    monochrome: bool,
    quality: u8,
) -> Option<Seq<u8>> {
    match jpeg_file(samples, width, height, monochrome, quality) {
        Some(b) => match jpeg_colors(b) {
            Some(c) => if c.0 == width && c.1 == height {
                Some(c.2)
            } else {
                None
            },
            None => None,
        },
        None => None,
    }
}

impl Frame {
    /// The buffer holds the samples of every pixel, and no more.
    pub open spec fn wf(&self) -> bool {
        self.samples@.len() == self.width * self.height * channels(self.monochrome)
    }
}

/// The file formats that are told apart.
#[derive(Clone, Copy, PartialEq, Eq, Structural, Debug)]
pub enum Format {
    Png,
    Bmp,
    Jpeg,
    Other,
}

/// The eight bytes that a PNG file begins with.
pub open spec fn png_signature() -> Seq<u8> {
    seq![0x89u8, 0x50, 0x4e, 0x47, 0x0d, 0x0a, 0x1a, 0x0a]
}

/// The three bytes that a JPEG file begins with.
pub open spec fn jpeg_signature() -> Seq<u8> {
    seq![0xffu8, 0xd8, 0xff]
}

/// The two bytes that a BMP file begins with.
pub open spec fn bmp_signature() -> Seq<u8> {
    seq![0x42u8, 0x4d]
}

/// The format of a file.
pub open spec fn format_of(bytes: Seq<u8>) -> Format {
    if begins_with(bytes, png_signature()) {
        Format::Png
    } else if begins_with(bytes, jpeg_signature()) {
        Format::Jpeg
    } else if begins_with(bytes, bmp_signature()) {
        Format::Bmp
    } else {
        Format::Other
    }
}

/// The most pixels of a decoded picture: decoding takes no more than 512 MiB, and a pixel
/// at least one byte.
pub const MAX_PIXELS: u64 = 536_870_912;

/// The longest side that an image may have, before or after resampling: up to it the
/// positions of samples, which are computed in single precision, are off by less than half
/// a pixel.
pub const LONGEST_SIDE: u32 = 4_194_304;

/// Whether an image of `w` by `h` pixels can be resampled to `nw` by `nh`: no side is over
/// the longest, and the buffers can be allocated.
pub open spec fn resizable(w: u32, h: u32, nw: u32, nh: u32) -> bool {
    &&& w <= LONGEST_SIDE
    &&& h <= LONGEST_SIDE
    &&& nw <= LONGEST_SIDE
    &&& nh <= LONGEST_SIDE
    &&& w * (nh + 1) * 16 <= isize::MAX
    &&& (nw + 1) * (nh + 1) * 16 <= isize::MAX
}

/// What decoding a file yields: the width, the height, the colours, and the luminance where
/// the image has no colour, or the text of the error. It names a chain of calls:
/// `ImageReader::with_guessed_format` and `ImageReader::decode`, then
/// `DynamicImage::to_rgb8`, `ColorType::has_color` and, without colour,
/// `DynamicImage::to_luma8` of what was decoded.
pub uninterp spec fn decoded(bytes: Seq<u8>) -> Result<
    (u32, u32, Seq<u8>, Option<Seq<u8>>),
    Seq<char>,
>;

/// What decoding a file as JPEG yields: the width, the height and the colours. It names a
/// chain of calls: `ImageReader::with_format` and `ImageReader::decode`, then
/// `DynamicImage::to_rgb8` of what was decoded.
pub uninterp spec fn jpeg_colors(bytes: Seq<u8>) -> Option<(u32, u32, Seq<u8>)>;

/// The JPEG file of an image (`JpegEncoder::encode`): of its samples, width and height,
/// whether it is monochrome, and the quality.
pub uninterp spec fn jpeg_file(
    samples: Seq<u8>,
    width: u32,
    height: u32,
    monochrome: bool,
    quality: u8,
) -> Option<Seq<u8>>;

/// The PNG file of an image (`PngEncoder::write_image`): of its samples, width and height,
/// and whether it is monochrome.
pub uninterp spec fn png_file(
    samples: Seq<u8>,
    width: u32,
    height: u32,
    monochrome: bool,
) -> Option<Seq<u8>>;

/// The PNG file that a decoded file is written to. It names a chain of calls:
/// `ImageReader::with_guessed_format` and `ImageReader::decode`, then
/// `DynamicImage::write_to` of what was decoded.
pub uninterp spec fn png_of_file(bytes: Seq<u8>) -> Option<Seq<u8>>;

/// An image scaled to fit a size with its aspect kept (`DynamicImage::resize` with the
/// triangle filter): the width, the height and the samples.
pub uninterp spec fn fitted(
    samples: Seq<u8>,
    width: u32,
    height: u32,
    monochrome: bool,
    to_width: u32,
    to_height: u32,
) -> (u32, u32, Seq<u8>);

/// A luminance plane resampled to a size (`imageops::resize` with the triangle filter).
pub uninterp spec fn gray_resampled(
    samples: Seq<u8>,
    width: u32,
    height: u32,
    to_width: u32,
    to_height: u32,
) -> Seq<u8>;

/// An interleaved colour image resampled to a size (`imageops::resize` with the triangle
/// filter).
pub uninterp spec fn rgb_resampled(
    samples: Seq<u8>,
    width: u32,
    height: u32,
    to_width: u32,
    to_height: u32,
) -> Seq<u8>;

/// Whether a file that can be decoded holds just these samples: in colour, and as luminance
/// where they are luminance.
pub open spec fn holds_samples(
    bytes: Seq<u8>,
    samples: Seq<u8>,
    width: u32,
    height: u32,
    monochrome: bool,
) -> bool {
    match decoded(bytes) {
        Ok(p) => p.0 == width && p.1 == height && p.2 == colors_of(samples, monochrome) && p.3
            == if monochrome {
            Some(samples)
        } else {
            None
        },
        Err(_) => true,
    }
}

/// Decodes a file whose format its first bytes tell, with `image::ImageReader`, and takes
/// the luminance by `DynamicImage::to_luma8`, the colours by `to_rgb8` and the lack of
/// colour by `ColorType::has_color`. The result is named by [`decoded`], but for the
/// luminance of an image in colour; the buffers hold one sample and three samples per
/// pixel, of which there are at most [`MAX_PIXELS`]: under the default limits the reader
/// refuses an image whose samples take more. The luminance of an image in colour is a
/// weighted sum of the colours which is rounded once or at every
/// step, as the machine has it, so that nothing more is said of it. This is said of a
/// process that registers no decoders of its own with the `image` crate.
#[verifier::external_body]
fn decode_file(bytes: &[u8]) -> (r: Result<Picture, String>)
    ensures
        match r {
            Ok(p) => decoded(bytes@) == Ok::<(u32, u32, Seq<u8>, Option<Seq<u8>>), Seq<char>>(
                p.value(),
            ) && p.wf() && p.width * p.height <= MAX_PIXELS,
            Err(e) => decoded(bytes@) == Err::<(u32, u32, Seq<u8>, Option<Seq<u8>>), Seq<char>>(e@),
        },
{
    let reader = image::ImageReader::new(std::io::Cursor::new(bytes)).with_guessed_format();
    let image = reader.map_err(|e| e.to_string())?.decode().map_err(|e| e.to_string())?;
    Ok(Picture {
        width: image.width(),
        height: image.height(),
        gray: image.to_luma8().into_raw(),
        rgb: image.to_rgb8().into_raw(),
        monochrome: !image.color().has_color(),
    })
}

/// Recognizes the format of a file by its first bytes, with `image::guess_format`. PNG,
/// JPEG and BMP are the formats of the files that begin with their signatures; any other
/// format, and none, is [`Format::Other`].
#[verifier::external_body]
fn guess(bytes: &[u8]) -> (r: Format)
    ensures
        r == format_of(bytes@),
{
    match image::guess_format(bytes) {
        Ok(image::ImageFormat::Png) => Format::Png,
        Ok(image::ImageFormat::Jpeg) => Format::Jpeg,
        Ok(image::ImageFormat::Bmp) => Format::Bmp,
        Ok(_) | Err(_) => Format::Other,
    }
}

/// Decodes a JPEG file with `image::ImageReader` and takes its colours by `to_rgb8`. The
/// result is named by [`jpeg_colors`]; there are three samples per pixel.
#[verifier::external_body]
fn decode_jpeg(bytes: &[u8]) -> (r: Option<Frame>)
    ensures
        match r {
            Some(f) => jpeg_colors(bytes@) == Some((f.width, f.height, f.samples@)) && f.wf()
                && !f.monochrome,
            None => jpeg_colors(bytes@) is None,
        },
{
    let source = std::io::Cursor::new(bytes);
    let reader = image::ImageReader::with_format(source, image::ImageFormat::Jpeg);
    let image = reader.decode().ok()?.to_rgb8();
    Some(Frame {
        width: image.width(),
        height: image.height(),
        samples: image.into_raw(),
        monochrome: false,
    })
}

/// Encodes an image as JPEG with `JpegEncoder::encode`, which refuses a side of no pixels
/// or of more than 65535. The result is named by [`jpeg_file`].
#[verifier::external_body]
fn encode_jpeg(f: &Frame, quality: u8) -> (r: Option<Vec<u8>>)
    requires
        f.wf(),
    ensures
        match r {
            Some(b) => jpeg_file(f.samples@, f.width, f.height, f.monochrome, quality) == Some(b@),
            None => jpeg_file(f.samples@, f.width, f.height, f.monochrome, quality) is None,
        },
{
    let mut out = Vec::new();
    let color = match f.monochrome {
        true => image::ExtendedColorType::L8,
        false => image::ExtendedColorType::Rgb8,
    };
    let mut encoder = image::codecs::jpeg::JpegEncoder::new_with_quality(&mut out, quality);
    encoder.encode(&f.samples, f.width, f.height, color).ok()?;
    Some(out)
}

/// Encodes an image as PNG with `PngEncoder::write_image`. The result is named by
/// [`png_file`]; a file that was written begins with the PNG signature, and where it can be
/// decoded (the decoder refuses images over its limits) the samples come back unchanged:
/// eight-bit luminance and colours are stored without loss.
#[verifier::external_body]
fn encode_png(f: &Frame) -> (r: Option<Vec<u8>>)
    requires
        f.wf(),
    ensures
        match r {
            Some(b) => png_file(f.samples@, f.width, f.height, f.monochrome) == Some(b@)
                && begins_with(b@, png_signature()) && holds_samples(
                b@,
                f.samples@,
                f.width,
                f.height,
                f.monochrome,
            ),
            None => png_file(f.samples@, f.width, f.height, f.monochrome) is None,
        },
{
    let mut out = Vec::new();
    let color = match f.monochrome {
        true => image::ExtendedColorType::L8,
        false => image::ExtendedColorType::Rgb8,
    };
    let encoder = image::codecs::png::PngEncoder::new(&mut out);
    encoder.write_image(&f.samples, f.width, f.height, color).ok()?;
    Some(out)
}

/// Decodes a file whose format its first bytes tell and writes it as PNG with
/// `DynamicImage::write_to`. The result is named by [`png_of_file`]; there is one only for a
/// file that can be decoded.
#[verifier::external_body]
fn file_to_png(bytes: &[u8]) -> (r: Option<Vec<u8>>)
    ensures
        match r {
            Some(b) => png_of_file(bytes@) == Some(b@) && decoded(bytes@) is Ok,
            None => png_of_file(bytes@) is None,
        },
{
    let reader = image::ImageReader::new(std::io::Cursor::new(bytes)).with_guessed_format();
    let image = reader.ok()?.decode().ok()?;
    let mut out = std::io::Cursor::new(Vec::new());
    image.write_to(&mut out, image::ImageFormat::Png).ok()?;
    Some(out.into_inner())
}

/// What resampling leaves of a file that it need not resample: the colours, and the
/// luminance where the image has no colour.
pub open spec fn keeps_size(
    bytes: Seq<u8>,
    width: u32,
    height: u32,
    colors: Seq<u8>,
    gray: Seq<u8>,
) -> bool {
    match decoded(bytes) {
        Ok(p) => p.0 == width && p.1 == height ==> p.2 == colors && (p.3 is Some ==> p.3 == Some(
            gray,
        )),
        Err(_) => true,
    }
}

/// Decodes a file whose format its first bytes tell and resamples it to `width` by `height`
/// with `DynamicImage::resize_exact` and the Lanczos filter; takes the colours by `to_rgb8`
/// and the luminance by `to_luma8`. There is a result just for a file that can be decoded;
/// the buffers hold three samples and one sample per pixel, and an image that has the size
/// already is copied. Nothing more is said of the samples: the weights of the filter are
/// sines, whose last digits differ between machines.
#[verifier::external_body]
fn resample_file(bytes: &[u8], width: u32, height: u32) -> (r: Option<(Vec<u8>, Vec<u8>)>)
    requires
        width <= 1024,
        height <= 1024,
    ensures
        r is Some <==> decoded(bytes@) is Ok,
        r matches Some(b) ==> b.0@.len() == width * height * 3 && b.1@.len() == width * height
            && keeps_size(bytes@, width, height, b.0@, b.1@),
{
    let reader = image::ImageReader::new(std::io::Cursor::new(bytes)).with_guessed_format();
    let image = reader.ok()?.decode().ok()?;
    let small = image.resize_exact(width, height, image::imageops::FilterType::Lanczos3);
    Some((small.to_rgb8().into_raw(), small.to_luma8().into_raw()))
}

/// Scales an image to fit `width` by `height` with its aspect kept, with
/// `DynamicImage::resize` and the triangle filter. The result is named by [`fitted`]; it has
/// the same channels and no side of no pixels. Sides over [`LONGEST_SIDE`] are left out:
/// there the filter can find no sample at a position, and the call panics.
#[verifier::external_body]
fn fit_frame(f: Frame, width: u32, height: u32) -> (r: Frame)
    requires
        f.wf(),
        f.width > 0,
        f.height > 0,
        resizable(f.width, f.height, width, height),
    ensures
        fitted(f.samples@, f.width, f.height, f.monochrome, width, height) == (
            r.width,
            r.height,
            r.samples@,
        ),
        r.monochrome == f.monochrome,
        r.wf(),
        r.width > 0,
        r.height > 0,
{
    let triangle = image::imageops::FilterType::Triangle;
    let monochrome = f.monochrome;
    let image = match monochrome {
        true => image::GrayImage::from_raw(f.width, f.height, f.samples).map(image::DynamicImage::ImageLuma8),
        false => image::RgbImage::from_raw(f.width, f.height, f.samples).map(image::DynamicImage::ImageRgb8),
    };
    let image = image.unwrap_or_default().resize(width, height, triangle);
    Frame { width: image.width(), height: image.height(), samples: image.into_bytes(), monochrome }
}

/// Resamples a luminance plane with `imageops::resize` and the triangle filter. The result
/// is named by [`gray_resampled`]; it holds one sample per pixel. Sides over
/// [`LONGEST_SIDE`] are left out, as for [`fit_frame`].
#[verifier::external_body]
fn resample_gray(gray: &[u8], width: u32, height: u32, nw: u32, nh: u32) -> (r: Vec<u8>)
    requires
        gray@.len() == width * height,
        resizable(width, height, nw, nh),
    ensures
        r@ == gray_resampled(gray@, width, height, nw, nh),
        r@.len() == nw * nh,
{
    let image = image::GrayImage::from_raw(width, height, gray.to_vec()).unwrap_or_default();
    image::imageops::resize(&image, nw, nh, image::imageops::FilterType::Triangle).into_raw()
}

/// Resamples an interleaved colour image with `imageops::resize` and the triangle filter.
/// The result is named by [`rgb_resampled`]; it holds three samples per pixel. Sides over
/// [`LONGEST_SIDE`] are left out, as for [`fit_frame`].
#[verifier::external_body]
fn resample_rgb(rgb: &[u8], width: u32, height: u32, nw: u32, nh: u32) -> (r: Vec<u8>)
    requires
        rgb@.len() == width * height * 3,
        resizable(width, height, nw, nh),
    ensures
        r@ == rgb_resampled(rgb@, width, height, nw, nh),
        r@.len() == nw * nh * 3,
{
    let image = image::RgbImage::from_raw(width, height, rgb.to_vec()).unwrap_or_default();
    image::imageops::resize(&image, nw, nh, image::imageops::FilterType::Triangle).into_raw()
}

/// Resamples an interleaved colour image with `imageops::resize` and the Lanczos filter. The
/// result holds three samples per pixel, and an image that has the size already is copied.
/// Nothing more is said of the samples: the weights of the filter are sines, whose last
/// digits differ between machines. Sides over [`LONGEST_SIDE`] are left out, as for
/// [`fit_frame`].
#[verifier::external_body]
pub(crate) fn resample_rgb_lanczos(rgb: &[u8], width: u32, height: u32, nw: u32, nh: u32) -> (r:
    Vec<u8>)
    requires
        rgb@.len() == width * height * 3,
        resizable(width, height, nw, nh),
    ensures
        r@.len() == nw * nh * 3,
        (nw, nh) == (width, height) ==> r@ == rgb@,
{
    let image = image::RgbImage::from_raw(width, height, rgb.to_vec()).unwrap_or_default();
    image::imageops::resize(&image, nw, nh, image::imageops::FilterType::Lanczos3).into_raw()
}

/// Copies samples.
fn copy_samples(s: &[u8]) -> (r: Vec<u8>)
    ensures
        r@ == s@,
{
    let mut r: Vec<u8> = Vec::new();
    r.extend_from_slice(s);
    assert(r@ =~= s@);
    r
}

impl Picture {
    /// Decodes a file whose format its first bytes tell; the error is the decoder's text.
    pub fn decode(bytes: &[u8]) -> (r: Result<Picture, String>)
        ensures
            match r {
                Ok(p) => decoded(bytes@) == Ok::<
                    (u32, u32, Seq<u8>, Option<Seq<u8>>),
                    Seq<char>,
                >(p.value()) && p.wf() && p.width * p.height <= MAX_PIXELS,
                Err(e) => decoded(bytes@) == Err::<
                    (u32, u32, Seq<u8>, Option<Seq<u8>>),
                    Seq<char>,
                >(e@),
            },
    {
        decode_file(bytes)
    }

    /// The samples that an encoder is given: the luminance of a monochrome picture, the
    /// colours of any other.
    pub fn frame(&self) -> (r: Frame)
        requires
            self.wf(),
        ensures
            r.wf(),
            r.width == self.width,
            r.height == self.height,
            r.monochrome == self.monochrome,
            r.samples@ == if self.monochrome {
                self.gray@
            } else {
                self.rgb@
            },
    {
        let samples = if self.monochrome {
            copy_samples(self.gray.as_slice())
        } else {
            copy_samples(self.rgb.as_slice())
        };
        Frame { width: self.width, height: self.height, samples, monochrome: self.monochrome }
    }
}

impl Frame {
    /// The interleaved colours.
    pub fn colors(&self) -> (r: Vec<u8>)
        ensures
            r@ == colors_of(self.samples@, self.monochrome),
    {
        if !self.monochrome {
            return copy_samples(self.samples.as_slice());
        }
        let mut r: Vec<u8> = Vec::new();
        let mut i: usize = 0;
        while i < self.samples.len()
            invariant
                0 <= i <= self.samples@.len(),
                r@ == tripled(self.samples@.take(i as int)),
            decreases self.samples@.len() - i,
        {
            let v = self.samples[i];
            r.push(v);
            r.push(v);
            r.push(v);
            i += 1;
            assert(r@ =~= tripled(self.samples@.take(i as int)));
        }
        assert(self.samples@.take(i as int) =~= self.samples@);
        r
    }

    /// Saves as JPEG at `quality`, reads back and takes the colours. `None` where either
    /// fails or the size is not kept.
    pub fn resave(&self, quality: u8) -> (r: Option<Vec<u8>>)
        requires
            self.wf(),
        ensures
            match r {
                Some(c) => resaved(
                    self.samples@,
                    self.width,
                    self.height,
                    self.monochrome,
                    quality,
                ) == Some(c@) && c@.len() == self.width * self.height * 3,
                None => resaved(
                    self.samples@,
                    self.width,
                    self.height,
                    self.monochrome,
                    quality,
                ) is None,
            },
    {
        let file = match encode_jpeg(self, quality) {
            Some(b) => b,
            None => return None,
        };
        let back = match decode_jpeg(file.as_slice()) {
            Some(f) => f,
            None => return None,
        };
        if back.width != self.width || back.height != self.height {
            return None;
        }
        Some(back.samples)
    }

    /// The PNG file of the image.
    pub fn to_png(&self) -> (r: Option<Vec<u8>>)
        requires
            self.wf(),
        ensures
            match r {
                Some(b) => png_file(self.samples@, self.width, self.height, self.monochrome)
                    == Some(b@) && begins_with(b@, png_signature()) && holds_samples(
                    b@,
                    self.samples@,
                    self.width,
                    self.height,
                    self.monochrome,
                ),
                None => png_file(self.samples@, self.width, self.height, self.monochrome) is None,
            },
    {
        encode_png(self)
    }

    /// Scales to fit a size, with the aspect kept.
    pub fn fit(self, width: u32, height: u32) -> (r: Frame)
        requires
            self.wf(),
            self.width > 0,
            self.height > 0,
            resizable(self.width, self.height, width, height),
        ensures
            fitted(self.samples@, self.width, self.height, self.monochrome, width, height) == (
                r.width,
                r.height,
                r.samples@,
            ),
            r.monochrome == self.monochrome,
            r.wf(),
            r.width > 0,
            r.height > 0,
    {
        fit_frame(self, width, height)
    }
}

/// The format of a file.
pub fn file_format(bytes: &[u8]) -> (r: Format)
    ensures
        r == format_of(bytes@),
{
    guess(bytes)
}

/// The PNG file that a decoded file is written to.
pub fn png_copy(bytes: &[u8]) -> (r: Option<Vec<u8>>)
    ensures
        match r {
            Some(b) => png_of_file(bytes@) == Some(b@) && decoded(bytes@) is Ok,
            None => png_of_file(bytes@) is None,
        },
{
    file_to_png(bytes)
}

/// The luminance plane that an analysis works on: the plane itself, or the plane resampled
/// to the size that is given.
pub fn working_gray(gray: &[u8], w: u32, h: u32, to: Option<(u32, u32)>) -> (r: Frame)
    requires
        gray@.len() == w * h,
        to matches Some(t) ==> resizable(w, h, t.0, t.1),
    ensures
        r.monochrome,
        r.wf(),
        match to {
            Some(t) => r.width == t.0 && r.height == t.1 && r.samples@ == gray_resampled(
                gray@,
                w,
                h,
                t.0,
                t.1,
            ),
            None => r.width == w && r.height == h && r.samples@ == gray@,
        },
{
    match to {
        Some(t) => {
            let samples = resample_gray(gray, w, h, t.0, t.1);
            Frame { width: t.0, height: t.1, samples, monochrome: true }
        },
        None => Frame { width: w, height: h, samples: copy_samples(gray), monochrome: true },
    }
}

/// The colours that an analysis works on: the image itself, or the image resampled to the
/// size that is given.
pub fn working_rgb(rgb: &[u8], w: u32, h: u32, to: Option<(u32, u32)>) -> (r: Frame)
    requires
        rgb@.len() == w * h * 3,
        to matches Some(t) ==> resizable(w, h, t.0, t.1),
    ensures
        !r.monochrome,
        r.wf(),
        match to {
            Some(t) => r.width == t.0 && r.height == t.1 && r.samples@ == rgb_resampled(
                rgb@,
                w,
                h,
                t.0,
                t.1,
            ),
            None => r.width == w && r.height == h && r.samples@ == rgb@,
        },
{
    match to {
        Some(t) => {
            let samples = resample_rgb(rgb, w, h, t.0, t.1);
            Frame { width: t.0, height: t.1, samples, monochrome: false }
        },
        None => Frame { width: w, height: h, samples: copy_samples(rgb), monochrome: false },
    }
}

/// Whether an image can be resampled: see [`resizable`].
pub fn can_resize(w: u32, h: u32, nw: u32, nh: u32) -> (r: bool)
    ensures
        r == resizable(w, h, nw, nh),
{
    proof {
        assert(w * (nh + 1) <= 0x1_0000_0000 * 0x1_0000_0000) by (nonlinear_arith)
            requires
                0 <= w <= 0x1_0000_0000,
                0 <= nh + 1 <= 0x1_0000_0000,
        ;
        assert((nw + 1) * (nh + 1) <= 0x1_0000_0000 * 0x1_0000_0000) by (nonlinear_arith)
            requires
                0 <= nw + 1 <= 0x1_0000_0000,
                0 <= nh + 1 <= 0x1_0000_0000,
        ;
    }
    w <= LONGEST_SIDE && h <= LONGEST_SIDE && nw <= LONGEST_SIDE && nh <= LONGEST_SIDE && w as u128
        * (nh as u128 + 1) * 16 <= isize::MAX as u128 && (nw as u128 + 1) * (nh as u128 + 1) * 16
        <= isize::MAX as u128
}

/// The number of pixels.
pub fn area(w: u32, h: u32) -> (r: u64)
    ensures
        r == w * h,
{
    proof {
        assert(w * h <= u32::MAX * u32::MAX) by (nonlinear_arith)
            requires
                0 <= w <= u32::MAX,
                0 <= h <= u32::MAX,
        ;
    }
    w as u64 * h as u64
}

/// A luminance plane of no more pixels than `limit`: the plane itself, or the plane
/// resampled to `nw` by `nh` where it has more.
pub open spec fn bounded_gray(gray: Seq<u8>, w: u32, h: u32, limit: int, nw: u32, nh: u32) -> (
    u32,
    u32,
    Seq<u8>,
) {
    if w * h > limit {
        (nw, nh, gray_resampled(gray, w, h, nw, nh))
    } else {
        (w, h, gray)
    }
}

/// The plane that an analysis with a cap on the pixel count works on.
pub fn bound_gray(gray: &[u8], w: u32, h: u32, limit: u64, nw: u32, nh: u32) -> (r: Frame)
    requires
        gray@.len() == w * h,
        w * h > limit ==> resizable(w, h, nw, nh),
    ensures
        r.monochrome,
        r.wf(),
        (r.width, r.height, r.samples@) == bounded_gray(gray@, w, h, limit as int, nw, nh),
{
    if area(w, h) > limit {
        working_gray(gray, w, h, Some((nw, nh)))
    } else {
        working_gray(gray, w, h, None)
    }
}

/// A decoded file resampled to a size of at most 1024 by 1024: its colours and its
/// luminance.
pub fn resampled_file(bytes: &[u8], w: u32, h: u32) -> (r: Option<(Vec<u8>, Vec<u8>)>)
    requires
        w <= 1024,
        h <= 1024,
    ensures
        r is Some <==> decoded(bytes@) is Ok,
        r matches Some(b) ==> b.0@.len() == w * h * 3 && b.1@.len() == w * h && keeps_size(
            bytes@,
            w,
            h,
            b.0@,
            b.1@,
        ),
{
    resample_file(bytes, w, h)
}

/// A luminance stands three times over, once in each channel.
pub proof fn law_tripled(gray: Seq<u8>, k: int, c: int)
    requires
        0 <= k < gray.len(),
        0 <= c < 3,
    ensures
        tripled(gray).len() == 3 * gray.len(),
        tripled(gray)[3 * k + c] == gray[k],
        colors_of(gray, true)[3 * k + c] == gray[k],
        colors_of(gray, false) == gray,
        channels(true) == 1,
        channels(false) == 3,
{
    assert((3 * k + c) / 3 == k);
}

/// A file is told by the bytes that it begins with; none begins as two formats.
pub proof fn law_formats(b: Seq<u8>)
    ensures
        format_of(b) == Format::Png <==> b.len() >= 8 && b[0] == 137 && b[1] == 80 && b[2] == 78
            && b[3] == 71 && b[4] == 13 && b[5] == 10 && b[6] == 26 && b[7] == 10,
        format_of(b) == Format::Jpeg <==> b.len() >= 3 && b[0] == 255 && b[1] == 216 && b[2] == 255,
        format_of(b) == Format::Bmp <==> b.len() >= 2 && b[0] == 66 && b[1] == 77,
{
    if begins_with(b, png_signature()) {
        assert(b.subrange(0, 8) =~= png_signature());
        assert(b[0] == b.subrange(0, 8)[0] && b[1] == b.subrange(0, 8)[1]);
    }
    if b.len() >= 8 && b[0] == 137 && b[1] == 80 && b[2] == 78 && b[3] == 71 && b[4] == 13 && b[5]
        == 10 && b[6] == 26 && b[7] == 10 {
        assert(b.subrange(0, 8) =~= png_signature());
    }
    if b.len() >= 3 && b[0] == 255 && b[1] == 216 && b[2] == 255 {
        assert(b.subrange(0, 3) =~= jpeg_signature());
    }
    if b.len() >= 2 && b[0] == 66 && b[1] == 77 {
        assert(b.subrange(0, 2) =~= bmp_signature());
    }
}

/// A plane is resampled just where it has more pixels than the limit.
pub proof fn law_bounded(gray: Seq<u8>, w: u32, h: u32, limit: int, nw: u32, nh: u32)
    ensures
        w * h <= limit ==> bounded_gray(gray, w, h, limit, nw, nh) == (w, h, gray),
        w * h > limit ==> bounded_gray(gray, w, h, limit, nw, nh).0 == nw && bounded_gray(
            gray,
            w,
            h,
            limit,
            nw,
            nh,
        ).1 == nh,
{
}

} // verus!
