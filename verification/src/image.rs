//! Images: PNG files in and out, and the change between pixels and numbers.

use crate::index::{lemma_flat, lemma_split};
use crate::parallel::par_map;
use crate::scalar::{computes, Arith, Scalar, ONE};
use crate::tensor::{dims_fit, planes, Img, Tensor};
use crate::words::{joined, number_string, number_text};
use vstd::prelude::*;
use vstd::string::StringExecFns;

verus! {

/// Bit pattern of 1/255.
pub const PER_255: u32 = 0x3b80_8081;

/// Bit pattern of 1/65535.
pub const PER_65535: u32 = 0x3780_0080;

/// Bit pattern of 255.
pub const FULL: u32 = 0x437f_0000;

/// The most bytes of a row that the decoder reads by default.
pub const ROW_LIMIT: u32 = 0x400_0000;

// ---- frames ---------------------------------------------------------------------------

/// A decoded image. The codes of colour type and depth are those of the file format:
/// 0 for gray, 2 for RGB, 3 for a palette, 4 for gray with alpha, 6 for RGBA; bits per
/// sample.
#[derive(Debug)]
pub struct Frame {
    pub width: u32,
    pub height: u32,
    pub color: u8,
    pub depth: u8,
    /// The samples row by row, those of 16 bits with the most significant byte first.
    pub bytes: Vec<u8>,
}

impl View for Frame {
    type V = (u32, u32, u8, u8, Seq<u8>);

    open spec fn view(&self) -> (u32, u32, u8, u8, Seq<u8>) {
        (self.width, self.height, self.color, self.depth, self.bytes@)
    }
}

/// Number of samples of a pixel of this colour type; none for a palette.
pub open spec fn samples_of(color: u8) -> Option<int> {
    if color == 0 {
        Some(1)
    } else if color == 4 {
        Some(2)
    } else if color == 2 {
        Some(3)
    } else if color == 6 {
        Some(4)
    } else {
        None
    }
}

/// Number of bytes of a sample of 8 or 16 bits.
pub open spec fn sample_bytes(depth: u8) -> int {
    if depth == 16 {
        2
    } else {
        1
    }
}

/// Number of bytes of a frame with this many samples per pixel.
pub open spec fn frame_bytes(width: u32, height: u32, samples: int, depth: u8) -> int {
    ((height * width) * samples) * sample_bytes(depth)
}

impl Frame {
    /// Where pixels can be read, there are bytes for all of them.
    pub open spec fn wf(self) -> bool {
        (self.depth == 8 || self.depth == 16) && samples_of(self.color) is Some
            ==> self.bytes@.len() == frame_bytes(
            self.width,
            self.height,
            samples_of(self.color)->0,
            self.depth,
        )
    }
}

/// What can go wrong with an image.
#[derive(Debug)]
pub enum ImageError {
    /// The file cannot be decoded.
    Decode(String),
    /// The colour type is not supported.
    Colour(u8),
    /// The depth is not supported.
    Depth(u8),
    /// The image has more pixels than can be held.
    TooLarge,
    /// The image cannot be encoded.
    Encode(String),
}

/// The name of a colour type that is not supported.
pub open spec fn colour_name(color: u8) -> Seq<char> {
    if color == 3 {
        "Indexed"@
    } else {
        number_text(color as int)
    }
}

/// The name of a depth that is not supported.
pub open spec fn depth_name(depth: u8) -> Seq<char> {
    if depth == 1 {
        "One"@
    } else if depth == 2 {
        "Two"@
    } else if depth == 4 {
        "Four"@
    } else {
        number_text(depth as int)
    }
}

impl ImageError {
    /// What went wrong, in words.
    pub open spec fn words(self) -> Seq<char> {
        match self {
            ImageError::Decode(text) => text@,
            ImageError::Colour(color) => "unsupported png colour type "@ + colour_name(color),
            ImageError::Depth(depth) => "unsupported png bit depth "@ + depth_name(depth),
            ImageError::TooLarge => "image too large"@,
            ImageError::Encode(text) => text@,
        }
    }

    /// What went wrong, in words.
    pub fn message(&self) -> (r: String)
        ensures
            r@ == self.words(),
    {
        match self {
            ImageError::Decode(text) => text.clone(),
            ImageError::Colour(color) => if *color == 3 {
                joined("unsupported png colour type ", "Indexed")
            } else {
                joined("unsupported png colour type ", number_string(*color as usize).as_str())
            },
            ImageError::Depth(depth) => if *depth == 1 {
                joined("unsupported png bit depth ", "One")
            } else if *depth == 2 {
                joined("unsupported png bit depth ", "Two")
            } else if *depth == 4 {
                joined("unsupported png bit depth ", "Four")
            } else {
                joined("unsupported png bit depth ", number_string(*depth as usize).as_str())
            },
            ImageError::TooLarge => String::from_str("image too large"),
            ImageError::Encode(text) => text.clone(),
        }
    }
}

/// What the decoder makes of a file: width, height, colour type, depth and samples of the
/// first frame, or its complaint.
pub uninterp spec fn decoded_png(file: Seq<u8>) -> Result<(u32, u32, u8, u8, Seq<u8>), Seq<char>>;

/// What the encoder makes of pixels of 8 bits a sample: a file, or its complaint.
pub uninterp spec fn encoded_png(width: u32, height: u32, color: u8, pixels: Seq<u8>) -> Result<
    Seq<u8>,
    Seq<char>,
>;

/// What was decoded, as a mathematical value.
pub open spec fn frame_view(r: Result<Frame, String>) -> Result<
    (u32, u32, u8, u8, Seq<u8>),
    Seq<char>,
> {
    match r {
        Ok(f) => Ok(f@),
        Err(e) => Err(e@),
    }
}

/// A frame that was decoded has no empty side, a colour type of the format, and bytes for
/// all its pixels.
pub open spec fn sound_frame(r: Result<Frame, String>) -> bool {
    match r {
        Ok(f) => 0 < f.width && 0 < f.height && f.wf() && (f.color == 3 || samples_of(
            f.color,
        ) is Some),
        Err(e) => true,
    }
}

/// Decodes the first frame of a file with `png::Decoder` and `png::Reader::next_frame`.
///
/// The result depends on the bytes of the file alone. Of a frame that is given it is
/// claimed that neither side is empty, that colour type and depth are among those of the
/// format, and that a depth of 8 or 16 bits comes with all samples of all pixels, as
/// `png::OutputInfo::buffer_size` counts them. What the pixels are and which files are
/// refused is left to the name. The decoder bounds a row, not the number of rows: memory
/// is taken for as many pixels as the header of the file states.
#[verifier::external_body]
fn decode_png(file: &[u8]) -> (r: Result<Frame, String>)
    ensures
        frame_view(r) == decoded_png(file@),
        sound_frame(r),
{
    let mut reader = png::Decoder::new(file).read_info().map_err(|e| e.to_string())?;
    let mut bytes = vec![0u8; reader.output_buffer_size()];
    let info = reader.next_frame(&mut bytes).map_err(|e| e.to_string())?;
    bytes.truncate(info.buffer_size());
    let (color, depth) = (info.color_type as u8, info.bit_depth as u8);
    Ok(Frame { width: info.width, height: info.height, color, depth, bytes })
}

/// The colour types that are written.
#[derive(Clone, Copy, PartialEq, Eq, Debug, Structural)]
pub enum Colour {
    Gray,
    Rgba,
}

impl Colour {
    /// The code of the colour type.
    pub open spec fn code(self) -> u8 {
        match self {
            Colour::Gray => 0,
            Colour::Rgba => 6,
        }
    }

    /// Number of samples of a pixel.
    pub open spec fn samples(self) -> int {
        match self {
            Colour::Gray => 1,
            Colour::Rgba => 4,
        }
    }
}

/// What was encoded, as a mathematical value.
pub open spec fn file_view(r: Result<Vec<u8>, String>) -> Result<Seq<u8>, Seq<char>> {
    match r {
        Ok(f) => Ok(f@),
        Err(e) => Err(e@),
    }
}

/// A file that was made decodes to the same image, where a row is within what the decoder
/// reads by default.
pub open spec fn reads_back(
    r: Result<Vec<u8>, String>,
    width: u32,
    height: u32,
    color: Colour,
    pixels: Seq<u8>,
) -> bool {
    match r {
        Ok(f) => width * color.samples() <= ROW_LIMIT ==> decoded_png(f@) == frame_of(
            width,
            height,
            color,
            pixels,
        ),
        Err(e) => true,
    }
}

/// A frame of 8 bits a sample as what is decoded.
pub open spec fn frame_of(width: u32, height: u32, color: Colour, pixels: Seq<u8>) -> Result<
    (u32, u32, u8, u8, Seq<u8>),
    Seq<char>,
> {
    Ok((width, height, color.code(), 8u8, pixels))
}

/// Encodes pixels of 8 bits a sample with `png::Encoder` and
/// `png::Writer::write_image_data`.
///
/// The result depends on the arguments alone. It is claimed that exactly the images
/// without an empty side are encoded, and that a file that is made decodes to the same
/// image, as long as a row is within what the decoder reads by default.
#[verifier::external_body]
fn encode_png(width: u32, height: u32, color: Colour, pixels: &[u8]) -> (r: Result<Vec<u8>, String>)
    requires
        pixels@.len() == (height * width) * color.samples(),
    ensures
        file_view(r) == encoded_png(width, height, color.code(), pixels@),
        (r is Ok) == (0 < width && 0 < height),
        reads_back(r, width, height, color, pixels@),
{
    let mut file: Vec<u8> = Vec::new();
    let mut encoder = png::Encoder::new(&mut file, width, height);
    encoder.set_color(match color {
        Colour::Gray => png::ColorType::Grayscale,
        Colour::Rgba => png::ColorType::Rgba,
    });
    encoder.set_depth(png::BitDepth::Eight);
    let mut writer = encoder.write_header().map_err(|e| e.to_string())?;
    writer.write_image_data(pixels).map_err(|e| e.to_string())?;
    drop(writer);
    Ok(file)
}

// ---- pixels to numbers ----------------------------------------------------------------

/// Sample `i` as a number from 0 to 1.
pub open spec fn sample_at<T>(m: Arith<T>, bytes: Seq<u8>, depth: u8, i: int) -> T {
    if depth == 16 {
        (m.times)(
            (m.of_usize)((bytes[2 * i] * 256 + bytes[2 * i + 1]) as usize),
            (m.bits)(PER_65535),
        )
    } else {
        (m.times)((m.of_usize)(bytes[i] as usize), (m.bits)(PER_255))
    }
}

/// A frame as three planes of numbers from 0 to 1; gray goes to all three, and alpha is
/// left out.
pub open spec fn rgb_spec<T>(m: Arith<T>, f: (u32, u32, u8, u8, Seq<u8>)) -> Img<T> {
    let (width, height, color, depth, bytes) = f;
    let n = samples_of(color)->0;
    planes(
        3,
        height as int,
        width as int,
        |p: int, s: int|
            sample_at(
                m,
                bytes,
                depth,
                s * n + (if n >= 3 {
                    p
                } else {
                    0
                }),
            ),
    )
}

/// What keeps a frame from being turned into numbers.
pub open spec fn frame_problem(f: (u32, u32, u8, u8, Seq<u8>)) -> Option<ImageError> {
    let (width, height, color, depth, bytes) = f;
    if samples_of(color) is None {
        Some(ImageError::Colour(color))
    } else if depth != 8 && depth != 16 {
        Some(ImageError::Depth(depth))
    } else {
        None
    }
}

fn sample<T: Scalar>(f: &Frame, i: usize) -> (r: T)
    requires
        f.depth == 8 || f.depth == 16,
        (i + 1) * sample_bytes(f.depth) <= f.bytes@.len(),
    ensures
        forall|m: Arith<T>| #[trigger]
            computes(m) ==> r == sample_at(m, f.bytes@, f.depth, i as int),
{
    assert(f.bytes@.len() == f.bytes.len());
    if f.depth == 16 {
        let v = f.bytes[2 * i] as usize * 256 + f.bytes[2 * i + 1] as usize;
        T::from_usize(v).times(T::from_bits(PER_65535))
    } else {
        T::from_usize(f.bytes[i] as usize).times(T::from_bits(PER_255))
    }
}

/// Turns a frame into three planes of numbers from 0 to 1.
pub fn rgb_of<T: Scalar>(f: &Frame) -> (r: Result<Tensor<T>, ImageError>)
    requires
        f.wf(),
        dims_fit(3, f.height as int, f.width as int),
    ensures
        match r {
            Ok(t) => {
                &&& frame_problem(f@) is None
                &&& t@.wf()
                &&& t.c == 3 && t.h == f.height && t.w == f.width
                &&& forall|m: Arith<T>| #[trigger] computes(m) ==> t@ == rgb_spec(m, f@)
            },
            Err(e) => frame_problem(f@) == Some(e),
        },
{
    let n: usize = match f.color {
        0 => 1,
        4 => 2,
        2 => 3,
        6 => 4,
        _ => {
            return Err(ImageError::Colour(f.color));
        },
    };
    if f.depth != 8 && f.depth != 16 {
        return Err(ImageError::Depth(f.depth));
    }
    let h = f.height as usize;
    let w = f.width as usize;
    let hw = h * w;
    let count = 3 * hw;
    let elem = |k: usize| -> (v: T)
        requires
            k < count,
        ensures
            forall|m: Arith<T>| #[trigger]
                computes(m) ==> v == rgb_spec(m, f@).data[k as int],
        {
            proof {
                lemma_split(k as int, 3, hw as int);
            }
            let p = k / hw;
            let s = k % hw;
            let at: usize = if n >= 3 {
                p
            } else {
                0
            };
            proof {
                lemma_flat(s as int, hw as int, at as int, n as int);
                let b = sample_bytes(f.depth);
                assert((s * n + at + 1) * b <= (hw * n) * b) by (nonlinear_arith)
                    requires
                        s * n + at + 1 <= hw * n,
                        1 <= b,
                ;
                assert(hw * n <= (hw * n) * b) by (nonlinear_arith)
                    requires
                        0 <= hw * n,
                        1 <= b,
                ;
                assert(f.bytes@.len() == f.bytes.len());
                assert((f.height * f.width) * n == hw * n);
            }
            sample(f, s * n + at)
        };
    let data = par_map(count, elem);
    let t = Tensor { c: 3, h, w, data };
    assert forall|m: Arith<T>| #[trigger] computes(m) implies t@ == rgb_spec(m, f@) by {
        let want = rgb_spec(m, f@).data;
        assert forall|i: int| 0 <= i < count implies data@[i] == want[i] by {
            assert(data@[i as usize as int] == want[i]);
        }
        assert(data@ =~= want);
    }
    Ok(t)
}

/// What comes of a file: its decoded frame as three planes of numbers from 0 to 1.
pub fn load_rgb<T: Scalar>(file: &[u8]) -> (r: Result<Tensor<T>, ImageError>)
    ensures
        match decoded_png(file@) {
            Err(text) => r matches Err(ImageError::Decode(e)) && e@ == text,
            Ok(f) => if !dims_fit(3, f.1 as int, f.0 as int) {
                r matches Err(ImageError::TooLarge)
            } else {
                match r {
                    Ok(t) => {
                        &&& frame_problem(f) is None
                        &&& t@.wf()
                        &&& t.c == 3 && t.h == f.1 && t.w == f.0
                        &&& 0 < t.h && 0 < t.w
                        &&& forall|m: Arith<T>| #[trigger] computes(m) ==> t@ == rgb_spec(m, f)
                    },
                    Err(e) => frame_problem(f) == Some(e),
                }
            },
        },
{
    let f = match decode_png(file) {
        Err(e) => {
            return Err(ImageError::Decode(e));
        },
        Ok(f) => f,
    };
    if !pixels_fit(f.height as usize, f.width as usize, 3) {
        return Err(ImageError::TooLarge);
    }
    rgb_of(&f)
}

/// Whether `c` samples for each of `h` by `w` positions can be held.
fn pixels_fit(h: usize, w: usize, c: usize) -> (r: bool)
    requires
        0 < c,
    ensures
        r == dims_fit(c as int, h as int, w as int),
{
    match h.checked_mul(w) {
        None => false,
        Some(hw) => match c.checked_mul(hw) {
            None => false,
            Some(n) => true,
        },
    }
}

// ---- numbers to pixels ----------------------------------------------------------------

/// A number from 0 to 1 as a level from 0 to 255, numbers outside being brought in first.
pub open spec fn level<T>(m: Arith<T>, v: T) -> u8 {
    let low = if (m.less)(v, m.zero()) {
        m.zero()
    } else {
        v
    };
    let within = if (m.less)(m.one(), low) {
        m.one()
    } else {
        low
    };
    (m.to_u8)((m.rounded)((m.times)(within, (m.bits)(FULL))))
}

fn to_level<T: Scalar>(v: T) -> (r: u8)
    ensures
        forall|m: Arith<T>| #[trigger] computes(m) ==> r == level(m, v),
{
    let zero = T::from_bits(0);
    let one = T::from_bits(ONE);
    let low = if v.less(zero) {
        zero
    } else {
        v
    };
    let within = if one.less(low) {
        one
    } else {
        low
    };
    within.times(T::from_bits(FULL)).rounded().to_u8()
}

/// The levels of the first plane.
pub open spec fn gray_pixels<T>(m: Arith<T>, x: Img<T>) -> Seq<u8> {
    Seq::new(x.hw() as nat, |i: int| level(m, x.data[i]))
}

/// The levels of three planes and of a mask, pixel by pixel.
pub open spec fn rgba_pixels<T>(m: Arith<T>, rgb: Img<T>, alpha: Img<T>) -> Seq<u8> {
    Seq::new(
        (rgb.hw() * 4) as nat,
        |k: int|
            if k % 4 < 3 {
                level(m, rgb.data[(k % 4) * rgb.hw() + k / 4])
            } else {
                level(m, alpha.data[k / 4])
            },
    )
}

/// Pixels of these dimensions can be written.
pub open spec fn writable(h: usize, w: usize) -> bool {
    h <= u32::MAX && w <= u32::MAX
}

/// The file for pixels, or why there is none.
pub open spec fn is_file(
    r: Result<Vec<u8>, ImageError>,
    h: usize,
    w: usize,
    color: Colour,
    pixels: Seq<u8>,
) -> bool {
    if !writable(h, w) {
        r matches Err(ImageError::TooLarge)
    } else {
        match encoded_png(w as u32, h as u32, color.code(), pixels) {
            Ok(file) => {
                &&& r matches Ok(v) && v@ == file
                &&& w * color.samples() <= ROW_LIMIT ==> decoded_png(file) == frame_of(
                    w as u32,
                    h as u32,
                    color,
                    pixels,
                )
            },
            Err(text) => r matches Err(ImageError::Encode(e)) && e@ == text,
        }
    }
}

fn write_file(h: usize, w: usize, color: Colour, pixels: &Vec<u8>) -> (r: Result<
    Vec<u8>,
    ImageError,
>)
    requires
        pixels@.len() == (h * w) * color.samples(),
    ensures
        is_file(r, h, w, color, pixels@),
        r is Ok <==> writable(h, w) && 0 < h && 0 < w,
{
    if h > u32::MAX as usize || w > u32::MAX as usize {
        return Err(ImageError::TooLarge);
    }
    match encode_png(w as u32, h as u32, color, pixels) {
        Ok(f) => Ok(f),
        Err(e) => Err(ImageError::Encode(e)),
    }
}

/// The levels of the first plane of a tensor.
pub fn gray_levels<T: Scalar>(x: &Tensor<T>) -> (r: Vec<u8>)
    requires
        x@.hw() <= x.data@.len(),
    ensures
        r@.len() == x@.hw(),
        forall|m: Arith<T>| #[trigger] computes(m) ==> r@ == gray_pixels(m, x@),
{
    assert(0 <= x.h * x.w) by (nonlinear_arith);
    assert(x.data@.len() == x.data.len());
    let n = x.h * x.w;
    let elem = |i: usize| -> (v: u8)
        requires
            i < n,
        ensures
            forall|m: Arith<T>| #[trigger] computes(m) ==> v == level(m, x.data@[i as int]),
        { to_level(x.data[i]) };
    let out = par_map(n, elem);
    assert forall|m: Arith<T>| #[trigger] computes(m) implies out@ == gray_pixels(m, x@) by {
        let want = gray_pixels(m, x@);
        assert forall|i: int| 0 <= i < n implies out@[i] == want[i] by {
            assert(out@[i as usize as int] == want[i]);
        }
        assert(out@ =~= want);
    }
    out
}

/// The levels of three planes and of a mask, pixel by pixel.
pub fn rgba_levels<T: Scalar>(rgb: &Tensor<T>, alpha: &Tensor<T>) -> (r: Vec<u8>)
    requires
        3 * rgb@.hw() <= rgb.data@.len(),
        rgb@.hw() <= alpha.data@.len(),
        4 * rgb@.hw() <= usize::MAX,
    ensures
        r@.len() == rgb@.hw() * 4,
        forall|m: Arith<T>| #[trigger] computes(m) ==> r@ == rgba_pixels(m, rgb@, alpha@),
{
    assert(0 <= rgb.h * rgb.w) by (nonlinear_arith);
    let hw = rgb.h * rgb.w;
    let n = hw * 4;
    let elem = |k: usize| -> (v: u8)
        requires
            k < n,
        ensures
            forall|m: Arith<T>| #[trigger]
                computes(m) ==> v == rgba_pixels(m, rgb@, alpha@)[k as int],
        {
            let c = k % 4;
            let i = k / 4;
            if c < 3 {
                proof {
                    lemma_flat(c as int, 3, i as int, hw as int);
                }
                to_level(rgb.data[c * hw + i])
            } else {
                to_level(alpha.data[i])
            }
        };
    let out = par_map(n, elem);
    assert forall|m: Arith<T>| #[trigger] computes(m) implies out@ == rgba_pixels(
        m,
        rgb@,
        alpha@,
    ) by {
        let want = rgba_pixels(m, rgb@, alpha@);
        assert forall|i: int| 0 <= i < n implies out@[i] == want[i] by {
            assert(out@[i as usize as int] == want[i]);
        }
        assert(out@ =~= want);
    }
    out
}

/// The file of a gray image from the first plane of a tensor of numbers from 0 to 1.
pub fn save_gray<T: Scalar>(x: &Tensor<T>) -> (r: Result<Vec<u8>, ImageError>)
    requires
        x@.hw() <= x.data@.len(),
    ensures
        forall|m: Arith<T>| #[trigger]
            computes(m) ==> is_file(r, x.h, x.w, Colour::Gray, gray_pixels(m, x@)),
        r is Ok <==> writable(x.h, x.w) && 0 < x.h && 0 < x.w,
{
    let pixels = gray_levels(x);
    write_file(x.h, x.w, Colour::Gray, &pixels)
}

/// The file of an RGBA image from three planes and a mask of numbers from 0 to 1.
pub fn save_rgba<T: Scalar>(rgb: &Tensor<T>, alpha: &Tensor<T>) -> (r: Result<
    Vec<u8>,
    ImageError,
>)
    requires
        3 * rgb@.hw() <= rgb.data@.len(),
        rgb@.hw() <= alpha.data@.len(),
        4 * rgb@.hw() <= usize::MAX,
    ensures
        forall|m: Arith<T>| #[trigger]
            computes(m) ==> is_file(
                r,
                rgb.h,
                rgb.w,
                Colour::Rgba,
                rgba_pixels(m, rgb@, alpha@),
            ),
        r is Ok <==> writable(rgb.h, rgb.w) && 0 < rgb.h && 0 < rgb.w,
{
    let pixels = rgba_levels(rgb, alpha);
    write_file(rgb.h, rgb.w, Colour::Rgba, &pixels)
}

/// A mask that was written and is read again has its levels, over 255, in all three planes,
/// where a row is within what the decoder reads by default.
pub proof fn lemma_gray_reads_back<T>(
    m: Arith<T>,
    file: Vec<u8>,
    x: Img<T>,
    h: usize,
    w: usize,
    p: int,
    s: int,
)
    requires
        is_file(Ok(file), h, w, Colour::Gray, gray_pixels(m, x)),
        x.h == h && x.w == w,
        w <= ROW_LIMIT,
        0 <= p < 3,
        0 <= s < x.hw(),
    ensures
        decoded_png(file@) is Ok,
        rgb_spec(m, decoded_png(file@)->Ok_0).h == h,
        rgb_spec(m, decoded_png(file@)->Ok_0).w == w,
        rgb_spec(m, decoded_png(file@)->Ok_0).data[p * x.hw() + s] == (m.times)(
            (m.of_usize)(level(m, x.data[s]) as usize),
            (m.bits)(PER_255),
        ),
{
    let f = decoded_png(file@)->Ok_0;
    assert(f == (w as u32, h as u32, 0u8, 8u8, gray_pixels(m, x)));
    crate::index::lemma_flat(p, 3, s, x.hw());
    crate::index::lemma_unflat(p, s, x.hw());
}

/// An image that was written with a mask and is read again has the levels of its three
/// planes, over 255, where a row is within what the decoder reads by default.
pub proof fn lemma_rgba_reads_back<T>(
    m: Arith<T>,
    file: Vec<u8>,
    rgb: Img<T>,
    alpha: Img<T>,
    h: usize,
    w: usize,
    p: int,
    s: int,
)
    requires
        is_file(Ok(file), h, w, Colour::Rgba, rgba_pixels(m, rgb, alpha)),
        rgb.h == h && rgb.w == w,
        w * 4 <= ROW_LIMIT,
        0 <= p < 3,
        0 <= s < rgb.hw(),
    ensures
        decoded_png(file@) is Ok,
        rgb_spec(m, decoded_png(file@)->Ok_0).h == h,
        rgb_spec(m, decoded_png(file@)->Ok_0).w == w,
        rgb_spec(m, decoded_png(file@)->Ok_0).data[p * rgb.hw() + s] == (m.times)(
            (m.of_usize)(level(m, rgb.data[p * rgb.hw() + s]) as usize),
            (m.bits)(PER_255),
        ),
{
    let f = decoded_png(file@)->Ok_0;
    assert(f == (w as u32, h as u32, 6u8, 8u8, rgba_pixels(m, rgb, alpha)));
    crate::index::lemma_flat(p, 3, s, rgb.hw());
    crate::index::lemma_unflat(p, s, rgb.hw());
    assert((s * 4 + p) % 4 == p && (s * 4 + p) / 4 == s);
}

/// Every byte that is scaled to a number from 0 to 1 comes back as a level.
pub open spec fn bytes_survive<T>(m: Arith<T>) -> bool {
    forall|b: u8| #[trigger]
        level(m, (m.times)((m.of_usize)(b as usize), (m.bits)(PER_255))) == b
}

/// The colours of an image of 8 bits a sample survive: of an image that was loaded from `file`
/// and written with a mask, pixel `i` has exactly the three colour bytes of the file, and the
/// level of the mask as its alpha. So it is for every table in which a byte survives the
/// scaling, where a row is within what the decoder reads by default.
pub proof fn lemma_colours_survive<T>(
    m: Arith<T>,
    file: Seq<u8>,
    written: Vec<u8>,
    alpha: Img<T>,
    i: int,
    c: int,
)
    requires
        bytes_survive(m),
        decoded_png(file) is Ok,
        decoded_png(file)->Ok_0.2 == 2 || decoded_png(file)->Ok_0.2 == 6,
        decoded_png(file)->Ok_0.3 == 8,
        is_file(
            Ok(written),
            decoded_png(file)->Ok_0.1 as usize,
            decoded_png(file)->Ok_0.0 as usize,
            Colour::Rgba,
            rgba_pixels(m, rgb_spec(m, decoded_png(file)->Ok_0), alpha),
        ),
        decoded_png(file)->Ok_0.0 * 4 <= ROW_LIMIT,
        0 <= i < decoded_png(file)->Ok_0.1 * decoded_png(file)->Ok_0.0,
        0 <= c < 3,
    ensures
        decoded_png(written@) is Ok,
        decoded_png(written@)->Ok_0.0 == decoded_png(file)->Ok_0.0,
        decoded_png(written@)->Ok_0.1 == decoded_png(file)->Ok_0.1,
        decoded_png(written@)->Ok_0.2 == 6,
        decoded_png(written@)->Ok_0.3 == 8,
        decoded_png(written@)->Ok_0.4[i * 4 + c] == decoded_png(file)->Ok_0.4[i * samples_of(
            decoded_png(file)->Ok_0.2,
        )->0 + c],
        decoded_png(written@)->Ok_0.4[i * 4 + 3] == level(m, alpha.data[i]),
{
    let f = decoded_png(file)->Ok_0;
    let rgb = rgb_spec(m, f);
    let px = rgba_pixels(m, rgb, alpha);
    let n = samples_of(f.2)->0;
    assert(decoded_png(written@)->Ok_0 == (f.0, f.1, 6u8, 8u8, px));
    crate::index::lemma_flat(c, 3, i, rgb.hw());
    crate::index::lemma_unflat(c, i, rgb.hw());
    assert((i * 4 + c) % 4 == c && (i * 4 + c) / 4 == i);
    assert((i * 4 + 3) % 4 == 3 && (i * 4 + 3) / 4 == i);
    assert(px[i * 4 + c] == level(m, rgb.data[c * rgb.hw() + i]));
    assert(rgb.data[c * rgb.hw() + i] == sample_at(m, f.4, 8, i * n + c));
    let b = f.4[i * n + c];
    assert(level(m, (m.times)((m.of_usize)(b as usize), (m.bits)(PER_255))) == b);
}

} // verus!
