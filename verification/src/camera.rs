//! Camera frames: the RGB frame type, and the conversion of the raw buffers
//! that a V4L2 device hands out into it.
use vstd::prelude::*;

use vstd::arithmetic::div_mod::lemma_fundamental_div_mod_converse;
use vstd::arithmetic::mul::lemma_mul_inequality;

use crate::constants::{CAPTURE_RETRY_ATTEMPTS, IR_EMITTER_PATH};
use crate::text::{chars_eq, chars_of, string_from_chars, string_from_str};
use crate::utils::{
    V4L2_PIX_FMT_BGR24, V4L2_PIX_FMT_GREY, V4L2_PIX_FMT_MJPEG, V4L2_PIX_FMT_NV12,
    V4L2_PIX_FMT_RGB24, V4L2_PIX_FMT_UYVY, V4L2_PIX_FMT_Y10, V4L2_PIX_FMT_Y12, V4L2_PIX_FMT_Y16,
    V4L2_PIX_FMT_YUYV,
};

verus! {

/// One pixel: red, green and blue.
#[derive(Debug, Clone, Copy)]
pub struct RgbPixel(pub [u8; 3]);

/// An image of `width` x `height` pixels, three bytes per pixel, row by row.
#[derive(Debug)]
pub struct RgbFrame {
    width: u32,
    height: u32,
    data: Vec<u8>,
}

/// The index of channel `c` of pixel (`x`, `y`) in a frame `w` pixels wide.
pub open spec fn pixel_index(w: int, x: int, y: int, c: int) -> int {
    (y * w + x) * 3 + c
}

impl View for RgbFrame {
    type V = (u32, u32, Seq<u8>);

    closed spec fn view(&self) -> (u32, u32, Seq<u8>) {
        (self.width, self.height, self.data@)
    }
}

proof fn lemma_pixel_in_frame(w: int, h: int, x: int, y: int)
    requires
        0 <= x < w,
        0 <= y < h,
    ensures
        pixel_index(w, x, y, 2) < w * h * 3,
        0 <= pixel_index(w, x, y, 0),
{
    assert(y * w + x < w * h) by (nonlinear_arith)
        requires
            0 <= x < w,
            0 <= y < h,
    ;
    assert(0 <= y * w) by (nonlinear_arith)
        requires
            0 <= x < w,
            0 <= y < h,
    ;
}

impl RgbFrame {
    #[verifier::type_invariant]
    spec fn well_formed(self) -> bool {
        self.data@.len() == self.width * self.height * 3
    }

    /// A frame of the given size with every byte 0.
    pub fn new(width: u32, height: u32) -> (r: RgbFrame)
        requires
            width * height * 3 <= usize::MAX,
        ensures
            r@.0 == width,
            r@.1 == height,
            r@.2 == Seq::new((width * height * 3) as nat, |i: int| 0u8),
    {
        assert(width * height <= width * height * 3) by (nonlinear_arith);
        let n = (width as usize) * (height as usize) * 3;
        let mut data: Vec<u8> = Vec::new();
        let mut i: usize = 0;
        while i < n
            invariant
                i <= n,
                data@ == Seq::new(i as nat, |k: int| 0u8),
            decreases n - i,
        {
            data.push(0u8);
            i = i + 1;
        }
        RgbFrame { width, height, data }
    }

    /// The frame made of `data`, when it holds exactly three bytes for each pixel.
    pub fn from_raw(width: u32, height: u32, data: Vec<u8>) -> (r: Option<RgbFrame>)
        ensures
            r is Some <==> data@.len() == width * height * 3,
            r is Some ==> r->0@ == (width, height, data@),
    {
        proof {
            lemma_u32_products(width as nat, height as nat);
        }
        if (data.len() as u128) == (width as u128) * (height as u128) * 3 {
            Some(RgbFrame { width, height, data })
        } else {
            None
        }
    }

    pub fn width(&self) -> (r: u32)
        ensures
            r == self@.0,
    {
        self.width
    }

    pub fn height(&self) -> (r: u32)
        ensures
            r == self@.1,
    {
        self.height
    }

    /// The bytes of the frame, three per pixel, row by row.
    pub fn as_raw(&self) -> (r: &Vec<u8>)
        ensures
            r@ == self@.2,
            r@.len() == self@.0 * self@.1 * 3,
    {
        proof {
            use_type_invariant(self);
        }
        &self.data
    }

    /// The pixel in column `x` of row `y`.
    pub fn get_pixel(&self, x: u32, y: u32) -> (p: RgbPixel)
        requires
            x < self@.0,
            y < self@.1,
        ensures
            p.0[0] == self@.2[pixel_index(self@.0 as int, x as int, y as int, 0)],
            p.0[1] == self@.2[pixel_index(self@.0 as int, x as int, y as int, 1)],
            p.0[2] == self@.2[pixel_index(self@.0 as int, x as int, y as int, 2)],
    {
        proof {
            use_type_invariant(self);
            lemma_pixel_in_frame(self.width as int, self.height as int, x as int, y as int);
            assert(0 <= y * self.width <= y * self.width + x) by (nonlinear_arith)
                requires
                    x >= 0,
                    y >= 0,
            ;
            assert(pixel_index(self.width as int, x as int, y as int, 2) < self.width * self.height * 3);
            assert((y * self.width + x) * 3 + 2 < self.width * self.height * 3);
            assert(self.data@.len() == self.width * self.height * 3);
            assert(self.data.len() <= usize::MAX);
            assert((y as usize) * (self.width as usize) <= usize::MAX);
            assert(((y as usize) * (self.width as usize) + (x as usize)) * 3 + 2 <= usize::MAX);
        }
        let i = ((y as usize) * (self.width as usize) + (x as usize)) * 3;
        RgbPixel([self.data[i], self.data[i + 1], self.data[i + 2]])
    }

    /// Whether every pixel has the colour of the first one (true of a
    /// frame without pixels). Such a frame shows no face.
    pub fn is_uniform(&self) -> (r: bool)
        ensures
            r == uniform_pixels(self@.2),
    {
        let n = self.data.len();
        let mut i: usize = 0;
        while i < n
            invariant
                i <= n,
                n == self.data@.len(),
                forall|k: int| 0 <= k < i ==> #[trigger] self.data@[k] == self.data@[k % 3],
            decreases n - i,
        {
            if self.data[i] != self.data[i % 3] {
                return false;
            }
            i = i + 1;
        }
        true
    }
}

/// Every byte equals the byte of the same channel in the first pixel.
pub open spec fn uniform_pixels(data: Seq<u8>) -> bool {
    forall|k: int| 0 <= k < data.len() ==> #[trigger] data[k] == data[k % 3]
}

/// A frame as plain values, if there is one.
pub open spec fn frame_opt_view(r: Option<RgbFrame>) -> Option<(u32, u32, Seq<u8>)> {
    match r {
        Some(f) => Some(f@),
        None => None,
    }
}

/// How the bytes of an uncompressed pixel format are laid out.
#[derive(Debug, Clone, Copy, PartialEq, Eq, Structural)]
pub enum PixelLayout {
    Grey,
    Rgb24,
    Bgr24,
    Y10,
    Y12,
    Y16,
    Yuyv,
    Uyvy,
    Nv12,
}

/// The layout of an uncompressed V4L2 pixel format.
pub open spec fn layout_of(fmt: u32) -> Option<PixelLayout> {
    if fmt == V4L2_PIX_FMT_GREY {
        Some(PixelLayout::Grey)
    } else if fmt == V4L2_PIX_FMT_RGB24 {
        Some(PixelLayout::Rgb24)
    } else if fmt == V4L2_PIX_FMT_BGR24 {
        Some(PixelLayout::Bgr24)
    } else if fmt == V4L2_PIX_FMT_Y10 {
        Some(PixelLayout::Y10)
    } else if fmt == V4L2_PIX_FMT_Y12 {
        Some(PixelLayout::Y12)
    } else if fmt == V4L2_PIX_FMT_Y16 {
        Some(PixelLayout::Y16)
    } else if fmt == V4L2_PIX_FMT_YUYV {
        Some(PixelLayout::Yuyv)
    } else if fmt == V4L2_PIX_FMT_UYVY {
        Some(PixelLayout::Uyvy)
    } else if fmt == V4L2_PIX_FMT_NV12 {
        Some(PixelLayout::Nv12)
    } else {
        None
    }
}

/// Bytes per pixel in a row (of the luma plane for NV12).
pub open spec fn bytes_per_pixel(l: PixelLayout) -> nat {
    match l {
        PixelLayout::Grey => 1,
        PixelLayout::Nv12 => 1,
        PixelLayout::Rgb24 => 3,
        PixelLayout::Bgr24 => 3,
        _ => 2,
    }
}

pub open spec fn max_nat(a: nat, b: nat) -> nat {
    if a >= b {
        a
    } else {
        b
    }
}

/// The distance between rows actually used to read a buffer of `len` bytes:
/// the declared one (at least a full row) when the buffer holds every row at
/// that distance, else rows packed without padding; `None` when the buffer
/// is too short for both.
pub open spec fn row_stride(l: PixelLayout, len: nat, w: nat, h: nat, bpl: nat) -> Option<nat> {
    if l == PixelLayout::Nv12 {
        let s = max_nat(bpl, w);
        let min_len = w * h + (w * h) / 2;
        let padded = s * h + s * (h / 2);
        if len < padded && len < min_len {
            None
        } else if len >= padded {
            Some(s)
        } else {
            Some(w)
        }
    } else {
        let row = w * bytes_per_pixel(l);
        let s = max_nat(bpl, row);
        if len < s * h && len < row * h {
            None
        } else if len >= s * h {
            Some(s)
        } else {
            Some(row)
        }
    }
}

/// `v` limited to 0..=255.
pub open spec fn clamp_byte(v: int) -> u8 {
    if v < 0 {
        0
    } else if v > 255 {
        255
    } else {
        v as u8
    }
}

/// Channel `c` (red, green, blue) of the BT.601 conversion of luma `yy` and
/// chroma `u`, `v`, in fixed point with 8 fractional bits rounded down.
pub open spec fn yuv_channel(yy: int, u: int, v: int, c: int) -> u8 {
    let cc = yy - 16;
    let d = u - 128;
    let e = v - 128;
    if c == 0 {
        clamp_byte((298 * cc + 409 * e + 128) / 256)
    } else if c == 1 {
        clamp_byte((298 * cc - 100 * d - 208 * e + 128) / 256)
    } else {
        clamp_byte((298 * cc + 516 * d + 128) / 256)
    }
}

/// What a 16-bit luma sample is divided by to keep its top 8 bits.
pub open spec fn luma_divisor(l: PixelLayout) -> int {
    match l {
        PixelLayout::Y10 => 4,
        PixelLayout::Y12 => 16,
        _ => 256,
    }
}

/// Channel `c` of pixel (`x`, `y`) decoded from `data`, rows `es` bytes apart.
pub open spec fn layout_pixel(
    l: PixelLayout,
    data: Seq<u8>,
    w: int,
    h: int,
    es: int,
    x: int,
    y: int,
    c: int,
) -> u8 {
    match l {
        PixelLayout::Grey => data[y * es + x],
        PixelLayout::Rgb24 => data[y * es + 3 * x + c],
        PixelLayout::Bgr24 => data[y * es + 3 * x + (2 - c)],
        PixelLayout::Yuyv => if 2 * (x / 2) + 1 < w {
            let s = y * es + 4 * (x / 2);
            let yy = if x % 2 == 0 {
                data[s]
            } else {
                data[s + 2]
            };
            yuv_channel(yy as int, data[s + 1] as int, data[s + 3] as int, c)
        } else {
            0
        },
        PixelLayout::Uyvy => if 2 * (x / 2) + 1 < w {
            let s = y * es + 4 * (x / 2);
            let yy = if x % 2 == 0 {
                data[s + 1]
            } else {
                data[s + 3]
            };
            yuv_channel(yy as int, data[s] as int, data[s + 2] as int, c)
        } else {
            0
        },
        PixelLayout::Nv12 => {
            let uv = es * h + (y / 2) * es + 2 * (x / 2);
            yuv_channel(data[y * es + x] as int, data[uv] as int, data[uv + 1] as int, c)
        },
        _ => {
            let s = y * es + 2 * x;
            let g = (data[s] + 256 * data[s + 1]) / luma_divisor(l);
            if g > 255 {
                255
            } else {
                g as u8
            }
        },
    }
}

/// The frame decoded from `data`: pixel by pixel, row by row.
pub open spec fn layout_frame(l: PixelLayout, data: Seq<u8>, w: int, h: int, es: int) -> Seq<u8> {
    Seq::new(
        (w * h * 3) as nat,
        |i: int| layout_pixel(l, data, w, h, es, (i / 3) % w, (i / 3) / w, i % 3),
    )
}

/// Every byte that decoding reads lies in a buffer of `len` bytes.
pub open spec fn reads_in_bounds(l: PixelLayout, len: int, w: int, h: int, es: int) -> bool {
    &&& es >= w * bytes_per_pixel(l)
    &&& es * (h - 1) + w * bytes_per_pixel(l) <= len
    &&& l == PixelLayout::Nv12 ==> es * h + es * ((h - 1) / 2) + 2 * ((w - 1) / 2) + 2 <= len
}

/// The chroma plane of an NV12 buffer lies within the buffer whenever the
/// buffer is long enough to be decoded.
pub open spec fn nv12_chroma_fits(len: nat, w: nat, h: nat, bpl: nat) -> bool {
    match row_stride(PixelLayout::Nv12, len, w, h, bpl) {
        Some(es) => es * h + es * ((h - 1) as nat / 2) + 2 * ((w - 1) as nat / 2) + 2 <= len,
        None => true,
    }
}

/// The inputs on which decoding runs to its end: its size arithmetic stays
/// within `u32`, and an NV12 buffer holds its chroma plane.
pub open spec fn decode_safe(len: nat, w: u32, h: u32, fmt: u32, bpl: u32) -> bool {
    w == 0 || h == 0 || match layout_of(fmt) {
        Some(l) => {
            &&& w * h * bytes_per_pixel(l) <= u32::MAX
            &&& (row_stride(l, len, w as nat, h as nat, bpl as nat) is Some ==> w * h * 3 <= u32::MAX)
            &&& (l == PixelLayout::Nv12 ==> nv12_chroma_fits(len, w as nat, h as nat, bpl as nat))
        },
        None => true,
    }
}

/// What `image` decodes from a compressed buffer, as width, height and RGB
/// bytes.
pub uninterp spec fn image_rgb8(data: Seq<u8>) -> Option<(u32, u32, Seq<u8>)>;

/// The frame that a V4L2 buffer holds, if it can be decoded.
pub open spec fn decoded_frame(data: Seq<u8>, w: u32, h: u32, fmt: u32, bpl: u32) -> Option<(u32, u32, Seq<u8>)> {
    if w == 0 || h == 0 {
        None
    } else if fmt == V4L2_PIX_FMT_MJPEG {
        match image_rgb8(data) {
            Some(img) => if img.2.len() == img.0 * img.1 * 3 {
                Some(img)
            } else {
                None
            },
            None => None,
        }
    } else {
        match layout_of(fmt) {
            Some(l) => match row_stride(l, data.len(), w as nat, h as nat, bpl as nat) {
                Some(es) => Some((w, h, layout_frame(l, data, w as int, h as int, es as int))),
                None => None,
            },
            None => None,
        }
    }
}

/// What decoding refuses and what it gives: no frame for an empty size, for
/// a format that is neither MJPEG nor a known layout, or for a buffer shorter
/// than the size needs at the layout's bytes per pixel; a frame it gives
/// holds three bytes per pixel and, unless it was decompressed, has the
/// requested size.
pub proof fn lemma_decode_refusals(data: Seq<u8>, w: u32, h: u32, fmt: u32, bpl: u32)
    ensures
        w == 0 || h == 0 ==> decoded_frame(data, w, h, fmt, bpl) is None,
        fmt != V4L2_PIX_FMT_MJPEG && layout_of(fmt) is None ==> decoded_frame(data, w, h, fmt, bpl) is None,
        layout_of(fmt) matches Some(l) && data.len() < w * h * bytes_per_pixel(l) ==> decoded_frame(
            data,
            w,
            h,
            fmt,
            bpl,
        ) is None,
        decoded_frame(data, w, h, fmt, bpl) matches Some(f) ==> f.2.len() == f.0 * f.1 * 3,
        fmt != V4L2_PIX_FMT_MJPEG ==> (decoded_frame(data, w, h, fmt, bpl) matches Some(f) ==> f.0 == w && f.1 == h),
{
    if let Some(l) = layout_of(fmt) {
        let wn = w as nat;
        let hn = h as nat;
        let bp = bytes_per_pixel(l);
        assert(fmt != V4L2_PIX_FMT_MJPEG);
        if data.len() < w * h * bp && w > 0 && h > 0 {
            let row = wn * bp;
            let s = max_nat(bpl as nat, row);
            assert(row * hn == w * h * bp) by (nonlinear_arith)
                requires
                    row == wn * bp,
                    wn == w,
                    hn == h,
            ;
            assert(s * hn >= row * hn) by (nonlinear_arith)
                requires
                    s >= row,
            ;
            let sn = max_nat(bpl as nat, wn);
            assert(sn * hn >= wn * hn) by (nonlinear_arith)
                requires
                    sn >= wn,
            ;
            assert(sn * hn + sn * (hn / 2) >= sn * hn) by (nonlinear_arith)
                requires
                    sn >= 0,
            ;
            assert(row_stride(l, data.len(), wn, hn, bpl as nat) is None);
        }
    }
}

proof fn lemma_frame_index(w: int, h: int, x: int, y: int, c: int)
    requires
        0 <= x < w,
        0 <= y < h,
        0 <= c < 3,
    ensures
        0 <= (y * w + x) * 3 + c < w * h * 3,
        ((y * w + x) * 3 + c) / 3 == y * w + x,
        ((y * w + x) * 3 + c) % 3 == c,
        (y * w + x) % w == x,
        (y * w + x) / w == y,
{
    let p = y * w + x;
    assert(0 <= p < w * h) by (nonlinear_arith)
        requires
            0 <= x < w,
            0 <= y < h,
            p == y * w + x,
    ;
    assert(0 <= p * 3 + c < w * h * 3) by (nonlinear_arith)
        requires
            0 <= p < w * h,
            0 <= c < 3,
    ;
    lemma_fundamental_div_mod_converse(p * 3 + c, 3, p, c);
    lemma_fundamental_div_mod_converse(p, w, y, x);
}

/// Every pixel of a UYVY frame is the BT.601 colour of its own luma (the
/// second byte of its 4-byte group for an even column, the fourth for an
/// odd one) with U the group's first byte and V its third.
pub proof fn lemma_uyvy_pixel(data: Seq<u8>, w: u32, h: u32, bpl: u32, x: int, y: int, c: int)
    requires
        decoded_frame(data, w, h, V4L2_PIX_FMT_UYVY, bpl) is Some,
        0 <= x < w,
        0 <= y < h,
        0 <= c < 3,
        2 * (x / 2) + 1 < w,
    ensures
        ({
            let f = decoded_frame(data, w, h, V4L2_PIX_FMT_UYVY, bpl)->0;
            let es = row_stride(PixelLayout::Uyvy, data.len(), w as nat, h as nat, bpl as nat)->0 as int;
            let s = y * es + 4 * (x / 2);
            f.2[(y * w + x) * 3 + c] == yuv_channel(data[s + 1 + 2 * (x % 2)] as int, data[s] as int, data[s + 2] as int, c)
        }),
{
    lemma_frame_index(w as int, h as int, x, y, c);
}

/// Every pixel of a YUYV frame is the BT.601 colour of its own luma (the
/// first byte of its 4-byte group for an even column, the third for an odd
/// one) with U the group's second byte and V its fourth.
pub proof fn lemma_yuyv_pixel(data: Seq<u8>, w: u32, h: u32, bpl: u32, x: int, y: int, c: int)
    requires
        decoded_frame(data, w, h, V4L2_PIX_FMT_YUYV, bpl) is Some,
        0 <= x < w,
        0 <= y < h,
        0 <= c < 3,
        2 * (x / 2) + 1 < w,
    ensures
        ({
            let f = decoded_frame(data, w, h, V4L2_PIX_FMT_YUYV, bpl)->0;
            let es = row_stride(PixelLayout::Yuyv, data.len(), w as nat, h as nat, bpl as nat)->0 as int;
            let s = y * es + 4 * (x / 2);
            f.2[(y * w + x) * 3 + c] == yuv_channel(data[s + 2 * (x % 2)] as int, data[s + 1] as int, data[s + 3] as int, c)
        }),
{
    lemma_frame_index(w as int, h as int, x, y, c);
}

/// The row distance that decoding uses for layout `l`.
pub open spec fn stride_used(l: PixelLayout, data: Seq<u8>, w: u32, h: u32, bpl: u32) -> int {
    row_stride(l, data.len(), w as nat, h as nat, bpl as nat)->0 as int
}

/// A 16-bit little-endian luma sample at `s`, divided by `d` and capped at 255.
pub open spec fn luma_sample(data: Seq<u8>, s: int, d: int) -> int {
    let g = (data[s] + 256 * data[s + 1]) / d;
    if g > 255 {
        255
    } else {
        g
    }
}

/// What each byte of a decoded frame is, for the formats stored pixel by
/// pixel: a grey byte is copied to all three channels; RGB24 bytes are kept
/// in order and BGR24 bytes reversed within each pixel; a 10-, 12- or 16-bit
/// luma keeps its top 8 bits (capped at 255); an NV12 pixel is the BT.601
/// colour of its own luma with the U and V pair shared by its 2x2 block.
pub proof fn lemma_pixel_formats(data: Seq<u8>, w: u32, h: u32, bpl: u32, x: int, y: int, c: int)
    requires
        0 <= x < w,
        0 <= y < h,
        0 <= c < 3,
    ensures
        decoded_frame(data, w, h, V4L2_PIX_FMT_GREY, bpl) matches Some(f) ==> f.2[(y * w + x) * 3 + c] == data[y
            * stride_used(PixelLayout::Grey, data, w, h, bpl) + x],
        decoded_frame(data, w, h, V4L2_PIX_FMT_RGB24, bpl) matches Some(f) ==> f.2[(y * w + x) * 3 + c] == data[y
            * stride_used(PixelLayout::Rgb24, data, w, h, bpl) + 3 * x + c],
        decoded_frame(data, w, h, V4L2_PIX_FMT_BGR24, bpl) matches Some(f) ==> f.2[(y * w + x) * 3 + c] == data[y
            * stride_used(PixelLayout::Bgr24, data, w, h, bpl) + 3 * x + 2 - c],
        decoded_frame(data, w, h, V4L2_PIX_FMT_Y10, bpl) matches Some(f) ==> f.2[(y * w + x) * 3 + c] as int
            == luma_sample(data, y * stride_used(PixelLayout::Y10, data, w, h, bpl) + 2 * x, 4),
        decoded_frame(data, w, h, V4L2_PIX_FMT_Y12, bpl) matches Some(f) ==> f.2[(y * w + x) * 3 + c] as int
            == luma_sample(data, y * stride_used(PixelLayout::Y12, data, w, h, bpl) + 2 * x, 16),
        decoded_frame(data, w, h, V4L2_PIX_FMT_Y16, bpl) matches Some(f) ==> f.2[(y * w + x) * 3 + c] as int
            == luma_sample(data, y * stride_used(PixelLayout::Y16, data, w, h, bpl) + 2 * x, 256),
        decoded_frame(data, w, h, V4L2_PIX_FMT_NV12, bpl) matches Some(f) ==> ({
            let es = stride_used(PixelLayout::Nv12, data, w, h, bpl);
            let uv = es * h + (y / 2) * es + 2 * (x / 2);
            f.2[(y * w + x) * 3 + c] == yuv_channel(data[y * es + x] as int, data[uv] as int, data[uv + 1] as int, c)
        }),
{
    lemma_frame_index(w as int, h as int, x, y, c);
}

/// In the colour conversion red depends on V and not on U, blue on U and
/// not on V; more U never lowers blue and more V never lowers red, while
/// either never raises green.
pub proof fn lemma_yuv_channels(yy: int, u: int, v: int, u2: int, v2: int)
    ensures
        yuv_channel(yy, u, v, 0) == yuv_channel(yy, u2, v, 0),
        yuv_channel(yy, u, v, 2) == yuv_channel(yy, u, v2, 2),
        u <= u2 ==> yuv_channel(yy, u, v, 2) <= yuv_channel(yy, u2, v, 2),
        v <= v2 ==> yuv_channel(yy, u, v, 0) <= yuv_channel(yy, u, v2, 0),
        u <= u2 ==> yuv_channel(yy, u2, v, 1) <= yuv_channel(yy, u, v, 1),
        v <= v2 ==> yuv_channel(yy, u, v2, 1) <= yuv_channel(yy, u, v, 1),
{
    let cc = yy - 16;
    if u <= u2 {
        let a = 298 * cc + 516 * (u - 128) + 128;
        let b = 298 * cc + 516 * (u2 - 128) + 128;
        assert(a / 256 <= b / 256) by (nonlinear_arith)
            requires
                a <= b,
        ;
        let g1 = 298 * cc - 100 * (u2 - 128) - 208 * (v - 128) + 128;
        let g2 = 298 * cc - 100 * (u - 128) - 208 * (v - 128) + 128;
        assert(g1 / 256 <= g2 / 256) by (nonlinear_arith)
            requires
                g1 <= g2,
        ;
    }
    if v <= v2 {
        let a = 298 * cc + 409 * (v - 128) + 128;
        let b = 298 * cc + 409 * (v2 - 128) + 128;
        assert(a / 256 <= b / 256) by (nonlinear_arith)
            requires
                a <= b,
        ;
        let g1 = 298 * cc - 100 * (u - 128) - 208 * (v2 - 128) + 128;
        let g2 = 298 * cc - 100 * (u - 128) - 208 * (v - 128) + 128;
        assert(g1 / 256 <= g2 / 256) by (nonlinear_arith)
            requires
                g1 <= g2,
        ;
    }
}

/// Decoding a tightly packed RGB24 buffer (rows of exactly `3 * w` bytes)
/// gives its bytes back unchanged.
pub proof fn lemma_rgb24_decodes_to_itself(data: Seq<u8>, w: u32, h: u32, bpl: u32)
    requires
        w > 0,
        h > 0,
        bpl == 3 * w,
        data.len() == w * h * 3,
    ensures
        decoded_frame(data, w, h, V4L2_PIX_FMT_RGB24, bpl) == Some((w, h, data)),
{
    let wi = w as int;
    let hi = h as int;
    assert((3 * wi) * hi == wi * hi * 3) by (nonlinear_arith);
    assert(bytes_per_pixel(PixelLayout::Rgb24) == 3);
    assert((w as nat) * 3 == 3 * wi);
    assert(max_nat(bpl as nat, (w as nat) * 3) == 3 * wi);
    assert(row_stride(PixelLayout::Rgb24, data.len(), w as nat, h as nat, bpl as nat) == Some(3 * wi as nat));
    let f = layout_frame(PixelLayout::Rgb24, data, wi, hi, 3 * wi);
    assert forall|i: int| 0 <= i < f.len() implies #[trigger] f[i] == data[i] by {
        let p = i / 3;
        let x = p % wi;
        let y = p / wi;
        lemma_fundamental_div_mod_converse(i, 3, p, i % 3);
        assert(p == y * wi + x) by (nonlinear_arith)
            requires
                wi > 0,
                x == p % wi,
                y == p / wi,
        ;
        assert(y * (3 * wi) + 3 * x + i % 3 == i) by (nonlinear_arith)
            requires
                p == y * wi + x,
                i == 3 * p + i % 3,
        ;
    }
    assert(f =~= data);
}

/// With neutral chroma (both chroma samples 128) the colour conversion gives
/// a grey pixel: red, green and blue are equal.
pub proof fn lemma_neutral_chroma_is_grey(yy: int)
    ensures
        yuv_channel(yy, 128, 128, 0) == yuv_channel(yy, 128, 128, 1),
        yuv_channel(yy, 128, 128, 1) == yuv_channel(yy, 128, 128, 2),
{
}

/// Whether opening a device tries again after attempt `attempt` (counted
/// from 0) failed: only when the device was busy and attempts remain.
pub fn retry_open(busy: bool, attempt: usize) -> (r: bool)
    ensures
        r == (busy && attempt + 1 < CAPTURE_RETRY_ATTEMPTS),
{
    busy && attempt < CAPTURE_RETRY_ATTEMPTS - 1
}

/// Decodes a compressed image with `image::load_from_memory` and converts it
/// with `DynamicImage::to_rgb8`. The contract names the result and claims
/// nothing more: it depends on the bytes alone.
#[verifier::external_body]
fn load_rgb8(data: &[u8]) -> (r: Option<(u32, u32, Vec<u8>)>)
    ensures
        match r {
            Some(img) => image_rgb8(data@) == Some((img.0, img.1, img.2@)),
            None => image_rgb8(data@) is None,
        },
{
    match image::load_from_memory(data) {
        Ok(img) => {
            let rgb = img.to_rgb8();
            let (w, h) = rgb.dimensions();
            Some((w, h, rgb.into_raw()))
        },
        Err(_) => None,
    }
}

fn layout_from_format(fmt: u32) -> (r: Option<PixelLayout>)
    ensures
        r == layout_of(fmt),
{
    if fmt == V4L2_PIX_FMT_GREY {
        Some(PixelLayout::Grey)
    } else if fmt == V4L2_PIX_FMT_RGB24 {
        Some(PixelLayout::Rgb24)
    } else if fmt == V4L2_PIX_FMT_BGR24 {
        Some(PixelLayout::Bgr24)
    } else if fmt == V4L2_PIX_FMT_Y10 {
        Some(PixelLayout::Y10)
    } else if fmt == V4L2_PIX_FMT_Y12 {
        Some(PixelLayout::Y12)
    } else if fmt == V4L2_PIX_FMT_Y16 {
        Some(PixelLayout::Y16)
    } else if fmt == V4L2_PIX_FMT_YUYV {
        Some(PixelLayout::Yuyv)
    } else if fmt == V4L2_PIX_FMT_UYVY {
        Some(PixelLayout::Uyvy)
    } else if fmt == V4L2_PIX_FMT_NV12 {
        Some(PixelLayout::Nv12)
    } else {
        None
    }
}

fn layout_bytes(l: PixelLayout) -> (r: u128)
    ensures
        r == bytes_per_pixel(l),
{
    match l {
        PixelLayout::Grey => 1,
        PixelLayout::Nv12 => 1,
        PixelLayout::Rgb24 => 3,
        PixelLayout::Bgr24 => 3,
        _ => 2,
    }
}

proof fn lemma_mul_pred(a: int, h: int)
    requires
        h >= 1,
    ensures
        a * (h - 1) + a == a * h,
{
    assert(a * (h - 1) + a == a * h) by (nonlinear_arith);
}

proof fn lemma_mul_bound(a: nat, b: nat, c: nat)
    requires
        a * b <= c,
        b >= 1,
    ensures
        a <= c,
{
    assert(a <= a * b) by (nonlinear_arith)
        requires
            b >= 1,
    ;
}

proof fn lemma_u32_products(a: nat, h: nat)
    requires
        a <= 0x3_0000_0000,
        h <= 0xffff_ffff,
    ensures
        a * h <= 0x3_0000_0000 * 0xffff_ffff,
        a * (h / 2) <= 0x3_0000_0000 * 0xffff_ffff,
{
    assert(a * h <= 0x3_0000_0000 * 0xffff_ffff) by (nonlinear_arith)
        requires
            a <= 0x3_0000_0000,
            h <= 0xffff_ffff,
    ;
    assert(a * (h / 2) <= 0x3_0000_0000 * 0xffff_ffff) by (nonlinear_arith)
        requires
            a <= 0x3_0000_0000,
            h / 2 <= 0xffff_ffff,
    ;
}

fn stride_for(l: PixelLayout, len: usize, w: u32, h: u32, bpl: u32) -> (r: Option<usize>)
    requires
        w > 0,
        h > 0,
    ensures
        match r {
            Some(s) => row_stride(l, len as nat, w as nat, h as nat, bpl as nat) == Some(s as nat),
            None => row_stride(l, len as nat, w as nat, h as nat, bpl as nat) is None,
        },
{
    let n = len as u128;
    let w1 = w as u128;
    let h1 = h as u128;
    let b1 = bpl as u128;
    proof {
        lemma_u32_products(w1 as nat, h1 as nat);
        lemma_u32_products(b1 as nat, h1 as nat);
        lemma_u32_products(3 * w1 as nat, h1 as nat);
        lemma_u32_products(2 * w1 as nat, h1 as nat);
    }
    if l == PixelLayout::Nv12 {
        let s = if b1 >= w1 {
            b1
        } else {
            w1
        };
        let min_len = w1 * h1 + (w1 * h1) / 2;
        let padded = s * h1 + s * (h1 / 2);
        if n < padded && n < min_len {
            None
        } else if n >= padded {
            proof {
                assert(s * h1 >= s) by (nonlinear_arith)
                    requires
                        h1 >= 1,
                ;
            }
            Some(s as usize)
        } else {
            proof {
                assert(w1 * h1 >= w1) by (nonlinear_arith)
                    requires
                        h1 >= 1,
                ;
            }
            Some(w as usize)
        }
    } else {
        let row = w1 * layout_bytes(l);
        let s = if b1 >= row {
            b1
        } else {
            row
        };
        if n < s * h1 && n < row * h1 {
            None
        } else if n >= s * h1 {
            proof {
                lemma_mul_bound(s as nat, h1 as nat, n as nat);
            }
            Some(s as usize)
        } else {
            proof {
                lemma_mul_bound(row as nat, h1 as nat, n as nat);
            }
            Some(row as usize)
        }
    }
}

/// `v / 256` rounded down, limited to 0..=255.
fn shift_clamp(v: i32) -> (r: u8)
    requires
        -262144 <= v <= 262144,
    ensures
        r == clamp_byte(v as int / 256),
{
    let t: u32 = (v + 262144) as u32;
    let q: i32 = (t / 256) as i32 - 1024;
    assert(q as int == v as int / 256);
    if q < 0 {
        0
    } else if q > 255 {
        255
    } else {
        q as u8
    }
}

fn yuv_to_rgb(yy: u8, u: u8, v: u8) -> (r: (u8, u8, u8))
    ensures
        r.0 == yuv_channel(yy as int, u as int, v as int, 0),
        r.1 == yuv_channel(yy as int, u as int, v as int, 1),
        r.2 == yuv_channel(yy as int, u as int, v as int, 2),
{
    let c = yy as i32 - 16;
    let d = u as i32 - 128;
    let e = v as i32 - 128;
    let red = shift_clamp(298 * c + 409 * e + 128);
    let green = shift_clamp(298 * c - 100 * d - 208 * e + 128);
    let blue = shift_clamp(298 * c + 516 * d + 128);
    (red, green, blue)
}

fn luma_to_byte(lo: u8, hi: u8, divisor: u16) -> (r: u8)
    requires
        divisor > 0,
    ensures
        r == (if (lo + 256 * hi) / (divisor as int) > 255 {
            255u8
        } else {
            ((lo + 256 * hi) / (divisor as int)) as u8
        }),
{
    let val: u16 = (lo as u16) + 256 * (hi as u16);
    let g = val / divisor;
    if g > 255 {
        255
    } else {
        g as u8
    }
}

fn luma_divisor_of(l: PixelLayout) -> (r: u16)
    ensures
        r == luma_divisor(l),
{
    match l {
        PixelLayout::Y10 => 4,
        PixelLayout::Y12 => 16,
        _ => 256,
    }
}

proof fn lemma_row_start(y: int, h: int, es: int, k: int, len: int)
    requires
        0 <= y < h,
        es >= 0,
        es * (h - 1) + k <= len,
    ensures
        0 <= y * es,
        y * es + k <= len,
{
    lemma_mul_inequality(y, h - 1, es);
    assert(0 <= y * es) by (nonlinear_arith)
        requires
            y >= 0,
            es >= 0,
    ;
    assert(y * es == es * y) by (nonlinear_arith);
    assert((h - 1) * es == es * (h - 1)) by (nonlinear_arith);
}

/// Pixel (`x`, `y`) of `data`, decoded as `l` with rows `es` bytes apart.
fn decode_pixel(l: PixelLayout, data: &[u8], w: u32, h: u32, es: usize, x: u32, y: u32) -> (r: (u8, u8, u8))
    requires
        x < w,
        y < h,
        reads_in_bounds(l, data@.len() as int, w as int, h as int, es as int),
    ensures
        r.0 == layout_pixel(l, data@, w as int, h as int, es as int, x as int, y as int, 0),
        r.1 == layout_pixel(l, data@, w as int, h as int, es as int, x as int, y as int, 1),
        r.2 == layout_pixel(l, data@, w as int, h as int, es as int, x as int, y as int, 2),
{
    let ghost bpp = bytes_per_pixel(l) as int;
    proof {
        lemma_row_start(y as int, h as int, es as int, w * bpp, data@.len() as int);
        assert(x * bpp + bpp <= w * bpp) by (nonlinear_arith)
            requires
                x < w,
                bpp >= 0,
        ;
        assert(data@.len() == data.len());
        assert(y * es <= usize::MAX);
    }
    let row = (y as usize) * es;
    let xs = x as usize;
    match l {
        PixelLayout::Grey => {
            let g = data[row + xs];
            (g, g, g)
        },
        PixelLayout::Rgb24 => {
            let s = row + 3 * xs;
            (data[s], data[s + 1], data[s + 2])
        },
        PixelLayout::Bgr24 => {
            let s = row + 3 * xs;
            (data[s + 2], data[s + 1], data[s])
        },
        PixelLayout::Yuyv => {
            if 2 * (x / 2) + 1 < w {
                let s = row + 4 * ((x / 2) as usize);
                let yy = if x % 2 == 0 {
                    data[s]
                } else {
                    data[s + 2]
                };
                yuv_to_rgb(yy, data[s + 1], data[s + 3])
            } else {
                (0, 0, 0)
            }
        },
        PixelLayout::Uyvy => {
            if 2 * (x / 2) + 1 < w {
                let s = row + 4 * ((x / 2) as usize);
                let yy = if x % 2 == 0 {
                    data[s + 1]
                } else {
                    data[s + 3]
                };
                yuv_to_rgb(yy, data[s], data[s + 2])
            } else {
                (0, 0, 0)
            }
        },
        PixelLayout::Nv12 => {
            proof {
                let hh = h as int;
                let ee = es as int;
                assert(y / 2 <= (hh - 1) / 2);
                lemma_mul_inequality(y as int / 2, (hh - 1) / 2, ee);
                assert((y as int / 2) * ee == ee * (y as int / 2)) by (nonlinear_arith);
                assert(((hh - 1) / 2) * ee == ee * ((hh - 1) / 2)) by (nonlinear_arith);
                assert(ee * hh >= 0) by (nonlinear_arith)
                    requires
                        ee >= 0,
                        hh >= 0,
                ;
                assert((y as int / 2) * ee >= 0) by (nonlinear_arith)
                    requires
                        ee >= 0,
                        y >= 0,
                ;
            }
            let uv = es * (h as usize) + ((y / 2) as usize) * es + 2 * ((x / 2) as usize);
            yuv_to_rgb(data[row + xs], data[uv], data[uv + 1])
        },
        _ => {
            let s = row + 2 * xs;
            let g = luma_to_byte(data[s], data[s + 1], luma_divisor_of(l));
            (g, g, g)
        },
    }
}

/// Decodes every pixel of a `w` x `h` frame, row by row.
fn fill_frame(l: PixelLayout, data: &[u8], w: u32, h: u32, es: usize) -> (r: Vec<u8>)
    requires
        w > 0,
        h > 0,
        w * h * 3 <= u32::MAX,
        reads_in_bounds(l, data@.len() as int, w as int, h as int, es as int),
    ensures
        r@ == layout_frame(l, data@, w as int, h as int, es as int),
{
    let ghost wi = w as int;
    let ghost hi = h as int;
    let ghost ei = es as int;
    let mut out: Vec<u8> = Vec::new();
    let mut y: u32 = 0;
    while y < h
        invariant
            y <= h,
            w > 0,
            w * h * 3 <= u32::MAX,
            wi == w,
            hi == h,
            ei == es,
            reads_in_bounds(l, data@.len() as int, wi, hi, ei),
            out@.len() == 3 * (y * w),
            forall|i: int|
                0 <= i < out@.len() ==> #[trigger] out@[i] == layout_pixel(l, data@, wi, hi, ei, (i / 3) % wi, (i / 3) / wi, i % 3),
        decreases h - y,
    {
        let mut x: u32 = 0;
        proof {
            assert(y * w + w <= h * w) by (nonlinear_arith)
                requires
                    y < h,
                    w > 0,
            ;
            assert(h * w == w * h) by (nonlinear_arith);
        }
        while x < w
            invariant
                x <= w,
                y < h,
                w > 0,
                w * h * 3 <= u32::MAX,
                y * w + w <= w * h,
                wi == w,
                hi == h,
                ei == es,
                reads_in_bounds(l, data@.len() as int, wi, hi, ei),
                out@.len() == 3 * (y * w + x),
                forall|i: int|
                    0 <= i < out@.len() ==> #[trigger] out@[i] == layout_pixel(l, data@, wi, hi, ei, (i / 3) % wi, (i / 3) / wi, i % 3),
            decreases w - x,
        {
            let px = decode_pixel(l, data, w, h, es, x, y);
            let ghost p = y * w + x;
            let ghost n0 = out@.len() as int;
            proof {
                lemma_fundamental_div_mod_converse(p, wi, y as int, x as int);
                assert(n0 == 3 * p);
                assert((3 * p) / 3 == p && (3 * p) % 3 == 0);
                assert((3 * p + 1) / 3 == p && (3 * p + 1) % 3 == 1);
                assert((3 * p + 2) / 3 == p && (3 * p + 2) % 3 == 2);
            }
            out.push(px.0);
            out.push(px.1);
            out.push(px.2);
            proof {
                assert forall|i: int| 0 <= i < out@.len() implies #[trigger] out@[i] == layout_pixel(
                    l,
                    data@,
                    wi,
                    hi,
                    ei,
                    (i / 3) % wi,
                    (i / 3) / wi,
                    i % 3,
                ) by {
                    if i >= n0 {
                        assert(i / 3 == p);
                    }
                }
            }
            x = x + 1;
        }
        proof {
            assert(y * w + w == (y + 1) * w) by (nonlinear_arith);
        }
        y = y + 1;
    }
    proof {
        assert(h * w == w * h) by (nonlinear_arith);
        assert(out@ =~= layout_frame(l, data@, wi, hi, ei));
    }
    out
}

proof fn lemma_stride_fits(l: PixelLayout, len: nat, w: nat, h: nat, bpl: nat)
    requires
        w > 0,
        h > 0,
        row_stride(l, len, w, h, bpl) is Some,
        l == PixelLayout::Nv12 ==> nv12_chroma_fits(len, w, h, bpl),
    ensures
        reads_in_bounds(l, len as int, w as int, h as int, row_stride(l, len, w, h, bpl)->0 as int),
{
    let es = row_stride(l, len, w, h, bpl)->0;
    let bpp = bytes_per_pixel(l);
    lemma_mul_pred(es as int, h as int);
    if l == PixelLayout::Nv12 {
        let s = max_nat(bpl, w);
        if len >= s * h + s * (h / 2) {
            assert(s * (h / 2) >= 0) by (nonlinear_arith);
        } else {
            assert(w * h + (w * h) / 2 >= w * h);
        }
        assert(es * ((h - 1) as nat / 2) >= 0) by (nonlinear_arith);
        assert(es * h + es * ((h - 1) / 2) + 2 * ((w - 1) / 2) + 2 <= len);
    } else {
        let row = w * bpp;
        let s = max_nat(bpl, row);
        if len >= s * h {
            assert(es == s);
        } else {
            assert(es == row);
            assert(len >= row * h);
        }
    }
}

/// The frame held by a buffer that a V4L2 device filled with `width` x
/// `height` pixels in `pixelformat`, rows `bytesperline` bytes apart; `None`
/// for an empty size, an unsupported format, a buffer too short, or an MJPEG
/// buffer that does not decode.
pub fn decode_v4l2_frame(data: &[u8], width: u32, height: u32, pixelformat: u32, bytesperline: u32) -> (r: Option<RgbFrame>)
    requires
        decode_safe(data@.len(), width, height, pixelformat, bytesperline),
    ensures
        frame_opt_view(r) == decoded_frame(data@, width, height, pixelformat, bytesperline),
{
    if width == 0 || height == 0 {
        return None;
    }
    if pixelformat == V4L2_PIX_FMT_MJPEG {
        return match load_rgb8(data) {
            Some(img) => RgbFrame::from_raw(img.0, img.1, img.2),
            None => None,
        };
    }
    let layout = match layout_from_format(pixelformat) {
        Some(l) => l,
        None => {
            return None;
        },
    };
    let es = match stride_for(layout, data.len(), width, height, bytesperline) {
        Some(s) => s,
        None => {
            return None;
        },
    };
    proof {
        lemma_stride_fits(layout, data@.len(), width as nat, height as nat, bytesperline as nat);
    }
    let pixels = fill_frame(layout, data, width, height, es);
    RgbFrame::from_raw(width, height, pixels)
}

/// A camera device: where it is, how its IR emitter is switched on, and
/// whether it takes a manual exposure.
#[derive(Debug)]
pub struct Camera {
    device_path: String,
    ir_emitter_path: String,
    is_ir_camera: bool,
    supports_manual_exposure: bool,
}

impl Camera {
    pub closed spec fn device_path_spec(&self) -> Seq<char> {
        self.device_path@
    }

    pub closed spec fn ir_emitter_path_spec(&self) -> Seq<char> {
        self.ir_emitter_path@
    }

    pub closed spec fn is_ir_spec(&self) -> bool {
        self.is_ir_camera
    }

    pub closed spec fn manual_exposure_spec(&self) -> bool {
        self.supports_manual_exposure
    }

    /// A camera at `device_path`. Its IR emitter is switched on by the
    /// program at `ir_cmd_path` when that is given and not empty, else by the
    /// default one. `supports_manual` is what probing the device found.
    pub fn new(device_path: &str, is_ir: bool, ir_cmd_path: Option<&str>, supports_manual: bool) -> (r: Camera)
        ensures
            r.device_path_spec() == device_path@,
            r.is_ir_spec() == is_ir,
            r.manual_exposure_spec() == supports_manual,
            r.ir_emitter_path_spec() == match ir_cmd_path {
                Some(p) => if p@.len() > 0 {
                    p@
                } else {
                    IR_EMITTER_PATH@
                },
                None => IR_EMITTER_PATH@,
            },
    {
        let ir_path = match ir_cmd_path {
            Some(p) => {
                if p.unicode_len() > 0 {
                    string_from_str(p)
                } else {
                    string_from_str(IR_EMITTER_PATH)
                }
            },
            None => string_from_str(IR_EMITTER_PATH),
        };
        Camera {
            device_path: string_from_str(device_path),
            ir_emitter_path: ir_path,
            is_ir_camera: is_ir,
            supports_manual_exposure: supports_manual,
        }
    }

    pub fn device_path(&self) -> (r: &str)
        ensures
            r@ == self.device_path_spec(),
    {
        self.device_path.as_str()
    }

    pub fn ir_emitter_path(&self) -> (r: &str)
        ensures
            r@ == self.ir_emitter_path_spec(),
    {
        self.ir_emitter_path.as_str()
    }

    pub fn is_ir_camera(&self) -> (r: bool)
        ensures
            r == self.is_ir_spec(),
    {
        self.is_ir_camera
    }

    pub fn supports_manual_exposure(&self) -> (r: bool)
        ensures
            r == self.manual_exposure_spec(),
    {
        self.supports_manual_exposure
    }
}


/// The device paths that open capture sessions hold; a device is used by
/// one session at a time.
#[derive(Debug)]
pub struct DeviceLocks {
    held: Vec<String>,
}

impl View for DeviceLocks {
    type V = Set<Seq<char>>;

    closed spec fn view(&self) -> Set<Seq<char>> {
        self.held.deep_view().to_set()
    }
}

impl DeviceLocks {
    /// No device held.
    pub fn new() -> (r: DeviceLocks)
        ensures
            r@ == Set::<Seq<char>>::empty(),
    {
        let r = DeviceLocks { held: Vec::new() };
        assert(r.held.deep_view().to_set() =~= Set::<Seq<char>>::empty());
        r
    }

    /// Whether `path` is held.
    pub fn is_held(&self, path: &str) -> (r: bool)
        ensures
            r == self@.contains(path@),
    {
        let ghost hv = self.held.deep_view();
        let p = chars_of(path);
        let mut i: usize = 0;
        while i < self.held.len()
            invariant
                i <= hv.len(),
                hv == self.held.deep_view(),
                p@ == path@,
                forall|k: int| 0 <= k < i ==> hv[k] != path@,
            decreases self.held.len() - i,
        {
            let h = chars_of(self.held[i].as_str());
            if chars_eq(h.as_slice(), p.as_slice()) {
                assert(hv[i as int] == path@);
                assert(hv.to_set().contains(path@));
                return true;
            }
            i = i + 1;
        }
        assert(!hv.contains(path@));
        false
    }
}

/// Takes the lock on `path` when it is free; tells whether it was taken.
/// Waiting for a held lock is left to the caller.
pub fn acquire_device_lock(locks: &mut DeviceLocks, path: &str) -> (r: bool)
    ensures
        r == !old(locks)@.contains(path@),
        final(locks)@ == old(locks)@.insert(path@),
{
    if locks.is_held(path) {
        assert(locks@.insert(path@) =~= locks@);
        return false;
    }
    let ghost old_hv = locks.held.deep_view();
    locks.held.push(string_from_str(path));
    assert(locks.held.deep_view() =~= old_hv.push(path@));
    assert(locks.held.deep_view().to_set() =~= old_hv.to_set().insert(path@)) by {
        assert forall|y: Seq<char>| locks.held.deep_view().contains(y) <==> (old_hv.contains(y) || y == path@) by {
            if locks.held.deep_view().contains(y) {
                let k = choose|k: int| 0 <= k < locks.held.deep_view().len() && locks.held.deep_view()[k] == y;
                if k < old_hv.len() {
                    assert(old_hv[k] == y);
                }
            }
            if old_hv.contains(y) {
                let k = choose|k: int| 0 <= k < old_hv.len() && old_hv[k] == y;
                assert(locks.held.deep_view()[k] == y);
            }
            if y == path@ {
                assert(locks.held.deep_view()[old_hv.len() as int] == y);
            }
        }
    }
    true
}

/// Gives up the lock on `path`.
pub fn release_device_lock(locks: &mut DeviceLocks, path: &str)
    ensures
        final(locks)@ == old(locks)@.remove(path@),
{
    let ghost old_hv = locks.held.deep_view();
    let p = chars_of(path);
    let mut kept: Vec<String> = Vec::new();
    let mut i: usize = 0;
    while i < locks.held.len()
        invariant
            i <= old_hv.len(),
            old_hv == locks.held.deep_view(),
            p@ == path@,
            forall|y: Seq<char>|
                kept.deep_view().contains(y) <==> (old_hv.subrange(0, i as int).contains(y) && y != path@),
        decreases locks.held.len() - i,
    {
        let h = chars_of(locks.held[i].as_str());
        let ghost before = kept.deep_view();
        if !chars_eq(h.as_slice(), p.as_slice()) {
            kept.push(string_from_chars(h.as_slice()));
            assert(kept.deep_view() =~= before.push(old_hv[i as int]));
        }
        assert forall|y: Seq<char>| kept.deep_view().contains(y) <==> (old_hv.subrange(0, i + 1).contains(y) && y != path@) by {
            let sub = old_hv.subrange(0, i + 1);
            if kept.deep_view().contains(y) {
                let k = choose|k: int| 0 <= k < kept.deep_view().len() && kept.deep_view()[k] == y;
                if k < before.len() {
                    assert(before[k] == y);
                    assert(before.contains(y));
                    assert(old_hv.subrange(0, i as int).contains(y));
                    let j = choose|j: int| 0 <= j < i && old_hv.subrange(0, i as int)[j] == y;
                    assert(old_hv[j] == y);
                    assert(sub[j] == old_hv[j]);
                    assert(sub.contains(y));
                } else {
                    assert(sub[i as int] == y);
                    assert(sub.contains(y));
                }
            }
            if sub.contains(y) && y != path@ {
                let j = choose|j: int| 0 <= j < sub.len() && sub[j] == y;
                if j < i {
                    assert(old_hv.subrange(0, i as int)[j] == y);
                    assert(before.contains(y));
                    let k = choose|k: int| 0 <= k < before.len() && before[k] == y;
                    assert(kept.deep_view()[k] == y);
                } else {
                    assert(kept.deep_view()[before.len() as int] == y);
                }
            }
        }
        i = i + 1;
    }
    assert(old_hv.subrange(0, old_hv.len() as int) =~= old_hv);
    locks.held = kept;
    assert(locks.held.deep_view().to_set() =~= old_hv.to_set().remove(path@));
}

/// The lock on a device is exclusive: once taken it cannot be taken again
/// until it is given up, and after it is given up it can be taken.
pub proof fn lemma_device_lock_exclusive(held: Set<Seq<char>>, path: Seq<char>)
    ensures
        held.insert(path).contains(path),
        !held.insert(path).remove(path).contains(path),
{
}


pub open spec fn frames_view(fs: Seq<RgbFrame>) -> Seq<(u32, u32, Seq<u8>)> {
    Seq::new(fs.len(), |k: int| fs[k]@)
}

/// The sum of byte `i` over the frames of size `w` x `h`.
pub open spec fn same_size_sum(fs: Seq<(u32, u32, Seq<u8>)>, w: u32, h: u32, i: int) -> nat
    decreases fs.len(),
{
    if fs.len() == 0 {
        0
    } else {
        same_size_sum(fs.drop_last(), w, h, i) + if fs.last().0 == w && fs.last().1 == h {
            fs.last().2[i] as nat
        } else {
            0nat
        }
    }
}

/// The number of frames of size `w` x `h`.
pub open spec fn same_size_count(fs: Seq<(u32, u32, Seq<u8>)>, w: u32, h: u32) -> nat
    decreases fs.len(),
{
    if fs.len() == 0 {
        0
    } else {
        same_size_count(fs.drop_last(), w, h) + if fs.last().0 == w && fs.last().1 == h {
            1nat
        } else {
            0nat
        }
    }
}

/// `s / n` rounded to the nearest integer, halves rounded up.
pub open spec fn rounded_div(s: nat, n: nat) -> nat {
    (2 * s + n) / (2 * n)
}

/// The average of the frames that have the size of the first one, byte by
/// byte, rounded to the nearest value; `None` when there is no frame.
pub open spec fn average_of(fs: Seq<(u32, u32, Seq<u8>)>) -> Option<(u32, u32, Seq<u8>)> {
    if fs.len() == 0 {
        None
    } else {
        let w = fs[0].0;
        let h = fs[0].1;
        let n = same_size_count(fs, w, h);
        Some(
            (
                w,
                h,
                Seq::new((w * h * 3) as nat, |i: int| rounded_div(same_size_sum(fs, w, h, i), n) as u8),
            ),
        )
    }
}

proof fn lemma_sum_bound(fs: Seq<(u32, u32, Seq<u8>)>, w: u32, h: u32, i: int)
    ensures
        same_size_sum(fs, w, h, i) <= 255 * same_size_count(fs, w, h),
        same_size_count(fs, w, h) <= fs.len(),
    decreases fs.len(),
{
    if fs.len() > 0 {
        lemma_sum_bound(fs.drop_last(), w, h, i);
    }
}

proof fn lemma_rounded_byte(s: nat, n: nat)
    requires
        n > 0,
        s <= 255 * n,
    ensures
        rounded_div(s, n) <= 255,
{
    assert((2 * s + n) / (2 * n) <= 255) by (nonlinear_arith)
        requires
            n > 0,
            s <= 255 * n,
    ;
}

proof fn lemma_count_first(fs: Seq<(u32, u32, Seq<u8>)>)
    requires
        fs.len() > 0,
    ensures
        same_size_count(fs, fs[0].0, fs[0].1) >= 1,
    decreases fs.len(),
{
    if fs.len() > 1 {
        assert(fs.drop_last()[0] == fs[0]);
        lemma_count_first(fs.drop_last());
    }
}

/// The average of frames read one after another, as enrolment averages
/// them: the first frame sets the size and frames of another size are left
/// out; each byte is the rounded mean.
pub fn average_frames(frames: &Vec<RgbFrame>) -> (r: Option<RgbFrame>)
    requires
        frames@.len() <= u32::MAX,
    ensures
        frame_opt_view(r) == average_of(frames_view(frames@)),
{
    if frames.len() == 0 {
        return None;
    }
    let ghost fv = frames_view(frames@);
    let w = frames[0].width();
    let h = frames[0].height();
    let total = frames[0].as_raw().len();
    let mut sums: Vec<u64> = Vec::new();
    while sums.len() < total
        invariant
            sums@.len() <= total,
            forall|j: int| 0 <= j < sums@.len() ==> sums@[j] == 0,
        decreases total - sums.len(),
    {
        sums.push(0);
    }
    let mut count: u64 = 0;
    let mut k: usize = 0;
    while k < frames.len()
        invariant
            k <= frames@.len(),
            frames@.len() <= u32::MAX,
            fv == frames_view(frames@),
            fv[0].0 == w,
            fv[0].1 == h,
            total == w * h * 3,
            sums@.len() == total,
            count == same_size_count(fv.subrange(0, k as int), w, h),
            forall|j: int| 0 <= j < total ==> #[trigger] sums@[j] == same_size_sum(fv.subrange(0, k as int), w, h, j),
        decreases frames.len() - k,
    {
        let ghost pre = fv.subrange(0, k as int);
        let ghost next = fv.subrange(0, k + 1);
        assert(next.drop_last() =~= pre);
        assert(next.last() == fv[k as int]);
        proof {
            lemma_sum_bound(pre, w, h, 0);
        }
        let f = &frames[k];
        if f.width() == w && f.height() == h {
            let raw = f.as_raw();
            let mut j: usize = 0;
            while j < total
                invariant
                    j <= total,
                    k < frames@.len(),
                    frames@.len() <= u32::MAX,
                    fv == frames_view(frames@),
                    raw@ == fv[k as int].2,
                    raw@.len() == total,
                    fv[k as int].0 == w,
                    fv[k as int].1 == h,
                    next.len() == k + 1,
                    next.drop_last() == pre,
                    next.last() == fv[k as int],
                    sums@.len() == total,
                    count == same_size_count(pre, w, h),
                    count <= k,
                    forall|q: int| 0 <= q < j ==> #[trigger] sums@[q] == same_size_sum(next, w, h, q),
                    forall|q: int| j <= q < total ==> #[trigger] sums@[q] == same_size_sum(pre, w, h, q),
                decreases total - j,
            {
                proof {
                    lemma_sum_bound(pre, w, h, j as int);
                    assert(same_size_sum(next, w, h, j as int) == same_size_sum(pre, w, h, j as int) + raw@[j as int]);
                }
                let v = sums[j] + raw[j] as u64;
                sums.set(j, v);
                j = j + 1;
            }
            count = count + 1;
        } else {
            proof {
                assert forall|q: int| 0 <= q < total implies #[trigger] sums@[q] == same_size_sum(next, w, h, q) by {}
            }
        }
        k = k + 1;
    }
    assert(fv.subrange(0, frames@.len() as int) =~= fv);
    proof {
        lemma_count_first(fv);
        lemma_sum_bound(fv, w, h, 0);
    }
    let mut out: Vec<u8> = Vec::new();
    let mut j: usize = 0;
    while j < total
        invariant
            j <= total,
            total == w * h * 3,
            sums@.len() == total,
            count == same_size_count(fv, w, h),
            count >= 1,
            count <= u32::MAX,
            forall|q: int| 0 <= q < total ==> #[trigger] sums@[q] == same_size_sum(fv, w, h, q),
            out@.len() == j,
            forall|q: int| 0 <= q < j ==> #[trigger] out@[q] == rounded_div(same_size_sum(fv, w, h, q), count as nat) as u8,
        decreases total - j,
    {
        proof {
            lemma_sum_bound(fv, w, h, j as int);
            lemma_rounded_byte(sums@[j as int] as nat, count as nat);
        }
        let avg = (2 * sums[j] + count) / (2 * count);
        out.push(avg as u8);
        j = j + 1;
    }
    let r = RgbFrame::from_raw(w, h, out);
    assert(r is Some);
    proof {
        assert(r.unwrap()@.2 =~= average_of(fv).unwrap().2);
    }
    r
}

/// `n` copies of a frame.
pub open spec fn copies(f: (u32, u32, Seq<u8>), n: nat) -> Seq<(u32, u32, Seq<u8>)> {
    Seq::new(n, |k: int| f)
}

/// Averaging copies of one frame gives that frame back.
pub proof fn lemma_average_of_copies(f: (u32, u32, Seq<u8>), n: nat)
    requires
        n >= 1,
        f.2.len() == f.0 * f.1 * 3,
    ensures
        average_of(copies(f, n)) == Some(f),
{
    let fs = copies(f, n);
    lemma_copies_sums(f, n);
    assert(fs[0] == f);
    assert forall|i: int| 0 <= i < f.2.len() implies #[trigger] rounded_div(same_size_sum(fs, f.0, f.1, i), n) as u8 == f.2[i] by {
        let s = f.2[i] as nat;
        assert(same_size_sum(fs, f.0, f.1, i) == s * n);
        assert(rounded_div(s * n, n) == s) by (nonlinear_arith)
            requires
                n >= 1,
        ;
    }
    assert(average_of(fs).unwrap().2 =~= f.2);
}

proof fn lemma_copies_sums(f: (u32, u32, Seq<u8>), n: nat)
    ensures
        same_size_count(copies(f, n), f.0, f.1) == n,
        forall|i: int| #[trigger] same_size_sum(copies(f, n), f.0, f.1, i) == f.2[i] as nat * n,
    decreases n,
{
    if n > 0 {
        lemma_copies_sums(f, (n - 1) as nat);
        assert(copies(f, n).drop_last() =~= copies(f, (n - 1) as nat));
        assert(copies(f, n).last() == f);
        assert forall|i: int| #[trigger] same_size_sum(copies(f, n), f.0, f.1, i) == f.2[i] as nat * n by {
            let a = f.2[i] as nat;
            let m = (n - 1) as nat;
            assert(same_size_sum(copies(f, m), f.0, f.1, i) == a * m);
            assert(a * m + a == a * n) by (nonlinear_arith)
                requires
                    m + 1 == n,
            ;
        }
    } else {
        assert forall|i: int| #[trigger] same_size_sum(copies(f, n), f.0, f.1, i) == f.2[i] as nat * n by {
            let a = f.2[i] as nat;
            assert(a * n == 0) by (nonlinear_arith)
                requires
                    n == 0,
            ;
        }
    }
}

} // verus!
