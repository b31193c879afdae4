//! Decoded bitmaps and their pixel formats, and the handle by which a
//! renderer knows a registered bitmap.

use vstd::prelude::*;
use crate::color::Color;

verus! {

/// The identifier a renderer gave to a bitmap it registered.
#[derive(Debug, Copy, Clone, Eq, PartialEq, Structural)]
pub struct BitmapHandle(pub u64);

/// The information a renderer gives back for a registered bitmap.
pub struct BitmapInfo {
    pub handle: BitmapHandle,
    pub width: u16,
    pub height: u16,
}

/// The size of a bitmap of a movie's library.
#[derive(Copy, Clone, Debug)]
pub struct BitmapSize {
    pub width: u16,
    pub height: u16,
}

/// The pixel format of the bitmap data.
#[derive(Clone, Copy, Debug, Eq, PartialEq, Structural)]
pub enum BitmapFormat {
    /// 24-bit RGB.
    Rgb,

    /// 32-bit RGBA with premultiplied alpha.
    Rgba,

    /// planar YUV 420
    Yuv420p,

    /// planar YUV 420, premultiplied with alpha (RGB channels are to be clamped after conversion)
    Yuva420p,
}

/// The number of bytes a bitmap of the format and size holds: three or four
/// per pixel for RGB and RGBA, one luma byte per pixel (two with the alpha
/// plane) plus two chroma planes of half the width and height, rounded up.
pub open spec fn format_len(format: BitmapFormat, width: nat, height: nat) -> nat {
    let chroma = ((width + 1) / 2) * ((height + 1) / 2);
    match format {
        BitmapFormat::Rgb => width * height * 3,
        BitmapFormat::Rgba => width * height * 4,
        BitmapFormat::Yuv420p => width * height + chroma * 2,
        BitmapFormat::Yuva420p => width * height * 2 + chroma * 2,
    }
}

impl BitmapFormat {
    pub fn length_for_size(self, width: usize, height: usize) -> (r: usize)
        requires
            width < usize::MAX,
            height < usize::MAX,
            format_len(self, width as nat, height as nat) <= usize::MAX,
        ensures
            r == format_len(self, width as nat, height as nat),
    {
        let ghost wh = width as nat * height as nat;
        let ghost ch = ((width as nat + 1) / 2) * ((height as nat + 1) / 2);
        proof {
            assert(wh <= format_len(self, width as nat, height as nat)) by (nonlinear_arith)
                requires
                    format_len(self, width as nat, height as nat) == match self {
                        BitmapFormat::Rgb => wh * 3,
                        BitmapFormat::Rgba => wh * 4,
                        BitmapFormat::Yuv420p => wh + ch * 2,
                        BitmapFormat::Yuva420p => wh * 2 + ch * 2,
                    },
                    ch >= 0,
                    wh >= 0,
            ;
            assert(ch * 2 <= format_len(self, width as nat, height as nat) || self is Rgb || self is Rgba)
                by (nonlinear_arith)
                requires
                    format_len(self, width as nat, height as nat) == match self {
                        BitmapFormat::Rgb => wh * 3,
                        BitmapFormat::Rgba => wh * 4,
                        BitmapFormat::Yuv420p => wh + ch * 2,
                        BitmapFormat::Yuva420p => wh * 2 + ch * 2,
                    },
                    ch >= 0,
                    wh >= 0,
            ;
        }
        match self {
            BitmapFormat::Rgb => width * height * 3,
            BitmapFormat::Rgba => width * height * 4,
            BitmapFormat::Yuv420p => width * height + ((width + 1) / 2) * ((height + 1) / 2) * 2,
            BitmapFormat::Yuva420p => {
                width * height * 2 + ((width + 1) / 2) * ((height + 1) / 2) * 2
            },
        }
    }
}

/// Decoded bitmap data from an SWF tag.
pub struct Bitmap {
    width: u32,
    height: u32,
    format: BitmapFormat,
    data: Vec<u8>,
}

/// `data` cut to `len` bytes or padded with zeros up to it.
pub open spec fn fit_len(data: Seq<u8>, len: nat) -> Seq<u8> {
    if data.len() >= len {
        data.subrange(0, len as int)
    } else {
        data + Seq::new((len - data.len()) as nat, |i: int| 0u8)
    }
}

/// The bytes of RGB triples (whole ones only) with an opaque alpha added.
pub open spec fn rgb_to_rgba_bytes(data: Seq<u8>) -> Seq<u8> {
    Seq::new(
        (data.len() / 3 * 4) as nat,
        |i: int| if i % 4 == 3 { 255u8 } else { data[(i / 4) * 3 + i % 4] },
    )
}

/// The red, green and blue bytes of whole RGBA quadruples.
pub open spec fn rgba_to_rgb_bytes(data: Seq<u8>) -> Seq<u8> {
    Seq::new((data.len() / 4 * 3) as nat, |i: int| data[(i / 3) * 4 + i % 3])
}

/// RGBA quadruples paired with alpha bytes (as many as both give), the
/// colour channels clamped to the alpha and the alpha replaced.
pub open spec fn clamp_to_alpha(rgba: Seq<u8>, alpha: Seq<u8>) -> Seq<u8> {
    let n = if rgba.len() / 4 <= alpha.len() { rgba.len() / 4 } else { alpha.len() };
    Seq::new(
        (n * 4) as nat,
        |i: int|
            {
                let a = alpha[i / 4];
                if i % 4 == 3 {
                    a
                } else {
                    let c = rgba[i];
                    if c < a { c } else { a }
                }
            },
    )
}

impl Bitmap {
    pub closed spec fn spec_width(&self) -> u32 {
        self.width
    }

    pub closed spec fn spec_height(&self) -> u32 {
        self.height
    }

    pub closed spec fn spec_format(&self) -> BitmapFormat {
        self.format
    }

    pub closed spec fn spec_data(&self) -> Seq<u8> {
        self.data@
    }

    /// The data has the size the format and dimensions call for.
    pub open spec fn wf(&self) -> bool {
        self.spec_data().len() == format_len(
            self.spec_format(),
            self.spec_width() as nat,
            self.spec_height() as nat,
        )
    }

    /// Ensures that `data` is the correct size for the given `width` and `height`.
    pub fn new(width: u32, height: u32, format: BitmapFormat, data: Vec<u8>) -> (b: Self)
        requires
            width < usize::MAX,
            height < usize::MAX,
            format_len(format, width as nat, height as nat) <= usize::MAX,
        ensures
            b.spec_width() == width,
            b.spec_height() == height,
            b.spec_format() == format,
            b.spec_data() == fit_len(data@, format_len(format, width as nat, height as nat)),
            b.wf(),
    {
        let mut data = data;
        // If the size is incorrect, either we screwed up or the decoder screwed up.
        let expected_len = format.length_for_size(width as usize, height as usize);
        if data.len() != expected_len {
            // Truncate or zero pad to the expected size.
            let ghost d0 = data@;
            if data.len() > expected_len {
                data.truncate(expected_len);
            } else {
                while data.len() < expected_len
                    invariant
                        data@.len() <= expected_len,
                        d0.len() <= data@.len(),
                        data@ == d0 + Seq::new((data@.len() - d0.len()) as nat, |i: int| 0u8),
                    decreases expected_len - data@.len(),
                {
                    let ghost before = data@;
                    data.push(0);
                    assert(data@ =~= d0 + Seq::new((data@.len() - d0.len()) as nat, |i: int| 0u8));
                }
            }
        }
        Self { width, height, format, data }
    }

    #[inline]
    pub fn width(&self) -> (r: u32)
        ensures
            r == self.spec_width(),
    {
        self.width
    }

    #[inline]
    pub fn height(&self) -> (r: u32)
        ensures
            r == self.spec_height(),
    {
        self.height
    }

    /// The width of the chroma planes of a YUV bitmap: half the width, rounded up.
    pub fn chroma_width(&self) -> (r: u32)
        requires
            self.spec_format() is Yuv420p || self.spec_format() is Yuva420p,
            self.spec_width() < u32::MAX,
        ensures
            r == (self.spec_width() + 1) / 2,
    {
        (self.width + 1) / 2
    }

    /// The height of the chroma planes of a YUV bitmap: half the height, rounded up.
    pub fn chroma_height(&self) -> (r: u32)
        requires
            self.spec_format() is Yuv420p || self.spec_format() is Yuva420p,
            self.spec_height() < u32::MAX,
        ensures
            r == (self.spec_height() + 1) / 2,
    {
        (self.height + 1) / 2
    }

    #[inline]
    pub fn format(&self) -> (r: BitmapFormat)
        ensures
            r == self.spec_format(),
    {
        self.format
    }

    #[inline]
    pub fn data(&self) -> (r: &[u8])
        ensures
            r@ == self.spec_data(),
    {
        self.data.as_slice()
    }

    #[inline]
    pub fn data_mut(&mut self) -> (r: &mut [u8])
        ensures
            r@ == old(self).spec_data(),
            final(self).spec_data() == final(r)@,
            final(self).spec_width() == old(self).spec_width(),
            final(self).spec_height() == old(self).spec_height(),
            final(self).spec_format() == old(self).spec_format(),
    {
        self.data.as_mut_slice()
    }

    /// The pixels as packed ARGB colours, opaque for RGB bitmaps.
    pub fn as_colors(&self) -> (r: Vec<i32>)
        requires
            self.spec_format() is Rgb || self.spec_format() is Rgba,
        ensures
            ({
                let d = self.spec_data();
                let k: int = if self.spec_format() is Rgb { 3 } else { 4 };
                &&& r@.len() == (d.len() as int) / k
                &&& forall|i: int|
                    0 <= i < r@.len() ==> #[trigger] r@[i] == Color::from_argb(
                        if k == 4 { d[i * k + 3] } else { 255u8 },
                        d[i * k],
                        d[i * k + 1],
                        d[i * k + 2],
                    ).0
            }),
    {
        let k: usize = match self.format {
            BitmapFormat::Rgb => 3,
            _ => 4,
        };
        let len = self.data.len();
        let n = len / k;
        let mut out: Vec<i32> = Vec::new();
        for i in 0..n
            invariant
                k == (if self.spec_format() is Rgb { 3usize } else { 4usize }),
                len == self.spec_data().len(),
                n == (self.spec_data().len() as int) / (k as int),
                out@.len() == i,
                forall|j: int|
                    0 <= j < i ==> #[trigger] out@[j] == Color::from_argb(
                        if k == 4 { self.spec_data()[j * k + 3] } else { 255u8 },
                        self.spec_data()[j * k],
                        self.spec_data()[j * k + 1],
                        self.spec_data()[j * k + 2],
                    ).0,
        {
            assert((i as int) * (k as int) + (k as int) <= n * (k as int)) by (nonlinear_arith)
                requires i < n;
            assert(n * (k as int) <= self.spec_data().len()) by (nonlinear_arith)
                requires n == (self.spec_data().len() as int) / (k as int), k > 0;
            assert((i as int) * (k as int) + (k as int) <= self.data@.len());
            let base = i * k;
            let red = self.data[base];
            let green = self.data[base + 1];
            let blue = self.data[base + 2];
            let alpha = if k == 4 { self.data[base + 3] } else { 0xFF };
            out.push(Color::argb(alpha, red, green, blue).0);
        }
        out
    }
}

/// The bytes of RGB triples (whole ones only) with an opaque alpha added.
fn rgb_to_rgba(data: &[u8]) -> (r: Vec<u8>)
    ensures
        r@ == rgb_to_rgba_bytes(data@),
{
    let n = data.len() / 3;
    let mut out: Vec<u8> = Vec::new();
    let mut i: usize = 0;
    while i < n
        invariant
            n == data@.len() / 3,
            data@.len() <= usize::MAX,
            i <= n,
            out@.len() == i * 4,
            forall|k: int| 0 <= k < i * 4 ==> #[trigger] out@[k] == rgb_to_rgba_bytes(data@)[k],
        decreases n - i,
    {
        let ghost before = out@;
        out.push(data[3 * i]);
        out.push(data[3 * i + 1]);
        out.push(data[3 * i + 2]);
        out.push(255);
        proof {
            assert forall|k: int| 0 <= k < (i + 1) * 4 implies #[trigger] out@[k] == rgb_to_rgba_bytes(data@)[k] by {
                if k >= i * 4 {
                    assert(k / 4 == i as int);
                    assert(k % 4 == k - i * 4);
                } else {
                    assert(out@[k] == before[k]);
                }
            }
        }
        i = i + 1;
    }
    assert(out@ =~= rgb_to_rgba_bytes(data@));
    out
}

/// The red, green and blue bytes of whole RGBA quadruples.
fn rgba_to_rgb(data: &[u8]) -> (r: Vec<u8>)
    ensures
        r@ == rgba_to_rgb_bytes(data@),
{
    let n = data.len() / 4;
    let mut out: Vec<u8> = Vec::new();
    let mut i: usize = 0;
    while i < n
        invariant
            n == data@.len() / 4,
            data@.len() <= usize::MAX,
            i <= n,
            out@.len() == i * 3,
            forall|k: int| 0 <= k < i * 3 ==> #[trigger] out@[k] == rgba_to_rgb_bytes(data@)[k],
        decreases n - i,
    {
        let ghost before = out@;
        out.push(data[4 * i]);
        out.push(data[4 * i + 1]);
        out.push(data[4 * i + 2]);
        proof {
            assert forall|k: int| 0 <= k < (i + 1) * 3 implies #[trigger] out@[k] == rgba_to_rgb_bytes(data@)[k] by {
                if k >= i * 3 {
                    assert(k / 3 == i as int);
                    assert(k % 3 == k - i * 3);
                } else {
                    assert(out@[k] == before[k]);
                }
            }
        }
        i = i + 1;
    }
    assert(out@ =~= rgba_to_rgb_bytes(data@));
    out
}

/// RGBA quadruples paired with alpha bytes, the colour channels clamped to
/// the alpha and the alpha replaced.
fn clamp_rgba_to_alpha(rgba: &[u8], alpha: &[u8]) -> (r: Vec<u8>)
    ensures
        r@ == clamp_to_alpha(rgba@, alpha@),
{
    let n = if rgba.len() / 4 <= alpha.len() { rgba.len() / 4 } else { alpha.len() };
    let mut out: Vec<u8> = Vec::new();
    let mut i: usize = 0;
    while i < n
        invariant
            n == (if rgba@.len() / 4 <= alpha@.len() { rgba@.len() / 4 } else { alpha@.len() }),
            rgba@.len() <= usize::MAX,
            i <= n,
            out@.len() == i * 4,
            forall|k: int| 0 <= k < i * 4 ==> #[trigger] out@[k] == clamp_to_alpha(rgba@, alpha@)[k],
        decreases n - i,
    {
        let ghost before = out@;
        let a = alpha[i];
        let r = rgba[4 * i];
        let g = rgba[4 * i + 1];
        let b = rgba[4 * i + 2];
        out.push(if r < a { r } else { a });
        out.push(if g < a { g } else { a });
        out.push(if b < a { b } else { a });
        out.push(a);
        proof {
            assert forall|k: int| 0 <= k < (i + 1) * 4 implies #[trigger] out@[k] == clamp_to_alpha(rgba@, alpha@)[k] by {
                if k >= i * 4 {
                    assert(k / 4 == i as int);
                    assert(k % 4 == k - i * 4);
                } else {
                    assert(out@[k] == before[k]);
                }
            }
        }
        i = i + 1;
    }
    assert(out@ =~= clamp_to_alpha(rgba@, alpha@));
    out
}

/// The luma, first and second chroma planes of a YUV bitmap's data (and
/// for YUVA, the alpha plane after them).
pub open spec fn yuv_plane(data: Seq<u8>, width: u32, height: u32, which: int) -> Seq<u8> {
    let luma = width as int * height as int;
    let chroma = ((width as int + 1) / 2) * ((height as int + 1) / 2);
    if which == 0 {
        data.subrange(0, luma)
    } else if which == 1 {
        data.subrange(luma, luma + chroma)
    } else if which == 2 {
        data.subrange(luma + chroma, luma + 2 * chroma)
    } else {
        data.subrange(luma + 2 * chroma, 2 * luma + 2 * chroma)
    }
}

/// `rgba` is what the converter gives back for the Y, U and V planes of a
/// bitmap of `width` by `height` holding `data`, and its width.
pub open spec fn yuv_converted<F: FnOnce(&[u8], &[u8], &[u8], usize) -> Vec<u8>>(
    convert: F,
    data: Seq<u8>,
    width: u32,
    height: u32,
    rgba: Seq<u8>,
) -> bool {
    exists|y: &[u8], u: &[u8], v: &[u8], out: Vec<u8>|
        {
            &&& y@ == yuv_plane(data, width, height, 0)
            &&& u@ == yuv_plane(data, width, height, 1)
            &&& v@ == yuv_plane(data, width, height, 2)
            &&& #[trigger] call_ensures(convert, (y, u, v, width as usize), out)
            &&& out@ == rgba
        }
}

impl Bitmap {
    /// The planes of a YUV bitmap can be cut from its data.
    pub open spec fn yuv_fits(&self) -> bool {
        &&& self.spec_width() < u32::MAX
        &&& self.spec_height() < u32::MAX
        &&& self.spec_width() as int * self.spec_height() as int <= u32::MAX
        &&& ((self.spec_width() as int + 1) / 2) * ((self.spec_height() as int + 1) / 2) <= u32::MAX
    }

    /// Cuts the Y, U and V planes from the data and hands them to `convert`.
    fn convert_yuv<F: FnOnce(&[u8], &[u8], &[u8], usize) -> Vec<u8>>(&self, convert: F) -> (r: Vec<u8>)
        requires
            self.wf(),
            self.spec_format() is Yuv420p || self.spec_format() is Yuva420p,
            self.yuv_fits(),
            forall|y: &[u8], u: &[u8], v: &[u8], w: usize| call_requires(convert, (y, u, v, w)),
        ensures
            yuv_converted(convert, self.spec_data(), self.spec_width(), self.spec_height(), r@),
    {
        let total = self.data.len();
        let luma_len = (self.width * self.height) as usize;
        let chroma_len = (self.chroma_width() * self.chroma_height()) as usize;
        assert(luma_len + 2 * chroma_len <= total);
        let data = self.data.as_slice();
        let y = &data[0..luma_len];
        let u = &data[luma_len..luma_len + chroma_len];
        let v = &data[luma_len + chroma_len..luma_len + 2 * chroma_len];
        let out = convert(y, u, v, self.width as usize);
        assert(yuv_converted(convert, self.spec_data(), self.spec_width(), self.spec_height(), out@));
        out
    }

    /// Converts this bitmap to RGB, if it is not already. YUV data goes
    /// through `yuv420_to_rgba`, which is handed the Y, U and V planes and
    /// the width, and whose alpha is dropped.
    pub fn to_rgb<F: FnOnce(&[u8], &[u8], &[u8], usize) -> Vec<u8>>(self, yuv420_to_rgba: F) -> (r: Self)
        requires
            self.wf(),
            self.spec_format() is Rgb || self.spec_format() is Yuv420p,
            self.spec_format() is Yuv420p ==> self.yuv_fits(),
            forall|y: &[u8], u: &[u8], v: &[u8], w: usize| call_requires(yuv420_to_rgba, (y, u, v, w)),
        ensures
            r.spec_format() == BitmapFormat::Rgb,
            r.spec_width() == self.spec_width(),
            r.spec_height() == self.spec_height(),
            self.spec_format() is Rgb ==> r.spec_data() == self.spec_data(),
            self.spec_format() is Yuv420p ==> exists|rgba: Seq<u8>|
                yuv_converted(yuv420_to_rgba, self.spec_data(), self.spec_width(), self.spec_height(), rgba)
                    && #[trigger] rgba_to_rgb_bytes(rgba) == r.spec_data(),
    {
        let mut b = self;
        if let BitmapFormat::Yuv420p = b.format {
            let rgba = b.convert_yuv(yuv420_to_rgba);
            b.data = rgba_to_rgb(rgba.as_slice());
        }
        b.format = BitmapFormat::Rgb;
        b
    }

    /// Converts this bitmap to RGBA, if it is not already. RGB gains an
    /// opaque alpha; YUV data goes through `yuv420_to_rgba`, which is handed
    /// the Y, U and V planes and the width; for YUVA its colour channels are
    /// then clamped to the alpha plane, which replaces its alpha.
    pub fn to_rgba<F: FnOnce(&[u8], &[u8], &[u8], usize) -> Vec<u8>>(self, yuv420_to_rgba: F) -> (r: Self)
        requires
            self.wf(),
            self.spec_format() is Yuv420p || self.spec_format() is Yuva420p ==> self.yuv_fits(),
            forall|y: &[u8], u: &[u8], v: &[u8], w: usize| call_requires(yuv420_to_rgba, (y, u, v, w)),
        ensures
            r.spec_format() == BitmapFormat::Rgba,
            r.spec_width() == self.spec_width(),
            r.spec_height() == self.spec_height(),
            self.spec_format() is Rgb ==> r.spec_data() == rgb_to_rgba_bytes(self.spec_data()),
            self.spec_format() is Rgba ==> r.spec_data() == self.spec_data(),
            self.spec_format() is Yuv420p ==> yuv_converted(
                yuv420_to_rgba,
                self.spec_data(),
                self.spec_width(),
                self.spec_height(),
                r.spec_data(),
            ),
            self.spec_format() is Yuva420p ==> exists|rgba: Seq<u8>|
                yuv_converted(yuv420_to_rgba, self.spec_data(), self.spec_width(), self.spec_height(), rgba)
                    && #[trigger] clamp_to_alpha(
                    rgba,
                    yuv_plane(self.spec_data(), self.spec_width(), self.spec_height(), 3),
                ) == r.spec_data(),
    {
        let mut b = self;
        match b.format {
            BitmapFormat::Rgb => {
                b.data = rgb_to_rgba(b.data.as_slice());
            },
            BitmapFormat::Rgba => {},
            BitmapFormat::Yuv420p => {
                b.data = b.convert_yuv(yuv420_to_rgba);
            },
            BitmapFormat::Yuva420p => {
                let total = b.data.len();
                let luma_len = (b.width * b.height) as usize;
                let chroma_len = (b.chroma_width() * b.chroma_height()) as usize;
                assert(2 * luma_len + 2 * chroma_len == total);
                let rgba = b.convert_yuv(yuv420_to_rgba);
                let data = b.data.as_slice();
                let a = &data[luma_len + 2 * chroma_len..2 * luma_len + 2 * chroma_len];
                let ghost old_data = b.data@;
                assert(a@ == yuv_plane(old_data, b.width, b.height, 3));
                b.data = clamp_rgba_to_alpha(rgba.as_slice(), a);
                assert(clamp_to_alpha(rgba@, yuv_plane(old_data, b.width, b.height, 3)) == b.data@);
            },
        }
        b.format = BitmapFormat::Rgba;
        b
    }
}

} // verus!
