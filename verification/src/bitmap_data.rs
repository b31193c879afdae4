//! The pixel store behind the AVM1 `BitmapData` class.

use vstd::prelude::*;
use crate::bitmap::BitmapHandle;
use crate::color::{ChannelOptions, Color, LehmerRng, lehmer_next, lemma_argb_channels, premultiply_channel};

verus! {

/// A 32-bit integer value as a signed 32-bit integer (two's complement).
pub open spec fn u32_as_i32(v: u32) -> int {
    if v < 0x8000_0000 { v as int } else { v as int - 0x1_0000_0000 }
}

/// A signed 32-bit integer read as an unsigned one (two's complement).
pub open spec fn i32_as_u32(v: i32) -> nat {
    if v >= 0 { v as nat } else { (v as int + 0x1_0000_0000) as nat }
}

pub proof fn lemma_u32_as_i32(v: u32)
    ensures
        (v as i32) as int == u32_as_i32(v),
{
    if v < 0x8000_0000 {
        assert(v < 0x8000_0000u32 ==> (v as i32) as int == v as int) by (bit_vector);
    } else {
        assert(v >= 0x8000_0000u32 ==> (v as i32) < 0i32) by (bit_vector);
        assert(v >= 0x8000_0000u32 ==> ((v as i32) as u32) == v) by (bit_vector);
        let s = v as i32;
        assert(s < 0i32 ==> (s as u32) as int == s as int + 0x1_0000_0000) by (bit_vector);
    }
}

pub proof fn lemma_i32_as_u32(v: i32)
    ensures
        (v as u32) as nat == i32_as_u32(v),
{
    if v >= 0 {
        assert(v >= 0i32 ==> (v as u32) as int == v as int) by (bit_vector);
    } else {
        assert(v < 0i32 ==> (v as u32) as int == v as int + 0x1_0000_0000) by (bit_vector);
    }
}

/// The pixels of a `BitmapData`, with its size and flags.
#[derive(Debug)]
pub struct BitmapData {
    /// The pixels in the bitmap, stored as a array of pre-multiplied ARGB colour values
    pub pixels: Vec<Color>,
    dirty: bool,
    width: u32,
    height: u32,
    transparency: bool,
    bitmap_handle: Option<BitmapHandle>,
}

impl BitmapData {
    /// The pixel array.
    pub closed spec fn spec_pixels(&self) -> Seq<Color> {
        self.pixels@
    }

    pub closed spec fn spec_width(&self) -> u32 {
        self.width
    }

    pub closed spec fn spec_height(&self) -> u32 {
        self.height
    }

    pub closed spec fn spec_transparency(&self) -> bool {
        self.transparency
    }

    pub closed spec fn spec_dirty(&self) -> bool {
        self.dirty
    }

    pub closed spec fn spec_handle(&self) -> Option<BitmapHandle> {
        self.bitmap_handle
    }

    /// The size fits the signed coordinates and `x + y * width` never
    /// overflows for `x <= width` and `y <= height`.
    pub open spec fn dims_ok(&self) -> bool {
        &&& self.spec_width() <= i32::MAX
        &&& self.spec_height() <= i32::MAX
        &&& self.spec_width() as nat * (self.spec_height() as nat + 1) <= u32::MAX
    }

    /// Well-formed: the size is sane and there is one pixel per position.
    pub open spec fn wf(&self) -> bool {
        &&& self.dims_ok()
        &&& self.spec_pixels().len() == self.spec_width() as nat * self.spec_height() as nat
    }

    /// The index of position `(x, y)` in the pixel array.
    pub open spec fn index_of(&self, x: int, y: int) -> int {
        x + y * self.spec_width()
    }

    /// Whether `(x, y)` lies inside the bitmap.
    pub open spec fn in_bounds(&self, x: int, y: int) -> bool {
        0 <= x < self.spec_width() && 0 <= y < self.spec_height()
    }

    /// The pixel at an in-bounds position.
    pub open spec fn pixel(&self, x: int, y: int) -> Color {
        self.spec_pixels()[self.index_of(x, y)]
    }

    /// What `get_pixel_raw` reads: positions up to and including the width
    /// and height are looked up by index, which may land on the next row or
    /// past the end of the pixels.
    pub open spec fn raw_pixel(&self, x: nat, y: nat) -> Option<Color> {
        if x > self.spec_width() || y > self.spec_height() {
            None
        } else if self.index_of(x as int, y as int) < self.spec_pixels().len() {
            Some(self.spec_pixels()[self.index_of(x as int, y as int)])
        } else {
            None
        }
    }

    /// Everything but the pixels and the dirty flag is as in `other`.
    pub open spec fn same_shape(&self, other: &BitmapData) -> bool {
        &&& self.spec_width() == other.spec_width()
        &&& self.spec_height() == other.spec_height()
        &&& self.spec_transparency() == other.spec_transparency()
        &&& self.spec_handle() == other.spec_handle()
        &&& self.spec_pixels().len() == other.spec_pixels().len()
    }

    /// An empty bitmap, as the AVM1 object starts with.
    pub fn default() -> (b: Self)
        ensures
            b.wf(),
            b.spec_width() == 0,
            b.spec_height() == 0,
            b.spec_pixels().len() == 0,
            !b.spec_transparency(),
            !b.spec_dirty(),
            b.spec_handle() is None,
    {
        BitmapData {
            pixels: Vec::new(),
            dirty: false,
            width: 0,
            height: 0,
            transparency: false,
            bitmap_handle: None,
        }
    }

    /// A copy of the bitmap.
    pub fn clone(&self) -> (b: Self)
        ensures
            self.wf() ==> b.wf(),
            b.spec_pixels() == self.spec_pixels(),
            b.spec_width() == self.spec_width(),
            b.spec_height() == self.spec_height(),
            b.spec_transparency() == self.spec_transparency(),
            b.spec_dirty() == self.spec_dirty(),
            b.spec_handle() == self.spec_handle(),
    {
        let mut pixels: Vec<Color> = Vec::new();
        let n = self.pixels.len();
        for i in 0..n
            invariant
                n == self.spec_pixels().len(),
                pixels@ == self.spec_pixels().subrange(0, i as int),
        {
            pixels.push(self.pixels[i]);
        }
        assert(pixels@ == self.spec_pixels());
        BitmapData {
            pixels,
            dirty: self.dirty,
            width: self.width,
            height: self.height,
            transparency: self.transparency,
            bitmap_handle: self.bitmap_handle,
        }
    }

    pub fn init_pixels(&mut self, width: u32, height: u32, fill_color: i32, transparency: bool)
        requires
            width as nat * height as nat <= u32::MAX,
        ensures
            final(self).spec_width() == width,
            final(self).spec_height() == height,
            final(self).spec_transparency() == transparency,
            final(self).spec_dirty(),
            final(self).spec_handle() == old(self).spec_handle(),
            final(self).spec_pixels() == Seq::new(
                (width * height) as nat,
                |i: int| Color(fill_color).premultiplied(transparency),
            ),
            width <= i32::MAX && height <= i32::MAX && width as nat * (height as nat + 1) <= u32::MAX
                ==> final(self).wf(),
    {
        self.width = width;
        self.height = height;
        self.transparency = transparency;
        let c = Color(fill_color).to_premultiplied_alpha(self.transparency());
        let n: u32 = width * height;
        let mut pixels: Vec<Color> = Vec::new();
        let mut i: u32 = 0;
        while i < n
            invariant
                i <= n,
                pixels@ == Seq::new(i as nat, |k: int| c),
            decreases n - i,
        {
            pixels.push(c);
            i = i + 1;
        }
        self.pixels = pixels;
        self.dirty = true;
    }

    pub fn dispose(&mut self)
        ensures
            final(self).spec_width() == 0,
            final(self).spec_height() == 0,
            final(self).spec_pixels().len() == 0,
            final(self).spec_dirty(),
            final(self).spec_transparency() == old(self).spec_transparency(),
            final(self).spec_handle() == old(self).spec_handle(),
            final(self).wf(),
    {
        self.width = 0;
        self.height = 0;
        self.pixels.clear();
        self.dirty = true;
        assert(0 * (0 + 1) == 0);
    }

    /// The renderer's handle for this bitmap; on first use `register` is
    /// asked for one with the size and RGBA bytes, and its answer is kept.
    pub fn bitmap_handle<F: FnOnce(u32, u32, Vec<u8>) -> Option<BitmapHandle>>(
        &mut self,
        register: F,
    ) -> (r: Option<BitmapHandle>)
        requires
            forall|w: u32, h: u32, rgba: Vec<u8>| call_requires(register, (w, h, rgba)),
        ensures
            old(self).spec_handle() is Some ==> r == old(self).spec_handle(),
            old(self).spec_handle() is None ==> exists|rgba: Vec<u8>|
                rgba@ == rgba_bytes(old(self).spec_pixels()) && call_ensures(
                    register,
                    (old(self).spec_width(), old(self).spec_height(), rgba),
                    r,
                ),
            final(self).spec_handle() == r,
            final(self).spec_pixels() == old(self).spec_pixels(),
            final(self).spec_width() == old(self).spec_width(),
            final(self).spec_height() == old(self).spec_height(),
            final(self).spec_transparency() == old(self).spec_transparency(),
            final(self).spec_dirty() == old(self).spec_dirty(),
    {
        if self.bitmap_handle.is_none() {
            let rgba = self.pixels_rgba();
            let bitmap_handle = register(self.width(), self.height(), rgba);
            self.bitmap_handle = bitmap_handle;
        }
        self.bitmap_handle
    }

    pub fn transparency(&self) -> (r: bool)
        ensures
            r == self.spec_transparency(),
    {
        self.transparency
    }

    pub fn set_transparency(&mut self, transparency: bool)
        ensures
            final(self).spec_transparency() == transparency,
            final(self).spec_pixels() == old(self).spec_pixels(),
            final(self).spec_width() == old(self).spec_width(),
            final(self).spec_height() == old(self).spec_height(),
            final(self).spec_dirty() == old(self).spec_dirty(),
            final(self).spec_handle() == old(self).spec_handle(),
    {
        self.transparency = transparency;
    }

    pub fn dirty(&self) -> (r: bool)
        ensures
            r == self.spec_dirty(),
    {
        self.dirty
    }

    pub fn set_dirty(&mut self, dirty: bool)
        ensures
            final(self).spec_dirty() == dirty,
            final(self).spec_pixels() == old(self).spec_pixels(),
            final(self).spec_width() == old(self).spec_width(),
            final(self).spec_height() == old(self).spec_height(),
            final(self).spec_transparency() == old(self).spec_transparency(),
            final(self).spec_handle() == old(self).spec_handle(),
    {
        self.dirty = dirty;
    }

    pub fn pixels(&self) -> (r: &[Color])
        ensures
            r@ == self.spec_pixels(),
    {
        self.pixels.as_slice()
    }

    pub fn set_pixels(&mut self, pixels: Vec<Color>)
        ensures
            final(self).spec_pixels() == pixels@,
            final(self).spec_width() == old(self).spec_width(),
            final(self).spec_height() == old(self).spec_height(),
            final(self).spec_transparency() == old(self).spec_transparency(),
            final(self).spec_dirty() == old(self).spec_dirty(),
            final(self).spec_handle() == old(self).spec_handle(),
    {
        self.pixels = pixels;
    }

    /// The pixels as bytes: red, green, blue and alpha of each in turn.
    pub fn pixels_rgba(&self) -> (r: Vec<u8>)
        ensures
            r@ == rgba_bytes(self.spec_pixels()),
    {
        let mut output: Vec<u8> = Vec::new();
        let n = self.pixels.len();
        for i in 0..n
            invariant
                n == self.spec_pixels().len(),
                output@ == rgba_bytes(self.spec_pixels().subrange(0, i as int)),
        {
            let p = self.pixels[i];
            proof {
                lemma_rgba_bytes_push(self.spec_pixels().subrange(0, i as int), p);
                assert(self.spec_pixels().subrange(0, i + 1) == self.spec_pixels().subrange(0, i as int).push(p));
            }
            output.push(p.red());
            output.push(p.green());
            output.push(p.blue());
            output.push(p.alpha());
        }
        assert(self.spec_pixels().subrange(0, n as int) == self.spec_pixels());
        output
    }

    pub fn width(&self) -> (r: u32)
        ensures
            r == self.spec_width(),
    {
        self.width
    }

    pub fn height(&self) -> (r: u32)
        ensures
            r == self.spec_height(),
    {
        self.height
    }

    /// Whether `(x, y)` is inside the bitmap, comparing with the width and
    /// height taken as `i32`.
    pub open spec fn point_in_bounds(&self, x: i32, y: i32) -> bool {
        0 <= x && x < self.spec_width() as i32 && 0 <= y && y < self.spec_height() as i32
    }

    pub fn is_point_in_bounds(&self, x: i32, y: i32) -> (r: bool)
        ensures
            r == self.point_in_bounds(x, y),
            self.dims_ok() ==> r == self.in_bounds(x as int, y as int),
    {
        x >= 0 && x < self.width() as i32 && y >= 0 && y < self.height() as i32
    }

    /// The index that reading at `(x, y)` computes fits in a `u32`, where
    /// the position is not past the width and height.
    pub open spec fn raw_read_fits(&self, x: u32, y: u32) -> bool {
        x <= self.spec_width() && y <= self.spec_height() ==> x + y * self.spec_width() <= u32::MAX
    }

    pub fn get_pixel_raw(&self, x: u32, y: u32) -> (r: Option<Color>)
        requires
            self.raw_read_fits(x, y),
        ensures
            r == self.raw_pixel(x as nat, y as nat),
    {
        if x > self.width() || y > self.height() {
            return None;
        }
        let idx: u32 = x + y * self.width();
        if (idx as usize) < self.pixels.len() {
            Some(self.pixels[idx as usize])
        } else {
            None
        }
    }

    /// A bitmap of sane size can be read anywhere.
    pub proof fn lemma_reads_fit(&self, x: u32, y: u32)
        requires
            self.dims_ok(),
        ensures
            self.raw_read_fits(x, y),
    {
        if x <= self.spec_width() && y <= self.spec_height() {
            lemma_index_bound(self.spec_width() as nat, self.spec_height() as nat, x as nat, y as nat);
        }
    }

    /// `get_pixel_raw` on a bitmap whose size keeps every index in range.
    fn read_raw(&self, x: u32, y: u32) -> (r: Option<Color>)
        requires
            self.dims_ok(),
        ensures
            r == self.raw_pixel(x as nat, y as nat),
    {
        proof {
            self.lemma_reads_fit(x, y);
        }
        self.get_pixel_raw(x, y)
    }

    /// The un-multiplied colour at `(x, y)` read as unsigned coordinates, or 0
    /// where nothing is read.
    pub open spec fn spec_get_pixel32(&self, x: i32, y: i32) -> Color {
        match self.raw_pixel(i32_as_u32(x), i32_as_u32(y)) {
            Some(c) => c.unmultiplied(),
            None => Color(0),
        }
    }

    pub fn get_pixel32(&self, x: i32, y: i32) -> (c: Color)
        requires
            self.raw_read_fits(x as u32, y as u32),
        ensures
            c == self.spec_get_pixel32(x, y),
    {
        proof {
            lemma_i32_as_u32(x);
            lemma_i32_as_u32(y);
        }
        match self.get_pixel_raw(x as u32, y as u32) {
            Some(f) => f.to_un_multiplied_alpha(),
            None => Color(0),
        }
    }

    /// The colour `get_pixel` reads: 0 outside the bitmap, else the
    /// un-multiplied colour without its alpha.
    pub open spec fn spec_get_pixel(&self, x: i32, y: i32) -> i32 {
        if !self.point_in_bounds(x, y) {
            0
        } else {
            self.spec_get_pixel32(x, y).spec_with_alpha(0).0
        }
    }

    pub fn get_pixel(&self, x: i32, y: i32) -> (r: i32)
        requires
            self.point_in_bounds(x, y) ==> self.raw_read_fits(x as u32, y as u32),
        ensures
            r == self.spec_get_pixel(x, y),
    {
        if !self.is_point_in_bounds(x, y) {
            0
        } else {
            self.get_pixel32(x, y).with_alpha(0x0).into()
        }
    }

    pub fn set_pixel32_raw(&mut self, x: u32, y: u32, color: Color)
        requires
            x + y * old(self).spec_width() <= u32::MAX,
            x + y * old(self).spec_width() < old(self).spec_pixels().len(),
        ensures
            final(self).spec_pixels() == old(self).spec_pixels().update(
                old(self).index_of(x as int, y as int),
                color,
            ),
            final(self).spec_dirty(),
            final(self).same_shape(old(self)),
    {
        let width = self.width();
        let idx: u32 = x + y * width;
        self.pixels[idx as usize] = color;
        self.dirty = true;
    }

    /// What `set_pixel32(x, y, color)` makes of `self`.
    pub open spec fn set_pixel32_result(&self, after: &BitmapData, x: i32, y: i32, color: Color) -> bool {
        &&& after.spec_pixels() == if self.in_bounds(x as int, y as int) {
                self.spec_pixels().update(
                    self.index_of(x as int, y as int),
                    color.premultiplied(self.spec_transparency()),
                )
        } else {
                self.spec_pixels()
        }
        &&& after.spec_dirty() == (self.spec_dirty() || self.in_bounds(
                x as int,
                y as int
        ))
        &&& after.same_shape(self)
    }

    pub fn set_pixel32(&mut self, x: i32, y: i32, color: Color)
        requires
            old(self).wf(),
        ensures
            old(self).set_pixel32_result(final(self), x, y, color),
    {
        if self.is_point_in_bounds(x, y) {
            proof {
                lemma_in_bounds_index(self.spec_width() as int, self.spec_height() as int, x as int, y as int);
                lemma_index_bound(self.spec_width() as nat, self.spec_height() as nat, x as nat, y as nat);
                lemma_i32_as_u32(x);
                lemma_i32_as_u32(y);
            }
            let c = color.to_premultiplied_alpha(self.transparency());
            self.set_pixel32_raw(x as u32, y as u32, c)
        }
    }

    /// The pixels after `set_pixel`: the colour takes the alpha the pixel
    /// read at `(x, y)` had (0 where nothing is read) and is set as with
    /// `set_pixel32` at the signed reading of the coordinates.
    pub open spec fn spec_set_pixel_colour(&self, x: u32, y: u32, color: Color) -> Color {
        let a: u8 = match self.raw_pixel(x as nat, y as nat) {
            Some(p) => p.spec_alpha(),
            None => 0,
        };
        color.spec_with_alpha(a)
    }

    /// What `set_pixel(x, y, color)` makes of `self`.
    pub open spec fn set_pixel_result(&self, after: &BitmapData, x: u32, y: u32, color: Color) -> bool {
        &&& ({
                let sx = u32_as_i32(x);
                let sy = u32_as_i32(y);
                let c = self.spec_set_pixel_colour(x, y, color);
                &&& after.spec_pixels() == if self.in_bounds(sx, sy) {
                    self.spec_pixels().update(
                        self.index_of(sx, sy),
                        c.premultiplied(self.spec_transparency()),
                    )
                } else {
                    self.spec_pixels()
                }
                &&& after.spec_dirty() == (self.spec_dirty() || self.in_bounds(sx, sy))
        })
        &&& after.same_shape(self)
    }

    pub fn set_pixel(&mut self, x: u32, y: u32, color: Color)
        requires
            old(self).wf(),
        ensures
            old(self).set_pixel_result(final(self), x, y, color),
    {
        let current_alpha = match self.read_raw(x, y) {
            Some(p) => p.alpha(),
            None => 0,
        };
        proof {
            lemma_u32_as_i32(x);
            lemma_u32_as_i32(y);
        }
        self.set_pixel32(x as i32, y as i32, color.with_alpha(current_alpha));
    }
}


impl BitmapData {
    /// Whether position `(px, py)` lies in the rectangle of the given origin and size.
    pub open spec fn in_rect(px: int, py: int, x: int, y: int, width: int, height: int) -> bool {
        x <= px < x + width && y <= py < y + height
    }

    /// Whether `other` has this bitmap's size and every in-bounds pixel of
    /// `other` is given by `f`.
    pub open spec fn pixels_are(&self, other: &BitmapData, f: spec_fn(int, int) -> Color) -> bool {
        &&& other.spec_pixels().len() == self.spec_pixels().len()
        &&& forall|px: int, py: int| #[trigger] self.in_bounds(px, py) ==> other.pixel(px, py) == f(px, py)
    }

    /// What `fill_rect(x, y, width, height, color)` makes of `self`.
    pub open spec fn fill_rect_result(&self, after: &BitmapData, x: u32, y: u32, width: u32, height: u32, color: Color) -> bool {
        &&& after.wf()
        &&& after.same_shape(self)
        &&& self.pixels_are(
                after,
                |px: int, py: int|
                    if BitmapData::in_rect(px, py, x as int, y as int, width as int, height as int) {
                        color.premultiplied(self.spec_transparency())
                    } else {
                        self.pixel(px, py)
                    }
        )
        &&& after.spec_dirty() == (self.spec_dirty() || (width > 0 && height > 0
                && x < self.spec_width() && y < self.spec_height()))
    }

    pub fn fill_rect(&mut self, x: u32, y: u32, width: u32, height: u32, color: Color)
        requires
            old(self).wf(),
            width > 0 && height > 0 ==> x + width - 1 <= u32::MAX && y + height - 1 <= u32::MAX,
        ensures
            old(self).fill_rect_result(final(self), x, y, width, height, color),
    {
        let ghost orig = *self;
        let ghost c = color.premultiplied(orig.spec_transparency());
        for x_offset in 0..width
            invariant
                self.wf(),
                self.same_shape(&orig),
                orig.wf(),
                c == color.premultiplied(orig.spec_transparency()),
                width > 0 && height > 0 ==> x + width - 1 <= u32::MAX && y + height - 1 <= u32::MAX,
                forall|px: int, py: int| #[trigger] orig.in_bounds(px, py) ==> self.pixel(px, py)
                    == if BitmapData::in_rect(px, py, x as int, y as int, x_offset as int, height as int) {
                        c
                    } else {
                        orig.pixel(px, py)
                    },
                self.spec_dirty() == (orig.spec_dirty() || (x_offset > 0 && height > 0 && x
                    < orig.spec_width() && y < orig.spec_height())),
        {
            for y_offset in 0..height
                invariant
                    self.wf(),
                    self.same_shape(&orig),
                    orig.wf(),
                    c == color.premultiplied(orig.spec_transparency()),
                    x_offset < width,
                    width > 0 && height > 0 ==> x + width - 1 <= u32::MAX && y + height - 1 <= u32::MAX,
                    forall|px: int, py: int| #[trigger] orig.in_bounds(px, py) ==> self.pixel(px, py)
                        == if BitmapData::in_rect(px, py, x as int, y as int, x_offset as int, height as int)
                            || (px == x + x_offset && y <= py < y + y_offset) {
                            c
                        } else {
                            orig.pixel(px, py)
                        },
                    self.spec_dirty() == (orig.spec_dirty() || (x_offset > 0 && height > 0 && x
                        < orig.spec_width() && y < orig.spec_height()) || (y_offset > 0 && x + x_offset
                        < orig.spec_width() && y < orig.spec_height())),
            {
                let sx: u32 = x + x_offset;
                let sy: u32 = y + y_offset;
                proof {
                    lemma_u32_as_i32(sx);
                    lemma_u32_as_i32(sy);
                }
                let ghost before = *self;
                self.set_pixel32(sx as i32, sy as i32, color);
                proof {
                    assert forall|px: int, py: int| #[trigger] orig.in_bounds(px, py) implies self.pixel(px, py)
                        == if BitmapData::in_rect(px, py, x as int, y as int, x_offset as int, height as int)
                            || (px == x + x_offset && y <= py < y + y_offset + 1) {
                            c
                        } else {
                            orig.pixel(px, py)
                        } by {
                        before.lemma_update_pixel(self, (sx as i32) as int, (sy as i32) as int, px, py, c);
                    }
                }
            }
        }
    }

    /// Writing at one position changes the pixel there and no other.
    proof fn lemma_update_pixel(
        &self,
        after: &BitmapData,
        qx: int,
        qy: int,
        px: int,
        py: int,
        c: Color,
    )
        requires
            self.wf(),
            after.same_shape(self),
            self.in_bounds(px, py),
            self.in_bounds(qx, qy) ==> after.spec_pixels() == self.spec_pixels().update(
                self.index_of(qx, qy),
                c,
            ),
            !self.in_bounds(qx, qy) ==> after.spec_pixels() == self.spec_pixels(),
        ensures
            after.pixel(px, py) == if self.in_bounds(qx, qy) && px == qx && py == qy {
                c
            } else {
                self.pixel(px, py)
            },
    {
        let w = self.spec_width() as int;
        let h = self.spec_height() as int;
        lemma_in_bounds_index(w, h, px, py);
        if self.in_bounds(qx, qy) {
            lemma_in_bounds_index(w, h, qx, qy);
            if px != qx || py != qy {
                lemma_index_injective(w, px, py, qx, qy);
            }
        }
    }
}

proof fn lemma_index_injective(w: int, x1: int, y1: int, x2: int, y2: int)
    requires
        0 <= x1 < w,
        0 <= x2 < w,
        0 <= y1,
        0 <= y2,
        x1 != x2 || y1 != y2,
    ensures
        x1 + y1 * w != x2 + y2 * w,
{
    if y1 < y2 {
        assert(y1 * w + w <= y2 * w) by (nonlinear_arith)
            requires
                y1 < y2,
                w > 0,
        ;
    } else if y2 < y1 {
        assert(y2 * w + w <= y1 * w) by (nonlinear_arith)
            requires
                y2 < y1,
                w > 0,
        ;
    }
}


/// The generator state after `k` steps from `s`.
pub open spec fn lehmer_iter(s: u32, k: nat) -> u32
    decreases k,
{
    if k == 0 {
        s
    } else {
        lehmer_next(lehmer_iter(s, (k - 1) as nat))
    }
}

pub proof fn lemma_lehmer_iter_add(s: u32, a: nat, b: nat)
    ensures
        lehmer_iter(s, a + b) == lehmer_iter(lehmer_iter(s, a), b),
    decreases b,
{
    if b > 0 {
        lemma_lehmer_iter_add(s, a, (b - 1) as nat);
        assert((a + b - 1) as nat == a + (b - 1) as nat);
    }
}

/// The value `gen_range(low..high)` gives from state `s`.
pub open spec fn noise_draw(s: u32, low: u8, high: u8) -> u8 {
    (low + (lehmer_next(s) as int) % ((high - low) + 1)) as u8
}

/// The seed `noise` starts the generator with.
pub open spec fn noise_seed(seed: i32) -> u32 {
    if seed <= 0 { (-seed + 1) as u32 } else { seed as u32 }
}

/// How many values `noise` draws per pixel.
pub open spec fn noise_draws(options: u32, gray_scale: bool) -> nat {
    let a: nat = if options & 8 == 8 { 1 } else { 0 };
    if gray_scale {
        1 + a
    } else {
        let r: nat = if options & 1 == 1 { 1 } else { 0 };
        let g: nat = if options & 2 == 2 { 1 } else { 0 };
        let b: nat = if options & 4 == 4 { 1 } else { 0 };
        r + g + b + a
    }
}

/// The colour `noise` gives a pixel when the generator is at state `s`:
/// in gray scale one value for red, green and blue, then the alpha if
/// selected (255 otherwise); else each selected channel in the order red,
/// green, blue, alpha (0 for unselected colour channels, 255 for alpha).
pub open spec fn noise_pixel(s: u32, low: u8, high: u8, options: u32, gray_scale: bool) -> Color {
    if gray_scale {
        let gray = noise_draw(s, low, high);
        let alpha = if options & 8 == 8 { noise_draw(lehmer_next(s), low, high) } else { 255 };
        Color::from_argb(alpha, gray, gray, gray)
    } else {
        let s0 = s;
        let r = if options & 1 == 1 { noise_draw(s0, low, high) } else { 0 };
        let s1 = if options & 1 == 1 { lehmer_next(s0) } else { s0 };
        let g = if options & 2 == 2 { noise_draw(s1, low, high) } else { 0 };
        let s2 = if options & 2 == 2 { lehmer_next(s1) } else { s1 };
        let b = if options & 4 == 4 { noise_draw(s2, low, high) } else { 0 };
        let s3 = if options & 4 == 4 { lehmer_next(s2) } else { s2 };
        let a = if options & 8 == 8 { noise_draw(s3, low, high) } else { 255 };
        Color::from_argb(a, r, g, b)
    }
}

/// The colour that `noise` stores for a pixel: the drawn colour,
/// premultiplied as `set_pixel32` stores colours.
pub open spec fn noise_stored(s: u32, low: u8, high: u8, options: u32, gray_scale: bool, transparency: bool) -> Color {
    noise_pixel(s, low, high, options, gray_scale).premultiplied(transparency)
}

impl BitmapData {
    fn noise_colour(
        rng: &mut LehmerRng,
        low: u8,
        high: u8,
        channel_options: &ChannelOptions,
        gray_scale: bool,
    ) -> (c: Color)
        requires
            low <= high,
        ensures
            c == noise_pixel(old(rng).state(), low, high, channel_options.0, gray_scale),
            final(rng).state() == lehmer_iter(
                old(rng).state(),
                noise_draws(channel_options.0, gray_scale),
            ),
    {
        let ghost s = rng.state();
        if gray_scale {
            let gray = rng.gen_range(low..high);
            let alpha = if channel_options.alpha() {
                rng.gen_range(low..high)
            } else {
                255
            };
            proof {
                reveal_with_fuel(lehmer_iter, 3);
            }
            Color::argb(alpha, gray, gray, gray)
        } else {
            let r = if channel_options.red() {
                rng.gen_range(low..high)
            } else {
                0
            };
            let g = if channel_options.green() {
                rng.gen_range(low..high)
            } else {
                0
            };
            let b = if channel_options.blue() {
                rng.gen_range(low..high)
            } else {
                0
            };
            let a = if channel_options.alpha() {
                rng.gen_range(low..high)
            } else {
                255
            };
            proof {
                reveal_with_fuel(lehmer_iter, 5);
            }
            Color::argb(a, r, g, b)
        }
    }

    /// What `noise(seed, low, high, channel_options, gray_scale)` makes of `self`.
    pub open spec fn noise_result(&self, after: &BitmapData, seed: i32, low: u8, high: u8, channel_options: ChannelOptions, gray_scale: bool) -> bool {
        &&& after.wf()
        &&& after.same_shape(self)
        &&& self.pixels_are(
                after,
                |px: int, py: int|
                    noise_stored(
                        lehmer_iter(
                            noise_seed(seed),
                            noise_draws(channel_options.0, gray_scale) * self.index_of(px, py) as nat,
                        ),
                        low,
                        high,
                        channel_options.0,
                        gray_scale,
                        self.spec_transparency(),
                    )
        )
        &&& after.spec_dirty() == (self.spec_dirty() || self.spec_pixels().len() > 0)
    }

    pub fn noise(
        &mut self,
        seed: i32,
        low: u8,
        high: u8,
        channel_options: ChannelOptions,
        gray_scale: bool,
    )
        requires
            old(self).wf(),
            low <= high,
            seed > i32::MIN + 1,
        ensures
            old(self).noise_result(final(self), seed, low, high, channel_options, gray_scale),
    {
        let true_seed = if seed <= 0 {
            (-seed + 1) as u32
        } else {
            seed as u32
        };
        let mut rng = LehmerRng::with_seed(true_seed);
        let ghost orig = *self;
        let ghost d = noise_draws(channel_options.0, gray_scale);
        let ghost f = |px: int, py: int|
            noise_stored(
                lehmer_iter(noise_seed(seed), d * orig.index_of(px, py) as nat),
                low,
                high,
                channel_options.0,
                gray_scale,
                orig.spec_transparency(),
            );
        let height = self.height();
        let width = self.width();
        proof {
            assert(d * (0 * width) as nat == 0) by (nonlinear_arith);
        }
        for y in 0..height
            invariant
                self.wf(),
                self.same_shape(&orig),
                orig.wf(),
                low <= high,
                height == orig.spec_height(),
                width == orig.spec_width(),
                d == noise_draws(channel_options.0, gray_scale),
                true_seed == noise_seed(seed),
                f == (|px: int, py: int|
                    noise_stored(
                        lehmer_iter(noise_seed(seed), d * orig.index_of(px, py) as nat),
                        low,
                        high,
                        channel_options.0,
                        gray_scale,
                        orig.spec_transparency(),
                    )),
                rng.state() == lehmer_iter(true_seed, d * (y * width) as nat),
                forall|px: int, py: int| #[trigger] orig.in_bounds(px, py) ==> self.pixel(px, py)
                    == if py < y { f(px, py) } else { orig.pixel(px, py) },
                self.spec_dirty() == (orig.spec_dirty() || (y > 0 && width > 0)),
        {
            for x in 0..width
                invariant
                    self.wf(),
                    self.same_shape(&orig),
                    orig.wf(),
                    low <= high,
                    y < height,
                    height == orig.spec_height(),
                    width == orig.spec_width(),
                    d == noise_draws(channel_options.0, gray_scale),
                    true_seed == noise_seed(seed),
                    f == (|px: int, py: int|
                        noise_stored(
                            lehmer_iter(noise_seed(seed), d * orig.index_of(px, py) as nat),
                            low,
                            high,
                            channel_options.0,
                            gray_scale,
                            orig.spec_transparency(),
                        )),
                    rng.state() == lehmer_iter(true_seed, d * (x + y * width) as nat),
                    forall|px: int, py: int| #[trigger] orig.in_bounds(px, py) ==> self.pixel(px, py)
                        == if py < y || (py == y && px < x) { f(px, py) } else { orig.pixel(px, py) },
                    self.spec_dirty() == (orig.spec_dirty() || (y > 0 && width > 0) || x > 0),
            {
                let ghost before = *self;
                let ghost s0 = rng.state();
                let drawn = BitmapData::noise_colour(
                    &mut rng,
                    low,
                    high,
                    &channel_options,
                    gray_scale,
                );
                let pixel_color = drawn.to_premultiplied_alpha(self.transparency());
                proof {
                    lemma_in_bounds_index(width as int, height as int, x as int, y as int);
                    lemma_index_bound(width as nat, height as nat, x as nat, y as nat);
                    lemma_lehmer_iter_add(true_seed, d * (x + y * width) as nat, d);
                    assert(d * (x + y * width) as nat + d == d * (x + 1 + y * width) as nat)
                        by (nonlinear_arith);
                }
                self.set_pixel32_raw(x, y, pixel_color);
                proof {
                    assert forall|px: int, py: int| #[trigger] orig.in_bounds(px, py) implies self.pixel(px, py)
                        == if py < y || (py == y && px < x + 1) { f(px, py) } else { orig.pixel(px, py) } by {
                        before.lemma_update_pixel(self, x as int, y as int, px, py, pixel_color);
                    }
                }
            }
            proof {
                assert((width + y * width) as nat == ((y + 1) * width) as nat) by (nonlinear_arith);
            }
        }
        proof {
            assert(orig.spec_pixels().len() == width as nat * height as nat);
            if height == 0 || width == 0 {
                assert(width as nat * height as nat == 0) by (nonlinear_arith)
                    requires
                        height == 0 || width == 0,
                ;
            } else {
                assert(width as nat * height as nat > 0) by (nonlinear_arith)
                    requires
                        height > 0 && width > 0,
                ;
            }
        }
    }
}


/// The bit position `copy_channel` reads a source channel from: alpha (8)
/// at 24, red (1) at 16, green (2) at 8, blue (4) and anything else at 0.
pub open spec fn channel_shift(channel: i32) -> u32 {
    if channel == 8 {
        24
    } else if channel == 1 {
        16
    } else if channel == 2 {
        8
    } else {
        0
    }
}

/// The colour `copy_channel` writes: `current` with the destination channel
/// replaced by the selected channel of `source`; an unknown destination
/// channel keeps `current`.
pub open spec fn channel_copied(current: u32, source: u32, source_channel: i32, dest_channel: i32) -> Color {
    let part = (source >> channel_shift(source_channel)) & 0xFFu32;
    let result: u32 = if dest_channel == 8 {
        (current & 0x00FFFFFFu32) | (part << 24u32)
    } else if dest_channel == 1 {
        (current & 0xFF00FFFFu32) | (part << 16u32)
    } else if dest_channel == 2 {
        (current & 0xFFFF00FFu32) | (part << 8u32)
    } else if dest_channel == 4 {
        (current & 0xFFFFFF00u32) | part
    } else {
        current
    };
    Color(result as i32)
}

impl BitmapData {
    /// Whether the destination position `(px, py)` of `copy_channel` takes
    /// a source pixel: the source position `(px - dx, py - dy)` lies in the
    /// source rectangle (from its minimum, inclusive, to its maximum,
    /// exclusive) and inside the source bitmap.
    pub open spec fn channel_source_hit(
        source: &BitmapData,
        px: int,
        py: int,
        dest_point: (u32, u32),
        src_rect: (u32, u32, u32, u32),
    ) -> bool {
        let sx = px - dest_point.0;
        let sy = py - dest_point.1;
        &&& src_rect.0 <= sx < src_rect.2
        &&& sx < source.spec_width()
        &&& src_rect.1 <= sy < src_rect.3
        &&& sy < source.spec_height()
    }

    /// The destination coordinates of the source pixels that `copy_channel`
    /// reads fit a `u32`.
    pub open spec fn copy_channel_ok(
        dest_point: (u32, u32),
        src_rect: (u32, u32, u32, u32),
        source_bitmap: &BitmapData,
    ) -> bool {
        let x_end = if src_rect.2 < source_bitmap.spec_width() { src_rect.2 } else { source_bitmap.spec_width() };
        let y_end = if src_rect.3 < source_bitmap.spec_height() { src_rect.3 } else { source_bitmap.spec_height() };
        src_rect.0 < x_end && src_rect.1 < y_end ==> x_end - 1 + dest_point.0 <= u32::MAX
            && y_end - 1 + dest_point.1 <= u32::MAX
    }

    /// What `copy_channel` makes of `self`.
    pub open spec fn copy_channel_result(
        &self,
        after: &BitmapData,
        dest_point: (u32, u32),
        src_rect: (u32, u32, u32, u32),
        source_bitmap: &BitmapData,
        source_channel: i32,
        dest_channel: i32,
    ) -> bool {
        &&& after.wf()
        &&& after.same_shape(self)
        &&& self.pixels_are(
            after,
            |px: int, py: int|
                if BitmapData::channel_source_hit(source_bitmap, px, py, dest_point, src_rect) {
                    channel_copied(
                        self.pixel(px, py).bits(),
                        source_bitmap.pixel(px - dest_point.0, py - dest_point.1).bits(),
                        source_channel,
                        dest_channel,
                    )
                } else {
                    self.pixel(px, py)
                }
            )
        &&& after.spec_dirty() == (self.spec_dirty() || exists|px: int, py: int|
            self.in_bounds(px, py) && BitmapData::channel_source_hit(
                source_bitmap,
                px,
                py,
                dest_point,
                src_rect,
            ))
    }

    pub fn copy_channel(
        &mut self,
        dest_point: (u32, u32),
        src_rect: (u32, u32, u32, u32),
        source_bitmap: &Self,
        source_channel: i32,
        dest_channel: i32,
    )
        requires
            old(self).wf(),
            source_bitmap.wf(),
            BitmapData::copy_channel_ok(dest_point, src_rect, source_bitmap),
        ensures
            old(self).copy_channel_result(final(self), dest_point, src_rect, source_bitmap, source_channel, dest_channel),
    {
        let (min_x, min_y) = dest_point;
        let (src_min_x, src_min_y, src_max_x, src_max_y) = src_rect;
        let ghost orig = *self;
        let ghost f = |px: int, py: int|
            if BitmapData::channel_source_hit(source_bitmap, px, py, dest_point, src_rect) {
                channel_copied(
                    orig.pixel(px, py).bits(),
                    source_bitmap.pixel(px - dest_point.0, py - dest_point.1).bits(),
                    source_channel,
                    dest_channel,
                )
            } else {
                orig.pixel(px, py)
            };
        let sw = source_bitmap.width();
        let sh = source_bitmap.height();
        let x_end = if src_max_x < sw { src_max_x } else { sw };
        let y_end = if src_max_y < sh { src_max_y } else { sh };
        let ghost hit = |px: int, py: int| orig.in_bounds(px, py) && BitmapData::channel_source_hit(source_bitmap, px, py, dest_point, src_rect);
        let mut x: u32 = src_min_x;
        while x < x_end
            invariant
                src_min_x <= x,
                x < x_end ==> x <= x_end,
                self.wf(),
                self.same_shape(&orig),
                orig.wf(),
                source_bitmap.wf(),
                dest_point == (min_x, min_y),
                src_rect == (src_min_x, src_min_y, src_max_x, src_max_y),
                sw == source_bitmap.spec_width(),
                sh == source_bitmap.spec_height(),
                x_end == if src_max_x < sw { src_max_x } else { sw },
                y_end == if src_max_y < sh { src_max_y } else { sh },
                src_min_x < x_end && src_min_y < y_end ==> x_end - 1 + min_x <= u32::MAX && y_end - 1 + min_y <= u32::MAX,
                hit == (|px: int, py: int| orig.in_bounds(px, py) && BitmapData::channel_source_hit(source_bitmap, px, py, dest_point, src_rect)),
                f == (|px: int, py: int|
                    if BitmapData::channel_source_hit(source_bitmap, px, py, dest_point, src_rect) {
                        channel_copied(
                            orig.pixel(px, py).bits(),
                            source_bitmap.pixel(px - dest_point.0, py - dest_point.1).bits(),
                            source_channel,
                            dest_channel,
                        )
                    } else {
                        orig.pixel(px, py)
                    }),
                forall|px: int, py: int| #[trigger] orig.in_bounds(px, py) ==> self.pixel(px, py)
                    == if BitmapData::channel_source_hit(source_bitmap, px, py, dest_point, src_rect)
                        && px - min_x < x { f(px, py) } else { orig.pixel(px, py) },
                self.spec_dirty() == (orig.spec_dirty() || exists|px: int, py: int| #[trigger] hit(px, py) && px - min_x < x),
            decreases x_end - x,
        {
            let mut y: u32 = src_min_y;
            while y < y_end
                invariant
                    src_min_y <= y,
                    self.wf(),
                    self.same_shape(&orig),
                    orig.wf(),
                    source_bitmap.wf(),
                    dest_point == (min_x, min_y),
                    src_rect == (src_min_x, src_min_y, src_max_x, src_max_y),
                    sw == source_bitmap.spec_width(),
                    sh == source_bitmap.spec_height(),
                    x_end == if src_max_x < sw { src_max_x } else { sw },
                    y_end == if src_max_y < sh { src_max_y } else { sh },
                    src_min_x <= x < x_end,
                    y_end > src_min_y ==> y <= y_end,
                    src_min_x < x_end && src_min_y < y_end ==> x_end - 1 + min_x <= u32::MAX && y_end - 1 + min_y <= u32::MAX,
                    hit == (|px: int, py: int| orig.in_bounds(px, py) && BitmapData::channel_source_hit(source_bitmap, px, py, dest_point, src_rect)),
                    f == (|px: int, py: int|
                        if BitmapData::channel_source_hit(source_bitmap, px, py, dest_point, src_rect) {
                            channel_copied(
                                orig.pixel(px, py).bits(),
                                source_bitmap.pixel(px - dest_point.0, py - dest_point.1).bits(),
                                source_channel,
                                dest_channel,
                            )
                        } else {
                            orig.pixel(px, py)
                        }),
                    forall|px: int, py: int| #[trigger] orig.in_bounds(px, py) ==> self.pixel(px, py)
                        == if BitmapData::channel_source_hit(source_bitmap, px, py, dest_point, src_rect)
                            && (px - min_x < x || (px - min_x == x && py - min_y < y)) { f(px, py) } else { orig.pixel(px, py) },
                    self.spec_dirty() == (orig.spec_dirty() || exists|px: int, py: int| #[trigger] hit(px, py) && (px - min_x < x || (px - min_x == x && py - min_y < y))),
                decreases y_end - y,
            {
                let dx: u32 = x + min_x;
                let dy: u32 = y + min_y;
                proof {
                    lemma_u32_as_i32(dx);
                    lemma_u32_as_i32(dy);
                }
                if self.is_point_in_bounds(dx as i32, dy as i32) {
                    let ghost before = *self;
                    proof {
                        lemma_in_bounds_index(orig.spec_width() as int, orig.spec_height() as int, dx as int, dy as int);
                        lemma_index_bound(orig.spec_width() as nat, orig.spec_height() as nat, dx as nat, dy as nat);
                        lemma_in_bounds_index(sw as int, sh as int, x as int, y as int);
                        lemma_index_bound(sw as nat, sh as nat, x as nat, y as nat);
                    }
                    let current_color: u32 = match self.read_raw(dx, dy) {
                        Some(c) => c.into(),
                        None => 0,
                    };
                    let source_color: u32 = match source_bitmap.read_raw(x, y) {
                        Some(c) => c.into(),
                        None => 0,
                    };
                    let channel_shift: u32 = match source_channel {
                        // Alpha
                        8 => 24,
                        // red
                        1 => 16,
                        // green
                        2 => 8,
                        // blue
                        4 => 0,
                        _ => 0,
                    };
                    let source_part = (source_color >> channel_shift) & 0xFF;
                    let result_color: u32 = match dest_channel {
                        // Alpha
                        8 => (current_color & 0x00FFFFFF) | source_part << 24,
                        // red
                        1 => (current_color & 0xFF00FFFF) | source_part << 16,
                        // green
                        2 => (current_color & 0xFFFF00FF) | source_part << 8,
                        // blue
                        4 => (current_color & 0xFFFFFF00) | source_part,
                        _ => current_color,
                    };
                    assert(orig.in_bounds(dx as int, dy as int));
                    assert(BitmapData::channel_source_hit(source_bitmap, dx as int, dy as int, dest_point, src_rect));
                    assert(self.pixel(dx as int, dy as int) == orig.pixel(dx as int, dy as int));
                    self.set_pixel32_raw(dx, dy, (result_color as i32).into());
                    proof {
                        assert forall|px: int, py: int| #[trigger] orig.in_bounds(px, py) implies self.pixel(px, py)
                            == if BitmapData::channel_source_hit(source_bitmap, px, py, dest_point, src_rect)
                                && (px - min_x < x || (px - min_x == x && py - min_y < y + 1)) { f(px, py) } else { orig.pixel(px, py) } by {
                            before.lemma_update_pixel(self, dx as int, dy as int, px, py, Color(result_color as i32));
                        }
                        assert(hit(dx as int, dy as int));
                    }
                } else {
                    proof {
                        assert forall|px: int, py: int| #[trigger] hit(px, py) && (px - min_x < x || (px - min_x == x && py - min_y < y + 1))
                            implies (px - min_x < x || (px - min_x == x && py - min_y < y)) by {
                            if px - min_x == x && py - min_y == y {
                                assert(orig.in_bounds(dx as int, dy as int));
                            }
                        }
                    }
                }
                y = y + 1;
            }
            proof {
                assert forall|px: int, py: int| #[trigger] hit(px, py) && (px - min_x < x || (px - min_x == x && py - min_y < y))
                    <==> hit(px, py) && px - min_x < x + 1 by {}
            }
            x = x + 1;
        }
        proof {
            if exists|px: int, py: int| orig.in_bounds(px, py) && BitmapData::channel_source_hit(source_bitmap, px, py, dest_point, src_rect) {
                let (px, py) = choose|px: int, py: int| orig.in_bounds(px, py) && BitmapData::channel_source_hit(source_bitmap, px, py, dest_point, src_rect);
                assert(hit(px, py) && px - min_x < x);
            }
            if exists|px: int, py: int| #[trigger] hit(px, py) && px - min_x < x {
                let (px, py) = choose|px: int, py: int| #[trigger] hit(px, py) && px - min_x < x;
                assert(orig.in_bounds(px, py) && BitmapData::channel_source_hit(source_bitmap, px, py, dest_point, src_rect));
            }
        }
    }
}


/// The running bounds of `color_bounds_rect`: least x, one past the last
/// recorded x, least y, one past the last recorded y.
pub type BoundsState = (Option<int>, Option<int>, Option<int>, Option<int>);

pub open spec fn opt_int(o: Option<i32>) -> Option<int> {
    match o {
        Some(v) => Some(v as int),
        None => None,
    }
}

pub open spec fn unwrap_or_int(o: Option<int>, d: int) -> int {
    match o {
        Some(v) => v,
        None => d,
    }
}

/// A matching pixel at `(x, y)` lowers the least x and y where it is less
/// than the kept one (the bitmap's width and height when none is kept), and
/// sets the maximum to one past it where it is greater than the kept
/// maximum (-1 when none is kept).
pub open spec fn bounds_step(s: BoundsState, x: int, y: int, w: int, h: int) -> BoundsState {
    (
        if x < unwrap_or_int(s.0, w) { Some(x) } else { s.0 },
        if x > unwrap_or_int(s.1, -1) { Some(x + 1) } else { s.1 },
        if y < unwrap_or_int(s.2, h) { Some(y) } else { s.2 },
        if y > unwrap_or_int(s.3, -1) { Some(y + 1) } else { s.3 },
    )
}

/// Whether a pixel counts for `color_bounds_rect`: its masked value equals
/// `color` when `find_color`, differs from it otherwise.
pub open spec fn bounds_match(p: Color, find_color: bool, mask: i32, color: i32) -> bool {
    if find_color {
        (p.0 & mask) == color
    } else {
        (p.0 & mask) != color
    }
}

impl BitmapData {
    /// The bounds after the first `k` positions of the scan, which goes
    /// column by column, top to bottom in each.
    pub open spec fn bounds_scan(&self, find_color: bool, mask: i32, color: i32, k: nat) -> BoundsState
        decreases k,
    {
        if k == 0 {
            (None, None, None, None)
        } else {
            let prev = self.bounds_scan(find_color, mask, color, (k - 1) as nat);
            let h = self.spec_height() as int;
            let x = (k - 1) / h;
            let y = (k - 1) % h;
            if bounds_match(self.pixel(x, y), find_color, mask, color) {
                bounds_step(prev, x, y, self.spec_width() as int, h)
            } else {
                prev
            }
        }
    }

    /// The scan's bounds are all set or all unset, and when set they are
    /// inside the bitmap with each maximum above its minimum.
    proof fn lemma_bounds_scan_range(&self, find_color: bool, mask: i32, color: i32, k: nat)
        requires
            self.wf(),
            k <= self.spec_width() * self.spec_height(),
        ensures
            ({
                let s = self.bounds_scan(find_color, mask, color, k);
                let w = self.spec_width() as int;
                let h = self.spec_height() as int;
                &&& s.0 is Some == s.1 is Some
                &&& s.0 is Some == s.2 is Some
                &&& s.0 is Some == s.3 is Some
                &&& s.0 is Some ==> {
                    &&& 0 <= s.0->0 < s.1->0 <= w
                    &&& 0 <= s.2->0 < s.3->0 <= h
                }
            }),
        decreases k,
    {
        if k > 0 {
            self.lemma_bounds_scan_range(find_color, mask, color, (k - 1) as nat);
            let h = self.spec_height() as int;
            let w = self.spec_width() as int;
            assert(h > 0) by {
                if h == 0 {
                    assert(w * h == 0) by (nonlinear_arith) requires h == 0;
                }
            }
            let x = (k - 1) / h;
            assert(x < w) by {
                vstd::arithmetic::div_mod::lemma_div_is_ordered((k - 1) as int, w * h - 1, h);
                assert((w * h - 1) / h < w) by {
                    assert((w - 1) * h + (h - 1) == w * h - 1) by (nonlinear_arith);
                    vstd::arithmetic::div_mod::lemma_fundamental_div_mod_converse(w * h - 1, h, w - 1, h - 1);
                }
            }
        }
    }

    pub fn color_bounds_rect(&self, find_color: bool, mask: i32, color: i32) -> (r: (u32, u32, u32, u32))
        requires
            self.wf(),
        ensures
            ({
                let s = self.bounds_scan(
                    find_color,
                    mask,
                    color,
                    self.spec_width() as nat * self.spec_height() as nat,
                );
                let min_x = unwrap_or_int(s.0, 0);
                let max_x = unwrap_or_int(s.1, 0);
                let min_y = unwrap_or_int(s.2, 0);
                let max_y = unwrap_or_int(s.3, 0);
                &&& r.0 == min_x
                &&& r.1 == min_y
                &&& r.2 == max_x - min_x
                &&& r.3 == max_y - min_y
            }),
    {
        let mut min_x = Option::<i32>::None;
        let mut max_x = Option::<i32>::None;
        let mut min_y = Option::<i32>::None;
        let mut max_y = Option::<i32>::None;
        let width = self.width();
        let height = self.height();
        let ghost w = width as int;
        let ghost h = height as int;
        assert(0 * h == 0);
        for x in 0..width
            invariant
                self.wf(),
                width == self.spec_width(),
                height == self.spec_height(),
                w == width,
                h == height,
                ({
                    let s = self.bounds_scan(find_color, mask, color, (x * h) as nat);
                    &&& s.0 == opt_int(min_x)
                    &&& s.1 == opt_int(max_x)
                    &&& s.2 == opt_int(min_y)
                    &&& s.3 == opt_int(max_y)
                }),
        {
            proof {
                assert(x * h <= w * h) by (nonlinear_arith) requires x < w, h >= 0;
            }
            for y in 0..height
                invariant
                    self.wf(),
                    width == self.spec_width(),
                    height == self.spec_height(),
                    w == width,
                    h == height,
                    x < width,
                    ({
                        let s = self.bounds_scan(find_color, mask, color, (x * h + y) as nat);
                        &&& s.0 == opt_int(min_x)
                        &&& s.1 == opt_int(max_x)
                        &&& s.2 == opt_int(min_y)
                        &&& s.3 == opt_int(max_y)
                    }),
            {
                proof {
                    lemma_in_bounds_index(w, h, x as int, y as int);
                    lemma_index_bound(w as nat, h as nat, x as nat, y as nat);
                    vstd::arithmetic::div_mod::lemma_fundamental_div_mod_converse(x * h + y, h, x as int, y as int);
                    assert(x * h + y < w * h) by (nonlinear_arith) requires x < w, y < h;
                    self.lemma_bounds_scan_range(find_color, mask, color, (x * h + y) as nat);
                }
                let pixel_raw: i32 = match self.read_raw(x, y) {
                    Some(c) => c.into(),
                    None => 0,
                };
                let color_matches = if find_color {
                    (pixel_raw & mask) == color
                } else {
                    (pixel_raw & mask) != color
                };
                if color_matches {
                    let mx = match min_x { Some(v) => v, None => width as i32 };
                    if (x as i32) < mx {
                        min_x = Some(x as i32)
                    }
                    let xx = match max_x { Some(v) => v, None => -1 };
                    if (x as i32) > xx {
                        max_x = Some(x as i32 + 1)
                    }
                    let my = match min_y { Some(v) => v, None => height as i32 };
                    if (y as i32) < my {
                        min_y = Some(y as i32)
                    }
                    let xy = match max_y { Some(v) => v, None => -1 };
                    if (y as i32) > xy {
                        max_y = Some(y as i32 + 1)
                    }
                }
                proof {
                    assert((x * h + y + 1 - 1) as nat == (x * h + y) as nat);
                }
            }
            proof {
                assert(x * h + h == (x + 1) * h) by (nonlinear_arith);
            }
        }
        proof {
            self.lemma_bounds_scan_range(find_color, mask, color, (w * h) as nat);
        }
        let min_x = match min_x { Some(v) => v, None => 0 };
        let min_y = match min_y { Some(v) => v, None => 0 };
        let max_x = match max_x { Some(v) => v, None => 0 };
        let max_y = match max_y { Some(v) => v, None => 0 };
        let x = min_x as u32;
        let y = min_y as u32;
        let w = (max_x - min_x) as u32;
        let h = (max_y - min_y) as u32;
        (x, y, w, h)
    }
}


/// A premultiplied channel never exceeds the alpha it was multiplied by.
pub proof fn lemma_premultiply_le_alpha(c: u8, alpha: u8)
    ensures
        premultiply_channel(c, alpha) <= alpha,
{
    let n = 2 * (c as nat) * (alpha as nat) + 255;
    assert(n < 510 * (alpha as nat + 1)) by (nonlinear_arith)
        requires
            n == 2 * (c as nat) * (alpha as nat) + 255,
            c <= 255,
    ;
    assert(n / 510 <= alpha as nat) by (nonlinear_arith)
        requires
            n < 510 * (alpha as nat + 1),
    ;
    assert(2 * (c as nat * alpha as nat) + 255 == n) by (nonlinear_arith)
        requires
            n == 2 * (c as nat) * (alpha as nat) + 255,
    ;
}

/// Premultiplying with transparency gives a premultiplied colour.
pub proof fn lemma_premultiplied_is_premultiplied(c: Color)
    ensures
        c.premultiplied(true).is_premultiplied(),
{
    let a = c.spec_alpha();
    lemma_premultiply_le_alpha(c.spec_red(), a);
    lemma_premultiply_le_alpha(c.spec_green(), a);
    lemma_premultiply_le_alpha(c.spec_blue(), a);
    lemma_argb_channels(
        a,
        premultiply_channel(c.spec_red(), a),
        premultiply_channel(c.spec_green(), a),
        premultiply_channel(c.spec_blue(), a),
    );
}

/// A premultiplied colour can be drawn over any colour.
pub proof fn lemma_premultiplied_blend_fits(dest: Color, source: Color)
    requires
        source.is_premultiplied(),
    ensures
        dest.blend_fits(source),
{
    let sa = source.spec_alpha() as int;
    lemma_blend_channel_fits(dest.spec_red() as int, source.spec_red() as int, sa);
    lemma_blend_channel_fits(dest.spec_green() as int, source.spec_green() as int, sa);
    lemma_blend_channel_fits(dest.spec_blue() as int, source.spec_blue() as int, sa);
    lemma_blend_channel_fits(dest.spec_alpha() as int, source.spec_alpha() as int, sa);
}

proof fn lemma_blend_channel_fits(d: int, s: int, sa: int)
    requires
        0 <= d <= 255,
        0 <= s <= sa <= 255,
    ensures
        s + (d * (255 - sa)) / 256 <= 255,
{
    assert(d * (255 - sa) <= 255 * (255 - sa)) by (nonlinear_arith)
        requires
            0 <= d <= 255,
            sa <= 255,
    ;
    assert((d * (255 - sa)) / 256 <= 255 - sa) by (nonlinear_arith)
        requires
            d * (255 - sa) <= 255 * (255 - sa),
            0 <= sa <= 255,
            0 <= d,
    ;
}

/// The alpha `copy_pixels` gives the copied colour when an alpha bitmap is
/// used: the alpha bitmap's alpha (scaled by the source alpha when the source
/// is transparent) when the alpha bitmap is transparent, else the source
/// alpha when the source is transparent, else 255.
pub open spec fn copy_final_alpha(
    alpha_transparent: bool,
    alpha_pixel: Color,
    source_transparent: bool,
    source: Color,
) -> u8 {
    if alpha_transparent {
        let a = alpha_pixel.spec_alpha();
        if source_transparent {
            ((a as nat * source.spec_alpha() as nat) / 256) as u8
        } else {
            a
        }
    } else if source_transparent {
        source.spec_alpha()
    } else {
        255
    }
}

impl BitmapData {
    /// The source position of destination `(px, py)` in `copy_pixels`.
    pub open spec fn copy_offset(px: int, py: int, dest_point: (i32, i32)) -> (int, int) {
        (px - dest_point.0, py - dest_point.1)
    }

    /// Whether `copy_pixels` writes destination `(px, py)`: its offset lies in
    /// the source rectangle's size, the source position is inside the source,
    /// and, with a transparent alpha bitmap, the alpha position is inside it.
    pub open spec fn copy_hit(
        &self,
        source: &BitmapData,
        src_rect: (i32, i32, i32, i32),
        dest_point: (i32, i32),
        alpha_source: Option<(&BitmapData, (i32, i32), bool)>,
        px: int,
        py: int,
    ) -> bool {
        let (ox, oy) = BitmapData::copy_offset(px, py, dest_point);
        &&& self.in_bounds(px, py)
        &&& 0 <= ox < src_rect.2
        &&& 0 <= oy < src_rect.3
        &&& source.in_bounds(src_rect.0 + ox, src_rect.1 + oy)
        &&& match alpha_source {
            Some((ab, ap, _)) => ab.spec_transparency() ==> ab.in_bounds(ap.0 + ox, ap.1 + oy),
            None => true,
        }
    }

    /// The colour `copy_pixels` writes at destination `(px, py)`.
    pub open spec fn copy_colour(
        &self,
        source: &BitmapData,
        src_rect: (i32, i32, i32, i32),
        dest_point: (i32, i32),
        alpha_source: Option<(&BitmapData, (i32, i32), bool)>,
        px: int,
        py: int,
    ) -> Color {
        let (ox, oy) = BitmapData::copy_offset(px, py, dest_point);
        let src = source.pixel(src_rect.0 + ox, src_rect.1 + oy);
        let dest = self.pixel(px, py);
        match alpha_source {
            Some((ab, ap, merge_alpha)) => {
                let fa = copy_final_alpha(
                    ab.spec_transparency(),
                    ab.pixel(ap.0 + ox, ap.1 + oy),
                    source.spec_transparency(),
                    src,
                );
                let inter = src.unmultiplied().spec_with_alpha(fa).premultiplied(true);
                if merge_alpha || !self.spec_transparency() {
                    dest.blended(inter)
                } else {
                    inter
                }
            },
            None => {
                if source.spec_transparency() && !self.spec_transparency() {
                    dest.blended(src)
                } else {
                    src
                }
            },
        }
    }

    /// The arithmetic of `copy_pixels` stays in range and every colour it
    /// draws over the destination fits.
    pub open spec fn copy_pixels_ok(
        &self,
        source: &BitmapData,
        src_rect: (i32, i32, i32, i32),
        dest_point: (i32, i32),
        alpha_source: Option<(&BitmapData, (i32, i32), bool)>,
    ) -> bool {
        let (smx, smy, sw, sh) = src_rect;
        &&& i32::MIN <= smy + sh <= i32::MAX
        &&& sh > 0 ==> i32::MIN <= smx + sw <= i32::MAX
        &&& sh > 0 && sw > 0 ==> dest_point.0 + sw - 1 <= i32::MAX && dest_point.1 + sh - 1 <= i32::MAX
        &&& forall|ox: int, oy: int|
            0 <= ox < sw && 0 <= oy < sh && #[trigger] source.in_bounds(smx + ox, smy + oy)
                && self.in_bounds(dest_point.0 + ox, dest_point.1 + oy) ==> match alpha_source {
                Some((ab, ap, _)) => ap.0 + ox <= i32::MAX && ap.1 + oy <= i32::MAX,
                None => source.spec_transparency() && !self.spec_transparency() ==> self.pixel(
                    dest_point.0 + ox,
                    dest_point.1 + oy,
                ).blend_fits(source.pixel(smx + ox, smy + oy)),
            }
    }

    /// What `copy_pixels` makes of `self`.
    pub open spec fn copy_pixels_result(
        &self,
        after: &BitmapData,
        source_bitmap: &BitmapData,
        src_rect: (i32, i32, i32, i32),
        dest_point: (i32, i32),
        alpha_source: Option<(&BitmapData, (i32, i32), bool)>,
    ) -> bool {
        &&& after.wf()
        &&& after.same_shape(self)
        &&& self.pixels_are(
            after,
            |px: int, py: int|
                if self.copy_hit(source_bitmap, src_rect, dest_point, alpha_source, px, py) {
                    self.copy_colour(source_bitmap, src_rect, dest_point, alpha_source, px, py)
                } else {
                    self.pixel(px, py)
                }
            )
        &&& after.spec_dirty() == (self.spec_dirty() || exists|px: int, py: int|
            self.copy_hit(source_bitmap, src_rect, dest_point, alpha_source, px, py))
    }

    pub fn copy_pixels(
        &mut self,
        source_bitmap: &Self,
        src_rect: (i32, i32, i32, i32),
        dest_point: (i32, i32),
        alpha_source: Option<(&Self, (i32, i32), bool)>,
    )
        requires
            old(self).wf(),
            source_bitmap.wf(),
            alpha_source matches Some((ab, _, _)) ==> ab.wf(),
            old(self).copy_pixels_ok(source_bitmap, src_rect, dest_point, alpha_source),
        ensures
            old(self).copy_pixels_result(final(self), source_bitmap, src_rect, dest_point, alpha_source),
    {
        let (src_min_x, src_min_y, src_width, src_height) = src_rect;
        let (dest_min_x, dest_min_y) = dest_point;
        let ghost orig = *self;
        let ghost hit = |px: int, py: int| orig.copy_hit(source_bitmap, src_rect, dest_point, alpha_source, px, py);
        let ghost f = |px: int, py: int| orig.copy_colour(source_bitmap, src_rect, dest_point, alpha_source, px, py);
        proof {
            reveal(BitmapData::copy_pixels_ok);
        }
        let y_end = src_min_y + src_height;
        let mut src_y = src_min_y;
        while src_y < y_end
            invariant
                src_min_y <= src_y,
                src_y < y_end ==> src_y <= y_end,
                y_end == src_min_y + src_height,
                self.wf(),
                orig.wf(),
                self.same_shape(&orig),
                source_bitmap.wf(),
                alpha_source matches Some((ab, _, _)) ==> ab.wf(),
                orig.copy_pixels_ok(source_bitmap, src_rect, dest_point, alpha_source),
                src_rect == (src_min_x, src_min_y, src_width, src_height),
                dest_point == (dest_min_x, dest_min_y),
                hit == (|px: int, py: int| orig.copy_hit(source_bitmap, src_rect, dest_point, alpha_source, px, py)),
                f == (|px: int, py: int| orig.copy_colour(source_bitmap, src_rect, dest_point, alpha_source, px, py)),
                forall|px: int, py: int| #[trigger] orig.in_bounds(px, py) ==> self.pixel(px, py)
                    == if hit(px, py) && py - dest_min_y < src_y - src_min_y { f(px, py) } else { orig.pixel(px, py) },
                self.spec_dirty() == (orig.spec_dirty() || exists|px: int, py: int| #[trigger] hit(px, py) && py - dest_min_y < src_y - src_min_y),
            decreases y_end - src_y,
        {
            assert(orig.copy_pixels_ok(source_bitmap, src_rect, dest_point, alpha_source));
            let x_end = src_min_x + src_width;
            let mut src_x = src_min_x;
            while src_x < x_end
                invariant
                    src_min_x <= src_x,
                    src_x < x_end ==> src_x <= x_end,
                    src_min_y <= src_y < y_end,
                    y_end == src_min_y + src_height,
                    x_end == src_min_x + src_width,
                    self.wf(),
                    orig.wf(),
                    self.same_shape(&orig),
                    source_bitmap.wf(),
                    alpha_source matches Some((ab, _, _)) ==> ab.wf(),
                    orig.copy_pixels_ok(source_bitmap, src_rect, dest_point, alpha_source),
                    src_rect == (src_min_x, src_min_y, src_width, src_height),
                    dest_point == (dest_min_x, dest_min_y),
                    hit == (|px: int, py: int| orig.copy_hit(source_bitmap, src_rect, dest_point, alpha_source, px, py)),
                    f == (|px: int, py: int| orig.copy_colour(source_bitmap, src_rect, dest_point, alpha_source, px, py)),
                    forall|px: int, py: int| #[trigger] orig.in_bounds(px, py) ==> self.pixel(px, py)
                        == if hit(px, py) && (py - dest_min_y < src_y - src_min_y || (py - dest_min_y == src_y - src_min_y && px - dest_min_x < src_x - src_min_x)) { f(px, py) } else { orig.pixel(px, py) },
                    self.spec_dirty() == (orig.spec_dirty() || exists|px: int, py: int| #[trigger] hit(px, py) && (py - dest_min_y < src_y - src_min_y || (py - dest_min_y == src_y - src_min_y && px - dest_min_x < src_x - src_min_x))),
                decreases x_end - src_x,
            {
                let dest_x = src_x - src_min_x + dest_min_x;
                let dest_y = src_y - src_min_y + dest_min_y;
                let ghost ox = src_x - src_min_x;
                let ghost oy = src_y - src_min_y;
                let ghost before = *self;
                if !source_bitmap.is_point_in_bounds(src_x, src_y) || !self.is_point_in_bounds(dest_x, dest_y) {
                    proof {
                        assert(!hit(dest_x as int, dest_y as int));
                        assert forall|px: int, py: int| #[trigger] orig.in_bounds(px, py) implies self.pixel(px, py)
                            == if hit(px, py) && (py - dest_min_y < src_y - src_min_y || (py - dest_min_y == src_y - src_min_y && px - dest_min_x < src_x + 1 - src_min_x)) { f(px, py) } else { orig.pixel(px, py) } by {
                        }
                    }
                    src_x = src_x + 1;
                    continue;
                }
                proof {
                    lemma_in_bounds_index(orig.spec_width() as int, orig.spec_height() as int, dest_x as int, dest_y as int);
                    lemma_index_bound(orig.spec_width() as nat, orig.spec_height() as nat, dest_x as nat, dest_y as nat);
                    lemma_in_bounds_index(source_bitmap.spec_width() as int, source_bitmap.spec_height() as int, src_x as int, src_y as int);
                    lemma_index_bound(source_bitmap.spec_width() as nat, source_bitmap.spec_height() as nat, src_x as nat, src_y as nat);
                    lemma_i32_as_u32(src_x);
                    lemma_i32_as_u32(src_y);
                    lemma_i32_as_u32(dest_x);
                    lemma_i32_as_u32(dest_y);
                    assert(orig.in_bounds(dest_x as int, dest_y as int));
                    assert(self.pixel(dest_x as int, dest_y as int) == orig.pixel(dest_x as int, dest_y as int));
                }
                let source_color = match source_bitmap.read_raw(src_x as u32, src_y as u32) {
                    Some(c) => c,
                    None => Color(0),
                };
                let mut dest_color = match self.read_raw(dest_x as u32, dest_y as u32) {
                    Some(c) => c,
                    None => Color(0),
                };
                if let Some((alpha_bitmap, (alpha_min_x, alpha_min_y), merge_alpha)) = alpha_source {
                    let alpha_x = src_x - src_min_x + alpha_min_x;
                    let alpha_y = src_y - src_min_y + alpha_min_y;
                    if alpha_bitmap.transparency && !alpha_bitmap.is_point_in_bounds(alpha_x, alpha_y) {
                        proof {
                            assert(!hit(dest_x as int, dest_y as int));
                            assert forall|px: int, py: int| #[trigger] orig.in_bounds(px, py) implies self.pixel(px, py)
                                == if hit(px, py) && (py - dest_min_y < src_y - src_min_y || (py - dest_min_y == src_y - src_min_y && px - dest_min_x < src_x + 1 - src_min_x)) { f(px, py) } else { orig.pixel(px, py) } by {
                            }
                        }
                        src_x = src_x + 1;
                        continue;
                    }
                    let final_alpha = if alpha_bitmap.transparency {
                        proof {
                            lemma_in_bounds_index(alpha_bitmap.spec_width() as int, alpha_bitmap.spec_height() as int, alpha_x as int, alpha_y as int);
                            lemma_index_bound(alpha_bitmap.spec_width() as nat, alpha_bitmap.spec_height() as nat, alpha_x as nat, alpha_y as nat);
                            lemma_i32_as_u32(alpha_x);
                            lemma_i32_as_u32(alpha_y);
                        }
                        let a = match alpha_bitmap.read_raw(alpha_x as u32, alpha_y as u32) {
                            Some(c) => c.alpha(),
                            None => 0,
                        };
                        if source_bitmap.transparency {
                            let sa = source_color.alpha();
                            assert((a as u16) * (sa as u16) <= 65025) by (nonlinear_arith)
                                requires
                                    a <= 255,
                                    sa <= 255,
                            ;
                            let prod: u16 = a as u16 * sa as u16;
                            assert((prod >> 8u16) == prod / 256) by (bit_vector);
                            (prod >> 8) as u8
                        } else {
                            a
                        }
                    } else if source_bitmap.transparency {
                        source_color.alpha()
                    } else {
                        255
                    };
                    let intermediate_color = source_color
                        .to_un_multiplied_alpha()
                        .with_alpha(final_alpha)
                        .to_premultiplied_alpha(true);
                    dest_color = if merge_alpha || !self.transparency {
                        proof {
                            lemma_premultiplied_is_premultiplied(source_color.unmultiplied().spec_with_alpha(final_alpha));
                            lemma_premultiplied_blend_fits(dest_color, intermediate_color);
                        }
                        dest_color.blend_over(&intermediate_color)
                    } else {
                        intermediate_color
                    };
                } else {
                    dest_color = if source_bitmap.transparency && !self.transparency {
                        proof {
                            assert(source_bitmap.in_bounds(src_min_x + ox, src_min_y + oy));
                            assert(orig.pixel(dest_min_x + ox, dest_min_y + oy).blend_fits(
                                source_bitmap.pixel(src_min_x + ox, src_min_y + oy),
                            ));
                        }
                        dest_color.blend_over(&source_color)
                    } else {
                        source_color
                    };
                }
                proof {
                    assert(hit(dest_x as int, dest_y as int));
                    assert(dest_color == f(dest_x as int, dest_y as int));
                }
                self.set_pixel32_raw(dest_x as u32, dest_y as u32, dest_color);
                proof {
                    assert forall|px: int, py: int| #[trigger] orig.in_bounds(px, py) implies self.pixel(px, py)
                        == if hit(px, py) && (py - dest_min_y < src_y - src_min_y || (py - dest_min_y == src_y - src_min_y && px - dest_min_x < src_x + 1 - src_min_x)) { f(px, py) } else { orig.pixel(px, py) } by {
                        before.lemma_update_pixel(self, dest_x as int, dest_y as int, px, py, dest_color);
                    }
                }
                src_x = src_x + 1;
            }
            proof {
                assert forall|px: int, py: int| #[trigger] hit(px, py) && (py - dest_min_y < src_y - src_min_y || (py - dest_min_y == src_y - src_min_y && px - dest_min_x < src_x - src_min_x))
                    <==> hit(px, py) && py - dest_min_y < src_y + 1 - src_min_y by {}
            }
            src_y = src_y + 1;
        }
        proof {
            if exists|px: int, py: int| orig.copy_hit(source_bitmap, src_rect, dest_point, alpha_source, px, py) {
                let (px, py) = choose|px: int, py: int| orig.copy_hit(source_bitmap, src_rect, dest_point, alpha_source, px, py);
                assert(hit(px, py) && py - dest_min_y < src_y - src_min_y);
            }
            if exists|px: int, py: int| #[trigger] hit(px, py) && py - dest_min_y < src_y - src_min_y {
                let (px, py) = choose|px: int, py: int| #[trigger] hit(px, py) && py - dest_min_y < src_y - src_min_y;
                assert(orig.copy_hit(source_bitmap, src_rect, dest_point, alpha_source, px, py));
            }
        }
    }
}


/// One channel of `merge`: the source channel times the multiplier plus the
/// destination channel times `256 - multiplier` over 256, kept to its low byte.
pub open spec fn merge_channel(s: u8, d: u8, m: u16) -> u8 {
    ((s as int * m as int + (d as int * (256 - m as int)) / 256) % 256) as u8
}

/// The colour `merge` writes from source `s` over destination `d`.
pub open spec fn merge_colour(s: Color, d: Color, mult: (u16, u16, u16, u16)) -> Color {
    Color::from_argb(
        merge_channel(s.spec_alpha(), d.spec_alpha(), mult.3),
        merge_channel(s.spec_red(), d.spec_red(), mult.0),
        merge_channel(s.spec_green(), d.spec_green(), mult.1),
        merge_channel(s.spec_blue(), d.spec_blue(), mult.2),
    )
}

fn merge_channel_exec(s: u8, d: u8, m: u16) -> (r: u8)
    requires
        m <= 256,
    ensures
        r == merge_channel(s, d, m),
{
    assert((s as u16) * m <= 65280) by (nonlinear_arith)
        requires
            s <= 255,
            m <= 256,
    ;
    assert((d as u16) * (256 - m) <= 65280) by (nonlinear_arith)
        requires
            d <= 255,
            m <= 256,
    ;
    let v: u16 = (s as u16 * m) + (d as u16 * (256 - m) / 256);
    assert(v as u8 == (v % 256) as u8) by (bit_vector);
    v as u8
}

impl BitmapData {
    /// The position arithmetic of `merge` stays in range, and where any pixel
    /// is merged the multipliers are at most 256.
    pub open spec fn merge_ok(
        &self,
        source: &BitmapData,
        src_rect: (i32, i32, i32, i32),
        dest_point: (i32, i32),
        chan_mult: (u16, u16, u16, u16),
    ) -> bool {
        let (smx, smy, sw, sh) = src_rect;
        &&& i32::MIN <= smy + sh <= i32::MAX
        &&& sh > 0 ==> i32::MIN <= smx + sw <= i32::MAX
        &&& sh > 0 && sw > 0 ==> dest_point.0 + sw - 1 <= i32::MAX && dest_point.1 + sh - 1 <= i32::MAX
        &&& (exists|px: int, py: int| self.copy_hit(source, src_rect, dest_point, None, px, py)) ==> {
            &&& chan_mult.0 <= 256
            &&& chan_mult.1 <= 256
            &&& chan_mult.2 <= 256
            &&& chan_mult.3 <= 256
        }
    }

    /// What `merge` makes of `self`.
    pub open spec fn merge_result(
        &self,
        after: &BitmapData,
        source_bitmap: &BitmapData,
        src_rect: (i32, i32, i32, i32),
        dest_point: (i32, i32),
        chan_mult: (u16, u16, u16, u16),
    ) -> bool {
        &&& after.wf()
        &&& after.same_shape(self)
        &&& self.pixels_are(
            after,
            |px: int, py: int|
                if self.copy_hit(source_bitmap, src_rect, dest_point, None, px, py) {
                    merge_colour(
                        source_bitmap.pixel(src_rect.0 + px - dest_point.0, src_rect.1 + py - dest_point.1),
                        self.pixel(px, py),
                        chan_mult,
                    )
                } else {
                    self.pixel(px, py)
                }
            )
        &&& after.spec_dirty() == (self.spec_dirty() || exists|px: int, py: int|
            self.copy_hit(source_bitmap, src_rect, dest_point, None, px, py))
    }

    pub fn merge(
        &mut self,
        source_bitmap: &Self,
        src_rect: (i32, i32, i32, i32),
        dest_point: (i32, i32),
        chan_mult: (u16, u16, u16, u16),
    )
        requires
            old(self).wf(),
            source_bitmap.wf(),
            old(self).merge_ok(source_bitmap, src_rect, dest_point, chan_mult),
        ensures
            old(self).merge_result(final(self), source_bitmap, src_rect, dest_point, chan_mult),
    {
        let (src_min_x, src_min_y, src_width, src_height) = src_rect;
        let (dest_min_x, dest_min_y) = dest_point;
        let (red_mult, green_mult, blue_mult, alpha_mult) = chan_mult;
        let ghost orig = *self;
        let ghost hit = |px: int, py: int| orig.copy_hit(source_bitmap, src_rect, dest_point, None, px, py);
        let ghost f = |px: int, py: int|
            merge_colour(
                source_bitmap.pixel(src_rect.0 + px - dest_point.0, src_rect.1 + py - dest_point.1),
                orig.pixel(px, py),
                chan_mult,
            );
        let y_end = src_min_y + src_height;
        let mut src_y = src_min_y;
        while src_y < y_end
            invariant
                src_min_y <= src_y,
                src_y < y_end ==> src_y <= y_end,
                y_end == src_min_y + src_height,
                self.wf(),
                orig.wf(),
                self.same_shape(&orig),
                source_bitmap.wf(),
                orig.merge_ok(source_bitmap, src_rect, dest_point, chan_mult),
                src_rect == (src_min_x, src_min_y, src_width, src_height),
                dest_point == (dest_min_x, dest_min_y),
                chan_mult == (red_mult, green_mult, blue_mult, alpha_mult),
                hit == (|px: int, py: int| orig.copy_hit(source_bitmap, src_rect, dest_point, None, px, py)),
                f == (|px: int, py: int|
                    merge_colour(
                        source_bitmap.pixel(src_rect.0 + px - dest_point.0, src_rect.1 + py - dest_point.1),
                        orig.pixel(px, py),
                        chan_mult,
                    )),
                forall|px: int, py: int| #[trigger] orig.in_bounds(px, py) ==> self.pixel(px, py)
                    == if hit(px, py) && py - dest_min_y < src_y - src_min_y { f(px, py) } else { orig.pixel(px, py) },
                self.spec_dirty() == (orig.spec_dirty() || exists|px: int, py: int| #[trigger] hit(px, py) && py - dest_min_y < src_y - src_min_y),
            decreases y_end - src_y,
        {
            let x_end = src_min_x + src_width;
            let mut src_x = src_min_x;
            while src_x < x_end
                invariant
                    src_min_x <= src_x,
                    src_x < x_end ==> src_x <= x_end,
                    src_min_y <= src_y < y_end,
                    y_end == src_min_y + src_height,
                    x_end == src_min_x + src_width,
                    self.wf(),
                    orig.wf(),
                    self.same_shape(&orig),
                    source_bitmap.wf(),
                    orig.merge_ok(source_bitmap, src_rect, dest_point, chan_mult),
                    src_rect == (src_min_x, src_min_y, src_width, src_height),
                    dest_point == (dest_min_x, dest_min_y),
                    chan_mult == (red_mult, green_mult, blue_mult, alpha_mult),
                    hit == (|px: int, py: int| orig.copy_hit(source_bitmap, src_rect, dest_point, None, px, py)),
                    f == (|px: int, py: int|
                        merge_colour(
                            source_bitmap.pixel(src_rect.0 + px - dest_point.0, src_rect.1 + py - dest_point.1),
                            orig.pixel(px, py),
                            chan_mult,
                        )),
                    forall|px: int, py: int| #[trigger] orig.in_bounds(px, py) ==> self.pixel(px, py)
                        == if hit(px, py) && (py - dest_min_y < src_y - src_min_y || (py - dest_min_y == src_y - src_min_y && px - dest_min_x < src_x - src_min_x)) { f(px, py) } else { orig.pixel(px, py) },
                    self.spec_dirty() == (orig.spec_dirty() || exists|px: int, py: int| #[trigger] hit(px, py) && (py - dest_min_y < src_y - src_min_y || (py - dest_min_y == src_y - src_min_y && px - dest_min_x < src_x - src_min_x))),
                decreases x_end - src_x,
            {
                let dest_x = src_x - src_min_x + dest_min_x;
                let dest_y = src_y - src_min_y + dest_min_y;
                let ghost before = *self;
                if !source_bitmap.is_point_in_bounds(src_x, src_y) || !self.is_point_in_bounds(dest_x, dest_y) {
                    proof {
                        assert(!hit(dest_x as int, dest_y as int));
                        assert forall|px: int, py: int| #[trigger] orig.in_bounds(px, py) implies self.pixel(px, py)
                            == if hit(px, py) && (py - dest_min_y < src_y - src_min_y || (py - dest_min_y == src_y - src_min_y && px - dest_min_x < src_x + 1 - src_min_x)) { f(px, py) } else { orig.pixel(px, py) } by {
                        }
                    }
                    src_x = src_x + 1;
                    continue;
                }
                proof {
                    lemma_in_bounds_index(orig.spec_width() as int, orig.spec_height() as int, dest_x as int, dest_y as int);
                    lemma_index_bound(orig.spec_width() as nat, orig.spec_height() as nat, dest_x as nat, dest_y as nat);
                    lemma_in_bounds_index(source_bitmap.spec_width() as int, source_bitmap.spec_height() as int, src_x as int, src_y as int);
                    lemma_index_bound(source_bitmap.spec_width() as nat, source_bitmap.spec_height() as nat, src_x as nat, src_y as nat);
                    lemma_i32_as_u32(src_x);
                    lemma_i32_as_u32(src_y);
                    lemma_i32_as_u32(dest_x);
                    lemma_i32_as_u32(dest_y);
                    assert(orig.in_bounds(dest_x as int, dest_y as int));
                    assert(hit(dest_x as int, dest_y as int));
                    assert(self.pixel(dest_x as int, dest_y as int) == orig.pixel(dest_x as int, dest_y as int));
                }
                let source_color = match source_bitmap.read_raw(src_x as u32, src_y as u32) {
                    Some(c) => c,
                    None => Color(0),
                };
                let dest_color = match self.read_raw(dest_x as u32, dest_y as u32) {
                    Some(c) => c,
                    None => Color(0),
                };
                let red = merge_channel_exec(source_color.red(), dest_color.red(), red_mult);
                let green = merge_channel_exec(source_color.green(), dest_color.green(), green_mult);
                let blue = merge_channel_exec(source_color.blue(), dest_color.blue(), blue_mult);
                let alpha = merge_channel_exec(source_color.alpha(), dest_color.alpha(), alpha_mult);
                let c = Color::argb(alpha, red, green, blue);
                self.set_pixel32_raw(dest_x as u32, dest_y as u32, c);
                proof {
                    assert forall|px: int, py: int| #[trigger] orig.in_bounds(px, py) implies self.pixel(px, py)
                        == if hit(px, py) && (py - dest_min_y < src_y - src_min_y || (py - dest_min_y == src_y - src_min_y && px - dest_min_x < src_x + 1 - src_min_x)) { f(px, py) } else { orig.pixel(px, py) } by {
                        before.lemma_update_pixel(self, dest_x as int, dest_y as int, px, py, c);
                    }
                }
                src_x = src_x + 1;
            }
            proof {
                assert forall|px: int, py: int| #[trigger] hit(px, py) && (py - dest_min_y < src_y - src_min_y || (py - dest_min_y == src_y - src_min_y && px - dest_min_x < src_x - src_min_x))
                    <==> hit(px, py) && py - dest_min_y < src_y + 1 - src_min_y by {}
            }
            src_y = src_y + 1;
        }
        proof {
            if exists|px: int, py: int| orig.copy_hit(source_bitmap, src_rect, dest_point, None, px, py) {
                let (px, py) = choose|px: int, py: int| orig.copy_hit(source_bitmap, src_rect, dest_point, None, px, py);
                assert(hit(px, py) && py - dest_min_y < src_y - src_min_y);
            }
            if exists|px: int, py: int| #[trigger] hit(px, py) && py - dest_min_y < src_y - src_min_y {
                let (px, py) = choose|px: int, py: int| #[trigger] hit(px, py) && py - dest_min_y < src_y - src_min_y;
                assert(orig.copy_hit(source_bitmap, src_rect, dest_point, None, px, py));
            }
        }
    }
}


pub open spec fn abs_int(v: int) -> int {
    if v < 0 { -v } else { v }
}

impl BitmapData {
    /// Whether `scroll(x, y)` leaves the bitmap as it is: no offset, or an
    /// offset as large as the bitmap in either direction.
    pub open spec fn scroll_is_noop(&self, x: i32, y: i32) -> bool {
        (x == 0 && y == 0) || abs_int(x as int) >= self.spec_width() || abs_int(y as int)
            >= self.spec_height()
    }

    /// Whether source position `(sx, sy)` is copied before `(cx, cy)` in the
    /// order `scroll` uses: rows bottom to top when scrolling down (top to
    /// bottom otherwise), and within a row right to left when scrolling only
    /// to the right (left to right otherwise).
    pub open spec fn scroll_before(sx: int, sy: int, cx: int, cy: int, x: i32, y: i32) -> bool {
        let reverse_y = y > 0;
        let reverse_x = y == 0 && x > 0;
        (if reverse_y { sy > cy } else { sy < cy }) || (sy == cy && (if reverse_x {
            sx > cx
        } else {
            sx < cx
        }))
    }

    /// What `scroll(x, y)` makes of `self`.
    pub open spec fn scroll_result(&self, after: &BitmapData, x: i32, y: i32) -> bool {
        &&& self.scroll_is_noop(x, y) ==> *after == *self
        &&& !self.scroll_is_noop(x, y) ==> {
                &&& after.wf()
                &&& after.same_shape(self)
                &&& after.spec_dirty()
                &&& self.pixels_are(
                    after,
                    |px: int, py: int|
                        if self.in_bounds(px - x, py - y) {
                            self.pixel(px - x, py - y)
                        } else {
                            self.pixel(px, py)
                        },
                )
        }
    }

    pub fn scroll(&mut self, x: i32, y: i32)
        requires
            old(self).wf(),
            !(x == 0 && y == 0) ==> x != i32::MIN,
            !(x == 0 && y == 0) && abs_int(x as int) < old(self).spec_width() ==> y != i32::MIN,
            !old(self).scroll_is_noop(x, y) && !(y == 0 && x > 0) ==> old(self).spec_width() - x <= i32::MAX,
        ensures
            old(self).scroll_result(final(self), x, y),
    {
        let width = self.width() as i32;
        let height = self.height() as i32;

        if x == 0 && y == 0 {
            return;  // no-op
        }
        let x_abs = if x < 0 { -x } else { x };
        if x_abs >= width {
            return;  // no-op
        }
        let y_abs = if y < 0 { -y } else { y };
        if y_abs >= height {
            return;  // no-op
        }
        let ghost orig = *self;
        let ghost valid = |sx: int, sy: int| orig.in_bounds(sx, sy) && orig.in_bounds(sx + x, sy + y);
        // since this is an "in-place copy", we have to iterate from bottom to top
        // when scrolling downwards - so if y is positive
        let reverse_y = y > 0;
        // and if only scrolling horizontally, we have to iterate from right to left
        // when scrolling right - so if x is positive
        let reverse_x = y == 0 && x > 0;

        // iteration ranges to use as source for the copy, from is inclusive, to is exclusive
        let y_from = if reverse_y { height - y - 1 } else { -y };
        let y_to = if reverse_y { -1 } else { height };
        let dy = if reverse_y { -1 } else { 1 };

        let x_from = if reverse_x {
            // we know x > 0
            width - x - 1
        } else {
            // x can be any sign
            if -x > 0 { -x } else { 0 }
        };
        let x_to = if reverse_x { -1 } else { if width < width - x { width } else { width - x } };
        let dx = if reverse_x { -1 } else { 1 };

        let mut src_y = y_from;
        while src_y != y_to
            invariant
                self.wf(),
                orig.wf(),
                self.same_shape(&orig),
                width == orig.spec_width(),
                height == orig.spec_height(),
                !orig.scroll_is_noop(x, y),
                reverse_y == (y > 0),
                reverse_x == (y == 0 && x > 0),
                y_from == if reverse_y { height - y - 1 } else { -y },
                y_to == if reverse_y { -1 } else { height as int },
                dy == if reverse_y { -1i32 } else { 1i32 },
                x_from == if reverse_x { width - x - 1 } else { if -x > 0 { -(x as int) } else { 0int } },
                x_to == if reverse_x { -1 } else { if width < width - x { width as int } else { width - x } },
                dx == if reverse_x { -1i32 } else { 1i32 },
                if reverse_y { -1 <= src_y <= y_from } else { y_from <= src_y <= y_to },
                valid == (|sx: int, sy: int| orig.in_bounds(sx, sy) && orig.in_bounds(sx + x, sy + y)),
                forall|px: int, py: int| #[trigger] orig.in_bounds(px, py) ==> self.pixel(px, py)
                    == if valid(px - x, py - y) && (if reverse_y { py - y > src_y } else { py - y < src_y }) {
                        orig.pixel(px - x, py - y)
                    } else {
                        orig.pixel(px, py)
                    },
                src_y != y_from ==> self.spec_dirty(),
            decreases if reverse_y { src_y - y_to } else { y_to - src_y },
        {
            let mut src_x = x_from;
            while src_x != x_to
                invariant
                    self.wf(),
                    orig.wf(),
                    self.same_shape(&orig),
                    width == orig.spec_width(),
                    height == orig.spec_height(),
                    !orig.scroll_is_noop(x, y),
                    reverse_y == (y > 0),
                    reverse_x == (y == 0 && x > 0),
                    y_from == if reverse_y { height - y - 1 } else { -y },
                    y_to == if reverse_y { -1 } else { height as int },
                    dy == if reverse_y { -1i32 } else { 1i32 },
                    x_from == if reverse_x { width - x - 1 } else { if -x > 0 { -(x as int) } else { 0int } },
                    x_to == if reverse_x { -1 } else { if width < width - x { width as int } else { width - x } },
                    dx == if reverse_x { -1i32 } else { 1i32 },
                    if reverse_y { 0 <= src_y <= y_from } else { y_from <= src_y < y_to },
                    if reverse_x { -1 <= src_x <= x_from } else { x_from <= src_x <= x_to },
                    valid == (|sx: int, sy: int| orig.in_bounds(sx, sy) && orig.in_bounds(sx + x, sy + y)),
                    forall|px: int, py: int| #[trigger] orig.in_bounds(px, py) ==> self.pixel(px, py)
                        == if valid(px - x, py - y) && BitmapData::scroll_before(px - x, py - y, src_x as int, src_y as int, x, y) {
                            orig.pixel(px - x, py - y)
                        } else {
                            orig.pixel(px, py)
                        },
                    src_y != y_from || src_x != x_from ==> self.spec_dirty(),
                decreases if reverse_x { src_x - x_to } else { x_to - src_x },
            {
                let ghost before = *self;
                let ghost sx = src_x as int;
                let ghost sy = src_y as int;
                proof {
                    assert(valid(sx, sy));
                    assert(orig.in_bounds(sx, sy));
                    assert(self.pixel(sx, sy) == orig.pixel(sx, sy)) by {
                        if valid(sx - x, sy - y) && BitmapData::scroll_before(sx - x, sy - y, sx, sy, x, y) {
                            assert(false);
                        }
                    }
                    lemma_in_bounds_index(width as int, height as int, sx, sy);
                    lemma_index_bound(width as nat, height as nat, sx as nat, sy as nat);
                    lemma_in_bounds_index(width as int, height as int, sx + x, sy + y);
                    lemma_index_bound(width as nat, height as nat, (sx + x) as nat, (sy + y) as nat);
                    lemma_i32_as_u32(src_x);
                    lemma_i32_as_u32(src_y);
                    lemma_i32_as_u32((src_x + x) as i32);
                    lemma_i32_as_u32((src_y + y) as i32);
                }
                let color = match self.read_raw(src_x as u32, src_y as u32) {
                    Some(c) => c,
                    None => Color(0),
                };
                self.set_pixel32_raw((src_x + x) as u32, (src_y + y) as u32, color);
                proof {
                    assert forall|px: int, py: int| #[trigger] orig.in_bounds(px, py) implies self.pixel(px, py)
                        == if valid(px - x, py - y) && BitmapData::scroll_before(px - x, py - y, sx + dx, sy, x, y) {
                            orig.pixel(px - x, py - y)
                        } else {
                            orig.pixel(px, py)
                        } by {
                        before.lemma_update_pixel(self, sx + x, sy + y, px, py, color);
                    }
                }
                src_x += dx;
            }
            proof {
                assert forall|px: int, py: int| #[trigger] orig.in_bounds(px, py) implies (valid(px - x, py - y) && BitmapData::scroll_before(px - x, py - y, src_x as int, src_y as int, x, y))
                    == (valid(px - x, py - y) && (if reverse_y { py - y > src_y + dy } else { py - y < src_y + dy })) by {
                    if valid(px - x, py - y) && py - y == src_y {
                        assert(x_from <= px - x <= x_to || x_to <= px - x <= x_from);
                    }
                }
            }
            src_y += dy;
        }
        proof {
            assert forall|px: int, py: int| #[trigger] orig.in_bounds(px, py) implies (valid(px - x, py - y) && (if reverse_y { py - y > src_y } else { py - y < src_y }))
                == orig.in_bounds(px - x, py - y) by {}
        }
    }
}


/// The four lookup tables of `palette_map`: red, green, blue, alpha.
pub type ChannelArrays = ([u32; 256], [u32; 256], [u32; 256], [u32; 256]);

/// The colour `palette_map` makes of `c`: the sum (wrapping) of each
/// table's entry for the matching channel of `c` un-multiplied, taken as a
/// colour and premultiplied.
pub open spec fn palette_colour(c: Color, arrays: ChannelArrays) -> Color {
    let u = c.unmultiplied();
    let r = arrays.0@[u.spec_red() as int];
    let g = arrays.1@[u.spec_green() as int];
    let b = arrays.2@[u.spec_blue() as int];
    let a = arrays.3@[u.spec_alpha() as int];
    let sum = wrap_add(wrap_add(r, g), wrap_add(b, a));
    Color(sum as i32).premultiplied(true)
}

/// Tables that give each channel value back in its own place: red shifted
/// into bits 16..24, green into 8..16, blue into 0..8 and alpha into 24..32.
pub open spec fn identity_tables(arrays: ChannelArrays) -> bool {
    forall|i: int|
        #![trigger arrays.0@[i]]
        #![trigger arrays.1@[i]]
        #![trigger arrays.2@[i]]
        #![trigger arrays.3@[i]]
        0 <= i < 256 ==> {
        &&& arrays.0@[i] == (i as u32) << 16u32
        &&& arrays.1@[i] == (i as u32) << 8u32
        &&& arrays.2@[i] == i as u32
        &&& arrays.3@[i] == (i as u32) << 24u32
    }
}

/// Summing identity tables' entries for the channels of `u` gives `u` back.
proof fn lemma_identity_reassembles(u: Color, arrays: ChannelArrays)
    requires
        identity_tables(arrays),
    ensures
        Color((wrap_add(
            wrap_add(arrays.0@[u.spec_red() as int], arrays.1@[u.spec_green() as int]),
            wrap_add(arrays.2@[u.spec_blue() as int], arrays.3@[u.spec_alpha() as int]),
        )) as i32) == u,
{
    let b = u.bits();
    let r = arrays.0@[u.spec_red() as int];
    let g = arrays.1@[u.spec_green() as int];
    let bl = arrays.2@[u.spec_blue() as int];
    let a = arrays.3@[u.spec_alpha() as int];
    let (rc, gc, bc, ac) = (u.spec_red(), u.spec_green(), u.spec_blue(), u.spec_alpha());
    assert(r == (rc as u32) << 16u32);
    assert(g == (gc as u32) << 8u32);
    assert(bl == bc as u32);
    assert(a == (ac as u32) << 24u32);
    assert(forall|x: u32, k: u32| #[trigger] (((x >> k) & 0xFFu32) as u8 as u32) == (x >> k) & 0xFFu32) by (bit_vector);
    assert(rc as u32 == (b >> 16u32) & 0xFFu32);
    assert(gc as u32 == (b >> 8u32) & 0xFFu32);
    assert(bc as u32 == (b >> 0u32) & 0xFFu32);
    assert(ac as u32 == (b >> 24u32) & 0xFFu32);
    assert((b >> 0u32) & 0xFFu32 == b & 0xFFu32) by (bit_vector);
    assert(r == ((b >> 16u32) & 0xFFu32) << 16u32);
    assert(g == ((b >> 8u32) & 0xFFu32) << 8u32);
    assert(bl == (b & 0xFFu32));
    assert(a == ((b >> 24u32) & 0xFFu32) << 24u32);
    assert(r + g <= u32::MAX && bl + a <= u32::MAX && (r + g) + (bl + a) <= u32::MAX
        && (r + g) + (bl + a) == b) by (bit_vector)
        requires
            r == ((b >> 16u32) & 0xFFu32) << 16u32,
            g == ((b >> 8u32) & 0xFFu32) << 8u32,
            bl == (b & 0xFFu32),
            a == ((b >> 24u32) & 0xFFu32) << 24u32,
    ;
    let v = u.0;
    assert(((v as u32) as i32) == v) by (bit_vector);
}

/// Identity tables give back the colour they look up: a palette map with
/// them un-multiplies each colour, reads its own channels back, and
/// premultiplies again, so any colour `c` becomes
/// `c.unmultiplied().premultiplied(true)`.
pub proof fn lemma_identity_palette_any_colour(c: Color, arrays: ChannelArrays)
    requires
        identity_tables(arrays),
    ensures
        palette_colour(c, arrays) == c.unmultiplied().premultiplied(true),
{
    lemma_identity_reassembles(c.unmultiplied(), arrays);
}

/// Identity tables map an opaque colour to itself.
pub proof fn lemma_identity_palette_colour(c: Color, arrays: ChannelArrays)
    requires
        identity_tables(arrays),
        c.spec_alpha() == 255,
    ensures
        palette_colour(c, arrays) == c,
{
    crate::color::lemma_opaque_roundtrip(c);
    lemma_identity_palette_any_colour(c, arrays);
}

/// Unsigned 32-bit addition that wraps around.
pub open spec fn wrap_add(x: u32, y: u32) -> u32 {
    if x + y > u32::MAX {
        (x + y - 0x1_0000_0000) as u32
    } else {
        (x + y) as u32
    }
}

fn palette_colour_exec(c: Color, arrays: &ChannelArrays) -> (r: Color)
    ensures
        r == palette_colour(c, *arrays),
{
    let source_color = c.to_un_multiplied_alpha();
    let r = arrays.0[source_color.red() as usize];
    let g = arrays.1[source_color.green() as usize];
    let b = arrays.2[source_color.blue() as usize];
    let a = arrays.3[source_color.alpha() as usize];
    let sum = u32::wrapping_add(u32::wrapping_add(r, g), u32::wrapping_add(b, a));
    Color(sum as i32).to_premultiplied_alpha(true)
}

impl BitmapData {
    /// The position arithmetic of `palette_map` stays in range.
    pub open spec fn palette_map_ok(src_rect: (i32, i32, i32, i32), dest_point: (i32, i32)) -> bool {
        let (smx, smy, sw, sh) = src_rect;
        &&& i32::MIN <= smy + sh <= i32::MAX
        &&& sh > 0 ==> i32::MIN <= smx + sw <= i32::MAX
        &&& sh > 0 && sw > 0 ==> dest_point.0 + sw - 1 <= i32::MAX && dest_point.1 + sh - 1 <= i32::MAX
    }

    /// The pixels after the first `k` positions of an in-place `palette_map`
    /// (row by row, left to right), each reading the pixels as left by the
    /// positions before it.
    pub open spec fn palette_scan(
        &self,
        src_rect: (i32, i32, i32, i32),
        dest_point: (i32, i32),
        arrays: ChannelArrays,
        k: nat,
    ) -> Seq<Color>
        decreases k,
    {
        if k == 0 {
            self.spec_pixels()
        } else {
            let prev = self.palette_scan(src_rect, dest_point, arrays, (k - 1) as nat);
            let sw = src_rect.2 as int;
            let ox = (k - 1) % sw;
            let oy = (k - 1) / sw;
            let (sx, sy) = (src_rect.0 + ox, src_rect.1 + oy);
            let (dx, dy) = (dest_point.0 + ox, dest_point.1 + oy);
            if self.in_bounds(dx, dy) && self.in_bounds(sx, sy) {
                prev.update(self.index_of(dx, dy), palette_colour(prev[self.index_of(sx, sy)], arrays))
            } else {
                prev
            }
        }
    }

    /// How many positions `palette_map` visits.
    pub open spec fn rect_area(src_rect: (i32, i32, i32, i32)) -> nat {
        if src_rect.2 > 0 && src_rect.3 > 0 {
            (src_rect.2 as int * src_rect.3 as int) as nat
        } else {
            0
        }
    }

    proof fn lemma_palette_scan_len(
        &self,
        src_rect: (i32, i32, i32, i32),
        dest_point: (i32, i32),
        arrays: ChannelArrays,
        k: nat,
    )
        requires
            self.wf(),
        ensures
            self.palette_scan(src_rect, dest_point, arrays, k).len() == self.spec_pixels().len(),
        decreases k,
    {
        if k > 0 {
            self.lemma_palette_scan_len(src_rect, dest_point, arrays, (k - 1) as nat);
            let sw = src_rect.2 as int;
            let ox = (k - 1) % sw;
            let oy = (k - 1) / sw;
            let (dx, dy) = (dest_point.0 + ox, dest_point.1 + oy);
            if self.in_bounds(dx, dy) {
                lemma_in_bounds_index(self.spec_width() as int, self.spec_height() as int, dx, dy);
            }
        }
    }

    /// Palette-maps from a separate bitmap: each destination pixel is
    /// computed from the source pixel at the same offset.
    fn palette_map_from(
        &mut self,
        source_bitmap: &Self,
        src_rect: (i32, i32, i32, i32),
        dest_point: (i32, i32),
        channel_arrays: &ChannelArrays,
    )
        requires
            old(self).wf(),
            source_bitmap.wf(),
            BitmapData::palette_map_ok(src_rect, dest_point),
        ensures
            final(self).wf(),
            final(self).same_shape(old(self)),
            old(self).pixels_are(
                final(self),
                |px: int, py: int|
                    if old(self).copy_hit(source_bitmap, src_rect, dest_point, None, px, py) {
                        palette_colour(
                            source_bitmap.pixel(src_rect.0 + px - dest_point.0, src_rect.1 + py - dest_point.1),
                            *channel_arrays,
                        )
                    } else {
                        old(self).pixel(px, py)
                    },
            ),
            final(self).spec_dirty() == (old(self).spec_dirty() || exists|px: int, py: int|
                old(self).copy_hit(source_bitmap, src_rect, dest_point, None, px, py)),
    {
        let (src_min_x, src_min_y, src_width, src_height) = src_rect;
        let (dest_min_x, dest_min_y) = dest_point;
        let ghost orig = *self;
        let ghost hit = |px: int, py: int| orig.copy_hit(source_bitmap, src_rect, dest_point, None, px, py);
        let ghost f = |px: int, py: int|
            palette_colour(
                source_bitmap.pixel(src_rect.0 + px - dest_point.0, src_rect.1 + py - dest_point.1),
                *channel_arrays,
            );
        let y_end = src_min_y + src_height;
        let mut src_y = src_min_y;
        while src_y < y_end
            invariant
                src_min_y <= src_y,
                src_y < y_end ==> src_y <= y_end,
                y_end == src_min_y + src_height,
                self.wf(),
                orig.wf(),
                self.same_shape(&orig),
                source_bitmap.wf(),
                BitmapData::palette_map_ok(src_rect, dest_point),
                src_rect == (src_min_x, src_min_y, src_width, src_height),
                dest_point == (dest_min_x, dest_min_y),
                hit == (|px: int, py: int| orig.copy_hit(source_bitmap, src_rect, dest_point, None, px, py)),
                f == (|px: int, py: int|
                    palette_colour(
                        source_bitmap.pixel(src_rect.0 + px - dest_point.0, src_rect.1 + py - dest_point.1),
                        *channel_arrays,
                    )),
                forall|px: int, py: int| #[trigger] orig.in_bounds(px, py) ==> self.pixel(px, py)
                    == if hit(px, py) && py - dest_min_y < src_y - src_min_y { f(px, py) } else { orig.pixel(px, py) },
                self.spec_dirty() == (orig.spec_dirty() || exists|px: int, py: int| #[trigger] hit(px, py) && py - dest_min_y < src_y - src_min_y),
            decreases y_end - src_y,
        {
            let x_end = src_min_x + src_width;
            let mut src_x = src_min_x;
            while src_x < x_end
                invariant
                    src_min_x <= src_x,
                    src_x < x_end ==> src_x <= x_end,
                    src_min_y <= src_y < y_end,
                    y_end == src_min_y + src_height,
                    x_end == src_min_x + src_width,
                    self.wf(),
                    orig.wf(),
                    self.same_shape(&orig),
                    source_bitmap.wf(),
                    BitmapData::palette_map_ok(src_rect, dest_point),
                    src_rect == (src_min_x, src_min_y, src_width, src_height),
                    dest_point == (dest_min_x, dest_min_y),
                    hit == (|px: int, py: int| orig.copy_hit(source_bitmap, src_rect, dest_point, None, px, py)),
                    f == (|px: int, py: int|
                        palette_colour(
                            source_bitmap.pixel(src_rect.0 + px - dest_point.0, src_rect.1 + py - dest_point.1),
                            *channel_arrays,
                        )),
                    forall|px: int, py: int| #[trigger] orig.in_bounds(px, py) ==> self.pixel(px, py)
                        == if hit(px, py) && (py - dest_min_y < src_y - src_min_y || (py - dest_min_y == src_y - src_min_y && px - dest_min_x < src_x - src_min_x)) { f(px, py) } else { orig.pixel(px, py) },
                    self.spec_dirty() == (orig.spec_dirty() || exists|px: int, py: int| #[trigger] hit(px, py) && (py - dest_min_y < src_y - src_min_y || (py - dest_min_y == src_y - src_min_y && px - dest_min_x < src_x - src_min_x))),
                decreases x_end - src_x,
            {
                let dest_x = src_x - src_min_x + dest_min_x;
                let dest_y = src_y - src_min_y + dest_min_y;
                let ghost before = *self;
                if !self.is_point_in_bounds(dest_x, dest_y) || !source_bitmap.is_point_in_bounds(src_x, src_y) {
                    proof {
                        assert(!hit(dest_x as int, dest_y as int));
                        assert forall|px: int, py: int| #[trigger] orig.in_bounds(px, py) implies self.pixel(px, py)
                            == if hit(px, py) && (py - dest_min_y < src_y - src_min_y || (py - dest_min_y == src_y - src_min_y && px - dest_min_x < src_x + 1 - src_min_x)) { f(px, py) } else { orig.pixel(px, py) } by {
                        }
                    }
                    src_x = src_x + 1;
                    continue;
                }
                proof {
                    lemma_in_bounds_index(orig.spec_width() as int, orig.spec_height() as int, dest_x as int, dest_y as int);
                    lemma_index_bound(orig.spec_width() as nat, orig.spec_height() as nat, dest_x as nat, dest_y as nat);
                    lemma_in_bounds_index(source_bitmap.spec_width() as int, source_bitmap.spec_height() as int, src_x as int, src_y as int);
                    lemma_index_bound(source_bitmap.spec_width() as nat, source_bitmap.spec_height() as nat, src_x as nat, src_y as nat);
                    lemma_i32_as_u32(src_x);
                    lemma_i32_as_u32(src_y);
                    lemma_i32_as_u32(dest_x);
                    lemma_i32_as_u32(dest_y);
                    assert(orig.in_bounds(dest_x as int, dest_y as int));
                    assert(hit(dest_x as int, dest_y as int));
                }
                let source_color = match source_bitmap.read_raw(src_x as u32, src_y as u32) {
                    Some(c) => c,
                    None => Color(0),
                };
                let mix_color = palette_colour_exec(source_color, channel_arrays);
                self.set_pixel32_raw(dest_x as u32, dest_y as u32, mix_color);
                proof {
                    assert forall|px: int, py: int| #[trigger] orig.in_bounds(px, py) implies self.pixel(px, py)
                        == if hit(px, py) && (py - dest_min_y < src_y - src_min_y || (py - dest_min_y == src_y - src_min_y && px - dest_min_x < src_x + 1 - src_min_x)) { f(px, py) } else { orig.pixel(px, py) } by {
                        before.lemma_update_pixel(self, dest_x as int, dest_y as int, px, py, mix_color);
                    }
                }
                src_x = src_x + 1;
            }
            proof {
                assert forall|px: int, py: int| #[trigger] hit(px, py) && (py - dest_min_y < src_y - src_min_y || (py - dest_min_y == src_y - src_min_y && px - dest_min_x < src_x - src_min_x))
                    <==> hit(px, py) && py - dest_min_y < src_y + 1 - src_min_y by {}
            }
            src_y = src_y + 1;
        }
        proof {
            if exists|px: int, py: int| orig.copy_hit(source_bitmap, src_rect, dest_point, None, px, py) {
                let (px, py) = choose|px: int, py: int| orig.copy_hit(source_bitmap, src_rect, dest_point, None, px, py);
                assert(hit(px, py) && py - dest_min_y < src_y - src_min_y);
            }
            if exists|px: int, py: int| #[trigger] hit(px, py) && py - dest_min_y < src_y - src_min_y {
                let (px, py) = choose|px: int, py: int| #[trigger] hit(px, py) && py - dest_min_y < src_y - src_min_y;
                assert(orig.copy_hit(source_bitmap, src_rect, dest_point, None, px, py));
            }
        }
    }

    /// Palette-maps the bitmap onto itself, each position reading the
    /// pixels as the positions before it left them.
    fn palette_map_in_place(
        &mut self,
        src_rect: (i32, i32, i32, i32),
        dest_point: (i32, i32),
        channel_arrays: &ChannelArrays,
    )
        requires
            old(self).wf(),
            BitmapData::palette_map_ok(src_rect, dest_point),
        ensures
            final(self).wf(),
            final(self).same_shape(old(self)),
            final(self).spec_pixels() == old(self).palette_scan(
                src_rect,
                dest_point,
                *channel_arrays,
                BitmapData::rect_area(src_rect),
            ),
            final(self).spec_dirty() == (old(self).spec_dirty() || exists|px: int, py: int|
                old(self).copy_hit(old(self), src_rect, dest_point, None, px, py)),
    {
        let (src_min_x, src_min_y, src_width, src_height) = src_rect;
        let (dest_min_x, dest_min_y) = dest_point;
        let ghost orig = *self;
        let ghost arrays = *channel_arrays;
        let ghost hit = |px: int, py: int| orig.copy_hit(&orig, src_rect, dest_point, None, px, py);
        let y_end = src_min_y + src_height;
        let mut src_y = src_min_y;
        proof {
            assert(0 * src_width == 0);
        }
        while src_y < y_end
            invariant
                src_min_y <= src_y,
                src_height > 0 ==> src_y <= y_end,
                src_height <= 0 ==> src_y == src_min_y,
                y_end == src_min_y + src_height,
                self.wf(),
                orig.wf(),
                self.same_shape(&orig),
                BitmapData::palette_map_ok(src_rect, dest_point),
                src_rect == (src_min_x, src_min_y, src_width, src_height),
                dest_point == (dest_min_x, dest_min_y),
                arrays == *channel_arrays,
                hit == (|px: int, py: int| orig.copy_hit(&orig, src_rect, dest_point, None, px, py)),
                src_y > src_min_y ==> src_width > 0 || src_width <= 0,
                self.spec_pixels() == orig.palette_scan(
                    src_rect,
                    dest_point,
                    arrays,
                    if src_width > 0 { ((src_y - src_min_y) * src_width) as nat } else { 0 },
                ),
                self.spec_dirty() == (orig.spec_dirty() || exists|px: int, py: int| #[trigger] hit(px, py) && py - dest_min_y < src_y - src_min_y),
            decreases y_end - src_y,
        {
            let x_end = src_min_x + src_width;
            let mut src_x = src_min_x;
            let ghost row = (src_y - src_min_y) as int;
            while src_x < x_end
                invariant
                    src_min_x <= src_x,
                    src_width > 0 ==> src_x <= x_end,
                    src_min_y <= src_y < y_end,
                    row == src_y - src_min_y,
                    y_end == src_min_y + src_height,
                    x_end == src_min_x + src_width,
                    self.wf(),
                    orig.wf(),
                    self.same_shape(&orig),
                    BitmapData::palette_map_ok(src_rect, dest_point),
                    src_rect == (src_min_x, src_min_y, src_width, src_height),
                    dest_point == (dest_min_x, dest_min_y),
                    arrays == *channel_arrays,
                    hit == (|px: int, py: int| orig.copy_hit(&orig, src_rect, dest_point, None, px, py)),
                    self.spec_pixels() == orig.palette_scan(
                        src_rect,
                        dest_point,
                        arrays,
                        if src_width > 0 { (row * src_width + (src_x - src_min_x)) as nat } else { 0 },
                    ),
                    self.spec_dirty() == (orig.spec_dirty() || exists|px: int, py: int| #[trigger] hit(px, py) && (py - dest_min_y < src_y - src_min_y || (py - dest_min_y == src_y - src_min_y && px - dest_min_x < src_x - src_min_x))),
                decreases x_end - src_x,
            {
                let dest_x = src_x - src_min_x + dest_min_x;
                let dest_y = src_y - src_min_y + dest_min_y;
                let ghost ox = (src_x - src_min_x) as int;
                let ghost k = (row * src_width + ox) as nat;
                proof {
                    assert(row * src_width + ox >= 0) by (nonlinear_arith)
                        requires row >= 0, src_width > 0, ox >= 0;
                    vstd::arithmetic::div_mod::lemma_fundamental_div_mod_converse(k as int, src_width as int, row, ox);
                    assert((k + 1 - 1) as nat == k);
                }
                if !self.is_point_in_bounds(dest_x, dest_y) || !self.is_point_in_bounds(src_x, src_y) {
                    proof {
                        assert(!hit(dest_x as int, dest_y as int));
                        assert(orig.palette_scan(src_rect, dest_point, arrays, k + 1) == orig.palette_scan(src_rect, dest_point, arrays, k));
                    }
                    src_x = src_x + 1;
                    continue;
                }
                proof {
                    lemma_in_bounds_index(orig.spec_width() as int, orig.spec_height() as int, dest_x as int, dest_y as int);
                    lemma_index_bound(orig.spec_width() as nat, orig.spec_height() as nat, dest_x as nat, dest_y as nat);
                    lemma_in_bounds_index(orig.spec_width() as int, orig.spec_height() as int, src_x as int, src_y as int);
                    lemma_index_bound(orig.spec_width() as nat, orig.spec_height() as nat, src_x as nat, src_y as nat);
                    lemma_i32_as_u32(src_x);
                    lemma_i32_as_u32(src_y);
                    lemma_i32_as_u32(dest_x);
                    lemma_i32_as_u32(dest_y);
                    assert(orig.in_bounds(dest_x as int, dest_y as int));
                    assert(hit(dest_x as int, dest_y as int));
                }
                let source_color = match self.read_raw(src_x as u32, src_y as u32) {
                    Some(c) => c,
                    None => Color(0),
                };
                let mix_color = palette_colour_exec(source_color, channel_arrays);
                self.set_pixel32_raw(dest_x as u32, dest_y as u32, mix_color);
                src_x = src_x + 1;
            }
            proof {
                assert forall|px: int, py: int| #[trigger] hit(px, py) && (py - dest_min_y < src_y - src_min_y || (py - dest_min_y == src_y - src_min_y && px - dest_min_x < src_x - src_min_x))
                    <==> hit(px, py) && py - dest_min_y < src_y + 1 - src_min_y by {}
                if src_width > 0 {
                    assert(row * src_width + src_width == (row + 1) * src_width) by (nonlinear_arith);
                }
            }
            src_y = src_y + 1;
        }
        proof {
            if src_width > 0 && src_height > 0 {
                assert(src_y == y_end);
                assert((src_y - src_min_y) * src_width == src_width * src_height) by (nonlinear_arith)
                    requires src_y - src_min_y == src_height;
            }
            if exists|px: int, py: int| orig.copy_hit(&orig, src_rect, dest_point, None, px, py) {
                let (px, py) = choose|px: int, py: int| orig.copy_hit(&orig, src_rect, dest_point, None, px, py);
                assert(hit(px, py) && py - dest_min_y < src_y - src_min_y);
            }
            if exists|px: int, py: int| #[trigger] hit(px, py) && py - dest_min_y < src_y - src_min_y {
                let (px, py) = choose|px: int, py: int| #[trigger] hit(px, py) && py - dest_min_y < src_y - src_min_y;
                assert(orig.copy_hit(&orig, src_rect, dest_point, None, px, py));
            }
        }
    }

    // Unlike `copy_channel` and `copy_pixels`, this function seems to
    // operate "in-place" if the source bitmap is the same object as `self`.
    // This means that we can't resolve this aliasing issue in Rust by a
    // simple clone in the caller. Instead, if the `source_bitmap` parameter
    // is `None`, it means that `self` should be used as source as well.
    /// What `palette_map` makes of `self`.
    pub open spec fn palette_map_result(
        &self,
        after: &BitmapData,
        source_bitmap: Option<&BitmapData>,
        src_rect: (i32, i32, i32, i32),
        dest_point: (i32, i32),
        channel_arrays: ChannelArrays,
    ) -> bool {
        &&& after.wf()
        &&& after.same_shape(self)
        &&& source_bitmap matches Some(source) ==> self.pixels_are(
            after,
            |px: int, py: int|
                if self.copy_hit(source, src_rect, dest_point, None, px, py) {
                    palette_colour(
                        source.pixel(src_rect.0 + px - dest_point.0, src_rect.1 + py - dest_point.1),
                        channel_arrays,
                    )
                } else {
                    self.pixel(px, py)
                }
            )
        &&& source_bitmap is None ==> after.spec_pixels() == self.palette_scan(
            src_rect,
            dest_point,
            channel_arrays,
            BitmapData::rect_area(src_rect)
            )
        &&& source_bitmap matches Some(source) ==> after.spec_dirty() == (self.spec_dirty()
            || exists|px: int, py: int| self.copy_hit(source, src_rect, dest_point, None, px, py))
        &&& source_bitmap is None ==> after.spec_dirty() == (self.spec_dirty() || exists|px: int, py: int|
            self.copy_hit(self, src_rect, dest_point, None, px, py))
    }

    pub fn palette_map(
        &mut self,
        source_bitmap: Option<&Self>,
        src_rect: (i32, i32, i32, i32),
        dest_point: (i32, i32),
        channel_arrays: ChannelArrays,
    )
        requires
            old(self).wf(),
            source_bitmap matches Some(s) ==> s.wf(),
            BitmapData::palette_map_ok(src_rect, dest_point),
        ensures
            old(self).palette_map_result(final(self), source_bitmap, src_rect, dest_point, channel_arrays),
    {
        match source_bitmap {
            Some(source) => self.palette_map_from(source, src_rect, dest_point, &channel_arrays),
            None => self.palette_map_in_place(src_rect, dest_point, &channel_arrays),
        }
    }
}


/// How many entries of `s` are `c`.
pub open spec fn count_color(s: Seq<Color>, c: Color) -> nat
    decreases s.len(),
{
    if s.len() == 0 {
        0
    } else {
        count_color(s.drop_last(), c) + if s.last() == c { 1nat } else { 0nat }
    }
}

proof fn lemma_count_update(s: Seq<Color>, i: int, v: Color, c: Color)
    requires
        0 <= i < s.len(),
    ensures
        count_color(s.update(i, v), c) + (if s[i] == c { 1nat } else { 0nat }) == count_color(s, c)
            + (if v == c { 1nat } else { 0nat }),
    decreases s.len(),
{
    if i == s.len() - 1 {
        assert(s.update(i, v).drop_last() == s.drop_last());
    } else {
        lemma_count_update(s.drop_last(), i, v, c);
        assert(s.update(i, v).drop_last() == s.drop_last().update(i, v));
    }
}

impl BitmapData {
    /// Whether `flood_fill` moves from `p` to `q`: one step left or up where
    /// the coordinate is positive, one step right or down where it is below
    /// the last column or row.
    pub open spec fn flood_step(&self, p: (u32, u32), q: (u32, u32)) -> bool {
        ||| p.0 > 0 && q == ((p.0 - 1) as u32, p.1)
        ||| p.1 > 0 && q == (p.0, (p.1 - 1) as u32)
        ||| p.0 < self.spec_width() - 1 && q == ((p.0 + 1) as u32, p.1)
        ||| p.1 < self.spec_height() - 1 && q == (p.0, (p.1 + 1) as u32)
    }

    /// The pixel array index of a position that can be read.
    pub open spec fn flood_index(&self, p: (u32, u32)) -> int {
        self.index_of(p.0 as int, p.1 as int)
    }

    /// The colour `flood_fill` starts from: the one read at the start, or 0.
    pub open spec fn flood_expected(&self, x: u32, y: u32) -> Color {
        match self.raw_pixel(x as nat, y as nat) {
            Some(c) => c,
            None => Color(0),
        }
    }

    /// Each position of `order` after the first is a step from an earlier one.
    #[verifier::opaque]
    pub open spec fn flood_connected(&self, order: Seq<(u32, u32)>) -> bool {
        forall|k: int|
            0 < k < order.len() ==> exists|j: int| 0 <= j < k && self.flood_step(order[j], #[trigger] order[k])
    }

    /// `p` is a step from a position of `order`.
    closed spec fn flood_reaches(&self, order: Seq<(u32, u32)>, p: (u32, u32)) -> bool {
        exists|j: int| 0 <= j < order.len() && self.flood_step(order[j], p)
    }

    /// Each position of `pending` is a step from a position of `order`.
    #[verifier::opaque]
    closed spec fn flood_reached(&self, order: Seq<(u32, u32)>, pending: Seq<(u32, u32)>) -> bool {
        forall|e: int| 0 <= e < pending.len() ==> self.flood_reaches(order, #[trigger] pending[e])
    }

    /// Each position of `order` read `expected` in `self`.
    #[verifier::opaque]
    pub open spec fn flood_all_expected(&self, order: Seq<(u32, u32)>, expected: Color) -> bool {
        forall|k: int|
            0 <= k < order.len() ==> self.raw_pixel((#[trigger] order[k]).0 as nat, order[k].1 as nat)
                == Some(expected)
    }

    /// Every step from a position of `order` leads into `order`, into
    /// `pending`, or to a position that does not read `expected` in `cur`.
    #[verifier::opaque]
    pub open spec fn flood_closed(
        &self,
        cur: &BitmapData,
        order: Seq<(u32, u32)>,
        pending: Seq<(u32, u32)>,
        expected: Color,
    ) -> bool {
        forall|k: int, q: (u32, u32)|
            0 <= k < order.len() && #[trigger] self.flood_step(order[k], q) ==> order.contains(q)
                || pending.contains(q) || cur.raw_pixel(q.0 as nat, q.1 as nat) != Some(expected)
    }

    /// The pixels of `cur` are those of `self` with `replace` at the index of
    /// every position of `order`.
    #[verifier::opaque]
    pub open spec fn flood_painted(&self, cur: &BitmapData, order: Seq<(u32, u32)>, replace: Color) -> bool {
        &&& cur.spec_pixels().len() == self.spec_pixels().len()
        &&& forall|i: int|
            0 <= i < self.spec_pixels().len() ==> #[trigger] cur.spec_pixels()[i] == if exists|k: int|
                0 <= k < order.len() && self.flood_index(#[trigger] order[k]) == i {
                replace
            } else {
                self.spec_pixels()[i]
            }
    }

    /// `after` is `self` flood-filled from `(x, y)` with `replace` through
    /// the positions of `order`, in the order they were filled: the first is
    /// the start (filled exactly when a colour is read there), each later one
    /// is a step from an earlier one, each read the expected colour before,
    /// every step from a filled position leads to a filled position or to one
    /// that no longer reads the expected colour, and exactly the filled
    /// indices now hold `replace`.
    pub open spec fn flood_filled(
        &self,
        after: &BitmapData,
        x: u32,
        y: u32,
        replace: Color,
        order: Seq<(u32, u32)>,
    ) -> bool {
        let expected = self.flood_expected(x, y);
        &&& after.same_shape(self)
        &&& self.raw_pixel(x as nat, y as nat) is Some ==> order.len() > 0 && order[0] == (x, y)
        &&& self.raw_pixel(x as nat, y as nat) is None ==> order.len() == 0
        &&& self.flood_connected(order)
        &&& self.flood_all_expected(order, expected)
        &&& self.flood_closed(after, order, Seq::empty(), expected)
        &&& self.flood_painted(after, order, replace)
    }

    /// The state of `flood_fill` with `cur` the pixels so far, `order` the
    /// positions filled so far and `pending` those still to visit.
    closed spec fn flood_inv(
        &self,
        cur: &BitmapData,
        x: u32,
        y: u32,
        replace: Color,
        order: Seq<(u32, u32)>,
        pending: Seq<(u32, u32)>,
    ) -> bool {
        let expected = self.flood_expected(x, y);
        let start = (x, y);
        &&& self.wf()
        &&& cur.wf()
        &&& cur.same_shape(self)
        &&& self.raw_pixel(x as nat, y as nat) matches Some(c) ==> c != replace
        &&& self.raw_pixel(x as nat, y as nat) is None ==> order.len() == 0 && pending.len() <= 1 && (
        pending.len() == 1 ==> pending[0] == start)
        &&& self.raw_pixel(x as nat, y as nat) is Some ==> (order.len() > 0 ==> order[0] == start) && (
        order.len() == 0 ==> pending == seq![start])
        &&& self.flood_connected(order)
        &&& order.len() > 0 ==> self.flood_reached(order, pending)
        &&& self.flood_all_expected(order, expected)
        &&& self.flood_closed(cur, order, pending, expected)
        &&& self.flood_painted(cur, order, replace)
    }

    proof fn lemma_flood_start(&self, x: u32, y: u32, replace: Color)
        requires
            self.wf(),
            self.raw_pixel(x as nat, y as nat) matches Some(c) ==> c != replace,
        ensures
            self.flood_inv(self, x, y, replace, Seq::empty(), seq![(x, y)]),
    {
        let order: Seq<(u32, u32)> = Seq::empty();
        reveal(BitmapData::flood_connected);
        reveal(BitmapData::flood_all_expected);
        reveal(BitmapData::flood_closed);
        reveal(BitmapData::flood_painted);
        assert(self.same_shape(self));
    }

    proof fn lemma_flood_done(&self, cur: &BitmapData, x: u32, y: u32, replace: Color, order: Seq<(u32, u32)>)
        requires
            self.flood_inv(cur, x, y, replace, order, Seq::empty()),
        ensures
            self.flood_filled(cur, x, y, replace, order),
    {
        if self.raw_pixel(x as nat, y as nat) is Some && order.len() == 0 {
            assert(seq![(x, y)].len() == 1);
        }
    }

    /// A pixel of the current state reads as the starting one where it has
    /// not been painted.
    proof fn lemma_flood_unpainted(&self, cur: &BitmapData, order: Seq<(u32, u32)>, replace: Color, i: int)
        requires
            self.flood_painted(cur, order, replace),
            0 <= i < self.spec_pixels().len(),
            cur.spec_pixels()[i] != replace,
        ensures
            cur.spec_pixels()[i] == self.spec_pixels()[i],
    {
        reveal(BitmapData::flood_painted);
    }

    /// Visiting a position that does not read the expected colour drops it.
    proof fn lemma_flood_skip(
        &self,
        cur: &BitmapData,
        x: u32,
        y: u32,
        replace: Color,
        order: Seq<(u32, u32)>,
        pending: Seq<(u32, u32)>,
    )
        requires
            self.flood_inv(cur, x, y, replace, order, pending),
            pending.len() > 0,
            cur.raw_pixel(pending.last().0 as nat, pending.last().1 as nat) != Some(self.flood_expected(x, y)),
        ensures
            self.flood_inv(cur, x, y, replace, order, pending.drop_last()),
    {
        let rest = pending.drop_last();
        let expected = self.flood_expected(x, y);
        reveal(BitmapData::flood_closed);
        reveal(BitmapData::flood_reached);
        assert forall|k: int, r: (u32, u32)|
            0 <= k < order.len() && #[trigger] self.flood_step(order[k], r) implies order.contains(r)
                || rest.contains(r) || cur.raw_pixel(r.0 as nat, r.1 as nat) != Some(expected) by {
            if pending.contains(r) && !order.contains(r) {
                let m = choose|m: int| 0 <= m < pending.len() && pending[m] == r;
                if m < pending.len() - 1 {
                    assert(rest[m] == r);
                }
            }
        }
        if order.len() > 0 {
            assert forall|e: int| 0 <= e < rest.len() implies self.flood_reaches(order, #[trigger] rest[e]) by {
                assert(rest[e] == pending[e]);
            }
        }
        if self.raw_pixel(x as nat, y as nat) is Some && order.len() == 0 {
            reveal(BitmapData::flood_painted);
            assert(cur.spec_pixels() =~= self.spec_pixels());
            assert(false);
        }
    }

    proof fn lemma_flood_enter_connected(
        &self,
        x: u32,
        y: u32,
        order: Seq<(u32, u32)>,
        pending: Seq<(u32, u32)>,
    )
        requires
            self.flood_connected(order),
            order.len() > 0 ==> self.flood_reached(order, pending),
            order.len() == 0 ==> pending.last() == (x, y) && pending.len() == 1,
            order.len() > 0 ==> order[0] == (x, y),
            pending.len() > 0,
        ensures
            self.flood_connected(order.push(pending.last())),
            order.push(pending.last())[0] == (x, y),
    {
        reveal(BitmapData::flood_connected);
        reveal(BitmapData::flood_reached);
        let q = pending.last();
        let new_order = order.push(q);
        if order.len() > 0 {
            assert(self.flood_reaches(order, pending[pending.len() - 1]));
            let j = choose|j: int| 0 <= j < order.len() && self.flood_step(order[j], pending[pending.len() - 1]);
            assert(new_order[j] == order[j]);
            assert forall|k: int| 0 < k < new_order.len() implies exists|j: int| 0 <= j < k && self.flood_step(new_order[j], #[trigger] new_order[k]) by {
                if k < order.len() {
                    let j2 = choose|j: int| 0 <= j < k && self.flood_step(order[j], #[trigger] order[k]);
                    assert(new_order[j2] == order[j2]);
                } else {
                    assert(self.flood_step(new_order[j], new_order[k]));
                }
            }
        }
    }

    proof fn lemma_flood_enter_reached(
        &self,
        order: Seq<(u32, u32)>,
        pending: Seq<(u32, u32)>,
        added: Seq<(u32, u32)>,
    )
        requires
            order.len() > 0 ==> self.flood_reached(order, pending),
            order.len() == 0 ==> pending.len() == 1,
            pending.len() > 0,
            forall|i: int| 0 <= i < added.len() ==> self.flood_step(pending.last(), #[trigger] added[i]),
        ensures
            self.flood_reached(order.push(pending.last()), pending.drop_last() + added),
    {
        reveal(BitmapData::flood_reached);
        let q = pending.last();
        let new_order = order.push(q);
        let p0 = pending.drop_last();
        let new_pending = p0 + added;
        assert forall|e: int| 0 <= e < new_pending.len() implies self.flood_reaches(new_order, #[trigger] new_pending[e]) by {
            if e < p0.len() {
                assert(order.len() > 0);
                assert(new_pending[e] == pending[e]);
                assert(self.flood_reaches(order, pending[e]));
                let j = choose|j: int| 0 <= j < order.len() && self.flood_step(order[j], pending[e]);
                assert(new_order[j] == order[j]);
            } else {
                let j = new_order.len() - 1;
                assert(new_order[j] == q);
                assert(new_pending[e] == added[e - p0.len()]);
                assert(self.flood_step(q, added[e - p0.len()]));
                assert(self.flood_step(new_order[j], new_pending[e]));
            }
        }
    }

    proof fn lemma_flood_enter_expected(&self, order: Seq<(u32, u32)>, q: (u32, u32), expected: Color)
        requires
            self.flood_all_expected(order, expected),
            self.raw_pixel(q.0 as nat, q.1 as nat) == Some(expected),
        ensures
            self.flood_all_expected(order.push(q), expected),
    {
        reveal(BitmapData::flood_all_expected);
        let new_order = order.push(q);
        assert forall|k: int| 0 <= k < new_order.len() implies self.raw_pixel((#[trigger] new_order[k]).0 as nat, new_order[k].1 as nat)
            == Some(expected) by {
            if k < order.len() {
                assert(new_order[k] == order[k]);
            }
        }
    }

    proof fn lemma_flood_enter_closed(
        &self,
        before: &BitmapData,
        after: &BitmapData,
        order: Seq<(u32, u32)>,
        pending: Seq<(u32, u32)>,
        added: Seq<(u32, u32)>,
        expected: Color,
        replace: Color,
    )
        requires
            self.wf(),
            before.same_shape(self),
            after.same_shape(self),
            self.flood_closed(before, order, pending, expected),
            pending.len() > 0,
            replace != expected,
            0 <= self.flood_index(pending.last()) < self.spec_pixels().len(),
            after.spec_pixels() == before.spec_pixels().update(self.flood_index(pending.last()), replace),
            forall|r: (u32, u32)| #[trigger] self.flood_step(pending.last(), r) ==> added.contains(r),
        ensures
            self.flood_closed(after, order.push(pending.last()), pending.drop_last() + added, expected),
    {
        reveal(BitmapData::flood_closed);
        let q = pending.last();
        let idx = self.flood_index(q);
        let new_order = order.push(q);
        let p0 = pending.drop_last();
        let new_pending = p0 + added;
        assert forall|k: int, r: (u32, u32)|
            0 <= k < new_order.len() && #[trigger] self.flood_step(new_order[k], r) implies new_order.contains(r)
                || new_pending.contains(r) || after.raw_pixel(r.0 as nat, r.1 as nat) != Some(expected) by {
            if k < order.len() {
                assert(new_order[k] == order[k]);
                if order.contains(r) {
                    let m = choose|m: int| 0 <= m < order.len() && order[m] == r;
                    assert(new_order[m] == r);
                } else if pending.contains(r) {
                    let m = choose|m: int| 0 <= m < pending.len() && pending[m] == r;
                    if m < pending.len() - 1 {
                        assert(new_pending[m] == r);
                    } else {
                        assert(new_order[new_order.len() - 1] == r);
                    }
                } else {
                    assert(before.raw_pixel(r.0 as nat, r.1 as nat) != Some(expected));
                }
            } else {
                assert(new_order[k] == q);
                assert(added.contains(r));
                let m = choose|m: int| 0 <= m < added.len() && added[m] == r;
                assert(new_pending[p0.len() + m] == r);
            }
        }
    }

    proof fn lemma_flood_enter_painted(
        &self,
        before: &BitmapData,
        after: &BitmapData,
        order: Seq<(u32, u32)>,
        q: (u32, u32),
        replace: Color,
    )
        requires
            self.flood_painted(before, order, replace),
            0 <= self.flood_index(q) < self.spec_pixels().len(),
            after.spec_pixels() == before.spec_pixels().update(self.flood_index(q), replace),
        ensures
            self.flood_painted(after, order.push(q), replace),
    {
        reveal(BitmapData::flood_painted);
        let idx = self.flood_index(q);
        let new_order = order.push(q);
        assert forall|i: int| 0 <= i < self.spec_pixels().len() implies #[trigger] after.spec_pixels()[i] == if exists|k: int|
            0 <= k < new_order.len() && self.flood_index(#[trigger] new_order[k]) == i {
            replace
        } else {
            self.spec_pixels()[i]
        } by {
            if i == idx {
                assert(new_order[new_order.len() - 1] == q);
            } else {
                if exists|k: int| 0 <= k < new_order.len() && self.flood_index(#[trigger] new_order[k]) == i {
                    let k = choose|k: int| 0 <= k < new_order.len() && self.flood_index(#[trigger] new_order[k]) == i;
                    assert(k < order.len());
                    assert(order[k] == new_order[k]);
                }
                if exists|k: int| 0 <= k < order.len() && self.flood_index(#[trigger] order[k]) == i {
                    let k = choose|k: int| 0 <= k < order.len() && self.flood_index(#[trigger] order[k]) == i;
                    assert(order[k] == new_order[k]);
                }
            }
        }
    }

    /// Visiting a position that reads the expected colour fills it and adds
    /// the steps from it to the positions to visit.
    proof fn lemma_flood_enter(
        &self,
        before: &BitmapData,
        after: &BitmapData,
        x: u32,
        y: u32,
        replace: Color,
        order: Seq<(u32, u32)>,
        pending: Seq<(u32, u32)>,
        added: Seq<(u32, u32)>,
    )
        requires
            self.flood_inv(before, x, y, replace, order, pending),
            pending.len() > 0,
            before.raw_pixel(pending.last().0 as nat, pending.last().1 as nat) == Some(self.flood_expected(x, y)),
            after.wf(),
            after.same_shape(self),
            after.spec_pixels() == before.spec_pixels().update(self.flood_index(pending.last()), replace),
            forall|r: (u32, u32)| #[trigger] self.flood_step(pending.last(), r) ==> added.contains(r),
            forall|i: int| 0 <= i < added.len() ==> self.flood_step(pending.last(), #[trigger] added[i]),
        ensures
            self.flood_inv(after, x, y, replace, order.push(pending.last()), pending.drop_last() + added),
    {
        let q = pending.last();
        let expected = self.flood_expected(x, y);
        let idx = self.flood_index(q);
        assert(self.raw_pixel(x as nat, y as nat) is Some) by {
            if self.raw_pixel(x as nat, y as nat) is None {
                assert(q == (x, y));
                assert(before.spec_pixels() =~= self.spec_pixels()) by {
                    reveal(BitmapData::flood_painted);
                }
            }
        }
        assert(replace != expected);
        assert(0 <= idx < self.spec_pixels().len());
        assert(self.raw_pixel(q.0 as nat, q.1 as nat) == Some(expected)) by {
            self.lemma_flood_unpainted(before, order, replace, idx);
        }
        self.lemma_flood_enter_connected(x, y, order, pending);
        self.lemma_flood_enter_reached(order, pending, added);
        self.lemma_flood_enter_expected(order, q, expected);
        self.lemma_flood_enter_closed(before, after, order, pending, added, expected, replace);
        self.lemma_flood_enter_painted(before, after, order, q, replace);
    }

    /// What `flood_fill(x, y, replace_color)` makes of `self`.
    pub open spec fn flood_fill_result(&self, after: &BitmapData, x: u32, y: u32, replace_color: Color) -> bool {
        &&& after.wf()
        &&& exists|order: Seq<(u32, u32)>| self.flood_filled(after, x, y, replace_color, order)
        &&& after.spec_dirty() == (self.spec_dirty() || self.raw_pixel(
                x as nat,
                y as nat
        ) is Some)
    }

    pub fn flood_fill(&mut self, x: u32, y: u32, replace_color: Color)
        requires
            old(self).wf(),
            old(self).raw_pixel(x as nat, y as nat) matches Some(c) ==> c != replace_color,
        ensures
            old(self).flood_fill_result(final(self), x, y, replace_color),
    {
        let expected_color = match self.read_raw(x, y) {
            Some(c) => c,
            None => Color(0),
        };
        let ghost orig = *self;
        let ghost mut order: Seq<(u32, u32)> = Seq::empty();
        let mut pending: Vec<(u32, u32)> = Vec::new();
        pending.push((x, y));
        proof {
            orig.lemma_flood_start(x, y, replace_color);
        }
        let ghost w = orig.spec_width();
        let ghost h = orig.spec_height();
        let ghost start_x = x;
        let ghost start_y = y;
        while !pending.is_empty()
            invariant
                orig.wf(),
                start_x == x,
                start_y == y,
                w == orig.spec_width(),
                h == orig.spec_height(),
                expected_color == orig.flood_expected(x, y),
                orig.flood_inv(self, x, y, replace_color, order, pending@),
                self.spec_dirty() == (orig.spec_dirty() || order.len() > 0),
                orig.raw_pixel(x as nat, y as nat) is None ==> order.len() == 0,
                order.len() > 0 ==> orig.raw_pixel(x as nat, y as nat) is Some,
                orig.raw_pixel(x as nat, y as nat) matches Some(c) ==> c != replace_color,
            decreases 4 * count_color(self.spec_pixels(), expected_color) + pending@.len(),
        {
            let ghost pending_before = pending@;
            let ghost before = *self;
            proof {
                reveal(BitmapData::flood_inv);
            }
            if let Some((x, y)) = pending.pop() {
                let ghost q = (x, y);
                assert(q == pending_before.last());
                if let Some(old_color) = self.read_raw(x, y) {
                    if old_color == expected_color {
                        proof {
                            lemma_index_bound(w as nat, h as nat, x as nat, y as nat);
                            assert(w > 0 && h > 0) by {
                                if w == 0 || h == 0 {
                                    assert(w as nat * h as nat == 0) by (nonlinear_arith)
                                        requires w == 0 || h == 0;
                                }
                            }
                        }
                        let ghost p0 = pending@;
                        let ghost mut added: Seq<(u32, u32)> = Seq::empty();
                        if x > 0 {
                            pending.push((x - 1, y));
                            proof { added = added.push(((x - 1) as u32, y)); }
                        }
                        if y > 0 {
                            pending.push((x, y - 1));
                            proof { added = added.push((x, (y - 1) as u32)); }
                        }
                        if x < self.width() - 1 {
                            pending.push((x + 1, y));
                            proof { added = added.push(((x + 1) as u32, y)); }
                        }
                        if y < self.height() - 1 {
                            pending.push((x, y + 1));
                            proof { added = added.push((x, (y + 1) as u32)); }
                        }
                        self.set_pixel32_raw(x, y, replace_color);
                        proof {
                            assert(pending@ =~= p0 + added);
                            assert forall|r: (u32, u32)| #[trigger] orig.flood_step(q, r) implies added.contains(r) by {
                                if x > 0 && r == ((x - 1) as u32, y) {
                                    assert(added[0] == r);
                                } else if y > 0 && r == (x, (y - 1) as u32) {
                                    assert(added[if x > 0 { 1int } else { 0int }] == r);
                                } else if x < w - 1 && r == ((x + 1) as u32, y) {
                                    assert(added[(if x > 0 { 1int } else { 0int }) + (if y > 0 { 1int } else { 0int })] == r);
                                } else {
                                    assert(added[added.len() - 1] == r);
                                }
                            }
                            assert(added.len() <= 4);
                            let idx = orig.flood_index(q);
                            lemma_count_update(before.spec_pixels(), idx, replace_color, expected_color);
                            orig.lemma_flood_enter(&before, self, start_x, start_y, replace_color, order, pending_before, added);
                            order = order.push(q);
                        }
                    } else {
                        proof {
                            orig.lemma_flood_skip(self, start_x, start_y, replace_color, order, pending_before);
                        }
                    }
                } else {
                    proof {
                        orig.lemma_flood_skip(self, start_x, start_y, replace_color, order, pending_before);
                    }
                }
            }
        }
        proof {
            assert(pending@ =~= Seq::<(u32, u32)>::empty());
            orig.lemma_flood_done(self, x, y, replace_color, order);
        }
    }
}

/// The bytes red, green, blue, alpha of each colour in turn.
pub open spec fn rgba_bytes(pixels: Seq<Color>) -> Seq<u8>
    decreases pixels.len(),
{
    if pixels.len() == 0 {
        Seq::empty()
    } else {
        let p = pixels.last();
        rgba_bytes(pixels.drop_last()).push(p.spec_red()).push(p.spec_green()).push(
            p.spec_blue(),
        ).push(p.spec_alpha())
    }
}

proof fn lemma_rgba_bytes_push(pixels: Seq<Color>, p: Color)
    ensures
        rgba_bytes(pixels.push(p)) == rgba_bytes(pixels).push(p.spec_red()).push(
            p.spec_green(),
        ).push(p.spec_blue()).push(p.spec_alpha()),
{
    assert(pixels.push(p).drop_last() == pixels);
}

/// The bytes of each colour stand at four times its index.
pub proof fn lemma_rgba_bytes_len(pixels: Seq<Color>)
    ensures
        rgba_bytes(pixels).len() == 4 * pixels.len(),
        forall|i: int|
            0 <= i < pixels.len() ==> {
                &&& #[trigger] rgba_bytes(pixels)[4 * i] == pixels[i].spec_red()
                &&& rgba_bytes(pixels)[4 * i + 1] == pixels[i].spec_green()
                &&& rgba_bytes(pixels)[4 * i + 2] == pixels[i].spec_blue()
                &&& rgba_bytes(pixels)[4 * i + 3] == pixels[i].spec_alpha()
            },
    decreases pixels.len(),
{
    if pixels.len() > 0 {
        lemma_rgba_bytes_len(pixels.drop_last());
        let p = pixels.last();
        let prev = rgba_bytes(pixels.drop_last());
        assert(rgba_bytes(pixels) == prev.push(p.spec_red()).push(p.spec_green()).push(
            p.spec_blue(),
        ).push(p.spec_alpha()));
        assert forall|i: int| 0 <= i < pixels.len() implies {
            &&& #[trigger] rgba_bytes(pixels)[4 * i] == pixels[i].spec_red()
            &&& rgba_bytes(pixels)[4 * i + 1] == pixels[i].spec_green()
            &&& rgba_bytes(pixels)[4 * i + 2] == pixels[i].spec_blue()
            &&& rgba_bytes(pixels)[4 * i + 3] == pixels[i].spec_alpha()
        } by {
            if i < pixels.len() - 1 {
                assert(pixels.drop_last()[i] == pixels[i]);
                assert(prev[4 * i] == pixels[i].spec_red());
            }
        }
    }
}

proof fn lemma_index_bound(w: nat, h: nat, x: nat, y: nat)
    requires
        x <= w,
        y <= h,
        w * (h + 1) <= u32::MAX,
    ensures
        x + y * w <= u32::MAX,
        y * w <= u32::MAX,
{
    assert(y * w <= h * w) by (nonlinear_arith)
        requires
            y <= h,
    ;
    assert(w * (h + 1) == h * w + w) by (nonlinear_arith);
}

proof fn lemma_in_bounds_index(w: int, h: int, x: int, y: int)
    requires
        0 <= x < w,
        0 <= y < h,
    ensures
        0 <= x + y * w < w * h,
        x + y * w <= x + (h - 1) * w,
{
    assert(y * w <= (h - 1) * w) by (nonlinear_arith)
        requires
            y <= h - 1,
            w >= 0,
    ;
    assert((h - 1) * w == w * h - w) by (nonlinear_arith);
    assert(y * w >= 0) by (nonlinear_arith)
        requires
            y >= 0,
            w >= 0,
    ;
}

impl BitmapData {
    /// A pixel written with `set_pixel32` inside the bitmap reads back with
    /// `get_pixel32` as the colour premultiplied and unmultiplied again: an
    /// opaque colour, or any colour on a bitmap without transparency, reads
    /// back as itself (made opaque).
    pub proof fn lemma_set_then_get_pixel32(before: BitmapData, after: BitmapData, x: i32, y: i32, color: Color)
        requires
            before.wf(),
            before.set_pixel32_result(&after, x, y, color),
            0 <= x < before.spec_width(),
            0 <= y < before.spec_height(),
        ensures
            after.spec_get_pixel32(x, y) == color.premultiplied(before.spec_transparency()).unmultiplied(),
            color.spec_alpha() == 255 ==> after.spec_get_pixel32(x, y) == color,
            !before.spec_transparency() ==> after.spec_get_pixel32(x, y) == color.spec_with_alpha(255),
    {
        lemma_in_bounds_index(before.spec_width() as int, before.spec_height() as int, x as int, y as int);
        assert(after.raw_pixel(i32_as_u32(x), i32_as_u32(y)) == Some(color.premultiplied(before.spec_transparency())));
        crate::color::lemma_opaque_roundtrip(color);
    }

    /// Writing a pixel outside the bitmap changes nothing that can be read.
    pub proof fn lemma_set_outside_keeps_pixels(before: BitmapData, after: BitmapData, x: i32, y: i32, color: Color)
        requires
            before.wf(),
            before.set_pixel32_result(&after, x, y, color),
            !(0 <= x < before.spec_width() && 0 <= y < before.spec_height()),
        ensures
            after.spec_pixels() == before.spec_pixels(),
            after.spec_dirty() == before.spec_dirty(),
    {
    }
}

impl BitmapData {
    /// The pixels, size and transparency are those of `other`: everything
    /// that reading a bitmap can see.
    pub open spec fn same_contents(&self, other: &BitmapData) -> bool {
        &&& self.spec_pixels() == other.spec_pixels()
        &&& self.spec_width() == other.spec_width()
        &&& self.spec_height() == other.spec_height()
        &&& self.spec_transparency() == other.spec_transparency()
    }

    /// Copying a channel from either of two bitmaps with the same contents
    /// has the same effect.
    pub proof fn lemma_copy_channel_reads_contents(
        &self,
        after: &BitmapData,
        dest_point: (u32, u32),
        src_rect: (u32, u32, u32, u32),
        s1: &BitmapData,
        s2: &BitmapData,
        source_channel: i32,
        dest_channel: i32,
    )
        requires
            s1.same_contents(s2),
        ensures
            self.copy_channel_result(after, dest_point, src_rect, s1, source_channel, dest_channel)
                == self.copy_channel_result(after, dest_point, src_rect, s2, source_channel, dest_channel),
    {
        assert forall|px: int, py: int| s1.pixel(px, py) == s2.pixel(px, py) by {}
    }

    /// Two optional alpha sources that read the same: both absent, or both
    /// with the same contents, point and merge flag.
    pub open spec fn same_alpha_source(
        a1: Option<(&BitmapData, (i32, i32), bool)>,
        a2: Option<(&BitmapData, (i32, i32), bool)>,
    ) -> bool {
        match (a1, a2) {
            (None, None) => true,
            (Some((b1, p1, m1)), Some((b2, p2, m2))) => b1.same_contents(b2) && p1 == p2 && m1 == m2,
            _ => false,
        }
    }

    /// Copying pixels from (and through alpha sources of) the same contents
    /// has the same effect.
    pub proof fn lemma_copy_pixels_reads_contents(
        &self,
        after: &BitmapData,
        s1: &BitmapData,
        s2: &BitmapData,
        src_rect: (i32, i32, i32, i32),
        dest_point: (i32, i32),
        a1: Option<(&BitmapData, (i32, i32), bool)>,
        a2: Option<(&BitmapData, (i32, i32), bool)>,
    )
        requires
            s1.same_contents(s2),
            BitmapData::same_alpha_source(a1, a2),
        ensures
            self.copy_pixels_ok(s1, src_rect, dest_point, a1) == self.copy_pixels_ok(s2, src_rect, dest_point, a2),
            self.copy_pixels_result(after, s1, src_rect, dest_point, a1)
                == self.copy_pixels_result(after, s2, src_rect, dest_point, a2),
    {
        assert forall|px: int, py: int| s1.pixel(px, py) == s2.pixel(px, py) && s1.in_bounds(px, py) == s2.in_bounds(px, py) by {}
        if let (Some((b1, _, _)), Some((b2, _, _))) = (a1, a2) {
            assert forall|px: int, py: int| b1.pixel(px, py) == b2.pixel(px, py) by {}
        }
        assert forall|px: int, py: int|
            self.copy_hit(s1, src_rect, dest_point, a1, px, py) == self.copy_hit(s2, src_rect, dest_point, a2, px, py)
            && self.copy_colour(s1, src_rect, dest_point, a1, px, py) == self.copy_colour(s2, src_rect, dest_point, a2, px, py)
        by {}
    }

    /// Two bitmaps of the same shape whose pixels read the same at every
    /// position hold the same pixels.
    proof fn lemma_same_pixels(&self, after: &BitmapData)
        requires
            self.wf(),
            after.same_shape(self),
            forall|px: int, py: int| #[trigger] self.in_bounds(px, py) ==> after.pixel(px, py) == self.pixel(px, py),
        ensures
            after.spec_pixels() == self.spec_pixels(),
    {
        let w = self.spec_width() as int;
        let h = self.spec_height() as int;
        assert forall|i: int| 0 <= i < self.spec_pixels().len() implies after.spec_pixels()[i] == self.spec_pixels()[i] by {
            vstd::arithmetic::div_mod::lemma_fundamental_div_mod(i, w);
            let x = i % w;
            let y = i / w;
            assert(y < h) by (nonlinear_arith)
                requires
                    i == w * y + x,
                    0 <= x,
                    i < w * h,
                    w > 0,
            ;
            assert(y >= 0) by (nonlinear_arith)
                requires
                    i == w * y + x,
                    x < w,
                    i >= 0,
                    w > 0,
            ;
            assert(self.index_of(x, y) == i) by (nonlinear_arith)
                requires
                    i == w * y + x,
                    self.index_of(x, y) == x + y * w,
            ;
            assert(self.in_bounds(x, y));
        }
        assert(after.spec_pixels() =~= self.spec_pixels());
    }

    /// Merging with all four multipliers at zero keeps every destination
    /// pixel as it was.
    pub proof fn lemma_merge_zero_keeps_pixels(
        &self,
        after: &BitmapData,
        source: &BitmapData,
        src_rect: (i32, i32, i32, i32),
        dest_point: (i32, i32),
    )
        requires
            self.wf(),
            self.merge_result(after, source, src_rect, dest_point, (0, 0, 0, 0)),
        ensures
            after.spec_pixels() == self.spec_pixels(),
    {
        assert forall|px: int, py: int| #[trigger] self.in_bounds(px, py) implies after.pixel(px, py) == self.pixel(px, py) by {
            let d = self.pixel(px, py);
            crate::color::lemma_color_from_channels(d);
            assert forall|s: u8, dc: u8| #[trigger] merge_channel(s, dc, 0) == dc by {}
        }
        self.lemma_same_pixels(after);
    }

    /// Palette-mapping a bitmap onto itself in place with identity tables
    /// leaves opaque pixels as they are.
    pub proof fn lemma_identity_palette_keeps_pixels(
        &self,
        after: &BitmapData,
        src_rect: (i32, i32, i32, i32),
        arrays: ChannelArrays,
    )
        requires
            self.wf(),
            identity_tables(arrays),
            forall|px: int, py: int| #[trigger] self.in_bounds(px, py) ==> self.pixel(px, py).spec_alpha() == 255,
            self.palette_map_result(after, None, src_rect, (src_rect.0, src_rect.1), arrays),
        ensures
            after.spec_pixels() == self.spec_pixels(),
    {
        self.lemma_identity_scan(src_rect, arrays, BitmapData::rect_area(src_rect));
    }

    proof fn lemma_identity_scan(&self, src_rect: (i32, i32, i32, i32), arrays: ChannelArrays, k: nat)
        requires
            self.wf(),
            identity_tables(arrays),
            forall|px: int, py: int| #[trigger] self.in_bounds(px, py) ==> self.pixel(px, py).spec_alpha() == 255,
        ensures
            self.palette_scan(src_rect, (src_rect.0, src_rect.1), arrays, k) == self.spec_pixels(),
        decreases k,
    {
        if k > 0 {
            self.lemma_identity_scan(src_rect, arrays, (k - 1) as nat);
            let prev = self.palette_scan(src_rect, (src_rect.0, src_rect.1), arrays, (k - 1) as nat);
            let sw = src_rect.2 as int;
            let ox = (k - 1) % sw;
            let oy = (k - 1) / sw;
            let (sx, sy) = (src_rect.0 + ox, src_rect.1 + oy);
            if self.in_bounds(sx, sy) {
                lemma_in_bounds_index(self.spec_width() as int, self.spec_height() as int, sx, sy);
                lemma_identity_palette_colour(self.pixel(sx, sy), arrays);
                assert(prev.update(self.index_of(sx, sy), palette_colour(prev[self.index_of(sx, sy)], arrays))
                    =~= self.spec_pixels());
            }
        }
    }

    /// Copying through an alpha bitmap onto a transparent destination, the
    /// alpha of each copied pixel is the masked alpha: where the alpha
    /// bitmap is transparent it is at most that bitmap's alpha, where the
    /// source is transparent at most the source pixel's alpha, and where
    /// both are it is the product of the two alphas divided by 256 (rounded
    /// down). A half-transparent source pixel never comes out more opaque.
    pub proof fn lemma_alpha_bitmap_masks_alpha(
        &self,
        after: &BitmapData,
        source: &BitmapData,
        src_rect: (i32, i32, i32, i32),
        dest_point: (i32, i32),
        alpha_bitmap: &BitmapData,
        alpha_point: (i32, i32),
        px: int,
        py: int,
    )
        requires
            self.copy_pixels_result(after, source, src_rect, dest_point, Some((alpha_bitmap, alpha_point, false))),
            self.spec_transparency(),
            self.copy_hit(source, src_rect, dest_point, Some((alpha_bitmap, alpha_point, false)), px, py),
        ensures
            ({
                let a = after.pixel(px, py).spec_alpha() as int;
                let sa = source.pixel(src_rect.0 + px - dest_point.0, src_rect.1 + py - dest_point.1).spec_alpha() as int;
                let ma = alpha_bitmap.pixel(alpha_point.0 + px - dest_point.0, alpha_point.1 + py - dest_point.1).spec_alpha() as int;
                &&& source.spec_transparency() ==> a <= sa
                &&& alpha_bitmap.spec_transparency() ==> a <= ma
                &&& alpha_bitmap.spec_transparency() && source.spec_transparency() ==> a * 256 <= ma * sa < (a + 1) * 256
                &&& !alpha_bitmap.spec_transparency() && !source.spec_transparency() ==> a == 255
            }),
    {
        let (ox, oy) = BitmapData::copy_offset(px, py, dest_point);
        let src = source.pixel(src_rect.0 + ox, src_rect.1 + oy);
        let m = alpha_bitmap.pixel(alpha_point.0 + ox, alpha_point.1 + oy);
        let fa = copy_final_alpha(alpha_bitmap.spec_transparency(), m, source.spec_transparency(), src);
        let u = src.unmultiplied();
        crate::color::lemma_argb_channels(fa, u.spec_red(), u.spec_green(), u.spec_blue());
        let w = u.spec_with_alpha(fa);
        crate::color::lemma_argb_channels(
            fa,
            premultiply_channel(w.spec_red(), fa),
            premultiply_channel(w.spec_green(), fa),
            premultiply_channel(w.spec_blue(), fa),
        );
        assert(after.pixel(px, py).spec_alpha() == fa);
        let ma = m.spec_alpha() as nat;
        let sa = src.spec_alpha() as nat;
        assert((ma * sa) / 256 <= sa && (ma * sa) / 256 <= ma && (ma * sa) / 256 <= 255) by (nonlinear_arith)
            requires
                ma <= 255,
                sa <= 255,
        ;
        assert(((ma * sa) / 256) * 256 <= ma * sa < ((ma * sa) / 256 + 1) * 256) by (nonlinear_arith);
    }

    /// Merging from either of two bitmaps with the same contents has the
    /// same effect.
    pub proof fn lemma_merge_reads_contents(
        &self,
        after: &BitmapData,
        s1: &BitmapData,
        s2: &BitmapData,
        src_rect: (i32, i32, i32, i32),
        dest_point: (i32, i32),
        chan_mult: (u16, u16, u16, u16),
    )
        requires
            s1.same_contents(s2),
        ensures
            self.merge_ok(s1, src_rect, dest_point, chan_mult) == self.merge_ok(s2, src_rect, dest_point, chan_mult),
            self.merge_result(after, s1, src_rect, dest_point, chan_mult)
                == self.merge_result(after, s2, src_rect, dest_point, chan_mult),
    {
        assert forall|px: int, py: int| s1.pixel(px, py) == s2.pixel(px, py) by {}
        assert forall|px: int, py: int|
            self.copy_hit(s1, src_rect, dest_point, None, px, py) == self.copy_hit(s2, src_rect, dest_point, None, px, py)
        by {}
    }
}

} // verus!
