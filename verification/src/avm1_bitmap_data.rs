//! The AVM1 `flash.display.BitmapData` methods, over arguments already
//! converted to numbers and flags by the caller.
//!
//! Each method takes the object it is called on (`None` when that object is
//! not a `BitmapData`) and the arguments it reads (`None` for a missing one).

use vstd::prelude::*;
use crate::bitmap_data::{
    BitmapData, ChannelArrays, abs_int, lemma_u32_as_i32, u32_as_i32, unwrap_or_int,
};
use crate::color::{ChannelOptions, Color};

verus! {

/// What an AVM1 `BitmapData` method gives back.
pub enum Value {
    Undefined,
    Bool(bool),
    Number(i64),
    /// A new `Rectangle(x, y, width, height)`.
    Rectangle(i64, i64, i64, i64),
    /// The object the method was called on.
    This,
    /// A new `BitmapData` object.
    BitmapData(BitmapDataObject),
}

/// An AVM1 `BitmapData` object: its pixels and whether it was disposed.
pub struct BitmapDataObject {
    pub data: BitmapData,
    pub disposed: bool,
}

/// The object a method is called on.
pub enum Object {
    BitmapData(BitmapDataObject),
    /// Any object that is not a `BitmapData`.
    Other,
}

/// The bitmap object of a receiver that is one.
pub open spec fn bd(o: Object) -> BitmapDataObject
    recommends
        o is BitmapData,
{
    match o {
        Object::BitmapData(b) => b,
        Object::Other => arbitrary(),
    }
}

/// The largest width or height a `BitmapData` may be constructed with.
pub const MAX_BITMAP_SIZE: i32 = 2880;

/// The size the constructor accepts.
pub open spec fn valid_size(width: i32, height: i32) -> bool {
    0 < width <= MAX_BITMAP_SIZE && 0 < height <= MAX_BITMAP_SIZE
}

impl BitmapDataObject {
    /// A fresh object with an empty bitmap.
    pub fn empty_object() -> (o: Self)
        ensures
            !o.disposed,
            o.data.wf(),
            o.data.spec_width() == 0,
            o.data.spec_height() == 0,
            o.data.spec_pixels().len() == 0,
            !o.data.spec_transparency(),
            !o.data.spec_dirty(),
    {
        BitmapDataObject { data: BitmapData::default(), disposed: false }
    }

    pub fn disposed(&self) -> (r: bool)
        ensures
            r == self.disposed,
    {
        self.disposed
    }

    pub fn dispose(&mut self)
        ensures
            final(self).disposed,
            final(self).data.wf(),
            final(self).data.spec_width() == 0,
            final(self).data.spec_height() == 0,
            final(self).data.spec_pixels().len() == 0,
            final(self).data.spec_transparency() == old(self).data.spec_transparency(),
    {
        self.data.dispose();
        self.disposed = true;
    }
}

/// The value `-1` that methods give when called on something that is not a
/// live `BitmapData`.
pub open spec fn minus_one() -> Value {
    Value::Number(-1i64)
}

/// Whether the method runs: it was called on a `BitmapData` not yet disposed.
pub open spec fn live(this: Object) -> bool {
    this matches Object::BitmapData(o) && !o.disposed
}

/// A new object as the `BitmapData` constructor leaves it: with a valid
/// size the bitmap is filled with the premultiplied colour, otherwise it
/// stays empty.
pub fn construct(width: i32, height: i32, transparent: bool, fill_color: i32) -> (o: BitmapDataObject)
    ensures
        !o.disposed,
        o.data.wf(),
        valid_size(width, height) ==> {
            &&& o.data.spec_width() == width
            &&& o.data.spec_height() == height
            &&& o.data.spec_transparency() == transparent
            &&& o.data.spec_pixels() == Seq::new(
                (width * height) as nat,
                |i: int| Color(fill_color).premultiplied(transparent),
            )
        },
        !valid_size(width, height) ==> o.data.spec_width() == 0 && o.data.spec_height() == 0
            && o.data.spec_pixels().len() == 0,
{
    let mut o = Object::BitmapData(BitmapDataObject::empty_object());
    let _ = constructor(&mut o, Some(width), Some(height), Some(transparent), Some(fill_color));
    match o {
        Object::BitmapData(b) => b,
        Object::Other => BitmapDataObject::empty_object(),
    }
}

/// Implements `BitmapData(width, height, transparent = true, fillColor = 0xFFFFFFFF)`.
pub fn constructor(
    this: &mut Object,
    width: Option<i32>,
    height: Option<i32>,
    transparent: Option<bool>,
    fill_color: Option<i32>,
) -> (r: Value)
    ensures
        ({
            let w = match width { Some(v) => v, None => 0i32 };
            let h = match height { Some(v) => v, None => 0i32 };
            let t = match transparent { Some(v) => v, None => true };
            let f = match fill_color { Some(v) => v, None => -1i32 };
            &&& !valid_size(w, h) ==> r is Undefined && *final(this) == *old(this)
            &&& valid_size(w, h) ==> r is This
            &&& valid_size(w, h) && *old(this) is Other ==> *final(this) == *old(this)
            &&& valid_size(w, h) && *old(this) is BitmapData ==> {
                &&& *final(this) is BitmapData
                &&& bd(*final(this)).disposed == bd(*old(this)).disposed
                &&& bd(*final(this)).data.wf()
                &&& bd(*final(this)).data.spec_width() == w
                &&& bd(*final(this)).data.spec_height() == h
                &&& bd(*final(this)).data.spec_transparency() == t
                &&& bd(*final(this)).data.spec_dirty()
                &&& bd(*final(this)).data.spec_handle() == bd(*old(this)).data.spec_handle()
                &&& bd(*final(this)).data.spec_pixels() == Seq::new(
                    (w * h) as nat,
                    |i: int| Color(f).premultiplied(t),
                )
            }
        }),
{
    let width = match width {
        Some(v) => v,
        None => 0,
    };
    let height = match height {
        Some(v) => v,
        None => 0,
    };
    if width > MAX_BITMAP_SIZE || height > MAX_BITMAP_SIZE || width <= 0 || height <= 0 {
        return Value::Undefined;
    }
    let transparency = match transparent {
        Some(v) => v,
        None => true,
    };
    // 0xFFFFFFFF as a signed 32-bit value
    let fill_color = match fill_color {
        Some(v) => v,
        None => -1,
    };
    if let Object::BitmapData(bitmap_data) = this {
        assert((width as u32 as nat) * (height as u32 as nat) <= 2880 * 2880) by (nonlinear_arith)
            requires
                0 < width <= 2880,
                0 < height <= 2880,
        ;
        assert((width as u32 as nat) * ((height as u32 as nat) + 1) <= 2880 * 2881) by (nonlinear_arith)
            requires
                0 < width <= 2880,
                0 < height <= 2880,
        ;
        bitmap_data.data.init_pixels(width as u32, height as u32, fill_color, transparency);
    }
    Value::This
}

pub fn height(this: &Object) -> (r: Value)
    ensures
        live(*this) ==> r == Value::Number(bd(*this).data.spec_height() as i64),
        !live(*this) ==> r == minus_one(),
{
    if let Object::BitmapData(bitmap_data) = this {
        if !bitmap_data.disposed() {
            return Value::Number(bitmap_data.data.height() as i64);
        }
    }
    Value::Number(-1)
}

pub fn width(this: &Object) -> (r: Value)
    ensures
        live(*this) ==> r == Value::Number(bd(*this).data.spec_width() as i64),
        !live(*this) ==> r == minus_one(),
{
    if let Object::BitmapData(bitmap_data) = this {
        if !bitmap_data.disposed() {
            return Value::Number(bitmap_data.data.width() as i64);
        }
    }
    Value::Number(-1)
}

pub fn get_transparent(this: &Object) -> (r: Value)
    ensures
        live(*this) ==> r == Value::Bool(bd(*this).data.spec_transparency()),
        !live(*this) ==> r == minus_one(),
{
    if let Object::BitmapData(bitmap_data) = this {
        if !bitmap_data.disposed() {
            return Value::Bool(bitmap_data.data.transparency());
        }
    }
    Value::Number(-1)
}

pub fn get_rectangle(this: &Object) -> (r: Value)
    ensures
        live(*this) ==> r == Value::Rectangle(
            0,
            0,
            bd(*this).data.spec_width() as i64,
            bd(*this).data.spec_height() as i64,
        ),
        !live(*this) ==> r == minus_one(),
{
    if let Object::BitmapData(bitmap_data) = this {
        if !bitmap_data.disposed() {
            return Value::Rectangle(
                0,
                0,
                bitmap_data.data.width() as i64,
                bitmap_data.data.height() as i64,
            );
        }
    }
    Value::Number(-1)
}

/// Whether the receiver is a live `BitmapData` whose bitmap is well formed.
pub open spec fn live_wf(this: Object) -> bool {
    live(this) ==> bd(this).data.wf()
}

/// The receiver after a method changed only its bitmap, as `r` says.
pub open spec fn bitmap_changed(old_this: Object, new_this: Object, r: spec_fn(BitmapData, BitmapData) -> bool) -> bool {
    &&& new_this is BitmapData
    &&& bd(new_this).disposed == bd(old_this).disposed
    &&& r(bd(old_this).data, bd(new_this).data)
}

/// Implements `getPixel(x, y)`.
pub fn get_pixel(this: &Object, x: Option<i32>, y: Option<i32>) -> (r: Value)
    requires
        live(*this) ==> bd(*this).data.dims_ok(),
    ensures
        live(*this) && x is Some && y is Some ==> r == Value::Number(
            bd(*this).data.spec_get_pixel(x->0, y->0) as i64,
        ),
        !(live(*this) && x is Some && y is Some) ==> r == minus_one(),
{
    if let Object::BitmapData(bitmap_data) = this {
        if !bitmap_data.disposed() {
            if let (Some(x), Some(y)) = (x, y) {
                proof {
                    bitmap_data.data.lemma_reads_fit(x as u32, y as u32);
                }
                return Value::Number(bitmap_data.data.get_pixel(x, y) as i64);
            }
        }
    }
    Value::Number(-1)
}

/// Implements `getPixel32(x, y)`.
pub fn get_pixel32(this: &Object, x: Option<i32>, y: Option<i32>) -> (r: Value)
    requires
        live(*this) ==> bd(*this).data.dims_ok(),
    ensures
        live(*this) && x is Some && y is Some ==> r == Value::Number(
            bd(*this).data.spec_get_pixel32(x->0, y->0).0 as i64,
        ),
        !(live(*this) && x is Some && y is Some) ==> r == minus_one(),
{
    if let Object::BitmapData(bitmap_data) = this {
        if !bitmap_data.disposed() {
            if let (Some(x), Some(y)) = (x, y) {
                proof {
                    bitmap_data.data.lemma_reads_fit(x as u32, y as u32);
                }
                let col: i32 = bitmap_data.data.get_pixel32(x, y).into();
                return Value::Number(col as i64);
            }
        }
    }
    Value::Number(-1)
}

/// Implements `setPixel(x, y, color)`.
pub fn set_pixel(this: &mut Object, x: Option<u32>, y: Option<u32>, color: Option<i32>) -> (r: Value)
    requires
        live_wf(*old(this)),
    ensures
        live(*old(this)) && x is Some && y is Some && color is Some ==> r is Undefined
            && bitmap_changed(
            *old(this),
            *final(this),
            |a: BitmapData, b: BitmapData| a.set_pixel_result(&b, x->0, y->0, Color(color->0)),
        ),
        !(live(*old(this)) && x is Some && y is Some && color is Some) ==> r == minus_one()
            && *final(this) == *old(this),
{
    if let Object::BitmapData(bitmap_data) = this {
        if !bitmap_data.disposed() {
            if let (Some(x), Some(y), Some(color)) = (x, y, color) {
                bitmap_data.data.set_pixel(x, y, color.into());
                return Value::Undefined;
            }
        }
    }
    Value::Number(-1)
}

/// Implements `setPixel32(x, y, color)`.
pub fn set_pixel32(this: &mut Object, x: Option<i32>, y: Option<i32>, color: Option<i32>) -> (r: Value)
    requires
        live_wf(*old(this)),
    ensures
        live(*old(this)) ==> r is Undefined,
        live(*old(this)) && x is Some && y is Some && color is Some ==> bitmap_changed(
            *old(this),
            *final(this),
            |a: BitmapData, b: BitmapData| a.set_pixel32_result(&b, x->0, y->0, Color(color->0)),
        ),
        live(*old(this)) && !(x is Some && y is Some && color is Some) ==> *final(this) == *old(this),
        !live(*old(this)) ==> r == minus_one() && *final(this) == *old(this),
{
    if let Object::BitmapData(bitmap_data) = this {
        if !bitmap_data.disposed() {
            if let (Some(x), Some(y), Some(color)) = (x, y, color) {
                bitmap_data.data.set_pixel32(x, y, color.into());
            }
            return Value::Undefined;
        }
    }
    Value::Number(-1)
}

/// Implements `fillRect(rectangle, color)`, with the rectangle's x, y, width
/// and height.
pub fn fill_rect(this: &mut Object, rectangle: (u32, u32, u32, u32), color: Option<i32>) -> (r: Value)
    requires
        live_wf(*old(this)),
        live(*old(this)) && color is Some && rectangle.2 > 0 && rectangle.3 > 0 ==> rectangle.0
            + rectangle.2 - 1 <= u32::MAX && rectangle.1 + rectangle.3 - 1 <= u32::MAX,
    ensures
        live(*old(this)) ==> r is Undefined,
        live(*old(this)) && color is Some ==> bitmap_changed(
            *old(this),
            *final(this),
            |a: BitmapData, b: BitmapData|
                a.fill_rect_result(&b, rectangle.0, rectangle.1, rectangle.2, rectangle.3, Color(color->0)),
        ),
        live(*old(this)) && color is None ==> *final(this) == *old(this),
        !live(*old(this)) ==> r == minus_one() && *final(this) == *old(this),
{
    if let Object::BitmapData(bitmap_data) = this {
        if !bitmap_data.disposed() {
            if let Some(color) = color {
                let (x, y, width, height) = rectangle;
                bitmap_data.data.fill_rect(x, y, width, height, color.into());
            }
            return Value::Undefined;
        }
    }
    Value::Number(-1)
}

/// Implements `clone()`: a new `BitmapData` constructed with this one's size
/// and transparency, holding a copy of its pixels.
pub fn clone(this: &Object) -> (r: Value)
    ensures
        live(*this) ==> (r matches Value::BitmapData(n) && {
            let d = bd(*this).data;
            let w = u32_as_i32_spec(d.spec_width());
            let h = u32_as_i32_spec(d.spec_height());
            &&& !n.disposed
            &&& n.data.spec_pixels() == d.spec_pixels()
            &&& valid_size(w, h) ==> n.data.spec_width() == d.spec_width()
                && n.data.spec_height() == d.spec_height()
                && n.data.spec_transparency() == d.spec_transparency()
            &&& !valid_size(w, h) ==> n.data.spec_width() == 0 && n.data.spec_height() == 0
        }),
        !live(*this) ==> r == minus_one(),
{
    if let Object::BitmapData(bitmap_data) = this {
        if !bitmap_data.disposed() {
            let w = bitmap_data.data.width();
            let h = bitmap_data.data.height();
            proof {
                lemma_u32_as_i32(w);
                lemma_u32_as_i32(h);
            }
            let mut new_bitmap_data = construct(
                w as i32,
                h as i32,
                bitmap_data.data.transparency(),
                0xFFFFFF,
            );
            let source = bitmap_data.data.pixels();
            let mut pixels: Vec<Color> = Vec::new();
            let n = source.len();
            for i in 0..n
                invariant
                    n == source@.len(),
                    pixels@ == source@.subrange(0, i as int),
            {
                pixels.push(source[i]);
            }
            assert(pixels@ == source@);
            new_bitmap_data.data.set_pixels(pixels);
            return Value::BitmapData(new_bitmap_data);
        }
    }
    Value::Number(-1)
}

/// A 32-bit unsigned value read as signed.
pub open spec fn u32_as_i32_spec(v: u32) -> i32 {
    u32_as_i32(v) as i32
}

/// Implements `dispose()`.
pub fn dispose(this: &mut Object) -> (r: Value)
    ensures
        live(*old(this)) ==> r is Undefined && *final(this) is BitmapData && bd(*final(this)).disposed
            && bd(*final(this)).data.spec_width() == 0 && bd(*final(this)).data.spec_height() == 0
            && bd(*final(this)).data.spec_pixels().len() == 0 && bd(*final(this)).data.wf(),
        !live(*old(this)) ==> r == minus_one() && *final(this) == *old(this),
{
    if let Object::BitmapData(bitmap_data) = this {
        if !bitmap_data.disposed() {
            bitmap_data.dispose();
            return Value::Undefined;
        }
    }
    Value::Number(-1)
}

/// Implements `floodFill(x, y, color)`: fills with the colour premultiplied
/// as the bitmap's transparency asks.
pub fn flood_fill(this: &mut Object, x: Option<u32>, y: Option<u32>, color: Option<i32>) -> (r: Value)
    requires
        live_wf(*old(this)),
        live(*old(this)) && x is Some && y is Some && color is Some ==> (bd(*old(this)).data.raw_pixel(
            x->0 as nat,
            y->0 as nat,
        ) matches Some(c) ==> c != Color(color->0).premultiplied(bd(*old(this)).data.spec_transparency())),
    ensures
        live(*old(this)) ==> r is Undefined,
        live(*old(this)) && x is Some && y is Some && color is Some ==> bitmap_changed(
            *old(this),
            *final(this),
            |a: BitmapData, b: BitmapData|
                a.flood_fill_result(
                    &b,
                    x->0,
                    y->0,
                    Color(color->0).premultiplied(a.spec_transparency()),
                ),
        ),
        live(*old(this)) && !(x is Some && y is Some && color is Some) ==> *final(this) == *old(this),
        !live(*old(this)) ==> r == minus_one() && *final(this) == *old(this),
{
    if let Object::BitmapData(bitmap_data) = this {
        if !bitmap_data.disposed() {
            if let (Some(x), Some(y), Some(color)) = (x, y, color) {
                let color: Color = color.into();
                let color: Color = color.to_premultiplied_alpha(bitmap_data.data.transparency());
                bitmap_data.data.flood_fill(x, y, color);
            }
            return Value::Undefined;
        }
    }
    Value::Number(-1)
}

/// The arguments of `noise` with their defaults: low 0, high 255 (both cut
/// to a byte), the red, green and blue channels, no gray scale.
pub open spec fn noise_args(
    low: Option<u32>,
    high: Option<u32>,
    channel_options: Option<u32>,
    gray_scale: Option<bool>,
) -> (u8, u8, u32, bool) {
    (
        (match low { Some(v) => v, None => 0u32 } % 256) as u8,
        (match high { Some(v) => v, None => 255u32 } % 256) as u8,
        match channel_options { Some(v) => v, None => 7u32 },
        match gray_scale { Some(v) => v, None => false },
    )
}

/// Implements `noise(randomSeed, low = 0, high = 255, channelOptions = 7, grayScale = false)`;
/// a `high` below `low` counts as `low`.
pub fn noise(
    this: &mut Object,
    random_seed: Option<i32>,
    low: Option<u32>,
    high: Option<u32>,
    channel_options: Option<u32>,
    gray_scale: Option<bool>,
) -> (r: Value)
    requires
        live_wf(*old(this)),
        live(*old(this)) && random_seed is Some ==> random_seed->0 > i32::MIN + 1,
    ensures
        live(*old(this)) ==> r is Undefined,
        live(*old(this)) && random_seed is Some ==> bitmap_changed(
            *old(this),
            *final(this),
            |a: BitmapData, b: BitmapData|
                {
                    let (lo, hi, opts, gray) = noise_args(low, high, channel_options, gray_scale);
                    a.noise_result(
                        &b,
                        random_seed->0,
                        lo,
                        if hi > lo { hi } else { lo },
                        ChannelOptions(opts),
                        gray,
                    )
                },
        ),
        live(*old(this)) && random_seed is None ==> *final(this) == *old(this),
        !live(*old(this)) ==> r == minus_one() && *final(this) == *old(this),
{
    let low_v: u32 = match low {
        Some(v) => v,
        None => 0,
    };
    let high_v: u32 = match high {
        Some(v) => v,
        None => 255,
    };
    proof {
        assert((low_v as u8) == (low_v % 256) as u8) by (bit_vector);
        assert((high_v as u8) == (high_v % 256) as u8) by (bit_vector);
    }
    let low = low_v as u8;
    let high = high_v as u8;
    let channel_options: u32 = match channel_options {
        Some(v) => v,
        None => ChannelOptions::rgb().0,
    };
    let gray_scale = match gray_scale {
        Some(v) => v,
        None => false,
    };
    if let Object::BitmapData(bitmap_data) = this {
        if !bitmap_data.disposed() {
            if let Some(random_seed) = random_seed {
                let high = if high > low { high } else { low };
                bitmap_data.data.noise(random_seed, low, high, channel_options.into(), gray_scale)
            }
            return Value::Undefined;
        }
    }
    Value::Number(-1)
}

/// Implements `generateFilterRect`, which is not implemented yet.
pub fn generate_filter_rect(this: &Object) -> (r: Value)
    ensures
        live(*this) ==> r is Undefined,
        !live(*this) ==> r == minus_one(),
{
    if let Object::BitmapData(bitmap_data) = this {
        if !bitmap_data.disposed() {
            return Value::Undefined;
        }
    }
    Value::Number(-1)
}

/// Implements `getColorBoundsRect(mask, color, findColor = true)`.
pub fn get_color_bounds_rect(
    this: &Object,
    mask: Option<i32>,
    color: Option<i32>,
    find_color: Option<bool>,
) -> (r: Value)
    requires
        live(*this) ==> bd(*this).data.wf(),
    ensures
        live(*this) && mask is Some && color is Some ==> (r matches Value::Rectangle(x, y, w, h) && {
            let d = bd(*this).data;
            let s = d.bounds_scan(
                match find_color { Some(v) => v, None => true },
                mask->0,
                color->0,
                d.spec_width() as nat * d.spec_height() as nat,
            );
            &&& x == unwrap_or_int(s.0, 0)
            &&& y == unwrap_or_int(s.2, 0)
            &&& w == unwrap_or_int(s.1, 0) - unwrap_or_int(s.0, 0)
            &&& h == unwrap_or_int(s.3, 0) - unwrap_or_int(s.2, 0)
        }),
        !(live(*this) && mask is Some && color is Some) ==> r == minus_one(),
{
    if let Object::BitmapData(bitmap_data) = this {
        if !bitmap_data.disposed() {
            let find_color = match find_color {
                Some(v) => v,
                None => true,
            };
            if let (Some(mask), Some(color)) = (mask, color) {
                let (x, y, w, h) = bitmap_data.data.color_bounds_rect(find_color, mask, color);
                return Value::Rectangle(x as i64, y as i64, w as i64, h as i64);
            }
        }
    }
    Value::Number(-1)
}

/// Implements `hitTest`, which is not implemented yet.
pub fn hit_test(this: &Object) -> (r: Value)
    ensures
        live(*this) ==> r is Undefined,
        !live(*this) ==> r == minus_one(),
{
    if let Object::BitmapData(bitmap_data) = this {
        if !bitmap_data.disposed() {
            return Value::Undefined;
        }
    }
    Value::Number(-1)
}

/// Implements `pixelDissolve`, which is not implemented yet.
pub fn pixel_dissolve(this: &Object) -> (r: Value)
    ensures
        live(*this) ==> r is Undefined,
        !live(*this) ==> r == minus_one(),
{
    if let Object::BitmapData(bitmap_data) = this {
        if !bitmap_data.disposed() {
            return Value::Undefined;
        }
    }
    Value::Number(-1)
}

/// Implements `scroll(x, y)`; a missing offset counts as 0.
pub fn scroll(this: &mut Object, x: Option<i32>, y: Option<i32>) -> (r: Value)
    requires
        live_wf(*old(this)),
        live(*old(this)) ==> {
            let xv = match x { Some(v) => v, None => 0i32 };
            let yv = match y { Some(v) => v, None => 0i32 };
            let d = bd(*old(this)).data;
            &&& !(xv == 0 && yv == 0) ==> xv != i32::MIN
            &&& !(xv == 0 && yv == 0) && abs_int(xv as int) < d.spec_width() ==> yv != i32::MIN
            &&& !d.scroll_is_noop(xv, yv) && !(yv == 0 && xv > 0) ==> d.spec_width() - xv <= i32::MAX
        },
    ensures
        live(*old(this)) ==> r is Undefined && bitmap_changed(
            *old(this),
            *final(this),
            |a: BitmapData, b: BitmapData|
                a.scroll_result(
                    &b,
                    match x { Some(v) => v, None => 0i32 },
                    match y { Some(v) => v, None => 0i32 },
                ),
        ),
        !live(*old(this)) ==> r == minus_one() && *final(this) == *old(this),
{
    if let Object::BitmapData(bitmap_data) = this {
        if !bitmap_data.disposed() {
            let x = match x {
                Some(v) => v,
                None => 0,
            };
            let y = match y {
                Some(v) => v,
                None => 0,
            };
            bitmap_data.data.scroll(x, y);
            return Value::Undefined;
        }
    }
    Value::Number(-1)
}

/// Implements `threshold`, which is not implemented yet.
pub fn threshold(this: &Object) -> (r: Value)
    ensures
        live(*this) ==> r is Undefined,
        !live(*this) ==> r == minus_one(),
{
    if let Object::BitmapData(bitmap_data) = this {
        if !bitmap_data.disposed() {
            return Value::Undefined;
        }
    }
    Value::Number(-1)
}

/// Implements `BitmapData.loadBitmap(name)` for the decoded bitmap the name
/// was found to export (width, height and its colours), if any: a new
/// `BitmapData` constructed with that size holding those colours.
pub fn load_bitmap(bitmap: Option<(u32, u32, Vec<i32>)>) -> (r: Value)
    ensures
        bitmap is None ==> r is Undefined,
        bitmap matches Some((w, h, colours)) ==> (r matches Value::BitmapData(n) && {
            let wi = u32_as_i32_spec(w);
            let hi = u32_as_i32_spec(h);
            &&& !n.disposed
            &&& n.data.spec_pixels().len() == colours@.len()
            &&& forall|i: int| 0 <= i < colours@.len() ==> #[trigger] n.data.spec_pixels()[i] == Color(colours@[i])
            &&& valid_size(wi, hi) ==> n.data.spec_width() == w && n.data.spec_height() == h
                && n.data.spec_transparency()
            &&& !valid_size(wi, hi) ==> n.data.spec_width() == 0 && n.data.spec_height() == 0
        }),
{
    if let Some((width, height, data)) = bitmap {
        proof {
            lemma_u32_as_i32(width);
            lemma_u32_as_i32(height);
        }
        let mut new_bitmap = construct(width as i32, height as i32, true, -1);
        let mut pixels: Vec<Color> = Vec::new();
        let n = data.len();
        for i in 0..n
            invariant
                n == data@.len(),
                pixels@.len() == i,
                forall|j: int| 0 <= j < i ==> #[trigger] pixels@[j] == Color(data@[j]),
        {
            pixels.push(data[i].into());
        }
        new_bitmap.data.set_pixels(pixels);
        return Value::BitmapData(new_bitmap);
    }
    Value::Undefined
}

/// The bitmap a method reads from: the receiver itself, or another object.
pub enum Source<'a> {
    This,
    Other(&'a Object),
}

/// The object a source stands for, given the receiver.
pub open spec fn source_object(this: Object, source: Source) -> Object {
    match source {
        Source::This => this,
        Source::Other(o) => *o,
    }
}

/// The bitmap a source stands for, given the receiver.
pub open spec fn source_data(this: Object, source: Source) -> BitmapData {
    bd(source_object(this, source)).data
}

/// The destination point, each coordinate at most the bitmap's size.
pub open spec fn clamped_point(point: (u32, u32), d: BitmapData) -> (u32, u32) {
    (
        if point.0 < d.spec_width() { point.0 } else { d.spec_width() },
        if point.1 < d.spec_height() { point.1 } else { d.spec_height() },
    )
}

/// A rectangle given by its corner and size, as corner and far corner.
pub open spec fn rect_ends(rect: (u32, u32, u32, u32)) -> (u32, u32, u32, u32) {
    (rect.0, rect.1, (rect.0 + rect.2) as u32, (rect.1 + rect.3) as u32)
}

/// Implements `copyChannel(sourceBitmap, sourceRect, destPoint, sourceChannel,
/// destChannel)`: the destination point is clamped to the bitmap's size, and
/// the source is read whether it was disposed or not (a copy of it, when it
/// is the receiver itself).
pub fn copy_channel(
    this: &mut Object,
    source: Source,
    source_rect: (u32, u32, u32, u32),
    dest_point: (u32, u32),
    source_channel: i32,
    dest_channel: i32,
) -> (r: Value)
    requires
        live_wf(*old(this)),
        live(*old(this)) && source_object(*old(this), source) is BitmapData ==> {
            &&& source_data(*old(this), source).wf()
            &&& source_rect.0 + source_rect.2 <= u32::MAX
            &&& source_rect.1 + source_rect.3 <= u32::MAX
            &&& BitmapData::copy_channel_ok(
                clamped_point(dest_point, bd(*old(this)).data),
                rect_ends(source_rect),
                &source_data(*old(this), source),
            )
        },
    ensures
        live(*old(this)) ==> r is Undefined,
        live(*old(this)) && source_object(*old(this), source) is BitmapData ==> bitmap_changed(
            *old(this),
            *final(this),
            |a: BitmapData, b: BitmapData|
                a.copy_channel_result(
                    &b,
                    clamped_point(dest_point, a),
                    rect_ends(source_rect),
                    &source_data(*old(this), source),
                    source_channel,
                    dest_channel,
                ),
        ),
        live(*old(this)) && !(source_object(*old(this), source) is BitmapData) ==> *final(this)
            == *old(this),
        !live(*old(this)) ==> r == minus_one() && *final(this) == *old(this),
{
    let ghost old_this = *this;
    if let Object::BitmapData(bitmap_data) = this {
        if !bitmap_data.disposed() {
            let width = bitmap_data.data.width();
            let height = bitmap_data.data.height();
            let min_x = if dest_point.0 < width { dest_point.0 } else { width };
            let min_y = if dest_point.1 < height { dest_point.1 } else { height };
            let (src_min_x, src_min_y, src_width, src_height) = source_rect;
            match source {
                Source::This => {
                    let src_max_x = src_min_x + src_width;
                    let src_max_y = src_min_y + src_height;
                    let snapshot = bitmap_data.data.clone();
                    let ghost before = bitmap_data.data;
                    bitmap_data.data.copy_channel(
                        (min_x, min_y),
                        (src_min_x, src_min_y, src_max_x, src_max_y),
                        &snapshot,
                        source_channel,
                        dest_channel,
                    );
                    proof {
                        before.lemma_copy_channel_reads_contents(
                            &bitmap_data.data,
                            (min_x, min_y),
                            (src_min_x, src_min_y, src_max_x, src_max_y),
                            &snapshot,
                            &source_data(old_this, source),
                            source_channel,
                            dest_channel,
                        );
                    }
                },
                Source::Other(other) => {
                    if let Object::BitmapData(src) = other {
                        let src_max_x = src_min_x + src_width;
                        let src_max_y = src_min_y + src_height;
                        bitmap_data.data.copy_channel(
                            (min_x, min_y),
                            (src_min_x, src_min_y, src_max_x, src_max_y),
                            &src.data,
                            source_channel,
                            dest_channel,
                        );
                    }
                },
            }
            return Value::Undefined;
        }
    }
    Value::Number(-1)
}

/// Whether `copyPixels` copies: the receiver, the source and (where one is
/// given) the alpha bitmap are live `BitmapData` objects.
pub open spec fn copy_pixels_runs(this: Object, source: Source, alpha: Option<(Source, (i32, i32), bool)>) -> bool {
    &&& live(this)
    &&& live(source_object(this, source))
    &&& alpha matches Some((a, _, _)) ==> live(source_object(this, a))
}

/// What `copyPixels` asks of its arguments when it copies: well-formed
/// bitmaps, and what `BitmapData::copy_pixels` asks.
pub open spec fn copy_pixels_args_ok(
    this: Object,
    source: Source,
    src_rect: (i32, i32, i32, i32),
    dest_point: (i32, i32),
    alpha: Option<(Source, (i32, i32), bool)>,
) -> bool {
    &&& source_data(this, source).wf()
    &&& match alpha {
        None => bd(this).data.copy_pixels_ok(&source_data(this, source), src_rect, dest_point, None),
        Some((a, p, m)) => {
            &&& source_data(this, a).wf()
            &&& bd(this).data.copy_pixels_ok(
                &source_data(this, source),
                src_rect,
                dest_point,
                Some((&source_data(this, a), p, m)),
            )
        },
    }
}

/// Implements `copyPixels(sourceBitmap, sourceRect, destPoint[, alphaBitmap,
/// alphaPoint[, mergeAlpha]])`: `alpha` holds the alpha bitmap, its point
/// and the merge flag when the call passes an alpha point. Nothing is copied
/// unless the source (and the alpha bitmap, when given) are live; a source
/// that is the receiver itself is copied before it is read.
pub fn copy_pixels(
    this: &mut Object,
    source: Source,
    src_rect: (i32, i32, i32, i32),
    dest_point: (i32, i32),
    alpha: Option<(Source, (i32, i32), bool)>,
) -> (r: Value)
    requires
        live_wf(*old(this)),
        copy_pixels_runs(*old(this), source, alpha) ==> copy_pixels_args_ok(
            *old(this),
            source,
            src_rect,
            dest_point,
            alpha,
        ),
    ensures
        live(*old(this)) ==> r is Undefined,
        copy_pixels_runs(*old(this), source, alpha) ==> bitmap_changed(
            *old(this),
            *final(this),
            |a: BitmapData, b: BitmapData|
                match alpha {
                    None => a.copy_pixels_result(&b, &source_data(*old(this), source), src_rect, dest_point, None),
                    Some((asrc, p, m)) => a.copy_pixels_result(
                        &b,
                        &source_data(*old(this), source),
                        src_rect,
                        dest_point,
                        Some((&source_data(*old(this), asrc), p, m)),
                    ),
                },
        ),
        live(*old(this)) && !copy_pixels_runs(*old(this), source, alpha) ==> *final(this) == *old(this),
        !live(*old(this)) ==> r == minus_one() && *final(this) == *old(this),
{
    let ghost old_this = *this;
    if let Object::BitmapData(bitmap_data) = this {
        if !bitmap_data.disposed() {
            // The source, or a copy of the receiver where that is the source.
            let source_copy: Option<BitmapData> = match source {
                Source::This => Some(bitmap_data.data.clone()),
                Source::Other(other) => None,
            };
            let source_ref: Option<&BitmapData> = match source {
                Source::This => source_copy.as_ref(),
                Source::Other(other) => match other {
                    Object::BitmapData(src) => if src.disposed() { None } else { Some(&src.data) },
                    Object::Other => None,
                },
            };
            if let Some(source_bitmap) = source_ref {
                let ghost before = bitmap_data.data;
                let ghost sd = source_data(old_this, source);
                assert(source_bitmap.same_contents(&sd));
                match alpha {
                    None => {
                        proof {
                            before.lemma_copy_pixels_reads_contents(&before, source_bitmap, &sd, src_rect, dest_point, None, None);
                        }
                        bitmap_data.data.copy_pixels(source_bitmap, src_rect, dest_point, None);
                        proof {
                            before.lemma_copy_pixels_reads_contents(&bitmap_data.data, source_bitmap, &sd, src_rect, dest_point, None, None);
                        }
                    },
                    Some((alpha_source, alpha_point, merge_alpha)) => {
                        let alpha_copy: Option<BitmapData> = match alpha_source {
                            Source::This => Some(bitmap_data.data.clone()),
                            Source::Other(other) => None,
                        };
                        let alpha_ref: Option<&BitmapData> = match alpha_source {
                            Source::This => alpha_copy.as_ref(),
                            Source::Other(other) => match other {
                                Object::BitmapData(a) => if a.disposed() { None } else { Some(&a.data) },
                                Object::Other => None,
                            },
                        };
                        if let Some(alpha_bitmap) = alpha_ref {
                            let ghost ad = source_data(old_this, alpha_source);
                            assert(alpha_bitmap.same_contents(&ad));
                            proof {
                                before.lemma_copy_pixels_reads_contents(
                                    &before,
                                    source_bitmap,
                                    &sd,
                                    src_rect,
                                    dest_point,
                                    Some((alpha_bitmap, alpha_point, merge_alpha)),
                                    Some((&ad, alpha_point, merge_alpha)),
                                );
                            }
                            bitmap_data.data.copy_pixels(
                                source_bitmap,
                                src_rect,
                                dest_point,
                                Some((alpha_bitmap, alpha_point, merge_alpha)),
                            );
                            proof {
                                before.lemma_copy_pixels_reads_contents(
                                    &bitmap_data.data,
                                    source_bitmap,
                                    &sd,
                                    src_rect,
                                    dest_point,
                                    Some((alpha_bitmap, alpha_point, merge_alpha)),
                                    Some((&ad, alpha_point, merge_alpha)),
                                );
                            }
                        }
                    },
                }
            }
            return Value::Undefined;
        }
    }
    Value::Number(-1)
}

/// The channel multipliers of `merge`, each cut to 16 bits.
pub open spec fn merge_mults(mults: (u32, u32, u32, u32)) -> (u16, u16, u16, u16) {
    (mults.0 as u16, mults.1 as u16, mults.2 as u16, mults.3 as u16)
}

/// Implements `merge(sourceBitmap, sourceRect, destPoint, redMultiplier,
/// greenMultiplier, blueMultiplier, alphaMultiplier)`; each multiplier is
/// cut to 16 bits, and nothing is merged unless the source is live (a copy
/// of it is read when it is the receiver itself).
pub fn merge(
    this: &mut Object,
    source: Source,
    src_rect: (i32, i32, i32, i32),
    dest_point: (i32, i32),
    mults: (u32, u32, u32, u32),
) -> (r: Value)
    requires
        live_wf(*old(this)),
        live(*old(this)) && live(source_object(*old(this), source)) ==> {
            &&& source_data(*old(this), source).wf()
            &&& bd(*old(this)).data.merge_ok(
                &source_data(*old(this), source),
                src_rect,
                dest_point,
                merge_mults(mults),
            )
        },
    ensures
        live(*old(this)) ==> r is Undefined,
        live(*old(this)) && live(source_object(*old(this), source)) ==> bitmap_changed(
            *old(this),
            *final(this),
            |a: BitmapData, b: BitmapData|
                a.merge_result(&b, &source_data(*old(this), source), src_rect, dest_point, merge_mults(mults)),
        ),
        live(*old(this)) && !live(source_object(*old(this), source)) ==> *final(this) == *old(this),
        !live(*old(this)) ==> r == minus_one() && *final(this) == *old(this),
{
    let ghost old_this = *this;
    if let Object::BitmapData(bitmap_data) = this {
        if !bitmap_data.disposed() {
            let red_mult = mults.0 as u16;
            let green_mult = mults.1 as u16;
            let blue_mult = mults.2 as u16;
            let alpha_mult = mults.3 as u16;
            let chan_mult = (red_mult, green_mult, blue_mult, alpha_mult);
            let source_copy: Option<BitmapData> = match source {
                Source::This => Some(bitmap_data.data.clone()),
                Source::Other(_) => None,
            };
            let source_ref: Option<&BitmapData> = match source {
                Source::This => source_copy.as_ref(),
                Source::Other(other) => match other {
                    Object::BitmapData(src) => if src.disposed() { None } else { Some(&src.data) },
                    Object::Other => None,
                },
            };
            if let Some(source_bitmap) = source_ref {
                let ghost before = bitmap_data.data;
                let ghost sd = source_data(old_this, source);
                proof {
                    before.lemma_merge_reads_contents(&before, source_bitmap, &sd, src_rect, dest_point, chan_mult);
                }
                bitmap_data.data.merge(source_bitmap, src_rect, dest_point, chan_mult);
                proof {
                    before.lemma_merge_reads_contents(&bitmap_data.data, source_bitmap, &sd, src_rect, dest_point, chan_mult);
                }
            }
            return Value::Undefined;
        }
    }
    Value::Number(-1)
}

/// The table of one channel for `paletteMap`: the array given, or the
/// identity mapping of that channel (the index moved to the channel's bits).
pub open spec fn channel_table(arg: Option<[u32; 256]>, shift: u32, table: [u32; 256]) -> bool {
    match arg {
        Some(a) => table == a,
        None => forall|i: int| 0 <= i < 256 ==> #[trigger] table@[i] == (i as u32) << shift,
    }
}

/// The tables of all four channels.
pub open spec fn channel_tables(
    args: (Option<[u32; 256]>, Option<[u32; 256]>, Option<[u32; 256]>, Option<[u32; 256]>),
    tables: ChannelArrays,
) -> bool {
    &&& channel_table(args.0, 16, tables.0)
    &&& channel_table(args.1, 8, tables.1)
    &&& channel_table(args.2, 0, tables.2)
    &&& channel_table(args.3, 24, tables.3)
}

/// The table for a channel: the array given, or the identity mapping.
fn channel_array(arg: Option<[u32; 256]>, shift: u32) -> (r: [u32; 256])
    requires
        shift <= 24,
    ensures
        channel_table(arg, shift, r),
{
    match arg {
        Some(a) => a,
        None => {
            let mut array = [0u32; 256];
            let mut i: usize = 0;
            while i < 256
                invariant
                    i <= 256,
                    shift <= 24,
                    forall|j: int| 0 <= j < i ==> #[trigger] array@[j] == (j as u32) << shift,
                decreases 256 - i,
            {
                array[i] = (i as u32) << shift;
                i = i + 1;
            }
            array
        },
    }
}

/// Implements `paletteMap(sourceBitmap, sourceRect, destPoint, redArray,
/// greenArray, blueArray, alphaArray)`: a missing array maps its channel to
/// itself. Nothing is mapped unless the source is live; when it is the
/// receiver itself, the map reads the pixels as it rewrites them.
pub fn palette_map(
    this: &mut Object,
    source: Source,
    src_rect: (i32, i32, i32, i32),
    dest_point: (i32, i32),
    arrays: (Option<[u32; 256]>, Option<[u32; 256]>, Option<[u32; 256]>, Option<[u32; 256]>),
) -> (r: Value)
    requires
        live_wf(*old(this)),
        live(*old(this)) && live(source_object(*old(this), source)) ==> {
            &&& source_data(*old(this), source).wf()
            &&& BitmapData::palette_map_ok(src_rect, dest_point)
        },
    ensures
        live(*old(this)) ==> r is Undefined,
        live(*old(this)) && live(source_object(*old(this), source)) ==> exists|tables: ChannelArrays|
            channel_tables(arrays, tables) && bitmap_changed(
                *old(this),
                *final(this),
                |a: BitmapData, b: BitmapData|
                    match source {
                        Source::This => a.palette_map_result(&b, None, src_rect, dest_point, tables),
                        Source::Other(o) => a.palette_map_result(&b, Some(&bd(*o).data), src_rect, dest_point, tables),
                    },
            ),
        live(*old(this)) && !live(source_object(*old(this), source)) ==> *final(this) == *old(this),
        !live(*old(this)) ==> r == minus_one() && *final(this) == *old(this),
{
    let ghost old_this = *this;
    if let Object::BitmapData(bitmap_data) = this {
        if !bitmap_data.disposed() {
            let red_array = channel_array(arrays.0, 16);
            let green_array = channel_array(arrays.1, 8);
            let blue_array = channel_array(arrays.2, 0);
            let alpha_array = channel_array(arrays.3, 24);
            let tables = (red_array, green_array, blue_array, alpha_array);
            match source {
                Source::This => {
                    bitmap_data.data.palette_map(None, src_rect, dest_point, tables);
                },
                Source::Other(other) => {
                    if let Object::BitmapData(src) = other {
                        if !src.disposed() {
                            bitmap_data.data.palette_map(Some(&src.data), src_rect, dest_point, tables);
                        }
                    }
                },
            }
            assert(channel_tables(arrays, tables));
            return Value::Undefined;
        }
    }
    Value::Number(-1)
}

} // verus!
