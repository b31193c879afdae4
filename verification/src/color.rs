//! Packed ARGB colours, the Lehmer random number generator used by
//! `BitmapData.noise`, and channel selection masks.

use vstd::prelude::*;

verus! {

/// The Park-Miller modulus `2^31 - 1`.
pub open spec fn lehmer_modulus() -> nat {
    2147483647
}

/// One step of the Park-Miller sequence: `X_(k+1) = 16807 * X_k mod (2^31 - 1)`.
pub open spec fn lehmer_next(x: u32) -> u32 {
    ((x as nat * 16807) % lehmer_modulus()) as u32
}

/// An implementation of the Lehmer/Park-Miller random number generator
/// Uses the fixed parameters m = 2,147,483,647 and a = 16,807
pub struct LehmerRng {
    x: u32,
}

impl LehmerRng {
    /// The current state of the generator.
    pub closed spec fn state(&self) -> u32 {
        self.x
    }

    pub fn with_seed(seed: u32) -> (rng: Self)
        ensures
            rng.state() == seed,
    {
        Self { x: seed }
    }

    /// Generate the next value in the sequence via the following formula
    /// X_(k+1) = a * X_k mod m
    pub fn gen(&mut self) -> (r: u32)
        ensures
            r == lehmer_next(old(self).state()),
            final(self).state() == r,
    {
        let next: u64 = (self.x as u64) * 16_807 % 2_147_483_647;
        self.x = next as u32;
        self.x
    }

    /// A value between `rng.start` and `rng.end`, both included.
    pub fn gen_range(&mut self, rng: std::ops::Range<u8>) -> (r: u8)
        requires
            rng.start <= rng.end,
        ensures
            final(self).state() == lehmer_next(old(self).state()),
            r == rng.start + (lehmer_next(old(self).state()) as int) % ((rng.end - rng.start) + 1),
            rng.start <= r <= rng.end,
    {
        let start = rng.start;
        let end = rng.end;
        let span: u32 = (end - start) as u32 + 1;
        let g = self.gen();
        let off: u32 = g % span;
        start + off as u8
    }
}

/// The packed ARGB value of four channels.
pub open spec fn argb_bits(alpha: u8, red: u8, green: u8, blue: u8) -> u32 {
    ((alpha as u32) << 24u32) | ((red as u32) << 16u32) | ((green as u32) << 8u32) | (blue as u32)
}

/// The channel of a packed colour that starts at bit `shift`.
pub open spec fn channel_of(bits: u32, shift: u32) -> u8 {
    ((bits >> shift) & 0xFFu32) as u8
}

/// Rounds `n / d` to the nearest integer, halves upwards.
pub open spec fn div_round(n: nat, d: nat) -> nat
    recommends
        d > 0,
{
    ((2 * n + d) / (2 * d)) as nat
}

/// A colour channel multiplied by `alpha / 255`, rounded to the nearest integer.
pub open spec fn premultiply_channel(c: u8, alpha: u8) -> u8 {
    div_round(c as nat * alpha as nat, 255) as u8
}

/// The pairs `(alpha, channel)` for which `channel * 255 / alpha` lies exactly
/// halfway between two integers and the player's floating-point division
/// lands just below the half, so that the quotient is rounded down.
pub open spec fn unmultiply_rounds_down(alpha: u8, c: u8) -> bool {
    ||| alpha == 66 && (c == 11 || c == 33 || c == 55)
    ||| alpha == 70 && (c == 7 || c == 35 || c == 49 || c == 63)
    ||| alpha == 74 && c == 37
    ||| alpha == 78 && (c == 39 || c == 65)
    ||| alpha == 82 && c == 41
    ||| alpha == 86 && c == 43
    ||| alpha == 90 && (c == 21 || c == 39 || c == 45 || c == 81 || c == 87)
    ||| alpha == 94 && c == 47
    ||| alpha == 98 && c == 49
    ||| alpha == 132 && (c == 22 || c == 66 || c == 110)
    ||| alpha == 140 && (c == 14 || c == 70 || c == 98 || c == 126)
    ||| alpha == 148 && c == 74
    ||| alpha == 156 && (c == 78 || c == 130)
    ||| alpha == 164 && c == 82
    ||| alpha == 172 && c == 86
    ||| alpha == 180 && (c == 42 || c == 78 || c == 90 || c == 162 || c == 174)
    ||| alpha == 188 && c == 94
    ||| alpha == 196 && c == 98
}

/// A premultiplied colour channel divided by `alpha / 255`: rounded to the
/// nearest integer and saturated at 255; a zero alpha gives 0 for a zero
/// channel and 255 otherwise.
pub open spec fn unmultiply_channel(c: u8, alpha: u8) -> u8 {
    if alpha == 0 {
        if c == 0 { 0 } else { 255 }
    } else {
        let q = div_round(c as nat * 255, alpha as nat);
        let q = if unmultiply_rounds_down(alpha, c) { (q - 1) as nat } else { q };
        if q > 255 { 255 } else { q as u8 }
    }
}

fn unmultiply_rounds_down_exec(alpha: u8, c: u8) -> (r: bool)
    ensures
        r == unmultiply_rounds_down(alpha, c),
{
    (alpha == 66 && (c == 11 || c == 33 || c == 55))
        || (alpha == 70 && (c == 7 || c == 35 || c == 49 || c == 63))
        || (alpha == 74 && c == 37)
        || (alpha == 78 && (c == 39 || c == 65))
        || (alpha == 82 && c == 41)
        || (alpha == 86 && c == 43)
        || (alpha == 90 && (c == 21 || c == 39 || c == 45 || c == 81 || c == 87))
        || (alpha == 94 && c == 47)
        || (alpha == 98 && c == 49)
        || (alpha == 132 && (c == 22 || c == 66 || c == 110))
        || (alpha == 140 && (c == 14 || c == 70 || c == 98 || c == 126))
        || (alpha == 148 && c == 74)
        || (alpha == 156 && (c == 78 || c == 130))
        || (alpha == 164 && c == 82)
        || (alpha == 172 && c == 86)
        || (alpha == 180 && (c == 42 || c == 78 || c == 90 || c == 162 || c == 174))
        || (alpha == 188 && c == 94)
        || (alpha == 196 && c == 98)
}

fn premultiply_channel_exec(c: u8, alpha: u8) -> (r: u8)
    ensures
        r == premultiply_channel(c, alpha),
{
    assert((c as u32) * (alpha as u32) <= 65025) by (nonlinear_arith)
        requires
            c <= 255,
            alpha <= 255,
    ;
    let p: u32 = (c as u32) * (alpha as u32);
    let n: u32 = 2 * p + 255;
    assert(n / 510 <= 255) by (nonlinear_arith)
        requires
            n == 2 * p + 255,
            p == (c as u32) * (alpha as u32),
            c <= 255,
            alpha <= 255,
    ;
    (n / 510) as u8
}

fn unmultiply_channel_exec(c: u8, alpha: u8) -> (r: u8)
    ensures
        r == unmultiply_channel(c, alpha),
{
    if alpha == 0 {
        if c == 0 { 0 } else { 255 }
    } else {
        let d: u32 = 2 * (alpha as u32);
        let n: u32 = 2 * (c as u32) * 255 + (alpha as u32);
        let mut q: u32 = n / d;
        if unmultiply_rounds_down_exec(alpha, c) {
            assert(q >= 1) by (nonlinear_arith)
                requires
                    n >= d,
                    d > 0,
                    q == n / d,
            ;
            q = q - 1;
        }
        if q > 255 { 255 } else { q as u8 }
    }
}

/// A colour packed as ARGB in a 32-bit integer.
#[derive(Debug, Copy, Clone, Eq, PartialEq, Structural)]
pub struct Color(pub i32);

impl Color {
    /// The colour's 32 bits.
    pub open spec fn bits(self) -> u32 {
        self.0 as u32
    }

    pub open spec fn spec_blue(self) -> u8 {
        channel_of(self.bits(), 0)
    }

    pub open spec fn spec_green(self) -> u8 {
        channel_of(self.bits(), 8)
    }

    pub open spec fn spec_red(self) -> u8 {
        channel_of(self.bits(), 16)
    }

    pub open spec fn spec_alpha(self) -> u8 {
        channel_of(self.bits(), 24)
    }

    /// The colour with the given channels.
    pub open spec fn from_argb(alpha: u8, red: u8, green: u8, blue: u8) -> Color {
        Color(argb_bits(alpha, red, green, blue) as i32)
    }

    /// Whether no colour channel exceeds the alpha channel, as premultiplied
    /// colours have it.
    pub open spec fn is_premultiplied(self) -> bool {
        &&& self.spec_red() <= self.spec_alpha()
        &&& self.spec_green() <= self.spec_alpha()
        &&& self.spec_blue() <= self.spec_alpha()
    }

    /// The colour with each channel multiplied by the alpha (or by 255 when
    /// `transparency` is false, in which case the alpha becomes 255).
    pub open spec fn premultiplied(self, transparency: bool) -> Color {
        let a: u8 = if transparency { self.spec_alpha() } else { 255 };
        Color::from_argb(
            a,
            premultiply_channel(self.spec_red(), a),
            premultiply_channel(self.spec_green(), a),
            premultiply_channel(self.spec_blue(), a),
        )
    }

    /// The colour with each channel divided by the alpha.
    pub open spec fn unmultiplied(self) -> Color {
        let a = self.spec_alpha();
        Color::from_argb(
            a,
            unmultiply_channel(self.spec_red(), a),
            unmultiply_channel(self.spec_green(), a),
            unmultiply_channel(self.spec_blue(), a),
        )
    }

    pub open spec fn spec_with_alpha(self, alpha: u8) -> Color {
        Color::from_argb(alpha, self.spec_red(), self.spec_green(), self.spec_blue())
    }

    /// One channel of `source` drawn over `dest`, with `sa` the source alpha.
    pub open spec fn blend_channel(dest: u8, source: u8, sa: u8) -> int {
        source + (dest as int * (255 - sa as int)) / 256
    }

    /// Whether drawing `source` over `self` keeps every channel within a byte.
    pub open spec fn blend_fits(self, source: Color) -> bool {
        let sa = source.spec_alpha();
        &&& Color::blend_channel(self.spec_red(), source.spec_red(), sa) <= 255
        &&& Color::blend_channel(self.spec_green(), source.spec_green(), sa) <= 255
        &&& Color::blend_channel(self.spec_blue(), source.spec_blue(), sa) <= 255
        &&& Color::blend_channel(self.spec_alpha(), source.spec_alpha(), sa) <= 255
    }

    /// `source` drawn over `self`.
    pub open spec fn blended(self, source: Color) -> Color {
        let sa = source.spec_alpha();
        Color::from_argb(
            Color::blend_channel(self.spec_alpha(), source.spec_alpha(), sa) as u8,
            Color::blend_channel(self.spec_red(), source.spec_red(), sa) as u8,
            Color::blend_channel(self.spec_green(), source.spec_green(), sa) as u8,
            Color::blend_channel(self.spec_blue(), source.spec_blue(), sa) as u8,
        )
    }

    pub fn blue(&self) -> (r: u8)
        ensures
            r == self.spec_blue(),
    {
        let v = self.0;
        assert(((v & 0xFF) as u8) == (((v as u32) >> 0u32) & 0xFFu32) as u8) by (bit_vector);
        (v & 0xFF) as u8
    }

    pub fn green(&self) -> (r: u8)
        ensures
            r == self.spec_green(),
    {
        let v = self.0;
        assert((((v >> 8i32) & 0xFF) as u8) == (((v as u32) >> 8u32) & 0xFFu32) as u8)
            by (bit_vector);
        ((v >> 8) & 0xFF) as u8
    }

    pub fn red(&self) -> (r: u8)
        ensures
            r == self.spec_red(),
    {
        let v = self.0;
        assert((((v >> 16i32) & 0xFF) as u8) == (((v as u32) >> 16u32) & 0xFFu32) as u8)
            by (bit_vector);
        ((v >> 16) & 0xFF) as u8
    }

    pub fn alpha(&self) -> (r: u8)
        ensures
            r == self.spec_alpha(),
    {
        let v = self.0;
        assert((((v >> 24i32) & 0xFF) as u8) == (((v as u32) >> 24u32) & 0xFFu32) as u8)
            by (bit_vector);
        ((v >> 24) & 0xFF) as u8
    }

    pub fn to_premultiplied_alpha(&self, transparency: bool) -> (c: Color)
        ensures
            c == self.premultiplied(transparency),
    {
        let old_alpha = if transparency { self.alpha() } else { 255 };
        let r = premultiply_channel_exec(self.red(), old_alpha);
        let g = premultiply_channel_exec(self.green(), old_alpha);
        let b = premultiply_channel_exec(self.blue(), old_alpha);
        Color::argb(old_alpha, r, g, b)
    }

    pub fn to_un_multiplied_alpha(&self) -> (c: Color)
        ensures
            c == self.unmultiplied(),
    {
        let a = self.alpha();
        let r = unmultiply_channel_exec(self.red(), a);
        let g = unmultiply_channel_exec(self.green(), a);
        let b = unmultiply_channel_exec(self.blue(), a);
        Color::argb(a, r, g, b)
    }

    pub fn argb(alpha: u8, red: u8, green: u8, blue: u8) -> (c: Color)
        ensures
            c == Color::from_argb(alpha, red, green, blue),
    {
        let bits: u32 = ((alpha as u32) << 24) | ((red as u32) << 16) | ((green as u32) << 8)
            | (blue as u32);
        Color(bits as i32)
    }

    pub fn with_alpha(&self, alpha: u8) -> (c: Color)
        ensures
            c == self.spec_with_alpha(alpha),
    {
        Color::argb(alpha, self.red(), self.green(), self.blue())
    }

    pub fn blend_over(&self, source: &Self) -> (c: Self)
        requires
            self.blend_fits(*source),
        ensures
            c == self.blended(*source),
    {
        let sa = source.alpha();
        let inv: u16 = 255 - sa as u16;
        let rp: u16 = self.red() as u16 * inv;
        let gp: u16 = self.green() as u16 * inv;
        let bp: u16 = self.blue() as u16 * inv;
        let ap: u16 = self.alpha() as u16 * inv;
        assert((rp >> 8u16) == rp / 256) by (bit_vector);
        assert((gp >> 8u16) == gp / 256) by (bit_vector);
        assert((bp >> 8u16) == bp / 256) by (bit_vector);
        assert((ap >> 8u16) == ap / 256) by (bit_vector);
        let r = source.red() + (rp >> 8) as u8;
        let g = source.green() + (gp >> 8) as u8;
        let b = source.blue() + (bp >> 8) as u8;
        let a = source.alpha() + (ap >> 8) as u8;
        Color::argb(a, r, g, b)
    }
}

/// The channels of a packed colour are the ones it was packed from.
pub proof fn lemma_argb_channels(alpha: u8, red: u8, green: u8, blue: u8)
    ensures
        Color::from_argb(alpha, red, green, blue).spec_alpha() == alpha,
        Color::from_argb(alpha, red, green, blue).spec_red() == red,
        Color::from_argb(alpha, red, green, blue).spec_green() == green,
        Color::from_argb(alpha, red, green, blue).spec_blue() == blue,
{
    let bits = argb_bits(alpha, red, green, blue);
    assert(((bits as i32) as u32) == bits) by (bit_vector);
    assert(channel_of(argb_bits(alpha, red, green, blue), 24) == alpha) by (bit_vector);
    assert(channel_of(argb_bits(alpha, red, green, blue), 16) == red) by (bit_vector);
    assert(channel_of(argb_bits(alpha, red, green, blue), 8) == green) by (bit_vector);
    assert(channel_of(argb_bits(alpha, red, green, blue), 0) == blue) by (bit_vector);
}

/// A colour is packed from its own channels.
pub proof fn lemma_color_from_channels(c: Color)
    ensures
        Color::from_argb(c.spec_alpha(), c.spec_red(), c.spec_green(), c.spec_blue()) == c,
{
    let b = c.bits();
    assert(argb_bits(channel_of(b, 24), channel_of(b, 16), channel_of(b, 8), channel_of(b, 0))
        == b) by (bit_vector);
    let v = c.0;
    assert(((v as u32) as i32) == v) by (bit_vector);
}

/// Multiplying by a full alpha, or dividing by it, leaves a channel as it is.
pub proof fn lemma_full_alpha_channel(c: u8)
    ensures
        premultiply_channel(c, 255) == c,
        unmultiply_channel(c, 255) == c,
{
    assert((2 * (c as nat * 255) + 255) / 510 == c as nat) by (nonlinear_arith);
    assert((2 * (c as nat * 255) + 255) / (2 * 255) == c as nat) by (nonlinear_arith);
}

/// Premultiplying and unmultiplying leave an opaque colour as it is, and
/// a colour stored without transparency reads back as itself made opaque.
pub proof fn lemma_opaque_roundtrip(c: Color)
    ensures
        c.spec_alpha() == 255 ==> c.premultiplied(true) == c,
        c.spec_alpha() == 255 ==> c.unmultiplied() == c,
        c.premultiplied(false).unmultiplied() == c.spec_with_alpha(255),
        c.premultiplied(false) == c.spec_with_alpha(255),
{
    lemma_full_alpha_channel(c.spec_red());
    lemma_full_alpha_channel(c.spec_green());
    lemma_full_alpha_channel(c.spec_blue());
    lemma_color_from_channels(c);
    lemma_argb_channels(255, c.spec_red(), c.spec_green(), c.spec_blue());
}

impl From<Color> for i32 {
    fn from(c: Color) -> (r: Self) {
        c.0
    }
}

impl vstd::std_specs::convert::FromSpecImpl<Color> for i32 {
    open spec fn obeys_from_spec() -> bool {
        true
    }

    open spec fn from_spec(c: Color) -> i32 {
        c.0
    }
}

impl From<Color> for u32 {
    fn from(c: Color) -> (r: Self) {
        c.0 as u32
    }
}

impl vstd::std_specs::convert::FromSpecImpl<Color> for u32 {
    open spec fn obeys_from_spec() -> bool {
        true
    }

    open spec fn from_spec(c: Color) -> u32 {
        c.0 as u32
    }
}

impl From<i32> for Color {
    fn from(i: i32) -> (r: Self) {
        Color(i)
    }
}

impl vstd::std_specs::convert::FromSpecImpl<i32> for Color {
    open spec fn obeys_from_spec() -> bool {
        true
    }

    open spec fn from_spec(i: i32) -> Color {
        Color(i)
    }
}

/// A selection of colour channels: bit 1 red, 2 green, 4 blue, 8 alpha.
pub struct ChannelOptions(pub u32);

impl ChannelOptions {
    pub fn alpha(&self) -> (r: bool)
        ensures
            r == (self.0 & 8 == 8),
    {
        self.0 & 8 == 8
    }

    pub fn red(&self) -> (r: bool)
        ensures
            r == (self.0 & 1 == 1),
    {
        self.0 & 1 == 1
    }

    pub fn green(&self) -> (r: bool)
        ensures
            r == (self.0 & 2 == 2),
    {
        self.0 & 2 == 2
    }

    pub fn blue(&self) -> (r: bool)
        ensures
            r == (self.0 & 4 == 4),
    {
        self.0 & 4 == 4
    }

    /// Red, green and blue, without alpha.
    pub fn rgb() -> (r: Self)
        ensures
            r.0 == 7,
    {
        assert((1u32 | 2u32 | 4u32) == 7u32) by (bit_vector);
        ChannelOptions(1 | 2 | 4)
    }
}

impl From<u32> for ChannelOptions {
    fn from(v: u32) -> (r: Self) {
        ChannelOptions(v)
    }
}

impl vstd::std_specs::convert::FromSpecImpl<u32> for ChannelOptions {
    open spec fn obeys_from_spec() -> bool {
        true
    }

    open spec fn from_spec(v: u32) -> ChannelOptions {
        ChannelOptions(v)
    }
}

} // verus!
