//! RGB color values and the pure transformations the renderer builds on:
//! blending, posterizing, palette simplification, distance and brightness.
//!
//! Blend strengths ("powers") are fractions of one, carried as integer
//! thousandths: `0` is `0.0`, [`POWER_ONE`] (`1000`) is `1.0`. Distances are
//! carried squared, so every quantity here is exact integer arithmetic.

use vstd::prelude::*;

verus! {

/// A power of `1.0`, in the thousandths scale used by [`Color::shift`].
pub const POWER_ONE: u16 = 1000;

/// An RGB triple. Channels range over the full `0..=255`; every
/// transformation clamps back into that range.
#[derive(Clone, Copy, Debug, PartialEq, Eq, Structural)]
pub struct Color {
    pub red: u8,
    pub green: u8,
    pub blue: u8,
}

/// One channel of a linear interpolation `a*(1-p) + b*p`, with the power `p`
/// given in thousandths and the result truncated to an integer.
pub open spec fn shift_channel(a: u8, b: u8, power: int) -> int {
    (a * (1000 - power) + b * power) / 1000
}

/// One channel of [`Color::clamp`]: add the offset, then clamp to
/// `[min, max]`.
pub open spec fn clamp_channel(c: u8, min: int, max: int, offset: int) -> int {
    let v = c + offset;
    if v < min {
        min
    } else if v > max {
        max
    } else {
        v
    }
}

/// One channel of [`Color::blockify`]: the nearest lower multiple of
/// `strength` (zero strength collapses the channel to zero).
pub open spec fn blockify_channel(c: u8, strength: u8) -> int {
    if strength == 0 {
        0
    } else {
        (c / strength) * strength
    }
}

impl Color {
    /// The color as a linear interpolation target: all three channels shifted
    /// `power` thousandths of the way from `self` toward `other`.
    pub open spec fn shift_spec(self, other: Color, power: int) -> Color {
        Color {
            red: shift_channel(self.red, other.red, power) as u8,
            green: shift_channel(self.green, other.green, power) as u8,
            blue: shift_channel(self.blue, other.blue, power) as u8,
        }
    }

    pub open spec fn clamp_spec(self, min: int, max: int, offset: int) -> Color {
        Color {
            red: clamp_channel(self.red, min, max, offset) as u8,
            green: clamp_channel(self.green, min, max, offset) as u8,
            blue: clamp_channel(self.blue, min, max, offset) as u8,
        }
    }

    pub open spec fn blockify_spec(self, strength: u8) -> Color {
        Color {
            red: blockify_channel(self.red, strength) as u8,
            green: blockify_channel(self.green, strength) as u8,
            blue: blockify_channel(self.blue, strength) as u8,
        }
    }

    /// Squared Euclidean distance in RGB space.
    pub open spec fn distance_sq_spec(self, other: Color) -> int {
        (self.red - other.red) * (self.red - other.red) + (self.green - other.green) * (self.green
            - other.green) + (self.blue - other.blue) * (self.blue - other.blue)
    }

    /// The sum of the three channels: three times the unweighted mean
    /// brightness, and the numerator of the decomposition weight over 765.
    pub open spec fn channel_sum(self) -> int {
        self.red + self.green + self.blue
    }

    /// The coarse eight-swatch palette quantization of [`Color::simplify`]:
    /// near-black and near-white short-circuit; otherwise the dominant
    /// channel picks a hue, and a runner-up channel within 64 of it picks the
    /// blend of the two hues.
    pub open spec fn simplify_spec(self) -> Color {
        let r = self.red;
        let g = self.green;
        let b = self.blue;
        if r < 50 && g < 50 && b < 50 {
            Color::black_spec()
        } else if r > 205 && g > 205 && b > 205 {
            Color::white_spec()
        } else if r >= g && r >= b {
            if r - g < 64 {
                Color::yellow_spec()
            } else if r - b < 64 {
                Color::magenta_spec()
            } else {
                Color::red_spec()
            }
        } else if g >= r && g >= b {
            if g - b < 64 {
                Color::cyan_spec()
            } else if g - r < 64 {
                Color::yellow_spec()
            } else {
                Color::green_spec()
            }
        } else {
            if b - r < 64 {
                Color::magenta_spec()
            } else if b - g < 64 {
                Color::cyan_spec()
            } else {
                Color::blue_spec()
            }
        }
    }

    pub open spec fn red_spec() -> Color {
        Color { red: 225, green: 30, blue: 30 }
    }

    pub open spec fn yellow_spec() -> Color {
        Color { red: 225, green: 225, blue: 30 }
    }

    pub open spec fn magenta_spec() -> Color {
        Color { red: 225, green: 30, blue: 225 }
    }

    pub open spec fn green_spec() -> Color {
        Color { red: 30, green: 225, blue: 30 }
    }

    pub open spec fn cyan_spec() -> Color {
        Color { red: 30, green: 225, blue: 225 }
    }

    pub open spec fn blue_spec() -> Color {
        Color { red: 30, green: 30, blue: 225 }
    }

    pub open spec fn black_spec() -> Color {
        Color { red: 10, green: 10, blue: 10 }
    }

    pub open spec fn white_spec() -> Color {
        Color { red: 225, green: 225, blue: 225 }
    }

    pub fn new(red: u8, green: u8, blue: u8) -> (c: Color)
        ensures
            c == (Color { red, green, blue }),
    {
        Color { red, green, blue }
    }

    pub fn red() -> (c: Color)
        ensures
            c == Color::red_spec(),
    {
        Color::new(225, 30, 30)
    }

    pub fn yellow() -> (c: Color)
        ensures
            c == Color::yellow_spec(),
    {
        Color::new(225, 225, 30)
    }

    pub fn magenta() -> (c: Color)
        ensures
            c == Color::magenta_spec(),
    {
        Color::new(225, 30, 225)
    }

    pub fn green() -> (c: Color)
        ensures
            c == Color::green_spec(),
    {
        Color::new(30, 225, 30)
    }

    pub fn cyan() -> (c: Color)
        ensures
            c == Color::cyan_spec(),
    {
        Color::new(30, 225, 225)
    }

    pub fn blue() -> (c: Color)
        ensures
            c == Color::blue_spec(),
    {
        Color::new(30, 30, 225)
    }

    pub fn black() -> (c: Color)
        ensures
            c == Color::black_spec(),
    {
        Color::new(10, 10, 10)
    }

    pub fn white() -> (c: Color)
        ensures
            c == Color::white_spec(),
    {
        Color::new(225, 225, 225)
    }

    /// Linear interpolation of each channel `power` thousandths of the way
    /// toward `other`, truncated to an integer. `power == 0` yields `self`
    /// and `power == 1000` yields `other` exactly.
    pub fn shift(&self, other: Color, power: u16) -> (c: Color)
        requires
            power <= 1000,
        ensures
            c == self.shift_spec(other, power as int),
    {
        let p: u32 = power as u32;
        let q: u32 = 1000 - p;
        proof {
            lemma_shift_channel_bounds(self.red, other.red, power as int);
            lemma_shift_channel_bounds(self.green, other.green, power as int);
            lemma_shift_channel_bounds(self.blue, other.blue, power as int);
        }
        let red: u32 = (self.red as u32 * q + other.red as u32 * p) / 1000;
        let green: u32 = (self.green as u32 * q + other.green as u32 * p) / 1000;
        let blue: u32 = (self.blue as u32 * q + other.blue as u32 * p) / 1000;
        Color { red: red as u8, green: green as u8, blue: blue as u8 }
    }

    /// Adds `offset` to each channel, then clamps the channel to
    /// `[min, max]`. The bounds must describe a sub-range of the channel
    /// range `0..=255`.
    pub fn clamp(&self, min: i32, max: i32, offset: i32) -> (c: Color)
        requires
            0 <= min <= max <= 255,
        ensures
            c == self.clamp_spec(min as int, max as int, offset as int),
    {
        Color {
            red: clamp_channel_exec(self.red, min, max, offset),
            green: clamp_channel_exec(self.green, min, max, offset),
            blue: clamp_channel_exec(self.blue, min, max, offset),
        }
    }

    /// Posterizes each channel to the nearest lower multiple of `strength`.
    pub fn blockify(&self, strength: u8) -> (c: Color)
        ensures
            c == self.blockify_spec(strength),
    {
        if strength == 0 {
            Color::new(0, 0, 0)
        } else {
            proof {
                lemma_blockify_channel_bounds(self.red, strength);
                lemma_blockify_channel_bounds(self.green, strength);
                lemma_blockify_channel_bounds(self.blue, strength);
            }
            Color {
                red: (self.red / strength) * strength,
                green: (self.green / strength) * strength,
                blue: (self.blue / strength) * strength,
            }
        }
    }

    /// Squared Euclidean distance in RGB space. Comparing it against a
    /// squared threshold compares the Euclidean distance against that
    /// threshold.
    pub fn distance_sq(&self, other: Color) -> (d: u32)
        ensures
            d == self.distance_sq_spec(other),
    {
        let dr: i32 = self.red as i32 - other.red as i32;
        let dg: i32 = self.green as i32 - other.green as i32;
        let db: i32 = self.blue as i32 - other.blue as i32;
        proof {
            lemma_diff_square_bounds(dr as int);
            lemma_diff_square_bounds(dg as int);
            lemma_diff_square_bounds(db as int);
        }
        (dr * dr + dg * dg + db * db) as u32
    }

    /// The unweighted mean of the three channels, truncated to an integer.
    pub fn brightness(&self) -> (b: u16)
        ensures
            b == self.channel_sum() / 3,
    {
        (self.red as u16 + self.green as u16 + self.blue as u16) / 3
    }

    /// Splits the color into the two reference colors of the quantizer and a
    /// blend weight. The first color is the posterized original
    /// (`blockify(16)`), the second is that color shifted 700 thousandths
    /// toward black, and the weight is the fraction of full brightness,
    /// returned as its numerator over 765.
    pub fn decompose(&self) -> (t: (Color, Color, u16))
        ensures
            t.0 == self.blockify_spec(16),
            t.1 == self.blockify_spec(16).shift_spec(Color::black_spec(), 700),
            t.2 == self.channel_sum(),
    {
        let base = self.blockify(16);
        let shaded = base.shift(Color::black(), 700);
        let weight: u16 = self.red as u16 + self.green as u16 + self.blue as u16;
        (base, shaded, weight)
    }

    /// Snaps the color to one of eight named swatches: near-black and
    /// near-white short-circuit (thresholds 50 and 205); otherwise the
    /// dominant channel picks a hue, and a runner-up channel within 64 of it
    /// picks the blended hue.
    pub fn simplify(&self) -> (c: Color)
        ensures
            c == self.simplify_spec(),
    {
        let r = self.red;
        let g = self.green;
        let b = self.blue;
        if r < 50 && g < 50 && b < 50 {
            return Color::black();
        }
        if r > 205 && g > 205 && b > 205 {
            return Color::white();
        }
        if r >= g && r >= b {
            if r - g < 64 {
                Color::yellow()
            } else if r - b < 64 {
                Color::magenta()
            } else {
                Color::red()
            }
        } else if g >= r && g >= b {
            if g - b < 64 {
                Color::cyan()
            } else if g - r < 64 {
                Color::yellow()
            } else {
                Color::green()
            }
        } else {
            if b - r < 64 {
                Color::magenta()
            } else if b - g < 64 {
                Color::cyan()
            } else {
                Color::blue()
            }
        }
    }
}

fn clamp_channel_exec(c: u8, min: i32, max: i32, offset: i32) -> (r: u8)
    requires
        0 <= min <= max <= 255,
    ensures
        r == clamp_channel(c, min as int, max as int, offset as int),
{
    let v: i64 = c as i64 + offset as i64;
    let min64: i64 = min as i64;
    let max64: i64 = max as i64;
    if v < min64 {
        min as u8
    } else if v > max64 {
        max as u8
    } else {
        v as u8
    }
}

proof fn lemma_diff_square_bounds(d: int)
    requires
        -255 <= d <= 255,
    ensures
        0 <= d * d <= 65025,
{
    assert(0 <= d * d <= 65025) by (nonlinear_arith)
        requires
            -255 <= d <= 255,
    ;
}

/// An interpolated channel stays within the channel range.
pub proof fn lemma_shift_channel_bounds(a: u8, b: u8, power: int)
    requires
        0 <= power <= 1000,
    ensures
        0 <= shift_channel(a, b, power) <= 255,
        a * (1000 - power) + b * power <= 255000,
{
    assert(a * (1000 - power) + b * power <= 255 * (1000 - power) + 255 * power == 255000)
        by (nonlinear_arith)
        requires
            a <= 255 && b <= 255 && 0 <= power <= 1000,
    ;
    assert(0 <= a * (1000 - power) + b * power) by (nonlinear_arith)
        requires
            0 <= power <= 1000,
    ;
}

/// A posterized channel stays within the channel range.
pub proof fn lemma_blockify_channel_bounds(c: u8, strength: u8)
    ensures
        0 <= blockify_channel(c, strength) <= 255,
{
    if strength != 0 {
        assert((c / strength) * strength <= c) by (nonlinear_arith)
            requires
                strength > 0,
        ;
        assert(0 <= (c / strength) * strength) by (nonlinear_arith)
            requires
                strength > 0,
        ;
    }
}

/// Blending a color with itself yields the color back, at any power.
pub proof fn lemma_shift_self(c: Color, power: int)
    requires
        0 <= power <= 1000,
    ensures
        c.shift_spec(c, power) == c,
{
    lemma_shift_channel_self(c.red, power);
    lemma_shift_channel_self(c.green, power);
    lemma_shift_channel_self(c.blue, power);
}

proof fn lemma_shift_channel_self(a: u8, power: int)
    requires
        0 <= power <= 1000,
    ensures
        shift_channel(a, a, power) == a,
{
    assert(a * (1000 - power) + a * power == a * 1000) by (nonlinear_arith);
    assert(a * 1000 / 1000 == a) by (nonlinear_arith);
}

/// Blending at power zero yields the first color; at power one (1000
/// thousandths) it yields the second, exactly.
pub proof fn lemma_shift_endpoints(a: Color, b: Color)
    ensures
        a.shift_spec(b, 0) == a,
        a.shift_spec(b, 1000) == b,
{
    lemma_shift_channel_endpoints(a.red, b.red);
    lemma_shift_channel_endpoints(a.green, b.green);
    lemma_shift_channel_endpoints(a.blue, b.blue);
}

proof fn lemma_shift_channel_endpoints(a: u8, b: u8)
    ensures
        shift_channel(a, b, 0) == a,
        shift_channel(a, b, 1000) == b,
{
    assert(a * 1000 / 1000 == a) by (nonlinear_arith);
    assert(b * 1000 / 1000 == b) by (nonlinear_arith);
}

/// A color is at distance zero from itself, and distance is symmetric.
pub proof fn lemma_distance_sq_self_and_symmetric(a: Color, b: Color)
    ensures
        a.distance_sq_spec(a) == 0,
        a.distance_sq_spec(b) == b.distance_sq_spec(a),
{
    assert(a.distance_sq_spec(b) == b.distance_sq_spec(a)) by (nonlinear_arith);
}

/// Simplification is idempotent: every swatch it can produce is a fixed
/// point, so a second pass changes nothing.
pub proof fn lemma_simplify_idempotent(c: Color)
    ensures
        c.simplify_spec().simplify_spec() == c.simplify_spec(),
{
    assert(Color::black_spec().simplify_spec() == Color::black_spec());
    assert(Color::white_spec().simplify_spec() == Color::white_spec());
    assert(Color::red_spec().simplify_spec() == Color::red_spec());
    assert(Color::yellow_spec().simplify_spec() == Color::yellow_spec());
    assert(Color::magenta_spec().simplify_spec() == Color::magenta_spec());
    assert(Color::green_spec().simplify_spec() == Color::green_spec());
    assert(Color::cyan_spec().simplify_spec() == Color::cyan_spec());
    assert(Color::blue_spec().simplify_spec() == Color::blue_spec());
}

} // verus!
