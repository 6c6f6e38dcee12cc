//! Light intensity as three fixed-point channels.
use vstd::prelude::*;

verus! {

/// The channel value that stands for full intensity, 1.0. A channel `c`
/// stands for the fraction `c / ONE`.
pub const ONE: u32 = 1_000_000_000;

/// The scale of the display encoding: a channel of intensity `x` is written
/// as `floor(sqrt(x) * GAMMA_SCALE / GAMMA_UNIT)`, that is `sqrt(x) * 255.999`.
pub const GAMMA_SCALE: u128 = 255_999;

/// The denominator of [`GAMMA_SCALE`].
pub const GAMMA_UNIT: u128 = 1_000;

/// An RGB triple in linear space. Every channel lies between 0 and [`ONE`]:
/// no color is brighter than full intensity.
#[derive(Clone, Copy, Debug)]
pub struct Color {
    r: u32,
    g: u32,
    b: u32,
}

/// The channels of a color as mathematical integers.
pub struct Rgb {
    pub r: int,
    pub g: int,
    pub b: int,
}

impl Rgb {
    /// Every channel lies between 0 and [`ONE`].
    pub open spec fn in_unit(self) -> bool {
        &&& 0 <= self.r <= ONE
        &&& 0 <= self.g <= ONE
        &&& 0 <= self.b <= ONE
    }
}

impl View for Color {
    type V = Rgb;

    closed spec fn view(&self) -> Rgb {
        Rgb { r: self.r as int, g: self.g as int, b: self.b as int }
    }
}

/// Attenuation of one channel by another: the product of the two fractions,
/// rounded down to a multiple of `1 / ONE`.
pub open spec fn attenuated(a: int, b: int) -> int {
    a * b / (ONE as int)
}

/// The sum of the red channels of `s`.
pub open spec fn sum_r(s: Seq<Color>) -> int
    decreases s.len(),
{
    if s.len() == 0 {
        0
    } else {
        sum_r(s.drop_last()) + s.last()@.r
    }
}

/// The sum of the green channels of `s`.
pub open spec fn sum_g(s: Seq<Color>) -> int
    decreases s.len(),
{
    if s.len() == 0 {
        0
    } else {
        sum_g(s.drop_last()) + s.last()@.g
    }
}

/// The sum of the blue channels of `s`.
pub open spec fn sum_b(s: Seq<Color>) -> int
    decreases s.len(),
{
    if s.len() == 0 {
        0
    } else {
        sum_b(s.drop_last()) + s.last()@.b
    }
}

/// The channel-wise mean of `s`, rounded down; black for the empty sequence.
pub open spec fn mean_of(s: Seq<Color>) -> Rgb {
    if s.len() == 0 {
        Rgb { r: 0, g: 0, b: 0 }
    } else {
        Rgb { r: sum_r(s) / (s.len() as int), g: sum_g(s) / (s.len() as int), b: sum_b(s) / (s.len() as int) }
    }
}

/// `q` is the display level of the channel `c`: the largest integer that is
/// at most `sqrt(c / ONE) * 255.999`.
pub open spec fn is_display_level(c: int, q: int) -> bool {
    &&& 0 <= q
    &&& q * q * (ONE as int) * (GAMMA_UNIT as int) * (GAMMA_UNIT as int)
        <= c * (GAMMA_SCALE as int) * (GAMMA_SCALE as int)
    &&& c * (GAMMA_SCALE as int) * (GAMMA_SCALE as int)
        < (q + 1) * (q + 1) * (ONE as int) * (GAMMA_UNIT as int) * (GAMMA_UNIT as int)
}

/// The display level of the channel `c`: `floor(sqrt(c / ONE) * 255.999)`.
pub open spec fn display_level(c: int) -> int {
    choose|q: int| is_display_level(c, q)
}

/// A channel has at most one display level.
pub proof fn lemma_display_level_unique(c: int, p: int, q: int)
    requires
        is_display_level(c, p),
        is_display_level(c, q),
    ensures
        p == q,
        display_level(c) == p,
{
    let unit = (ONE as int) * (GAMMA_UNIT as int) * (GAMMA_UNIT as int);
    let target = c * (GAMMA_SCALE as int) * (GAMMA_SCALE as int);
    lemma_scaled_square(p, unit);
    lemma_scaled_square(p + 1, unit);
    lemma_scaled_square(q, unit);
    lemma_scaled_square(q + 1, unit);
    lemma_squares_order(p, q, unit, target);
    lemma_squares_order(q, p, unit, target);
    let d = display_level(c);
    lemma_scaled_square(d, unit);
    lemma_scaled_square(d + 1, unit);
    lemma_squares_order(p, d, unit, target);
    lemma_squares_order(d, p, unit, target);
}

proof fn lemma_scaled_square(q: int, unit: int)
    requires
        unit == (ONE as int) * (GAMMA_UNIT as int) * (GAMMA_UNIT as int),
    ensures
        q * q * (ONE as int) * (GAMMA_UNIT as int) * (GAMMA_UNIT as int) == q * q * unit,
{
    assert(q * q * (ONE as int) * (GAMMA_UNIT as int) * (GAMMA_UNIT as int) == q * q * ((ONE as int)
        * (GAMMA_UNIT as int) * (GAMMA_UNIT as int))) by (nonlinear_arith);
}

proof fn lemma_squares_order(p: int, q: int, unit: int, target: int)
    requires
        0 <= p,
        0 <= q,
        unit > 0,
        p * p * unit <= target,
        target < (q + 1) * (q + 1) * unit,
    ensures
        p <= q,
{
    assert(p <= q) by (nonlinear_arith)
        requires
            0 <= p,
            0 <= q,
            unit > 0,
            p * p * unit < (q + 1) * (q + 1) * unit,
    ;
}

/// Full intensity is the neutral element of attenuation, black absorbs, and
/// the order of the two channels does not matter.
pub proof fn lemma_attenuated_neutral(a: int, b: int)
    ensures
        attenuated(a, ONE as int) == a,
        attenuated(ONE as int, a) == a,
        attenuated(a, 0) == 0,
        attenuated(0, a) == 0,
        attenuated(a, b) == attenuated(b, a),
{
    assert(a * (ONE as int) / (ONE as int) == a) by (nonlinear_arith);
    assert((ONE as int) * a / (ONE as int) == a) by (nonlinear_arith);
    assert(a * 0 == 0 && 0 * a == 0) by (nonlinear_arith);
    assert(a * b == b * a) by (nonlinear_arith);
}

/// Attenuation never brightens: the product of two channels is at most either.
pub proof fn lemma_attenuated_bounded(a: int, b: int)
    requires
        0 <= a <= ONE,
        0 <= b <= ONE,
    ensures
        0 <= attenuated(a, b) <= a,
        attenuated(a, b) <= b,
{
    assert(0 <= a * b <= a * (ONE as int)) by (nonlinear_arith)
        requires 0 <= a, 0 <= b <= ONE;
    assert(a * b <= (ONE as int) * b) by (nonlinear_arith)
        requires 0 <= a <= ONE, 0 <= b;
    assert(a * (ONE as int) / (ONE as int) == a) by (nonlinear_arith);
    assert((ONE as int) * b / (ONE as int) == b) by (nonlinear_arith);
    assert(0 <= a * b / (ONE as int) <= a * (ONE as int) / (ONE as int)) by (nonlinear_arith)
        requires 0 <= a * b <= a * (ONE as int);
    assert(a * b / (ONE as int) <= (ONE as int) * b / (ONE as int)) by (nonlinear_arith)
        requires a * b <= (ONE as int) * b;
}

fn attenuate_channel(a: u32, b: u32) -> (c: u32)
    requires
        a <= ONE,
        b <= ONE,
    ensures
        c == attenuated(a as int, b as int),
        c <= ONE,
{
    proof {
        lemma_attenuated_bounded(a as int, b as int);
        assert(0 <= (a as int) * (b as int) <= (ONE as int) * (ONE as int)) by (nonlinear_arith)
            requires 0 <= a <= ONE, 0 <= b <= ONE;
    }
    let wide: u64 = (a as u64) * (b as u64) / (ONE as u64);
    wide as u32
}

fn display_channel(c: u32) -> (q: u8)
    requires
        c <= ONE,
    ensures
        is_display_level(c as int, q as int),
        q == display_level(c as int),
{
    let unit: u128 = (ONE as u128) * GAMMA_UNIT * GAMMA_UNIT;
    let target: u128 = (c as u128) * GAMMA_SCALE * GAMMA_SCALE;
    let mut q: u8 = 0;
    let mut done: bool = false;
    while q < 255 && !done
        invariant
            unit == 1_000_000_000_000_000u128,
            target == (c as int) * 65_535_488_001,
            c <= ONE,
            (q as int) * (q as int) * (unit as int) <= target,
            done ==> target < ((q as int) + 1) * ((q as int) + 1) * (unit as int),
        decreases 255 - q + (if done { 0int } else { 1int }),
    {
        let next: u128 = (q as u128) + 1;
        assert(next * next <= 65536) by (nonlinear_arith)
            requires 0 <= next <= 255;
        let square: u128 = next * next;
        if square * unit <= target {
            q = q + 1;
        } else {
            done = true;
        }
    }
    proof {
        assert(((q as int) + 1) * ((q as int) + 1) <= 65536) by (nonlinear_arith)
            requires 0 <= q <= 255;
        if q == 255 {
            assert(((q as int) + 1) * ((q as int) + 1) == 65536) by (nonlinear_arith)
                requires q == 255;
        }
        assert((q as int) * (q as int) * (ONE as int) * (GAMMA_UNIT as int) * (GAMMA_UNIT as int)
            == (q as int) * (q as int) * (unit as int)) by (nonlinear_arith)
            requires unit == (ONE as int) * (GAMMA_UNIT as int) * (GAMMA_UNIT as int);
        assert(((q as int) + 1) * ((q as int) + 1) * (ONE as int) * (GAMMA_UNIT as int) * (GAMMA_UNIT as int)
            == ((q as int) + 1) * ((q as int) + 1) * (unit as int)) by (nonlinear_arith)
            requires unit == (ONE as int) * (GAMMA_UNIT as int) * (GAMMA_UNIT as int);
        lemma_display_level_unique(c as int, q as int, q as int);
    }
    q
}

impl Color {
    /// What holds of every color: no channel is brighter than full
    /// intensity.
    #[verifier::type_invariant]
    pub open spec fn well_formed(self) -> bool {
        self@.in_unit()
    }

    /// The color with the given channels, or `None` where a channel is
    /// brighter than full intensity.
    pub fn new(r: u32, g: u32, b: u32) -> (c: Option<Color>)
        ensures
            c.is_some() <==> (r <= ONE && g <= ONE && b <= ONE),
            c matches Some(col) ==> col@ == (Rgb { r: r as int, g: g as int, b: b as int }),
    {
        if r <= ONE && g <= ONE && b <= ONE {
            Some(Color { r, g, b })
        } else {
            None
        }
    }

    /// The color of full intensity in every channel.
    pub closed spec fn full() -> Color {
        Color { r: ONE, g: ONE, b: ONE }
    }

    /// The channels of the color of full intensity.
    pub proof fn lemma_full()
        ensures
            Color::full()@ == (Rgb { r: ONE as int, g: ONE as int, b: ONE as int }),
    {
    }

    /// Full intensity in every channel: the neutral element of attenuation.
    pub fn white() -> (c: Color)
        ensures
            c == Color::full(),
            c@ == (Rgb { r: ONE as int, g: ONE as int, b: ONE as int }),
    {
        Color { r: ONE, g: ONE, b: ONE }
    }

    /// No light at all.
    pub fn black() -> (c: Color)
        ensures
            c@ == (Rgb { r: 0, g: 0, b: 0 }),
    {
        Color { r: 0, g: 0, b: 0 }
    }

    /// The red channel.
    pub fn red(&self) -> (v: u32)
        ensures
            v == self@.r,
            v <= ONE,
    {
        proof { use_type_invariant(self); }
        self.r
    }

    /// The green channel.
    pub fn green(&self) -> (v: u32)
        ensures
            v == self@.g,
            v <= ONE,
    {
        proof { use_type_invariant(self); }
        self.g
    }

    /// The blue channel.
    pub fn blue(&self) -> (v: u32)
        ensures
            v == self@.b,
            v <= ONE,
    {
        proof { use_type_invariant(self); }
        self.b
    }

    /// Attenuation: the channel-wise product of the two colors.
    pub fn mul(self, other: Color) -> (c: Color)
        ensures
            c@ == (Rgb {
                r: attenuated(self@.r, other@.r),
                g: attenuated(self@.g, other@.g),
                b: attenuated(self@.b, other@.b),
            }),
            c@.in_unit(),
    {
        proof {
            use_type_invariant(&self);
            use_type_invariant(&other);
            lemma_attenuated_bounded(self.r as int, other.r as int);
            lemma_attenuated_bounded(self.g as int, other.g as int);
            lemma_attenuated_bounded(self.b as int, other.b as int);
        }
        Color {
            r: attenuate_channel(self.r, other.r),
            g: attenuate_channel(self.g, other.g),
            b: attenuate_channel(self.b, other.b),
        }
    }

    /// The channel-wise mean of `colors`, rounded down; black where `colors`
    /// is empty.
    pub fn mean(colors: &Vec<Color>) -> (c: Color)
        ensures
            c@ == mean_of(colors@),
            c@.in_unit(),
    {
        let n: usize = colors.len();
        if n == 0 {
            return Color::black();
        }
        let mut r: u128 = 0;
        let mut g: u128 = 0;
        let mut b: u128 = 0;
        let mut i: usize = 0;
        while i < n
            invariant
                n == colors.len(),
                i <= n,
                r == sum_r(colors@.take(i as int)),
                g == sum_g(colors@.take(i as int)),
                b == sum_b(colors@.take(i as int)),
                r <= i * ONE,
                g <= i * ONE,
                b <= i * ONE,
            decreases n - i,
        {
            let col: Color = colors[i];
            proof {
                use_type_invariant(&col);
                assert(colors@.take(i + 1).drop_last() == colors@.take(i as int));
                assert((i + 1) * ONE == i * ONE + ONE) by (nonlinear_arith);
                assert(i * ONE <= 0xffff_ffff_ffff_ffff * 1_000_000_000) by (nonlinear_arith)
                    requires i <= 0xffff_ffff_ffff_ffff, ONE == 1_000_000_000;
            }
            r = r + col.r as u128;
            g = g + col.g as u128;
            b = b + col.b as u128;
            i = i + 1;
        }
        proof {
            assert(colors@.take(n as int) == colors@);
            assert(r / (n as u128) <= ONE) by (nonlinear_arith)
                requires r <= n * ONE, n > 0;
            assert(g / (n as u128) <= ONE) by (nonlinear_arith)
                requires g <= n * ONE, n > 0;
            assert(b / (n as u128) <= ONE) by (nonlinear_arith)
                requires b <= n * ONE, n > 0;
        }
        Color { r: (r / n as u128) as u32, g: (g / n as u128) as u32, b: (b / n as u128) as u32 }
    }

    /// The display encoding of the color: each channel is gamma-encoded by a
    /// square root and quantized to `floor(sqrt(x) * 255.999)`.
    pub fn quantized(&self) -> (q: (u8, u8, u8))
        ensures
            q.0 == display_level(self@.r),
            q.1 == display_level(self@.g),
            q.2 == display_level(self@.b),
            is_display_level(self@.r, q.0 as int),
            is_display_level(self@.g, q.1 as int),
            is_display_level(self@.b, q.2 as int),
    {
        proof { use_type_invariant(self); }
        (display_channel(self.r), display_channel(self.g), display_channel(self.b))
    }
}

} // verus!
