use vstd::math::abs;
use vstd::prelude::*;

use crate::data::{
    class_max, class_min, in_class, ints_of, quot, quot_exec, DataHolder, NumClass,
};

verus! {

/// Number of ticks in one unit: beats, cycles and amplitudes are fixed-point
/// numbers with 16 fractional bits.
pub const FIXED_ONE: u64 = 65536;

/// The waveform an oscillator produces over one cycle.
#[derive(Clone, Copy, Debug, PartialEq, Eq, Structural)]
pub enum LfoType {
    Square,
    Triangle,
    Saw,
    Sine,
}

/// A tempo-relative oscillator.
///
/// One cycle lasts `denominator / numerator` beats. `phase` shifts the cycle,
/// in ticks of a cycle; `amplitude` scales the output, in ticks.
#[derive(Clone, Copy, Debug, PartialEq, Eq, Structural)]
pub struct Lfo {
    pub lfo_type: LfoType,
    pub numerator: u32,
    pub denominator: u32,
    pub phase: u32,
    pub amplitude: i32,
    pub signed: bool,
}

/// Integer division of `a` by a positive `b`, rounded toward zero.
pub open spec fn trunc_div(a: int, b: int) -> int {
    if a >= 0 {
        a / b
    } else {
        -((-a) / b)
    }
}

/// Position inside the current cycle, in ticks of a cycle: the fractional part
/// of `beat * numerator / denominator + phase`, where `beat` is given in ticks
/// of a beat and may be negative; the fractional part is taken the Euclidean
/// way, so it always lies in `[0, 1)`.
pub open spec fn cursor_of(l: Lfo, beat: int) -> int {
    ((beat * l.numerator + l.phase * l.denominator) % (FIXED_ONE * l.denominator)) / (
    l.denominator as int)
}

/// Half of the sine bump for a cursor `h` in the first half cycle, by the
/// rational approximation `sin(x) ~ 16x(pi - x) / (5 pi^2 - 4x(pi - x))`,
/// which is off from the sine by at most 0.0017 (so the shape by at most
/// 0.0009 of a unit); in ticks, between 0 and half a unit.
pub open spec fn sine_bump(h: int) -> int {
    let u = h * (FIXED_ONE - 2 * h);
    (16 * u * FIXED_ONE) / (5 * FIXED_ONE * FIXED_ONE - 8 * u)
}

/// Value of a shape at cursor `c`, in ticks, between 0 and one unit.
pub open spec fn shape_value(shape: LfoType, c: int) -> int {
    let half = FIXED_ONE / 2;
    match shape {
        LfoType::Square => if c >= half {
            FIXED_ONE as int
        } else {
            0
        },
        LfoType::Triangle => if 2 * c >= FIXED_ONE {
            2 * FIXED_ONE - 2 * c
        } else {
            2 * c
        },
        LfoType::Saw => c,
        LfoType::Sine => if c < half {
            half + sine_bump(c)
        } else {
            half - sine_bump(c - half)
        },
    }
}

/// Shape value after the sign convention: `2v - 1` when signed.
pub open spec fn signed_value(l: Lfo, v: int) -> int {
    if l.signed {
        2 * v - FIXED_ONE
    } else {
        v
    }
}

/// Output of the oscillator at `beat`, in ticks.
pub open spec fn sample(l: Lfo, beat: int) -> int {
    trunc_div(
        signed_value(l, shape_value(l.lfo_type, cursor_of(l, beat))) * l.amplitude,
        FIXED_ONE as int,
    )
}

proof fn lemma_sine_bump_bounds(h: int)
    requires
        0 <= h <= FIXED_ONE / 2,
    ensures
        0 <= sine_bump(h) <= FIXED_ONE / 2,
        0 <= h * (FIXED_ONE - 2 * h) <= FIXED_ONE * FIXED_ONE / 8,
{
    let u = h * (FIXED_ONE - 2 * h);
    let one = FIXED_ONE as int;
    assert(0 <= u <= one * one / 8) by (nonlinear_arith)
        requires
            u == h * (one - 2 * h),
            0 <= h <= one / 2,
            one == 65536,
    ;
    let den = 5 * one * one - 8 * u;
    assert(den > 0);
    assert(16 * u * one <= (one / 2) * den) by (nonlinear_arith)
        requires
            den == 5 * one * one - 8 * u,
            0 <= u <= one * one / 8,
            one == 65536,
    ;
    assert(0 <= 16 * u * one) by (nonlinear_arith)
        requires
            0 <= u,
            one == 65536,
    ;
    assert((16 * u * one) / den <= one / 2) by (nonlinear_arith)
        requires
            16 * u * one <= (one / 2) * den,
            den > 0,
            0 <= 16 * u * one,
    ;
}

/// Every shape stays between 0 and one unit.
pub proof fn lemma_shape_bounds(shape: LfoType, c: int)
    requires
        0 <= c < FIXED_ONE,
    ensures
        0 <= shape_value(shape, c) <= FIXED_ONE,
{
    if c < FIXED_ONE / 2 {
        lemma_sine_bump_bounds(c);
    } else {
        lemma_sine_bump_bounds(c - FIXED_ONE / 2);
    }
}

proof fn lemma_cursor_bounds(l: Lfo, beat: int)
    requires
        l.valid(),
    ensures
        0 <= cursor_of(l, beat) < FIXED_ONE,
{
    let d = l.denominator as int;
    let period = FIXED_ONE * d;
    let pos = beat * l.numerator + l.phase * l.denominator;
    vstd::arithmetic::div_mod::lemma_mod_bound(pos, period);
    let c = pos % period;
    assert(0 <= c / d < FIXED_ONE) by (nonlinear_arith)
        requires
            0 <= c < period,
            period == FIXED_ONE * d,
            d > 0,
    ;
}

/// An oscillator repeats itself: two beats whose ramps `beat * numerator`
/// differ by a whole number of periods (`FIXED_ONE * denominator` ticks, so
/// `k * denominator / numerator` beats) give the same output.
pub proof fn lemma_sample_periodic(l: Lfo, b1: int, b2: int, k: int)
    requires
        l.valid(),
        b2 * l.numerator == b1 * l.numerator + k * (FIXED_ONE * l.denominator),
    ensures
        sample(l, b2) == sample(l, b1),
        cursor_of(l, b2) == cursor_of(l, b1),
{
    let period = FIXED_ONE * l.denominator;
    let pos1 = b1 * l.numerator + l.phase * l.denominator;
    let pos2 = b2 * l.numerator + l.phase * l.denominator;
    assert(pos2 == period * k + pos1) by (nonlinear_arith)
        requires
            pos1 == b1 * l.numerator + l.phase * l.denominator,
            pos2 == b2 * l.numerator + l.phase * l.denominator,
            b2 * l.numerator == b1 * l.numerator + k * period,
    ;
    vstd::arithmetic::div_mod::lemma_mod_multiples_vanish(k, pos1, period);
}

/// The output lies between `-|amplitude|` and `|amplitude|` when signed, and
/// between 0 and `amplitude` when unsigned.
pub proof fn lemma_sample_range(l: Lfo, beat: int)
    requires
        l.valid(),
    ensures
        l.signed ==> -abs(l.amplitude as int) <= sample(l, beat) <= abs(l.amplitude as int),
        !l.signed && l.amplitude >= 0 ==> 0 <= sample(l, beat) <= l.amplitude,
        !l.signed && l.amplitude < 0 ==> l.amplitude <= sample(l, beat) <= 0,
{
    lemma_cursor_bounds(l, beat);
    let c = cursor_of(l, beat);
    lemma_shape_bounds(l.lfo_type, c);
    let v = shape_value(l.lfo_type, c);
    let s = signed_value(l, v);
    let a = l.amplitude as int;
    let one = FIXED_ONE as int;
    let p = s * a;
    if l.signed {
        assert(-one <= s <= one);
        assert(-abs(a) * one <= p <= abs(a) * one) by (nonlinear_arith)
            requires
                -one <= s <= one,
                p == s * a,
                one > 0,
        ;
    } else {
        assert(0 <= s <= one);
        if a >= 0 {
            assert(0 <= p <= a * one) by (nonlinear_arith)
                requires
                    0 <= s <= one,
                    p == s * a,
                    a >= 0,
            ;
        } else {
            assert(a * one <= p <= 0) by (nonlinear_arith)
                requires
                    0 <= s <= one,
                    p == s * a,
                    a < 0,
            ;
        }
    }
    assert(-abs(a) * one <= p <= abs(a) * one) by (nonlinear_arith)
        requires
            -one <= s <= one,
            p == s * a,
            one > 0,
    ;
    lemma_trunc_div_bounds(p, one, abs(a) as int);
}

proof fn lemma_trunc_div_bounds(p: int, one: int, m: int)
    requires
        one > 0,
        m >= 0,
        -m * one <= p <= m * one,
    ensures
        -m <= trunc_div(p, one) <= m,
        p >= 0 ==> 0 <= trunc_div(p, one) <= p / one,
        p <= 0 ==> trunc_div(p, one) <= 0,
        (p >= 0 && p <= m * one) ==> trunc_div(p, one) <= m,
        (p <= 0 && -m * one <= p) ==> -m <= trunc_div(p, one),
{
    assert(-m * one == -(m * one)) by (nonlinear_arith);
    if p >= 0 {
        assert(0 <= p / one <= m) by (nonlinear_arith)
            requires
                0 <= p <= m * one,
                one > 0,
        ;
    } else {
        assert(0 <= (-p) / one <= m) by (nonlinear_arith)
            requires
                0 <= -p <= m * one,
                one > 0,
        ;
    }
}

proof fn lemma_sine_bump_step(h: int)
    requires
        0 <= h,
        h + 1 <= FIXED_ONE / 2,
    ensures
        -5 <= sine_bump(h + 1) - sine_bump(h) <= 5,
{
    let o = FIXED_ONE as int;
    let u0 = h * (o - 2 * h);
    let u1 = (h + 1) * (o - 2 * (h + 1));
    lemma_sine_bump_bounds(h);
    lemma_sine_bump_bounds(h + 1);
    let d0 = 5 * o * o - 8 * u0;
    let d1 = 5 * o * o - 8 * u1;
    let n0 = 16 * u0 * o;
    let n1 = 16 * u1 * o;
    assert(u1 - u0 == o - 4 * h - 2) by (nonlinear_arith)
        requires
            u0 == h * (o - 2 * h),
            u1 == (h + 1) * (o - 2 * (h + 1)),
    ;
    assert(-o <= u1 - u0 <= o);
    assert(n1 * d0 - n0 * d1 == 80 * o * o * o * (u1 - u0)) by (nonlinear_arith)
        requires
            d0 == 5 * o * o - 8 * u0,
            d1 == 5 * o * o - 8 * u1,
            n0 == 16 * u0 * o,
            n1 == 16 * u1 * o,
    ;
    assert(d0 >= 4 * o * o && d1 >= 4 * o * o);
    assert(d0 * d1 >= 16 * o * o * o * o) by (nonlinear_arith)
        requires
            d0 >= 4 * o * o,
            d1 >= 4 * o * o,
            o > 0,
    ;
    assert(-80 * o * o * o * o <= 80 * o * o * o * (u1 - u0) <= 80 * o * o * o * o)
        by (nonlinear_arith)
        requires
            -o <= u1 - u0 <= o,
            o > 0,
    ;
    let q0 = n0 / d0;
    let q1 = n1 / d1;
    assert(q0 * d0 <= n0 < (q0 + 1) * d0) by (nonlinear_arith)
        requires
            q0 == n0 / d0,
            d0 > 0,
    ;
    assert(q1 * d1 <= n1 < (q1 + 1) * d1) by (nonlinear_arith)
        requires
            q1 == n1 / d1,
            d1 > 0,
    ;
    assert(q1 < q0 + 6) by (nonlinear_arith)
        requires
            q0 * d0 <= n0 < (q0 + 1) * d0,
            q1 * d1 <= n1 < (q1 + 1) * d1,
            n1 * d0 - n0 * d1 <= 5 * (d0 * d1),
            d0 > 0,
            d1 > 0,
    ;
    assert(q0 < q1 + 6) by (nonlinear_arith)
        requires
            q0 * d0 <= n0 < (q0 + 1) * d0,
            q1 * d1 <= n1 < (q1 + 1) * d1,
            n0 * d1 - n1 * d0 <= 5 * (d0 * d1),
            d0 > 0,
            d1 > 0,
    ;
}

/// Triangle and Sine are continuous: from one tick of the cycle to the next,
/// across the end of the cycle too, Triangle moves by at most 2 ticks and Sine
/// by at most 5; Square jumps by a whole unit at half the cycle.
pub proof fn lemma_shape_continuity(c: int)
    requires
        0 <= c,
        c + 1 < FIXED_ONE,
    ensures
        abs(shape_value(LfoType::Triangle, c + 1) - shape_value(LfoType::Triangle, c)) <= 2,
        abs(shape_value(LfoType::Triangle, 0) - shape_value(LfoType::Triangle, FIXED_ONE - 1))
            <= 2,
        abs(shape_value(LfoType::Sine, c + 1) - shape_value(LfoType::Sine, c)) <= 5,
        abs(shape_value(LfoType::Sine, 0) - shape_value(LfoType::Sine, FIXED_ONE - 1)) <= 5,
        shape_value(LfoType::Square, FIXED_ONE / 2 - 1) == 0,
        shape_value(LfoType::Square, (FIXED_ONE / 2) as int) == FIXED_ONE,
{
    let half = FIXED_ONE / 2;
    assert(sine_bump(0) == 0);
    assert((half as int) * (FIXED_ONE - 2 * (half as int)) == 0) by (nonlinear_arith)
        requires
            half == 32768,
    ;
    assert(sine_bump(half as int) == 0);
    if c + 1 <= half {
        lemma_sine_bump_step(c);
    } else {
        lemma_sine_bump_step(c - half);
    }
    lemma_sine_bump_step(half - 1);
}

fn sine_bump_exec(h: u64) -> (r: u64)
    requires
        h <= FIXED_ONE / 2,
    ensures
        r == sine_bump(h as int),
        r <= FIXED_ONE / 2,
{
    proof {
        lemma_sine_bump_bounds(h as int);
    }
    let u: u64 = h * (FIXED_ONE - 2 * h);
    assert(16 * u * FIXED_ONE <= 16 * (FIXED_ONE * FIXED_ONE / 8) * FIXED_ONE) by (nonlinear_arith)
        requires
            u <= FIXED_ONE * FIXED_ONE / 8,
    ;
    (16 * u * FIXED_ONE) / (5 * FIXED_ONE * FIXED_ONE - 8 * u)
}

impl LfoType {
    /// Value of this shape at cursor `c` (ticks of a cycle), in ticks.
    pub fn value_at(self, c: u64) -> (r: u64)
        requires
            c < FIXED_ONE,
        ensures
            r == shape_value(self, c as int),
            r <= FIXED_ONE,
    {
        proof {
            lemma_shape_bounds(self, c as int);
        }
        let half: u64 = FIXED_ONE / 2;
        match self {
            LfoType::Square => if c >= half {
                FIXED_ONE
            } else {
                0
            },
            LfoType::Triangle => if 2 * c >= FIXED_ONE {
                2 * FIXED_ONE - 2 * c
            } else {
                2 * c
            },
            LfoType::Saw => c,
            LfoType::Sine => if c < half {
                half + sine_bump_exec(c)
            } else {
                half - sine_bump_exec(c - half)
            },
        }
    }
}

impl Lfo {
    /// An oscillator can be sampled only with a positive denominator.
    pub open spec fn valid(&self) -> bool {
        self.denominator > 0
    }

    /// Whether this oscillator's period is well defined; configurations are
    /// checked with it before any sampling.
    pub fn is_valid(&self) -> (r: bool)
        ensures
            r == self.valid(),
    {
        self.denominator > 0
    }

    /// Position inside the current cycle at `beat` (ticks of a beat, possibly
    /// negative), in
    /// ticks of a cycle.
    pub fn cursor(&self, beat: i64) -> (r: u64)
        requires
            self.valid(),
        ensures
            r == cursor_of(*self, beat as int),
            r < FIXED_ONE,
    {
        let n = self.numerator as i128;
        let d = self.denominator as i128;
        let ghost lim: int = 0x8000_0000_0000_0000_0000_0000;
        assert(-lim <= beat as i128 * n <= lim) by (nonlinear_arith)
            requires
                0 <= n <= 0xffff_ffff,
                i64::MIN <= beat <= i64::MAX,
                lim == 0x8000_0000_0000_0000_0000_0000,
        ;
        assert(0 <= self.phase as i128 * d <= 0xffff_ffffi128 * 0xffff_ffffi128) by (nonlinear_arith)
            requires
                0 <= d <= 0xffff_ffff,
                0 <= self.phase <= 0xffff_ffffu32,
        ;
        let pos: i128 = beat as i128 * n + self.phase as i128 * d;
        let period: u128 = FIXED_ONE as u128 * d as u128;
        // a whole number of periods that outweighs any negative ramp
        let lift: u128 = period * 0x8000_0000_0000_0000_0000u128;
        assert(lim <= lift < 0x8000_0000_0000_0000_0000_0000_0000_0000) by (nonlinear_arith)
            requires
                1 <= d <= 0xffff_ffff,
                period == 65536 * d,
                lift == period * 0x8000_0000_0000_0000_0000,
                lim == 0x8000_0000_0000_0000_0000_0000,
        ;
        let shifted: u128 = if pos >= 0 {
            pos as u128 + lift
        } else {
            lift - (-pos) as u128
        };
        assert(shifted == period * 0x8000_0000_0000_0000_0000int + pos);
        proof {
            vstd::arithmetic::div_mod::lemma_mod_multiples_vanish(
                0x8000_0000_0000_0000_0000int,
                pos as int,
                period as int,
            );
        }
        let du = d as u128;
        let c: u128 = shifted % period;
        let r = c / du;
        assert(r < FIXED_ONE) by (nonlinear_arith)
            requires
                c < period,
                period == FIXED_ONE * du,
                du > 0,
                r == c / du,
        ;
        r as u64
    }

    /// Output of the oscillator at `beat` (ticks of a beat), in ticks.
    pub fn get_amplitude(&self, beat: i64) -> (r: i64)
        requires
            self.valid(),
        ensures
            r == sample(*self, beat as int),
    {
        let c = self.cursor(beat);
        let v = self.lfo_type.value_at(c) as i64;
        let s: i64 = if self.signed {
            2 * v - FIXED_ONE as i64
        } else {
            v
        };
        let a = self.amplitude as i64;
        assert(-0x1_0000_0000_0000i64 <= s * a <= 0x1_0000_0000_0000i64) by (nonlinear_arith)
            requires
                -65536 <= s <= 65536,
                -0x8000_0000 <= a <= 0x8000_0000,
        ;
        let p = s * a;
        if p >= 0 {
            p / FIXED_ONE as i64
        } else {
            -((-p) / FIXED_ONE as i64)
        }
    }
}

/// A modulation of a value: no change, or one oscillator per component (a
/// single oscillator drives every component).
#[derive(Clone, Copy, Debug, PartialEq, Eq, Structural)]
pub enum Automation {
    Lfo(Lfo),
    Lfo2d(Lfo, Lfo),
    Lfo3d(Lfo, Lfo, Lfo),
    Lfo4d(Lfo, Lfo, Lfo, Lfo),
    Off,
}

/// `x` brought into `[lo, hi]`.
pub open spec fn clamp(x: int, lo: int, hi: int) -> int {
    if x < lo {
        lo
    } else if x > hi {
        hi
    } else {
        x
    }
}

/// The offset that component `i` of a value with `n` components receives:
/// its own when there is one oscillator per component, else the first.
pub open spec fn offset_at(offsets: Seq<int>, n: int, i: int) -> int {
    if offsets.len() == n {
        offsets[i]
    } else {
        offsets[0]
    }
}

/// A component moved by an offset (in ticks): fixed-point components add it,
/// integer components add it rounded toward zero to whole units; the sum
/// saturates at the component's range.
pub open spec fn shift(c: NumClass, x: int, offset: int) -> int {
    match c {
        NumClass::Fixed => clamp(x + offset, class_min(c), class_max(c)),
        _ => clamp(x + quot(offset, FIXED_ONE as int), class_min(c), class_max(c)),
    }
}

/// A bool under modulation: forced true while the offset is above one half,
/// and false whenever the offset is not positive.
pub open spec fn latch(b: bool, offset: int) -> bool {
    (b || offset > FIXED_ONE / 2) && offset > 0
}

pub open spec fn shifted(c: NumClass, comps: Seq<int>, offsets: Seq<int>) -> Seq<int> {
    Seq::new(comps.len(), |i: int| shift(c, comps[i], offset_at(offsets, comps.len() as int, i)))
}

impl Automation {
    /// The oscillators, in component order.
    pub open spec fn oscillators(self) -> Seq<Lfo> {
        match self {
            Automation::Lfo(x) => seq![x],
            Automation::Lfo2d(x, y) => seq![x, y],
            Automation::Lfo3d(x, y, z) => seq![x, y, z],
            Automation::Lfo4d(x, y, z, w) => seq![x, y, z, w],
            Automation::Off => Seq::empty(),
        }
    }

    pub open spec fn valid(self) -> bool {
        forall|i: int| 0 <= i < self.oscillators().len() ==> (#[trigger] self.oscillators()[i]).valid()
    }

    /// Each oscillator's output at `beat`, in component order.
    pub open spec fn offsets(self, beat: int) -> Seq<int> {
        self.oscillators().map_values(|l: Lfo| sample(l, beat))
    }

    /// The components of the modulated value, or `None` where nothing is
    /// applied: no oscillator, or a kind with no rule (strings, arrays,
    /// matrices, textures).
    pub open spec fn applied(self, value: DataHolder, beat: int) -> Option<Seq<int>> {
        let c = value.kind().class();
        if self is Off || c == NumClass::Other {
            None
        } else if c == NumClass::Bool {
            Some(
                seq![
                    if latch(value->Bool_0, self.offsets(beat)[0]) {
                        1int
                    } else {
                        0int
                    },
                ],
            )
        } else {
            Some(shifted(c, value.components(), self.offsets(beat)))
        }
    }

    /// Whether this automation applies nothing.
    pub fn is_none(&self) -> (r: bool)
        ensures
            r == (*self is Off),
    {
        matches!(self, Automation::Off)
    }

    /// Whether every oscillator can be sampled.
    pub fn is_valid(&self) -> (r: bool)
        ensures
            r == self.valid(),
    {
        let r = match self {
            Automation::Lfo(x) => x.is_valid(),
            Automation::Lfo2d(x, y) => x.is_valid() && y.is_valid(),
            Automation::Lfo3d(x, y, z) => x.is_valid() && y.is_valid() && z.is_valid(),
            Automation::Lfo4d(x, y, z, w) => x.is_valid() && y.is_valid() && z.is_valid()
                && w.is_valid(),
            Automation::Off => true,
        };
        proof {
            let o = self.oscillators();
            if !r {
                if o.len() >= 1 && !o[0].valid() {
                } else if o.len() >= 2 && !o[1].valid() {
                } else if o.len() >= 3 && !o[2].valid() {
                } else {
                    assert(!o[3].valid());
                }
            }
        }
        r
    }

    /// Each oscillator's output at `beat`, in component order.
    pub fn sample_offsets(&self, beat: i64) -> (r: Vec<i64>)
        requires
            self.valid(),
        ensures
            ints_of(r@) == self.offsets(beat as int),
    {
        let ghost o = self.oscillators();
        let r = match self {
            Automation::Lfo(x) => {
                assert(o[0].valid());
                vec![x.get_amplitude(beat)]
            },
            Automation::Lfo2d(x, y) => {
                assert(o[0].valid() && o[1].valid());
                vec![x.get_amplitude(beat), y.get_amplitude(beat)]
            },
            Automation::Lfo3d(x, y, z) => {
                assert(o[0].valid() && o[1].valid() && o[2].valid());
                vec![x.get_amplitude(beat), y.get_amplitude(beat), z.get_amplitude(beat)]
            },
            Automation::Lfo4d(x, y, z, w) => {
                assert(o[0].valid() && o[1].valid() && o[2].valid() && o[3].valid());
                vec![
                    x.get_amplitude(beat),
                    y.get_amplitude(beat),
                    z.get_amplitude(beat),
                    w.get_amplitude(beat),
                ]
            },
            Automation::Off => Vec::new(),
        };
        assert(ints_of(r@) =~= self.offsets(beat as int));
        r
    }

    /// The value modulated at `beat`, or `None` where nothing is applied.
    pub fn apply(&self, value: &DataHolder, beat: i64) -> (r: Option<DataHolder>)
        requires
            self.valid(),
        ensures
            *self is Off ==> r is None,
            r is None <==> self.applied(*value, beat as int) is None,
            r matches Some(v) ==> v.kind() == value.kind() && self.applied(*value, beat as int)
                == Some(v.components()),
    {
        if self.is_none() {
            return None;
        }
        let kind = value.data_kind();
        let class = kind.num_class();
        if class == NumClass::Other {
            return None;
        }
        let offsets = self.sample_offsets(beat);
        let ghost offs = self.offsets(beat as int);
        assert(offs.len() >= 1);
        assert(ints_of(offsets@)[0] == offsets@[0]);
        if class == NumClass::Bool {
            let b = match value {
                DataHolder::Bool(b) => *b,
                _ => false,
            };
            let o = offsets[0];
            let r = DataHolder::Bool((b || o > (FIXED_ONE / 2) as i64) && o > 0);
            assert(r.components() =~= self.applied(*value, beat as int)->Some_0);
            return Some(r);
        }
        let comps = value.component_values();
        let n = comps.len();
        let mut out: Vec<i64> = Vec::new();
        let mut i: usize = 0;
        while i < n
            invariant
                0 <= i <= n,
                n == comps@.len(),
                n == kind.arity(),
                ints_of(comps@) == value.components(),
                ints_of(offsets@) == offs,
                offs.len() >= 1,
                class == kind.class(),
                class == NumClass::Fixed || class == NumClass::Int,
                out@.len() == i,
                forall|j: int|
                    0 <= j < i ==> ints_of(out@)[j] == #[trigger] shifted(
                        class,
                        value.components(),
                        offs,
                    )[j],
                in_class(class, ints_of(out@)),
            decreases n - i,
        {
            let k: usize = if offsets.len() == n {
                i
            } else {
                0
            };
            assert(ints_of(offsets@)[k as int] == offsets@[k as int]);
            assert(ints_of(comps@)[i as int] == comps@[i as int]);
            let x = comps[i] as i128;
            let o = offsets[k] as i128;
            let moved: i128 = if class == NumClass::Fixed {
                x + o
            } else {
                x + quot_exec(o, FIXED_ONE as i128)
            };
            let (lo, hi): (i128, i128) = if class == NumClass::Fixed {
                (i64::MIN as i128, i64::MAX as i128)
            } else {
                (i32::MIN as i128, i32::MAX as i128)
            };
            let v: i64 = if moved < lo {
                lo as i64
            } else if moved > hi {
                hi as i64
            } else {
                moved as i64
            };
            let ghost prev = out@;
            out.push(v);
            assert(ints_of(out@) =~= ints_of(prev).push(v as int));
            i = i + 1;
        }
        assert(ints_of(out@) =~= shifted(class, value.components(), offs));
        Some(DataHolder::from_components(kind, &out))
    }
}

/// An automation without oscillators applies nothing, whatever the value and
/// the beat.
pub proof fn lemma_none_applies_nothing(value: DataHolder, beat: int)
    ensures
        Automation::Off.applied(value, beat) is None,
{
}

/// A single oscillator applied to a four-component float vector moves all
/// four components by the same offset, its output at that beat (exactly,
/// wherever the sum stays in range; saturated otherwise).
pub proof fn lemma_single_oscillator_broadcasts(o: Lfo, v: [i64; 4], beat: int)
    ensures
        Automation::Lfo(o).applied(DataHolder::Float4(v), beat) matches Some(s) && s.len() == 4
            && forall|i: int|
            0 <= i < 4 ==> #[trigger] s[i] == shift(NumClass::Fixed, v[i] as int, sample(o, beat)),
        forall|i: int|
            0 <= i < 4 && i64::MIN <= v[i] + sample(o, beat) <= i64::MAX ==> #[trigger] Automation::Lfo(
                o,
            ).applied(DataHolder::Float4(v), beat)->Some_0[i] == v[i] + sample(o, beat),
{
    let s = Automation::Lfo(o).applied(DataHolder::Float4(v), beat)->Some_0;
    assert(DataHolder::Float4(v).components().len() == 4);
    assert forall|i: int| 0 <= i < 4 implies #[trigger] s[i] == shift(
        NumClass::Fixed,
        v[i] as int,
        sample(o, beat),
    ) by {
        assert(DataHolder::Float4(v).components()[i] == v[i] as int);
    }
}

/// Three oscillators applied to a three-component float vector move each
/// component by its own oscillator's output, independently of the others
/// (exactly, wherever the sum stays in range; saturated otherwise).
pub proof fn lemma_oscillators_per_axis(o1: Lfo, o2: Lfo, o3: Lfo, v: [i64; 3], beat: int)
    ensures
        i64::MIN <= v[0] + sample(o1, beat) <= i64::MAX ==> Automation::Lfo3d(o1, o2, o3).applied(
            DataHolder::Float3(v),
            beat,
        )->Some_0[0] == v[0] + sample(o1, beat),
        i64::MIN <= v[1] + sample(o2, beat) <= i64::MAX ==> Automation::Lfo3d(o1, o2, o3).applied(
            DataHolder::Float3(v),
            beat,
        )->Some_0[1] == v[1] + sample(o2, beat),
        i64::MIN <= v[2] + sample(o3, beat) <= i64::MAX ==> Automation::Lfo3d(o1, o2, o3).applied(
            DataHolder::Float3(v),
            beat,
        )->Some_0[2] == v[2] + sample(o3, beat),
        Automation::Lfo3d(o1, o2, o3).applied(DataHolder::Float3(v), beat) matches Some(s)
            && s.len() == 3 && s[0] == shift(NumClass::Fixed, v[0] as int, sample(o1, beat))
            && s[1] == shift(NumClass::Fixed, v[1] as int, sample(o2, beat)) && s[2] == shift(
            NumClass::Fixed,
            v[2] as int,
            sample(o3, beat),
        ),
{
    let a = Automation::Lfo3d(o1, o2, o3);
    assert(DataHolder::Float3(v).components().len() == 3);
    assert(a.offsets(beat).len() == 3);
    assert(DataHolder::Float3(v).components()[0] == v[0] as int);
    assert(DataHolder::Float3(v).components()[1] == v[1] as int);
    assert(DataHolder::Float3(v).components()[2] == v[2] as int);
}

} // verus!
