//! Time values: finite, non-negative binary64 numbers, kept as their bit
//! pattern beside the text that writes them.
//!
//! A finite pattern stands for a whole number of units of 2^-1074, the smallest
//! positive binary64 number. Comparisons are stated over those whole numbers;
//! subtraction rounds to the nearest representable number, ties to the even one.
use vstd::arithmetic::div_mod::{
    lemma_fundamental_div_mod, lemma_fundamental_div_mod_converse,
};
use vstd::arithmetic::mul::{lemma_mul_basics, lemma_mul_is_associative};
use vstd::arithmetic::power2::{
    lemma2_to64, lemma2_to64_rest, lemma_pow2_adds, lemma_pow2_pos,
    lemma_pow2_strictly_increases, pow2,
};
use vstd::prelude::*;

verus! {

/// A number of seconds.
pub struct Seconds {
    /// The binary64 bit pattern: sign, eleven exponent bits, fifty-two fraction bits.
    pub bits: u64,
    /// The number as it is written into documents.
    pub text: String,
}

/// What a [`Seconds`] denotes.
pub struct SecondsView {
    pub bits: u64,
    pub text: Seq<char>,
}

impl DeepView for Seconds {
    type V = SecondsView;

    open spec fn deep_view(&self) -> SecondsView {
        SecondsView { bits: self.bits, text: self.text@ }
    }
}

/// The weight of the sign bit.
pub const SIGN: u64 = 0x8000_0000_0000_0000;

/// One more than the largest fraction: the weight of the lowest exponent bit.
pub const FRACTION: u64 = 0x10_0000_0000_0000;

/// The pattern of positive infinity: the least that is not finite.
pub const INFINITY: u64 = 0x7ff0_0000_0000_0000;

/// Whether the sign bit is set.
pub open spec fn negative(bits: u64) -> bool {
    bits >= SIGN
}

/// The pattern without its sign bit.
pub open spec fn magnitude(bits: u64) -> int {
    bits as int % SIGN as int
}

/// Whether the pattern stands for a number, rather than infinity or NaN.
pub open spec fn finite(bits: u64) -> bool {
    magnitude(bits) < INFINITY
}

/// Whether the pattern stands for no number at all.
pub open spec fn is_nan(bits: u64) -> bool {
    magnitude(bits) > INFINITY
}

/// Whether the pattern is a finite number that is zero or more.
pub open spec fn non_negative(bits: u64) -> bool {
    finite(bits) && (!negative(bits) || magnitude(bits) == 0)
}

/// The power of two, in units, by which the significand counts.
pub open spec fn scale(magnitude: int) -> nat {
    if magnitude < FRACTION {
        0
    } else {
        (magnitude / FRACTION as int - 1) as nat
    }
}

/// The significand: the fraction, with the implied bit of a normal number.
pub open spec fn significand(magnitude: int) -> nat {
    if magnitude < FRACTION {
        magnitude as nat
    } else {
        (FRACTION + magnitude % FRACTION as int) as nat
    }
}

/// The absolute value of a finite number, in units.
pub open spec fn units(bits: u64) -> nat {
    significand(magnitude(bits)) * pow2(scale(magnitude(bits)))
}

/// The exact distance between two finite numbers, in units.
pub open spec fn distance(a: u64, b: u64) -> int {
    if negative(a) != negative(b) {
        units(a) as int + units(b)
    } else if units(a) >= units(b) {
        units(a) - units(b)
    } else {
        units(b) - units(a)
    }
}

/// Whether `exact` units, rounded to the nearest representable number, are at
/// most the number of the given magnitude. Twice the value is held against
/// twice the midpoint to the next number up; the midpoint itself rounds to the
/// even neighbour.
pub open spec fn rounds_to_at_most(exact: int, bound: int) -> bool {
    let midpoint = (2 * significand(bound) + 1) * pow2(scale(bound));
    2 * exact < midpoint || (2 * exact == midpoint && bound % 2 == 0)
}

/// Whether the rounded absolute difference of `a` and `b` is at most `tolerance`.
/// NaN is within nothing, infinity only within infinity.
pub open spec fn within(a: u64, b: u64, tolerance: u64) -> bool {
    if is_nan(a) || is_nan(b) || is_nan(tolerance) {
        false
    } else if negative(tolerance) && magnitude(tolerance) != 0 {
        false
    } else if !finite(a) || !finite(b) {
        !finite(tolerance) && (finite(a) || finite(b) || negative(a) != negative(b))
    } else if !finite(tolerance) {
        true
    } else {
        rounds_to_at_most(distance(a, b), magnitude(tolerance))
    }
}

/// Whether the rounded absolute difference of `a` and `b` is more than
/// `tolerance`. Where there is no difference, or no tolerance, to compare, it is
/// not more.
pub open spec fn beyond(a: u64, b: u64, tolerance: u64) -> bool {
    &&& !is_nan(a) && !is_nan(b) && !is_nan(tolerance)
    &&& finite(a) || finite(b) || negative(a) != negative(b)
    &&& !within(a, b, tolerance)
}

/// Whether two patterns stand for the same number: the two zeros do, NaN does not.
pub open spec fn equal_numbers(a: u64, b: u64) -> bool {
    !is_nan(a) && !is_nan(b) && (a == b || (magnitude(a) == 0 && magnitude(b) == 0))
}

/// The number a pattern stands for, in units. Infinity counts as the next number
/// after the largest finite one would.
pub open spec fn value(bits: u64) -> int {
    if negative(bits) {
        -(units(bits) as int)
    } else {
        units(bits) as int
    }
}

/// Whether `a` and `b` are numbers and the first is at most the second.
pub open spec fn at_most(a: u64, b: u64) -> bool {
    !is_nan(a) && !is_nan(b) && value(a) <= value(b)
}

/// How two scaled numbers compare.
enum Relation {
    Less,
    Equal,
    Greater,
}

spec fn relation(left: int, right: int) -> Relation {
    if left < right {
        Relation::Less
    } else if left == right {
        Relation::Equal
    } else {
        Relation::Greater
    }
}

/// Doubling moves one power of two from the scale to the number.
proof fn lemma_double(x: nat, s: nat)
    requires
        s > 0,
    ensures
        (2 * x) * pow2((s - 1) as nat) == x * pow2(s),
{
    lemma2_to64();
    lemma_pow2_adds(1, (s - 1) as nat);
    assert((2 * x) * pow2((s - 1) as nat) == x * (2 * pow2((s - 1) as nat))) by (nonlinear_arith);
}

/// Scaling by a power of two does not make a number smaller.
proof fn lemma_scaled_grows(x: nat, s: nat)
    ensures
        x * pow2(s) >= x,
{
    lemma_pow2_pos(s);
    assert(x * pow2(s) >= x) by (nonlinear_arith)
        requires
            pow2(s) >= 1,
    ;
}

/// Compares `x` times two to the `s` with `y`.
fn compare_shifted(x: u128, s: u64, y: u128) -> (result: Relation)
    requires
        y < 0x8000_0000_0000_0000_0000_0000_0000_0000,
    ensures
        result == relation((x as nat * pow2(s as nat)) as int, y as int),
{
    let mut scaled: u128 = x;
    let mut rest: u64 = s;
    while rest > 0
        invariant
            y < 0x8000_0000_0000_0000_0000_0000_0000_0000,
            scaled as nat * pow2(rest as nat) == x as nat * pow2(s as nat),
        decreases rest,
    {
        if scaled > y {
            proof {
                lemma_scaled_grows(scaled as nat, rest as nat);
            }
            return Relation::Greater;
        }
        proof {
            lemma_double(scaled as nat, rest as nat);
        }
        scaled = scaled * 2;
        rest = rest - 1;
    }
    proof {
        lemma2_to64();
        assert(scaled as nat * 1 == scaled);
    }
    if scaled < y {
        Relation::Less
    } else if scaled == y {
        Relation::Equal
    } else {
        Relation::Greater
    }
}

/// A common power of two does not change how two numbers compare.
proof fn lemma_common_scale(x: int, y: int, common: nat)
    ensures
        relation(x * pow2(common), y * pow2(common)) == relation(x, y),
{
    lemma_pow2_pos(common);
    let c = pow2(common) as int;
    assert(c > 0);
    assert(x < y ==> x * c < y * c) by (nonlinear_arith)
        requires
            c > 0,
    ;
    assert(x > y ==> x * c > y * c) by (nonlinear_arith)
        requires
            c > 0,
    ;
}

/// Splits a scale in two.
proof fn lemma_split_scale(x: nat, p: nat, q: nat)
    requires
        p >= q,
    ensures
        x * pow2(p) == (x * pow2((p - q) as nat)) * pow2(q),
{
    lemma_pow2_adds((p - q) as nat, q);
    lemma_mul_is_associative(x as int, pow2((p - q) as nat) as int, pow2(q) as int);
}

/// Compares `x` times two to the `p` with `y` times two to the `q`.
fn compare_scaled(x: u128, p: u64, y: u128, q: u64) -> (result: Relation)
    requires
        x < 0x8000_0000_0000_0000_0000_0000_0000_0000,
        y < 0x8000_0000_0000_0000_0000_0000_0000_0000,
    ensures
        result == relation(
            (x as nat * pow2(p as nat)) as int,
            (y as nat * pow2(q as nat)) as int,
        ),
{
    if p >= q {
        proof {
            lemma_split_scale(x as nat, p as nat, q as nat);
            lemma_common_scale(
                (x as nat * pow2((p - q) as nat)) as int,
                y as int,
                q as nat,
            );
        }
        compare_shifted(x, p - q, y)
    } else {
        proof {
            lemma_split_scale(y as nat, q as nat, p as nat);
            lemma_common_scale(
                x as int,
                (y as nat * pow2((q - p) as nat)) as int,
                p as nat,
            );
        }
        match compare_shifted(y, q - p, x) {
            Relation::Less => Relation::Greater,
            Relation::Equal => Relation::Equal,
            Relation::Greater => Relation::Less,
        }
    }
}

/// `x` times two to the `s`, for a significand and a small scale.
fn scaled(x: u128, s: u64) -> (result: u128)
    requires
        x < 0x20_0000_0000_0000,
        s < 64,
    ensures
        result == x as nat * pow2(s as nat),
        result < 0x20_0000_0000_0000 * 0x1_0000_0000_0000_0000,
{
    let mut result: u128 = x;
    let mut done: u64 = 0;
    proof {
        lemma2_to64();
    }
    while done < s
        invariant
            x < 0x20_0000_0000_0000,
            done <= s < 64,
            result == x as nat * pow2(done as nat),
            result < 0x20_0000_0000_0000 * pow2(done as nat),
            pow2(done as nat) <= pow2(64),
            pow2(64) == 0x1_0000_0000_0000_0000,
        decreases s - done,
    {
        proof {
            lemma_double(x as nat, (done + 1) as nat);
            lemma_double(0x20_0000_0000_0000, (done + 1) as nat);
            lemma_pow2_strictly_increases((done + 1) as nat, 65);
            if done + 1 < 64 {
                lemma_pow2_strictly_increases((done + 1) as nat, 64);
            }
            assert((2 * x as nat) * pow2(done as nat) == 2 * (x as nat * pow2(done as nat)))
                by (nonlinear_arith);
            assert((2 * 0x20_0000_0000_0000nat) * pow2(done as nat) == 2 * (0x20_0000_0000_0000nat
                * pow2(done as nat))) by (nonlinear_arith);
        }
        result = result * 2;
        done = done + 1;
    }
    result
}

fn exponent_of(magnitude: u64) -> (result: u64)
    requires
        magnitude < INFINITY,
    ensures
        result == scale(magnitude as int),
        result < 2046,
{
    if magnitude < FRACTION {
        0
    } else {
        magnitude / FRACTION - 1
    }
}

fn significand_of(magnitude: u64) -> (result: u64)
    requires
        magnitude < INFINITY,
    ensures
        result == significand(magnitude as int),
        result < 2 * FRACTION,
        scale(magnitude as int) > 0 ==> result >= FRACTION,
{
    if magnitude < FRACTION {
        magnitude
    } else {
        FRACTION + magnitude % FRACTION
    }
}

/// Twice the distance, for two numbers of which the first has the larger scale.
spec fn twice_distance(opposite: bool, ma: int, ea: nat, mb: int, eb: nat) -> int {
    let x = 2 * (ma * pow2(ea));
    let b = 2 * (mb * pow2(eb));
    if opposite {
        x + b
    } else if x >= b {
        x - b
    } else {
        b - x
    }
}

/// Where the scales are close, the distance is computed exactly.
proof fn lemma_near(opposite: bool, ma: nat, ea: nat, mb: nat, eb: nat, lifted: nat)
    requires
        ea >= eb,
        lifted == ma * pow2((ea - eb) as nat),
    ensures
        twice_distance(opposite, ma as int, ea, mb as int, eb) == (2 * (if opposite {
            lifted as int + mb
        } else if lifted >= mb {
            lifted - mb
        } else {
            mb - lifted
        })) * pow2(eb),
{
    lemma_split_scale(ma, ea, eb);
    let c = pow2(eb) as int;
    lemma_pow2_pos(eb);
    let l = lifted as int;
    let m = mb as int;
    assert(2 * (l * c) + 2 * (m * c) == (2 * (l + m)) * c) by (nonlinear_arith);
    assert(2 * (l * c) - 2 * (m * c) == (2 * (l - m)) * c) by (nonlinear_arith);
    assert(2 * (m * c) - 2 * (l * c) == (2 * (m - l)) * c) by (nonlinear_arith);
    assert(l >= m ==> l * c >= m * c) by (nonlinear_arith)
        requires
            c > 0,
    ;
    assert(l < m ==> l * c < m * c) by (nonlinear_arith)
        requires
            c > 0,
    ;
}

/// Where the first scale is far above the others, the first number decides.
proof fn lemma_far_above(opposite: bool, ma: nat, ea: nat, mb: nat, eb: nat, y: nat, et: nat)
    requires
        ea >= eb + 64,
        FRACTION <= ma,
        mb < 2 * FRACTION,
        y < 4 * FRACTION,
        et < eb + 54,
    ensures
        twice_distance(opposite, ma as int, ea, mb as int, eb) > y * pow2(et),
{
    lemma2_to64();
    let c = pow2(eb) as int;
    lemma_pow2_pos(eb);
    lemma_split_scale(ma, ea, eb);
    let k = pow2((ea - eb) as nat) as int;
    assert(k >= 0x1_0000_0000_0000_0000) by {
        if ea - eb > 64 {
            lemma_pow2_strictly_increases(64, (ea - eb) as nat);
        }
    }
    let lifted = ma * k;
    assert(lifted >= 0x10_0000_0000_0000 * 0x1_0000_0000_0000_0000) by (nonlinear_arith)
        requires
            lifted == ma * k,
            ma >= 0x10_0000_0000_0000,
            k >= 0x1_0000_0000_0000_0000,
    ;
    lemma_near(opposite, ma, ea, mb, eb, lifted as nat);
    let gap = 2 * (if opposite {
        lifted + mb
    } else {
        lifted - mb
    });
    assert(gap > 0x40_0000_0000_0000 * 0x40_0000_0000_0000);
    // The bound is below 2^54 times 2^53 times the lowest scale.
    let cap = pow2((53 + eb) as nat) as int;
    assert(pow2(et) <= cap) by {
        if et < 53 + eb {
            lemma_pow2_strictly_increases(et, (53 + eb) as nat);
        }
    }
    lemma_pow2_adds(53, eb);
    lemma2_to64_rest();
    let p = pow2(et) as int;
    lemma_pow2_pos(et);
    assert(y * p <= 0x40_0000_0000_0000 * cap) by (nonlinear_arith)
        requires
            0 <= y < 0x40_0000_0000_0000,
            0 < p <= cap,
    ;
    assert(0x40_0000_0000_0000 * cap == (0x40_0000_0000_0000 * 0x20_0000_0000_0000) * c)
        by (nonlinear_arith)
        requires
            cap == 0x20_0000_0000_0000 * c,
    ;
    assert(gap * c > (0x40_0000_0000_0000 * 0x20_0000_0000_0000) * c) by (nonlinear_arith)
        requires
            gap > 0x40_0000_0000_0000 * 0x20_0000_0000_0000,
            c > 0,
    ;
}

/// Where the first scale and the bound's are both far above the second, the
/// second number only breaks a tie.
proof fn lemma_both_above(opposite: bool, ma: nat, ea: nat, mb: nat, eb: nat, y: nat, et: nat)
    requires
        ea >= eb + 64,
        FRACTION <= ma,
        mb < 2 * FRACTION,
        et >= eb + 54,
    ensures
        ({
            let first = relation(((2 * ma) * pow2(ea)) as int, (y * pow2(et)) as int);
            let all = relation(
                twice_distance(opposite, ma as int, ea, mb as int, eb),
                (y * pow2(et)) as int,
            );
            all == match first {
                Relation::Less => Relation::Less,
                Relation::Greater => Relation::Greater,
                Relation::Equal => if mb == 0 {
                    Relation::Equal
                } else if opposite {
                    Relation::Greater
                } else {
                    Relation::Less
                },
            }
        }),
{
    lemma2_to64();
    let m = pow2((eb + 54) as nat) as int;
    let c = pow2(eb) as int;
    lemma_pow2_pos(eb);
    lemma_pow2_adds(54, eb);
    lemma2_to64_rest();
    let b = 2 * (mb * c);
    assert(0 <= b < m) by (nonlinear_arith)
        requires
            b == 2 * (mb * c),
            0 <= mb < 0x20_0000_0000_0000,
            c > 0,
            m == 0x40_0000_0000_0000 * c,
    ;
    assert(mb > 0 ==> b > 0) by (nonlinear_arith)
        requires
            b == 2 * (mb * c),
            c > 0,
    ;
    lemma_split_scale(2 * ma, ea, (eb + 54) as nat);
    lemma_split_scale(y, et, (eb + 54) as nat);
    let xs = (2 * ma) * pow2((ea - (eb + 54)) as nat) as int;
    let ys = y * pow2((et - (eb + 54)) as nat) as int;
    let x = xs * m;
    let bound = ys * m;
    assert(x == (2 * ma) * pow2(ea));
    assert((2 * ma) * pow2(ea) == 2 * (ma * pow2(ea))) by (nonlinear_arith);
    assert(bound == y * pow2(et));
    assert(xs == ys ==> x == bound);
    assert(b == 2 * (mb as int * pow2(eb)));
    assert(xs < ys ==> x + m <= bound) by (nonlinear_arith)
        requires
            x == xs * m,
            bound == ys * m,
            m > 0,
    ;
    assert(xs > ys ==> x >= bound + m) by (nonlinear_arith)
        requires
            x == xs * m,
            bound == ys * m,
            m > 0,
    ;
    lemma_scaled_grows(2 * ma, (ea - (eb + 54)) as nat);
    assert(xs >= 1);
    assert(x >= m) by (nonlinear_arith)
        requires
            x == xs * m,
            xs >= 1,
            m > 0,
    ;
}

/// Compares twice the distance of two finite numbers with `y` scaled, the first
/// number's scale being the larger.
fn compare_distance(opposite: bool, ma: u64, ea: u64, mb: u64, eb: u64, y: u64, et: u64) -> (result:
    Relation)
    requires
        ea >= eb,
        ma < 2 * FRACTION,
        mb < 2 * FRACTION,
        y < 4 * FRACTION,
        ea > 0 ==> ma >= FRACTION,
        et < 2046,
        eb < 2046,
    ensures
        result == relation(
            twice_distance(opposite, ma as int, ea as nat, mb as int, eb as nat),
            (y as nat * pow2(et as nat)) as int,
        ),
{
    if ea - eb < 64 {
        let lifted: u128 = scaled(ma as u128, ea - eb);
        let other: u128 = mb as u128;
        let gap: u128 = if opposite {
            lifted + other
        } else if lifted >= other {
            lifted - other
        } else {
            other - lifted
        };
        proof {
            lemma_near(opposite, ma as nat, ea as nat, mb as nat, eb as nat, lifted as nat);
        }
        compare_scaled(2 * gap, eb, y as u128, et)
    } else if et < eb + 54 {
        proof {
            lemma_far_above(
                opposite,
                ma as nat,
                ea as nat,
                mb as nat,
                eb as nat,
                y as nat,
                et as nat,
            );
        }
        Relation::Greater
    } else {
        proof {
            lemma_both_above(
                opposite,
                ma as nat,
                ea as nat,
                mb as nat,
                eb as nat,
                y as nat,
                et as nat,
            );
        }
        match compare_scaled((2 * ma) as u128, ea, y as u128, et) {
            Relation::Less => Relation::Less,
            Relation::Greater => Relation::Greater,
            Relation::Equal => if mb == 0 {
                Relation::Equal
            } else if opposite {
                Relation::Greater
            } else {
                Relation::Less
            },
        }
    }
}

/// Whether the rounded absolute difference of two numbers is within a tolerance.
pub fn within_tolerance(a: &Seconds, b: &Seconds, tolerance: &Seconds) -> (close: bool)
    ensures
        close == within(a.bits, b.bits, tolerance.bits),
{
    let ma: u64 = a.bits % SIGN;
    let mb: u64 = b.bits % SIGN;
    let mt: u64 = tolerance.bits % SIGN;
    if ma > INFINITY || mb > INFINITY || mt > INFINITY {
        return false;
    }
    if tolerance.bits >= SIGN && mt != 0 {
        return false;
    }
    let opposite = (a.bits >= SIGN) != (b.bits >= SIGN);
    if ma == INFINITY || mb == INFINITY {
        return mt == INFINITY && (ma != INFINITY || mb != INFINITY || opposite);
    }
    if mt == INFINITY {
        return true;
    }
    let midpoint: u64 = 2 * significand_of(mt) + 1;
    let ea: u64 = exponent_of(ma);
    let eb: u64 = exponent_of(mb);
    let relation = if ea >= eb {
        compare_distance(
            opposite,
            significand_of(ma),
            ea,
            significand_of(mb),
            eb,
            midpoint,
            exponent_of(mt),
        )
    } else {
        compare_distance(
            opposite,
            significand_of(mb),
            eb,
            significand_of(ma),
            ea,
            midpoint,
            exponent_of(mt),
        )
    };
    match relation {
        Relation::Less => true,
        Relation::Equal => mt % 2 == 0,
        Relation::Greater => false,
    }
}

/// Whether the rounded absolute difference of two numbers exceeds a tolerance.
pub fn beyond_tolerance(a: &Seconds, b: &Seconds, tolerance: &Seconds) -> (far: bool)
    ensures
        far == beyond(a.bits, b.bits, tolerance.bits),
{
    let ma: u64 = a.bits % SIGN;
    let mb: u64 = b.bits % SIGN;
    let mt: u64 = tolerance.bits % SIGN;
    if ma > INFINITY || mb > INFINITY || mt > INFINITY {
        return false;
    }
    if ma == INFINITY && mb == INFINITY && (a.bits >= SIGN) == (b.bits >= SIGN) {
        return false;
    }
    !within_tolerance(a, b, tolerance)
}

/// Whether a number of seconds is finite and not below zero.
pub fn is_non_negative(value: &Seconds) -> (result: bool)
    ensures
        result == non_negative(value.bits),
{
    let magnitude: u64 = value.bits % SIGN;
    magnitude < INFINITY && (value.bits < SIGN || magnitude == 0)
}

/// Whether two numbers of seconds are equal as numbers.
pub fn same_seconds(a: &Seconds, b: &Seconds) -> (same: bool)
    ensures
        same == equal_numbers(a.bits, b.bits),
{
    let ma: u64 = a.bits % SIGN;
    let mb: u64 = b.bits % SIGN;
    ma <= INFINITY && mb <= INFINITY && (a.bits == b.bits || (ma == 0 && mb == 0))
}

impl Seconds {
    /// A copy of this number.
    pub fn copy(&self) -> (copy: Seconds)
        ensures
            copy.deep_view() == self.deep_view(),
    {
        Seconds { bits: self.bits, text: self.text.clone() }
    }
}

/// Comparison within a tolerance does not depend on which value comes first.
pub proof fn law_within_is_symmetric(a: u64, b: u64, tolerance: u64)
    ensures
        within(a, b, tolerance) == within(b, a, tolerance),
{
}

/// Every finite number is within every non-negative tolerance of itself.
pub proof fn law_within_is_reflexive(a: u64, tolerance: u64)
    requires
        finite(a),
        non_negative(tolerance),
    ensures
        within(a, a, tolerance),
{
    let m = magnitude(tolerance);
    lemma_pow2_pos(scale(m));
    lemma_scaled_grows(2 * significand(m) + 1, scale(m));
}

/// What a magnitude stands for, in units.
spec fn count(magnitude: int) -> nat {
    significand(magnitude) * pow2(scale(magnitude))
}

/// From one magnitude to the next it is one unit of the lower one's scale.
proof fn lemma_next(m: int)
    requires
        0 <= m,
    ensures
        count(m + 1) == count(m) + pow2(scale(m)),
        count(m + 1) > count(m),
{
    let f = FRACTION as int;
    let c = pow2(scale(m)) as int;
    lemma_pow2_pos(scale(m));
    let x = significand(m) as int;
    assert(x * c + c == (x + 1) * c) by (nonlinear_arith);
    if m + 1 < f {
        assert(significand(m + 1) == x + 1);
    } else if m + 1 == f {
        assert(scale(m) == 0 && scale(f) == 0);
        assert(significand(f) == x + 1);
    } else if m % f + 1 < f {
        lemma_fundamental_div_mod(m, f);
        lemma_fundamental_div_mod_converse(
            m + 1,
            f,
            m / f,
            m % f + 1,
        );
        assert(scale(m + 1) == scale(m));
        assert(significand(m + 1) == x + 1);
    } else {
        lemma_fundamental_div_mod(m, f);
        assert(m + 1 == f * (m / f + 1)) by (nonlinear_arith)
            requires
                m == f * (m / f) + f - 1,
        ;
        lemma_fundamental_div_mod_converse(m + 1, f, m / f + 1, 0);
        assert(scale(m + 1) == scale(m) + 1);
        assert(significand(m + 1) == f);
        assert(x + 1 == 2 * f);
        lemma_double(f as nat, scale(m + 1));
    }
}

/// Larger magnitudes stand for larger numbers.
proof fn lemma_count_grows(m: int, n: int)
    requires
        0 <= m < n,
    ensures
        count(m) < count(n),
    decreases n - m,
{
    lemma_next(n - 1);
    if m < n - 1 {
        lemma_count_grows(m, n - 1);
    }
}

/// Two numbers within a tolerance of each other are within every larger one.
pub proof fn law_within_a_larger_tolerance(a: u64, b: u64, tolerance: u64, larger: u64)
    requires
        at_most(tolerance, larger),
    ensures
        within(a, b, tolerance) ==> within(a, b, larger),
        beyond(a, b, larger) ==> beyond(a, b, tolerance),
{
    let m = magnitude(tolerance);
    let n = magnitude(larger);
    assert(count(0) == 0) by {
        lemma_mul_basics(pow2(scale(0)) as int);
    }
    assert(units(tolerance) == count(m) && units(larger) == count(n));
    if m > 0 {
        lemma_count_grows(0, m);
    }
    if n > 0 {
        lemma_count_grows(0, n);
    }
    if n < m {
        lemma_count_grows(n, m);
    } else if m < n && within(a, b, tolerance) {
        // A midpoint is half of what its two neighbours are together.
        lemma_next(m);
        lemma_next(n);
        lemma_count_grows(m, n);
        lemma_count_grows(m + 1, n + 1);
        let (x, y) = (significand(m) as int, significand(n) as int);
        let (c, d) = (pow2(scale(m)) as int, pow2(scale(n)) as int);
        assert((2 * x + 1) * c == 2 * (x * c) + c) by (nonlinear_arith);
        assert((2 * y + 1) * d == 2 * (y * d) + d) by (nonlinear_arith);
    }
}

/// Up to rounding, two finite numbers are within a tolerance where their difference is
/// at most it: where it is so exactly, it is so after rounding; and where the
/// difference is at least the next number after the tolerance, it is not.
pub proof fn law_within_is_as_exact_as_numbers_are(a: u64, b: u64, tolerance: u64, next: u64)
    requires
        finite(a),
        finite(b),
        non_negative(tolerance),
    ensures
        ({
            let apart = if value(a) >= value(b) {
                value(a) - value(b)
            } else {
                value(b) - value(a)
            };
            &&& apart <= value(tolerance) ==> within(a, b, tolerance) && !beyond(a, b, tolerance)
            &&& next == magnitude(tolerance) + 1 && apart >= value(next) ==> !within(
                a,
                b,
                tolerance,
            ) && beyond(a, b, tolerance)
        }),
{
    let m = magnitude(tolerance);
    assert(units(tolerance) == count(m));
    lemma_next(m);
    let x = significand(m) as int;
    let c = pow2(scale(m)) as int;
    lemma_pow2_pos(scale(m));
    assert((2 * x + 1) * c == 2 * (x * c) + c) by (nonlinear_arith);
    if m == 0 {
        assert(count(0) == 0) by {
            lemma_mul_basics(pow2(scale(0)) as int);
        }
    }
    if next == m + 1 {
        assert(magnitude(next) == m + 1);
        assert(units(next) == count(m + 1));
    }
}

} // verus!
