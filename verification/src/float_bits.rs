//! IEEE 754 numbers as bit patterns.
//!
//! The engine moves single and double precision numbers around, flips signs and
//! orders them; none of that needs floating point arithmetic, only their bits.

use vstd::prelude::*;

#[allow(unused_imports)]
use vstd::arithmetic::div_mod::lemma_fundamental_div_mod_converse;

verus! {

/// Bit pattern of an IEEE 754 single precision number.
pub type FloatBits = u32;

/// Bit pattern of an IEEE 754 double precision number.
pub type DoubleBits = u64;

/// The sign bit.
pub const SIGN: u32 = 0x8000_0000;

/// Positive infinity; magnitudes above it are NaN.
pub const INFINITY: u32 = 0x7f80_0000;

/// The bits of 1.0.
pub const ONE: u32 = 0x3f80_0000;

/// The sign bit flipped, everything else kept.
pub open spec fn neg(bits: FloatBits) -> FloatBits {
    if bits < SIGN {
        (bits + SIGN) as u32
    } else {
        (bits - SIGN) as u32
    }
}

/// The bits of the negated number.
pub fn negated(bits: FloatBits) -> (r: FloatBits)
    ensures
        r == neg(bits),
{
    if bits < SIGN {
        bits + SIGN
    } else {
        bits - SIGN
    }
}

/// Negating twice gives the number back.
pub proof fn neg_is_an_involution(bits: FloatBits)
    ensures
        neg(neg(bits)) == bits,
        neg(bits) != bits,
{
}

/// The little-endian 32-bit word at `at`.
pub open spec fn word_at(bytes: Seq<u8>, at: int) -> u32 {
    (bytes[at] + 0x100 * bytes[at + 1] + 0x1_0000 * bytes[at + 2] + 0x100_0000 * bytes[at
        + 3]) as u32
}

/// Reads a little-endian 32-bit word.
pub fn read_word(bytes: &[u8], at: usize) -> (r: u32)
    requires
        at + 4 <= bytes@.len(),
    ensures
        r == word_at(bytes@, at as int),
{
    let a: u32 = bytes[at] as u32;
    let b: u32 = bytes[at + 1] as u32;
    let c: u32 = bytes[at + 2] as u32;
    let d: u32 = bytes[at + 3] as u32;
    a + 0x100 * b + 0x1_0000 * c + 0x100_0000 * d
}

/// The bits without the sign.
pub open spec fn magnitude(bits: FloatBits) -> int {
    if bits < SIGN {
        bits as int
    } else {
        bits - SIGN
    }
}

/// The number is no number.
pub open spec fn is_nan(bits: FloatBits) -> bool {
    magnitude(bits) > INFINITY
}

/// Where the number stands among all numbers that are not NaN: zero for both
/// zeros, and larger for larger numbers.
pub open spec fn order(bits: FloatBits) -> int {
    if bits < SIGN {
        bits as int
    } else {
        -(bits - SIGN)
    }
}

/// `a < b` of floating point: false where either is NaN.
pub open spec fn lt(a: FloatBits, b: FloatBits) -> bool {
    !is_nan(a) && !is_nan(b) && order(a) < order(b)
}

pub fn float_is_nan(bits: FloatBits) -> (r: bool)
    ensures
        r == is_nan(bits),
{
    let m: u32 = if bits < SIGN {
        bits
    } else {
        bits - SIGN
    };
    m > INFINITY
}

/// `order` in 64 bits.
pub fn float_order(bits: FloatBits) -> (r: i64)
    ensures
        r == order(bits),
{
    if bits < SIGN {
        bits as i64
    } else {
        -((bits - SIGN) as i64)
    }
}

pub fn float_lt(a: FloatBits, b: FloatBits) -> (r: bool)
    ensures
        r == lt(a, b),
{
    !float_is_nan(a) && !float_is_nan(b) && float_order(a) < float_order(b)
}

/// `a <= b` of floating point: false where either is NaN.
pub open spec fn le(a: FloatBits, b: FloatBits) -> bool {
    !is_nan(a) && !is_nan(b) && order(a) <= order(b)
}

pub fn float_le(a: FloatBits, b: FloatBits) -> (r: bool)
    ensures
        r == le(a, b),
{
    !float_is_nan(a) && !float_is_nan(b) && float_order(a) <= float_order(b)
}

/// The smaller number; a NaN gives way to the other one.
pub open spec fn min_of(a: FloatBits, b: FloatBits) -> FloatBits {
    if is_nan(a) || lt(b, a) {
        b
    } else {
        a
    }
}

/// The larger number; a NaN gives way to the other one.
pub open spec fn max_of(a: FloatBits, b: FloatBits) -> FloatBits {
    if is_nan(a) || lt(a, b) {
        b
    } else {
        a
    }
}

pub fn float_min(a: FloatBits, b: FloatBits) -> (r: FloatBits)
    ensures
        r == min_of(a, b),
{
    if float_is_nan(a) || float_lt(b, a) {
        b
    } else {
        a
    }
}

pub fn float_max(a: FloatBits, b: FloatBits) -> (r: FloatBits)
    ensures
        r == max_of(a, b),
{
    if float_is_nan(a) || float_lt(a, b) {
        b
    } else {
        a
    }
}

/// A number brought between two bounds; a NaN stays as it is.
pub open spec fn clamped(bits: FloatBits, low: FloatBits, high: FloatBits) -> FloatBits {
    if lt(bits, low) {
        low
    } else if lt(high, bits) {
        high
    } else {
        bits
    }
}

pub fn float_clamp(bits: FloatBits, low: FloatBits, high: FloatBits) -> (r: FloatBits)
    requires
        le(low, high),
    ensures
        r == clamped(bits, low, high),
        !is_nan(bits) ==> le(low, r) && le(r, high),
{
    if float_lt(bits, low) {
        low
    } else if float_lt(high, bits) {
        high
    } else {
        bits
    }
}

/// The sign bit of a double.
pub const DOUBLE_SIGN: u64 = 0x8000_0000_0000_0000;

/// Positive infinity as a double.
pub const DOUBLE_INFINITY: u64 = 0x7ff0_0000_0000_0000;

pub open spec fn double_magnitude(bits: DoubleBits) -> int {
    if bits < DOUBLE_SIGN {
        bits as int
    } else {
        bits - DOUBLE_SIGN
    }
}

pub open spec fn double_is_nan(bits: DoubleBits) -> bool {
    double_magnitude(bits) > DOUBLE_INFINITY
}

pub open spec fn double_order(bits: DoubleBits) -> int {
    if bits < DOUBLE_SIGN {
        bits as int
    } else {
        -(bits - DOUBLE_SIGN)
    }
}

/// `a <= b` of doubles: false where either is NaN.
pub open spec fn double_le(a: DoubleBits, b: DoubleBits) -> bool {
    !double_is_nan(a) && !double_is_nan(b) && double_order(a) <= double_order(b)
}

fn double_place(bits: DoubleBits) -> (r: (i64, bool))
    ensures
        r.0 == double_order(bits),
        r.1 == double_is_nan(bits),
{
    if bits < DOUBLE_SIGN {
        (bits as i64, bits > DOUBLE_INFINITY)
    } else {
        let m: u64 = bits - DOUBLE_SIGN;
        (-(m as i64), m > DOUBLE_INFINITY)
    }
}

pub fn double_at_most(a: DoubleBits, b: DoubleBits) -> (r: bool)
    ensures
        r == double_le(a, b),
{
    let x = double_place(a);
    let y = double_place(b);
    !x.1 && !y.1 && x.0 <= y.0
}

/// A vector of two components.
#[derive(Debug, Clone, Copy, PartialEq, Eq, Structural)]
pub struct Vec2 {
    pub x: FloatBits,
    pub y: FloatBits,
}

/// A vector of three components.
#[derive(Debug, Clone, Copy, PartialEq, Eq, Structural)]
pub struct Vec3 {
    pub x: FloatBits,
    pub y: FloatBits,
    pub z: FloatBits,
}

/// A vector of four components.
#[derive(Debug, Clone, Copy, PartialEq, Eq, Structural)]
pub struct Vec4 {
    pub x: FloatBits,
    pub y: FloatBits,
    pub z: FloatBits,
    pub w: FloatBits,
}

/// A matrix of three columns.
#[derive(Debug, Clone, Copy, PartialEq, Eq, Structural)]
pub struct Mat3 {
    pub x: Vec3,
    pub y: Vec3,
    pub z: Vec3,
}

/// A matrix of four columns.
#[derive(Debug, Clone, Copy, PartialEq, Eq, Structural)]
pub struct Mat4 {
    pub x: Vec4,
    pub y: Vec4,
    pub z: Vec4,
    pub w: Vec4,
}

/// The upper left three by three part of a matrix.
pub fn cgmat4_to_cgmat3(mat4: &Mat4) -> (r: Mat3)
    ensures
        r == (Mat3 {
            x: Vec3 { x: mat4.x.x, y: mat4.x.y, z: mat4.x.z },
            y: Vec3 { x: mat4.y.x, y: mat4.y.y, z: mat4.y.z },
            z: Vec3 { x: mat4.z.x, y: mat4.z.y, z: mat4.z.z },
        }),
{
    Mat3 {
        x: Vec3 { x: mat4.x.x, y: mat4.x.y, z: mat4.x.z },
        y: Vec3 { x: mat4.y.x, y: mat4.y.y, z: mat4.y.z },
        z: Vec3 { x: mat4.z.x, y: mat4.z.y, z: mat4.z.z },
    }
}

/// A vector on the ground plane: x and z.
pub fn cgvec3_remove_y(vec: Vec3) -> (r: Vec2)
    ensures
        r == (Vec2 { x: vec.x, y: vec.z }),
{
    Vec2 { x: vec.x, y: vec.z }
}

/// Negation changes the sign bit and no other: the top bit is the opposite, and the
/// thirty-one bits below it stay. Different numbers have different negations.
pub proof fn negation_changes_the_sign_alone(a: FloatBits, b: FloatBits)
    ensures
        (neg(a) >= 0x8000_0000) != (a >= 0x8000_0000),
        neg(a) % 0x8000_0000 == a % 0x8000_0000,
        a != b ==> neg(a) != neg(b),
{
}

/// What is no number has all eight exponent bits set and a fraction that is not zero;
/// the sign does not matter.
pub proof fn nan_has_a_full_exponent_and_a_fraction(bits: FloatBits)
    ensures
        is_nan(bits) <==> (bits % 0x8000_0000) / 0x80_0000 == 255 && bits % 0x80_0000 != 0,
{
}

/// Numbers are ordered as their values are: of two numbers without a sign the smaller
/// pattern is the smaller number, of two with a sign the larger pattern, and a number
/// with a sign is below one without unless both are zero. What is no number stands in
/// no order.
pub proof fn patterns_are_ordered_as_numbers(a: FloatBits, b: FloatBits)
    ensures
        is_nan(a) || is_nan(b) ==> !lt(a, b) && !le(a, b),
        !is_nan(a) && !is_nan(b) ==> {
            &&& lt(a, b) <==> {
                ||| a < 0x8000_0000 && b < 0x8000_0000 && a < b
                ||| a >= 0x8000_0000 && b >= 0x8000_0000 && a > b
                ||| a >= 0x8000_0000 && b < 0x8000_0000 && !(a == 0x8000_0000 && b == 0)
            }
            &&& le(a, b) <==> !lt(b, a)
            &&& lt(neg(b), neg(a)) <==> lt(a, b)
        },
{
}

/// `order` numbers the numbers from the lowest up: it grows by the order, is the same
/// for both zeros alone, and turns around with the sign.
pub proof fn places_follow_the_order(a: FloatBits, b: FloatBits)
    requires
        !is_nan(a),
        !is_nan(b),
    ensures
        lt(a, b) <==> order(a) < order(b),
        order(a) == order(b) ==> a == b || (a % 0x8000_0000 == 0 && b % 0x8000_0000 == 0),
        order(neg(a)) == -order(a),
        a < 0x8000_0000 ==> order(a) == a,
{
}

/// The smaller and the larger of two numbers are the two numbers, and bound both. What
/// is no number gives way.
pub proof fn extremes_are_the_two_numbers(a: FloatBits, b: FloatBits)
    ensures
        min_of(a, b) == a || min_of(a, b) == b,
        max_of(a, b) == a || max_of(a, b) == b,
        !is_nan(a) && !is_nan(b) ==> {
            &&& le(min_of(a, b), a) && le(min_of(a, b), b)
            &&& le(a, max_of(a, b)) && le(b, max_of(a, b))
        },
        is_nan(a) ==> min_of(a, b) == b && max_of(a, b) == b,
        is_nan(b) && !is_nan(a) ==> min_of(a, b) == a && max_of(a, b) == a,
{
}

/// Clamping brings every number between the bounds, leaves what is between them, and
/// otherwise gives the bound that was passed. Clamping again changes nothing.
pub proof fn clamping_gives_the_nearest_number(bits: FloatBits, low: FloatBits, high: FloatBits)
    requires
        le(low, high),
    ensures
        ({
            let r = clamped(bits, low, high);
            &&& is_nan(bits) ==> r == bits
            &&& !is_nan(bits) ==> le(low, r) && le(r, high)
            &&& le(low, bits) && le(bits, high) ==> r == bits
            &&& lt(bits, low) ==> r == low
            &&& lt(high, bits) ==> r == high
            &&& clamped(r, low, high) == r
        }),
{
}

/// A word is its four bytes, the lowest first.
pub proof fn words_hold_their_bytes(bytes: Seq<u8>, at: int)
    requires
        0 <= at,
        at + 4 <= bytes.len(),
    ensures
        word_at(bytes, at) % 0x100 == bytes[at],
        (word_at(bytes, at) / 0x100) % 0x100 == bytes[at + 1],
        (word_at(bytes, at) / 0x1_0000) % 0x100 == bytes[at + 2],
        word_at(bytes, at) / 0x100_0000 == bytes[at + 3],
{
    let (a, b, c, d) = (
        bytes[at] as int,
        bytes[at + 1] as int,
        bytes[at + 2] as int,
        bytes[at + 3] as int,
    );
    let w = a + 0x100 * b + 0x1_0000 * c + 0x100_0000 * d;
    let q1 = b + 0x100 * c + 0x1_0000 * d;
    let q2 = c + 0x100 * d;
    assert(word_at(bytes, at) == w);
    lemma_fundamental_div_mod_converse(w, 0x100, q1, a);
    lemma_fundamental_div_mod_converse(q1, 0x100, q2, b);
    lemma_fundamental_div_mod_converse(w, 0x1_0000, q2, a + 0x100 * b);
    lemma_fundamental_div_mod_converse(q2, 0x100, d, c);
    lemma_fundamental_div_mod_converse(w, 0x100_0000, d, a + 0x100 * b + 0x1_0000 * c);
}

/// Doubles are compared as their values are; see `patterns_are_ordered_as_numbers`.
pub proof fn double_patterns_are_ordered_as_numbers(a: DoubleBits, b: DoubleBits)
    ensures
        double_is_nan(a) <==> (a % 0x8000_0000_0000_0000) / 0x10_0000_0000_0000 == 2047 && a
            % 0x10_0000_0000_0000 != 0,
        double_is_nan(a) || double_is_nan(b) ==> !double_le(a, b),
        !double_is_nan(a) && !double_is_nan(b) ==> (double_le(a, b) <==> {
            ||| a < 0x8000_0000_0000_0000 && b < 0x8000_0000_0000_0000 && a <= b
            ||| a >= 0x8000_0000_0000_0000 && b >= 0x8000_0000_0000_0000 && a >= b
            ||| a >= 0x8000_0000_0000_0000 && b < 0x8000_0000_0000_0000
            ||| a == 0 && b == 0x8000_0000_0000_0000
        }),
{
}

/// The small matrix holds the large one's first three columns, each without its last
/// number, and the plane vector the two numbers that are not up.
pub proof fn parts_stand_in_place(mat: Mat4, small: Mat3, v: Vec3, flat: Vec2)
    requires
        call_ensures(cgmat4_to_cgmat3, (&mat,), small),
        call_ensures(cgvec3_remove_y, (v,), flat),
    ensures
        small.x.x == mat.x.x && small.x.y == mat.x.y && small.x.z == mat.x.z,
        small.y.x == mat.y.x && small.y.y == mat.y.y && small.y.z == mat.y.z,
        small.z.x == mat.z.x && small.z.y == mat.z.y && small.z.z == mat.z.z,
        flat.x == v.x && flat.y == v.z,
{
}

/// Bit patterns are compared as the numbers they stand for; see
/// `patterns_are_ordered_as_numbers`.
pub proof fn comparisons_follow_the_numbers(
    a: FloatBits,
    b: FloatBits,
    less: bool,
    at_most: bool,
    nan: bool,
)
    requires
        call_ensures(float_lt, (a, b), less),
        call_ensures(float_le, (a, b), at_most),
        call_ensures(float_is_nan, (a,), nan),
    ensures
        nan <==> (a % 0x8000_0000) > 0x7f80_0000,
        nan || (b % 0x8000_0000) > 0x7f80_0000 ==> !less && !at_most,
        !nan && (b % 0x8000_0000) <= 0x7f80_0000 ==> {
            &&& less <==> {
                ||| a < 0x8000_0000 && b < 0x8000_0000 && a < b
                ||| a >= 0x8000_0000 && b >= 0x8000_0000 && a > b
                ||| a >= 0x8000_0000 && b < 0x8000_0000 && !(a == 0x8000_0000 && b == 0)
            }
            &&& at_most <==> less || a == b || (a % 0x8000_0000 == 0 && b % 0x8000_0000 == 0)
        },
{
    patterns_are_ordered_as_numbers(a, b);
    patterns_are_ordered_as_numbers(b, a);
}

/// The smaller and the larger of two numbers, and a number between two others, are what
/// they say; see `extremes_are_the_two_numbers` and `clamping_gives_the_nearest_number`.
pub proof fn extremes_are_computed(
    a: FloatBits,
    b: FloatBits,
    low: FloatBits,
    high: FloatBits,
    other: FloatBits,
)
    requires
        call_ensures(float_min, (a, b), low),
        call_ensures(float_max, (a, b), high),
        call_ensures(negated, (a,), other),
    ensures
        lt(a, b) ==> low == a && high == b,
        lt(b, a) ==> low == b && high == a,
        is_nan(a) ==> low == b && high == b,
        is_nan(b) && !is_nan(a) ==> low == a && high == a,
        (other >= 0x8000_0000) != (a >= 0x8000_0000),
        other % 0x8000_0000 == a % 0x8000_0000,
{
}

/// A number within its bounds stays, one below them becomes the lower and one above them
/// the upper bound.
pub proof fn clamped_numbers_stay_within(
    value: FloatBits,
    low: FloatBits,
    high: FloatBits,
    r: FloatBits,
)
    requires
        le(low, high),
        call_ensures(float_clamp, (value, low, high), r),
    ensures
        lt(value, low) ==> r == low,
        lt(high, value) ==> r == high,
        !lt(value, low) && !lt(high, value) ==> r == value,
{
}

} // verus!
