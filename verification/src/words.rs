//! What arithmetic on machine words gives.
//!
//! Words are integers: 64-bit and 32-bit numbers by their value, truths as 0 and 1, floats by their
//! bits. What float arithmetic gives is left to a [`Machine`]; laws hold of every one.
use vstd::prelude::*;

verus! {

/// `x` wrapped around to a signed 64-bit number.
pub open spec fn wrap64(x: int) -> int {
    let r = x % 0x1_0000_0000_0000_0000;
    if r >= 0x8000_0000_0000_0000 {
        r - 0x1_0000_0000_0000_0000
    } else {
        r
    }
}

/// `x` wrapped around to a signed 32-bit number.
pub open spec fn wrap32(x: int) -> int {
    let r = x % 0x1_0000_0000;
    if r >= 0x8000_0000 {
        r - 0x1_0000_0000
    } else {
        r
    }
}

/// Quotient rounded towards zero.
pub open spec fn quotient(a: int, b: int) -> int {
    if a >= 0 && b > 0 {
        a / b
    } else if a < 0 && b > 0 {
        -((-a) / b)
    } else if a >= 0 {
        -(a / (-b))
    } else {
        (-a) / (-b)
    }
}

/// What the quotient leaves; it has the sign of `a`.
pub open spec fn remainder(a: int, b: int) -> int {
    if a >= 0 && b > 0 {
        a % b
    } else if a < 0 && b > 0 {
        -((-a) % b)
    } else if a >= 0 {
        a % (-b)
    } else {
        -((-a) % (-b))
    }
}

/// Common bits of two 64-bit numbers.
pub open spec fn both_bits(a: int, b: int) -> int {
    ((a as i64) & (b as i64)) as int
}

/// Bits of either of two 64-bit numbers.
pub open spec fn either_bits(a: int, b: int) -> int {
    ((a as i64) | (b as i64)) as int
}

/// Bits of just one of two 64-bit numbers.
pub open spec fn odd_bits(a: int, b: int) -> int {
    ((a as i64) ^ (b as i64)) as int
}

/// A 64-bit number shifted up by `n` bits.
pub open spec fn up64(a: int, n: int) -> int {
    ((a as i64) << (n as u32)) as int
}

/// A 64-bit number shifted down by `n` bits; the sign stays.
pub open spec fn down64(a: int, n: int) -> int {
    ((a as i64) >> (n as u32)) as int
}

/// A 32-bit number shifted up by `n` bits.
pub open spec fn up32(a: int, n: int) -> int {
    ((a as i32) << (n as u32)) as int
}

/// A 32-bit number shifted down by `n` bits; the sign stays.
pub open spec fn down32(a: int, n: int) -> int {
    ((a as i32) >> (n as u32)) as int
}

/// A truth as a word.
pub open spec fn truth(b: bool) -> int {
    if b {
        1
    } else {
        0
    }
}

/// Float arithmetic on bits.
pub ghost struct Floats {
    pub plus: spec_fn(int, int) -> int,
    pub minus: spec_fn(int, int) -> int,
    pub times: spec_fn(int, int) -> int,
    pub over: spec_fn(int, int) -> int,
    pub rest: spec_fn(int, int) -> int,
    pub less: spec_fn(int, int) -> bool,
    pub at_most: spec_fn(int, int) -> bool,
    pub same: spec_fn(int, int) -> bool,
    pub negated: spec_fn(int) -> int,
    pub of_number: spec_fn(int) -> int,
}

impl Floats {
    /// Sums, products and equality do not depend on the order of their operands.
    pub open spec fn commutes(self) -> bool {
        &&& forall|a: int, b: int| #[trigger] (self.plus)(a, b) == (self.plus)(b, a)
        &&& forall|a: int, b: int| #[trigger] (self.times)(a, b) == (self.times)(b, a)
        &&& forall|a: int, b: int| #[trigger] (self.same)(a, b) == (self.same)(b, a)
    }
}

/// What float arithmetic gives, on 64 and on 32 bits.
pub ghost struct Machine {
    pub wide: Floats,
    pub narrow: Floats,
}

impl Machine {
    pub open spec fn commutes(self) -> bool {
        self.wide.commutes() && self.narrow.commutes()
    }
}

/// A 64-bit number is its own wrapping.
pub proof fn numbers_wrap_to_themselves(x: int)
    ensures
        i64::MIN <= x <= i64::MAX ==> wrap64(x) == x,
        i32::MIN <= x <= i32::MAX ==> wrap32(x) == x,
        i64::MIN <= wrap64(x) <= i64::MAX,
        i32::MIN <= wrap32(x) <= i32::MAX,
{
}

/// Products and bitwise operations do not depend on the order of their operands.
pub proof fn words_commute(a: int, b: int)
    ensures
        a * b == b * a,
        both_bits(a, b) == both_bits(b, a),
        either_bits(a, b) == either_bits(b, a),
        odd_bits(a, b) == odd_bits(b, a),
{
    let x = a as i64;
    let y = b as i64;
    assert(a * b == b * a) by (nonlinear_arith);
    assert(x & y == y & x) by (bit_vector);
    assert(x | y == y | x) by (bit_vector);
    assert(x ^ y == y ^ x) by (bit_vector);
}

} // verus!
