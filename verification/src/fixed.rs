//! Fixed-point scalars. A coordinate, a length or a thickness is an `i64`
//! that counts units of 2^-32. A factor that multiplies one of them (a
//! cosine, a sine, a ratio, the component of a unit vector) is an `i64` that
//! counts units of 2^-56, so that the product of a factor and a coordinate,
//! rounded toward zero, is less than one unit of 2^-32 away from the product
//! of the two numbers that they stand for.

use vstd::prelude::*;

verus! {

/// The number 1 as a coordinate, a length or a thickness: 2^32 units.
pub const ONE: i64 = 4_294_967_296;

/// The number 1 as a factor: 2^56 units.
pub const FACTOR_ONE: i64 = 72_057_594_037_927_936;

/// Largest magnitude (4096.0) that the figure builders accept for a
/// coordinate or a length handed to them.
pub const COORD_LIMIT: i64 = 17_592_186_044_416;

/// Absolute value of an integer.
pub open spec fn magnitude(v: int) -> int {
    if v >= 0 {
        v
    } else {
        -v
    }
}

/// Whether `v` can be held in an `i64`.
pub open spec fn fits(v: int) -> bool {
    i64::MIN <= v <= i64::MAX
}

/// Quotient of `n` by a positive `d`, rounded toward zero.
pub open spec fn trunc_div(n: int, d: int) -> int
    recommends
        d > 0,
{
    if n >= 0 {
        n / d
    } else {
        -((-n) / d)
    }
}

/// Product of a number and a factor, rounded toward zero. The result counts
/// the units that the number counts, and is less than one such unit away
/// from the product of the two numbers that they stand for.
pub open spec fn fmul(a: int, b: int) -> int {
    trunc_div(a * b, FACTOR_ONE as int)
}

/// The product of two 64-bit integers fits in 128 bits with room to spare.
pub proof fn lemma_product_fits_wide(a: int, b: int)
    requires
        -0x8000_0000_0000_0000 <= a <= 0x7fff_ffff_ffff_ffff,
        -0x8000_0000_0000_0000 <= b <= 0x7fff_ffff_ffff_ffff,
    ensures
        -0x4000_0000_0000_0000_0000_0000_0000_0000 <= a * b
            <= 0x4000_0000_0000_0000_0000_0000_0000_0000,
{
    assert(-0x4000_0000_0000_0000_0000_0000_0000_0000 <= a * b
        <= 0x4000_0000_0000_0000_0000_0000_0000_0000) by (nonlinear_arith)
        requires
            -0x8000_0000_0000_0000 <= a <= 0x7fff_ffff_ffff_ffff,
            -0x8000_0000_0000_0000 <= b <= 0x7fff_ffff_ffff_ffff,
    ;
}

/// Multiplying by a factor of magnitude at most one never grows a number,
/// and multiplying by a non-negative factor keeps its sign.
pub proof fn lemma_fmul_contracts(a: int, b: int)
    requires
        -(FACTOR_ONE as int) <= b <= FACTOR_ONE as int,
    ensures
        magnitude(fmul(a, b)) <= magnitude(a),
        b >= 0 && a >= 0 ==> fmul(a, b) >= 0,
        b >= 0 && a <= 0 ==> fmul(a, b) <= 0,
{
    let p = a * b;
    assert(magnitude(p) <= magnitude(a) * FACTOR_ONE) by (nonlinear_arith)
        requires
            p == a * b,
            -(FACTOR_ONE as int) <= b <= FACTOR_ONE as int,
    ;
    assert(b >= 0 && a >= 0 ==> p >= 0) by (nonlinear_arith)
        requires
            p == a * b,
    ;
    assert(b >= 0 && a <= 0 ==> p <= 0) by (nonlinear_arith)
        requires
            p == a * b,
    ;
}

/// Multiplying a positive number by a factor between zero and one, one
/// excluded, gives a smaller number that is not negative.
pub proof fn lemma_fmul_shrinks(a: int, b: int)
    requires
        a > 0,
        0 <= b < FACTOR_ONE,
    ensures
        0 <= fmul(a, b) < a,
{
    let p = a * b;
    assert(0 <= p < a * FACTOR_ONE) by (nonlinear_arith)
        requires
            p == a * b,
            a > 0,
            0 <= b < FACTOR_ONE,
    ;
}

/// What rounding toward zero does to a product: `FACTOR_ONE` times the
/// rounded product differs from the product by less than `FACTOR_ONE`, and
/// lies between zero and it.
pub proof fn lemma_fmul_remainder(a: int, b: int)
    ensures
        a * b >= 0 ==> 0 <= a * b - FACTOR_ONE * fmul(a, b) < FACTOR_ONE,
        a * b <= 0 ==> -(FACTOR_ONE as int) < a * b - FACTOR_ONE * fmul(a, b) <= 0,
        FACTOR_ONE * magnitude(fmul(a, b)) <= magnitude(a * b),
{
    let p = a * b;
    let q = trunc_div(p, FACTOR_ONE as int);
    if p >= 0 {
        assert(p == FACTOR_ONE * (p / (FACTOR_ONE as int)) + p % (FACTOR_ONE as int));
    } else {
        assert(-p == FACTOR_ONE * ((-p) / (FACTOR_ONE as int)) + (-p) % (FACTOR_ONE as int));
    }
}

/// The product does not depend on which of the two is taken as the factor.
pub proof fn lemma_fmul_commutes(a: int, b: int)
    ensures
        fmul(a, b) == fmul(b, a),
{
    assert(a * b == b * a) by (nonlinear_arith);
}

/// Rounds the wide quotient `n / FACTOR_ONE` toward zero.
pub fn reduce(n: i128) -> (r: i64)
    requires
        fits(trunc_div(n as int, FACTOR_ONE as int)),
    ensures
        r == trunc_div(n as int, FACTOR_ONE as int),
{
    let q: i128 = n / (FACTOR_ONE as i128);
    q as i64
}

/// Multiplies a number by a factor, rounding toward zero.
pub fn mul_fixed(a: i64, b: i64) -> (r: i64)
    requires
        fits(fmul(a as int, b as int)),
    ensures
        r == fmul(a as int, b as int),
{
    proof {
        lemma_product_fits_wide(a as int, b as int);
    }
    let wide: i128 = (a as i128) * (b as i128);
    reduce(wide)
}

/// The coordinate that stands for the whole number `n`.
pub fn from_int(n: i32) -> (r: i64)
    ensures
        r == n * ONE,
{
    (n as i64) * ONE
}

} // verus!
