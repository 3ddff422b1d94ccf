//! Integer arithmetic shared by the geometry and the controller.

use vstd::prelude::*;

verus! {

/// The number that stands for one: a unit vector has components counted in
/// millionths, a second has this many microseconds, a degree this many
/// millionths of a degree.
pub const UNIT: i64 = 1_000_000;

/// The distance of `a` from zero.
pub open spec fn magnitude(a: int) -> int {
    if a < 0 {
        -a
    } else {
        a
    }
}

/// The quotient of `n` by a positive `d`, rounded toward zero.
pub open spec fn trunc_div(n: int, d: int) -> int
    recommends
        d > 0,
{
    if n >= 0 {
        n / d
    } else {
        -((-n) / d)
    }
}

/// The quotient of `n` by a `d` of either sign, rounded toward zero.
pub open spec fn ratio(n: int, d: int) -> int
    recommends
        d != 0,
{
    if d > 0 {
        trunc_div(n, d)
    } else {
        trunc_div(-n, -d)
    }
}

/// The quotient of `n` by `d`, rounded toward zero.
pub fn divide(n: i128, d: i128) -> (quotient: i128)
    requires
        d != 0,
        i128::MIN < n,
        i128::MIN < d,
    ensures
        quotient == ratio(n as int, d as int),
{
    if d > 0 {
        n / d
    } else {
        (-n) / (-d)
    }
}

/// The product of two bounded integers is bounded by the product of the bounds.
pub proof fn lemma_product_bound(a: int, b: int, x: int, y: int)
    by (nonlinear_arith)
    requires
        -x <= a <= x,
        -y <= b <= y,
    ensures
        -(x * y) <= a * b <= x * y,
{
}

/// Rounding toward zero never moves a quotient away from zero, and never by a
/// whole step.
pub proof fn lemma_trunc_div_bounds(n: int, d: int)
    by (nonlinear_arith)
    requires
        d > 0,
    ensures
        magnitude(trunc_div(n, d)) * d <= magnitude(n),
        magnitude(n) < (magnitude(trunc_div(n, d)) + 1) * d,
        n >= 0 ==> trunc_div(n, d) >= 0,
        n <= 0 ==> trunc_div(n, d) <= 0,
        trunc_div(-n, d) == -trunc_div(n, d),
{
}

/// A quotient rounded toward zero is no further from zero than a bound on
/// the dividend, divided likewise.
pub proof fn lemma_trunc_div_below(n: int, m: int, d: int)
    requires
        -m <= n <= m,
        d > 0,
    ensures
        -(m / d) <= trunc_div(n, d) <= m / d,
{
    if n >= 0 {
        lemma_quotient_order(n, m, d);
    } else {
        lemma_quotient_order(-n, m, d);
    }
}

/// A quotient rounded toward zero is no further from zero than the dividend.
pub proof fn lemma_trunc_div_within(n: int, d: int, m: int)
    requires
        -m <= n <= m,
        d >= 1,
    ensures
        -m <= trunc_div(n, d) <= m,
{
    lemma_trunc_div_bounds(n, d);
    assert(magnitude(trunc_div(n, d)) <= magnitude(trunc_div(n, d)) * d) by (nonlinear_arith)
        requires
            d >= 1,
            magnitude(trunc_div(n, d)) >= 0,
    ;
}

/// Of two dividends that are not negative, the larger has the larger quotient.
pub proof fn lemma_quotient_order(a: int, b: int, d: int)
    by (nonlinear_arith)
    requires
        0 <= a <= b,
        d > 0,
    ensures
        0 <= a / d <= b / d,
{
}

/// Where `a` whole steps of `l` fit into `n`, and one more does not, the
/// square of `n` lies between the squares of `a` and of `a + 1` steps.
pub proof fn lemma_square_between(a: int, l: int, n: int)
    by (nonlinear_arith)
    requires
        0 <= a,
        0 < l,
        a * l <= n < (a + 1) * l,
    ensures
        (a * a) * (l * l) <= n * n < ((a + 1) * (a + 1)) * (l * l),
{
}

/// Without its sign, a quotient rounded toward zero is the quotient of the
/// dividend without its sign.
pub proof fn lemma_trunc_div_magnitude(n: int, d: int)
    by (nonlinear_arith)
    requires
        d > 0,
    ensures
        magnitude(trunc_div(n, d)) == magnitude(n) / d,
{
}

/// `root` is the square root of `n`, rounded down.
pub open spec fn is_sqrt(n: int, root: int) -> bool {
    0 <= root && root * root <= n < (root + 1) * (root + 1)
}

/// The square root of `n`, rounded down.
pub open spec fn sqrt(n: int) -> int {
    choose|root: int| is_sqrt(n, root)
}

/// Squares keep the order of numbers that are not negative.
pub proof fn lemma_squares_keep_order(a: int, b: int)
    by (nonlinear_arith)
    requires
        0 <= a,
        0 <= b,
    ensures
        a <= b ==> a * a <= b * b,
        a * a < b * b ==> a < b,
{
}

/// Every number that is not negative has a square root rounded down.
pub proof fn lemma_sqrt_exists(n: int)
    requires
        0 <= n,
    ensures
        is_sqrt(n, sqrt(n)),
    decreases n,
{
    if n == 0 {
        assert(is_sqrt(0, 0));
    } else {
        lemma_sqrt_exists(n - 1);
        let before = sqrt(n - 1);
        if (before + 1) * (before + 1) <= n {
            assert((before + 2) * (before + 2) > (before + 1) * (before + 1)) by (nonlinear_arith)
                requires
                    before >= 0,
            ;
            assert(is_sqrt(n, before + 1));
        } else {
            assert(is_sqrt(n, before));
        }
    }
}

/// A number has one square root rounded down, and no other.
pub proof fn lemma_sqrt_is_unique(n: int, root: int)
    requires
        is_sqrt(n, root),
    ensures
        sqrt(n) == root,
{
    let other = sqrt(n);
    lemma_squares_keep_order(root + 1, other);
    lemma_squares_keep_order(other + 1, root);
}

/// The square root of `n`, rounded down.
pub fn isqrt(n: u128) -> (root: u64)
    ensures
        root == sqrt(n as int),
        is_sqrt(n as int, root as int),
{
    let mut low: u128 = 0;
    let mut high: u128 = 0x1_0000_0000_0000_0000;
    proof {
        assert(0x1_0000_0000_0000_0000int * 0x1_0000_0000_0000_0000int > n) by (nonlinear_arith)
            requires
                n < 0x1_0000_0000_0000_0000_0000_0000_0000_0000,
        ;
    }
    while high - low > 1
        invariant
            low < high <= 0x1_0000_0000_0000_0000,
            low * low <= n < high * high,
        decreases high - low,
    {
        let middle = low + (high - low) / 2;
        proof {
            lemma_product_bound(
                middle as int,
                middle as int,
                0xffff_ffff_ffff_ffff,
                0xffff_ffff_ffff_ffff,
            );
        }
        if middle * middle <= n {
            low = middle;
        } else {
            high = middle;
        }
    }
    proof {
        lemma_sqrt_is_unique(n as int, low as int);
    }
    low as u64
}

} // verus!
