use vstd::prelude::*;
use vstd::arithmetic::power::pow;

verus! {

/// Whether `v` fits in an `i64`.
pub open spec fn fits_i64(v: int) -> bool {
    i64::MIN <= v <= i64::MAX
}

/// Integer division rounding toward zero, as Rust's `/` does.
pub open spec fn div_toward_zero(a: int, b: int) -> int
    recommends
        b != 0,
{
    let q = abs_int(a) / abs_int(b);
    if (a < 0) == (b < 0) {
        q
    } else {
        -q
    }
}

/// The absolute value of an integer.
pub open spec fn abs_int(a: int) -> int {
    if a < 0 {
        -a
    } else {
        a
    }
}

/// The sum of a sequence of integers.
pub open spec fn seq_sum(s: Seq<i64>) -> int
    decreases s.len(),
{
    if s.len() == 0 {
        0
    } else {
        seq_sum(s.drop_last()) + s.last()
    }
}

pub fn add(a: i64, b: i64) -> (r: i64)
    requires
        fits_i64(a + b),
    ensures
        r == a + b,
{
    a + b
}

pub fn subtract(a: i64, b: i64) -> (r: i64)
    requires
        fits_i64(a - b),
    ensures
        r == a - b,
{
    a - b
}

pub fn multiply(a: i64, b: i64) -> (r: i64)
    requires
        fits_i64(a * b),
    ensures
        r == a * b,
{
    a * b
}

/// Quotient rounded toward zero.
pub fn divide(a: i64, b: i64) -> (r: i64)
    requires
        b != 0,
        !(a == i64::MIN && b == -1),
    ensures
        r == div_toward_zero(a as int, b as int),
{
    let wide_a = a as i128;
    let wide_b = b as i128;
    let abs_a: u128 = if wide_a < 0 { (-wide_a) as u128 } else { wide_a as u128 };
    let abs_b: u128 = if wide_b < 0 { (-wide_b) as u128 } else { wide_b as u128 };
    let q = abs_a / abs_b;
    assert(q <= abs_a) by (nonlinear_arith)
        requires
            abs_b >= 1,
            q == abs_a / abs_b,
    ;
    if (a < 0) == (b < 0) {
        assert(q < 0x8000_0000_0000_0000) by (nonlinear_arith)
            requires
                q == abs_a / abs_b,
                abs_a <= 0x8000_0000_0000_0000,
                abs_b >= 1,
                abs_a == 0x8000_0000_0000_0000 ==> abs_b >= 2,
        ;
        q as i64
    } else {
        -(q as i128) as i64
    }
}

pub fn abs(x: i64) -> (r: i64)
    requires
        x != i64::MIN,
    ensures
        r == if x < 0 { -x } else { x as int },
{
    if x < 0 {
        -x
    } else {
        x
    }
}

pub fn max(a: i64, b: i64) -> (r: i64)
    ensures
        r == if a > b { a } else { b },
{
    if a > b {
        a
    } else {
        b
    }
}

pub fn min(a: i64, b: i64) -> (r: i64)
    ensures
        r == if a < b { a } else { b },
{
    if a < b {
        a
    } else {
        b
    }
}

pub fn square(x: i64) -> (r: i64)
    requires
        fits_i64(x * x),
    ensures
        r == x * x,
{
    x * x
}

pub fn cube(x: i64) -> (r: i64)
    requires
        fits_i64(x * x * x),
    ensures
        r == x * x * x,
{
    assert(fits_i64(x * x)) by (nonlinear_arith)
        requires
            fits_i64(x * x * x),
    ;
    x * x * x
}

proof fn lemma_abs_pow(b: int, k: nat)
    ensures
        abs_int(pow(b, k)) == pow(abs_int(b), k),
    decreases k,
{
    reveal(pow);
    if k > 0 {
        lemma_abs_pow(b, (k - 1) as nat);
        let p = pow(b, (k - 1) as nat);
        assert(pow(b, k) == b * p);
        assert(pow(abs_int(b), k) == abs_int(b) * pow(abs_int(b), (k - 1) as nat));
        assert(abs_int(b * p) == abs_int(b) * abs_int(p)) by (nonlinear_arith);
    }
}

proof fn lemma_one_pow(k: nat)
    ensures
        pow(1, k) == 1,
    decreases k,
{
    reveal(pow);
    if k > 0 {
        lemma_one_pow((k - 1) as nat);
    }
}

/// A power fits whenever a higher power of the same base fits.
proof fn lemma_lower_power_fits(b: int, k: nat, n: nat)
    requires
        1 <= k <= n,
        fits_i64(pow(b, n)),
    ensures
        fits_i64(pow(b, k)),
{
    lemma_abs_pow(b, k);
    lemma_abs_pow(b, n);
    let a = abs_int(b);
    if k < n {
        reveal(pow);
        if a == 0 {
            vstd::arithmetic::power::lemma0_pow(k);
        } else {
            vstd::arithmetic::power::lemma_pow_increases(a as nat, (k + 1) as nat, n);
            vstd::arithmetic::power::lemma_pow_positive(a, k);
            assert(pow(a, (k + 1) as nat) == a * pow(a, k));
            if a == 1 {
                lemma_one_pow(k);
            }
            assert(pow(a, k) <= 0x4000_0000_0000_0000) by (nonlinear_arith)
                requires
                    a >= 1,
                    a * pow(a, k) <= 0x8000_0000_0000_0000,
                    a == 1 ==> pow(a, k) == 1,
                    pow(a, k) > 0,
            {
                if a == 1 {
                } else {
                    assert(a * pow(a, k) >= 2 * pow(a, k));
                }
            }
        }
    }
}

/// `base` raised to `exponent`; one for an exponent of zero.
pub fn power(base: i64, exponent: u32) -> (r: i64)
    requires
        fits_i64(pow(base as int, exponent as nat)),
    ensures
        r == pow(base as int, exponent as nat),
{
    let mut result: i64 = 1;
    let mut i: u32 = 0;
    assert(pow(base as int, 0) == 1) by {
        reveal(pow);
    }
    assert forall|k: nat| k <= exponent implies fits_i64(#[trigger] pow(base as int, k)) by {
        if k >= 1 {
            lemma_lower_power_fits(base as int, k, exponent as nat);
        } else {
            reveal(pow);
        }
    }
    while i < exponent
        invariant
            i <= exponent,
            result == pow(base as int, i as nat),
            forall|k: nat| k <= exponent ==> fits_i64(#[trigger] pow(base as int, k)),
        decreases exponent - i,
    {
        proof {
            reveal(pow);
            assert(pow(base as int, (i + 1) as nat) == base * pow(base as int, i as nat));
            assert(fits_i64(pow(base as int, (i + 1) as nat)));
            assert(result * base == base * result) by (nonlinear_arith);
        }
        result = result * base;
        i += 1;
    }
    result
}

pub fn is_even(n: i64) -> (r: bool)
    ensures
        r == (n % 2 == 0),
{
    n % 2 == 0
}

pub fn is_odd(n: i64) -> (r: bool)
    ensures
        r == (n % 2 != 0),
{
    n % 2 != 0
}

/// The sum of a non-empty slice.
pub fn sum(numbers: &[i64]) -> (r: i64)
    requires
        numbers@.len() > 0,
        forall|k: int|
            1 <= k <= numbers@.len() ==> fits_i64(#[trigger] seq_sum(numbers@.subrange(0, k))),
    ensures
        r == seq_sum(numbers@),
{
    let mut result = numbers[0];
    let mut i: usize = 1;
    assert(numbers@.subrange(0, 1).drop_last() =~= Seq::<i64>::empty());
    assert(seq_sum(numbers@.subrange(0, 1)) == seq_sum(Seq::<i64>::empty()) + numbers@[0]);
    while i < numbers.len()
        invariant
            1 <= i <= numbers@.len(),
            result == seq_sum(numbers@.subrange(0, i as int)),
            forall|k: int|
                1 <= k <= numbers@.len() ==> fits_i64(#[trigger] seq_sum(numbers@.subrange(0, k))),
        decreases numbers@.len() - i,
    {
        assert(numbers@.subrange(0, i as int + 1).drop_last() =~= numbers@.subrange(0, i as int));
        assert(fits_i64(seq_sum(numbers@.subrange(0, i as int + 1))));
        result = result + numbers[i];
        i += 1;
    }
    assert(numbers@.subrange(0, numbers@.len() as int) =~= numbers@);
    result
}

/// The largest element, or `None` for an empty slice.
pub fn max_in_array(numbers: &[i64]) -> (r: Option<i64>)
    ensures
        numbers@.len() == 0 <==> r is None,
        r matches Some(m) ==> numbers@.contains(m) && forall|i: int|
            0 <= i < numbers@.len() ==> numbers@[i] <= m,
{
    if numbers.len() == 0 {
        return None;
    }
    let mut max_val = numbers[0];
    let mut at: usize = 0;
    let mut i: usize = 1;
    while i < numbers.len()
        invariant
            1 <= i <= numbers@.len(),
            at < i,
            numbers@[at as int] == max_val,
            forall|j: int| 0 <= j < i ==> numbers@[j] <= max_val,
        decreases numbers@.len() - i,
    {
        if numbers[i] > max_val {
            max_val = numbers[i];
            at = i;
        }
        i += 1;
    }
    assert(numbers@[at as int] == max_val);
    Some(max_val)
}

/// The smallest element, or `None` for an empty slice.
pub fn min_in_array(numbers: &[i64]) -> (r: Option<i64>)
    ensures
        numbers@.len() == 0 <==> r is None,
        r matches Some(m) ==> numbers@.contains(m) && forall|i: int|
            0 <= i < numbers@.len() ==> m <= numbers@[i],
{
    if numbers.len() == 0 {
        return None;
    }
    let mut min_val = numbers[0];
    let mut at: usize = 0;
    let mut i: usize = 1;
    while i < numbers.len()
        invariant
            1 <= i <= numbers@.len(),
            at < i,
            numbers@[at as int] == min_val,
            forall|j: int| 0 <= j < i ==> min_val <= numbers@[j],
        decreases numbers@.len() - i,
    {
        if numbers[i] < min_val {
            min_val = numbers[i];
            at = i;
        }
        i += 1;
    }
    assert(numbers@[at as int] == min_val);
    Some(min_val)
}

} // verus!
