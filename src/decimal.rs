//! Fixed-point decimal amounts with eight fractional digits.
//!
//! A `Decimal` stores an integer number of units, one unit being 10^-8.
//! Prices, quantities and balances all use this representation, so every
//! comparison is an integer comparison and every sum is exact.
use vstd::prelude::*;

verus! {

/// Number of units in one whole.
pub const UNITS_PER_ONE: i128 = 100_000_000;

/// Largest representable amount; also the sentinel price of a market buy.
pub const MAX_UNITS: i128 = 170141183460469231731687303715884105727;

/// A fixed-point amount: `units / 10^8`.
#[derive(Clone, Copy, Debug, PartialEq, Eq, Structural, Hash, PartialOrd, Ord)]
pub struct Decimal {
    pub units: i128,
}

/// `10^n` as a mathematical integer.
pub open spec fn pow10(n: nat) -> nat
    decreases n,
{
    if n == 0 {
        1
    } else {
        10 * pow10((n - 1) as nat)
    }
}

/// ASCII code of the digit `d` (`d < 10`).
pub open spec fn digit_byte(d: nat) -> u8 {
    (48 + d) as u8
}

/// Decimal digits of `n`, most significant first, with no leading zeros
/// (zero itself is written `0`).
pub open spec fn digits_of(n: nat) -> Seq<u8>
    decreases n,
{
    if n < 10 {
        seq![digit_byte(n)]
    } else {
        digits_of(n / 10).push(digit_byte(n % 10))
    }
}

/// The last `k` decimal digits of `f`, zero padded on the left.
pub open spec fn padded_digits(f: nat, k: nat) -> Seq<u8>
    decreases k,
{
    if k == 0 {
        seq![]
    } else {
        padded_digits(f / 10, (k - 1) as nat).push(digit_byte(f % 10))
    }
}

/// The `k`-digit fraction `f` with its trailing zeros removed.
pub open spec fn trimmed_fraction(f: nat, k: nat) -> Seq<u8>
    decreases k,
{
    if k == 0 || f == 0 {
        seq![]
    } else if f % 10 == 0 {
        trimmed_fraction(f / 10, (k - 1) as nat)
    } else {
        padded_digits(f, k)
    }
}

/// Absolute value of an integer.
pub open spec fn abs(v: int) -> nat {
    if v < 0 {
        (-v) as nat
    } else {
        v as nat
    }
}

/// Canonical text of an amount of `v` units: an optional `-`, the whole
/// part, and, only when the fraction is not zero, `.` followed by the
/// fractional digits without trailing zeros.
pub open spec fn decimal_text(v: int) -> Seq<u8> {
    let a = abs(v);
    let sign: Seq<u8> = if v < 0 { seq![45u8] } else { seq![] };
    let whole = digits_of(a / (UNITS_PER_ONE as nat));
    let frac = a % (UNITS_PER_ONE as nat);
    if frac == 0 {
        sign + whole
    } else {
        sign + whole + seq![46u8] + trimmed_fraction(frac, 8)
    }
}

/// Appends the decimal digits of `n`.
fn push_digits(out: &mut Vec<u8>, n: u128)
    ensures
        final(out)@ == old(out)@ + digits_of(n as nat),
    decreases n,
{
    if n >= 10 {
        push_digits(out, n / 10);
    }
    out.push((48 + n % 10) as u8);
    proof {
        assert(old(out)@ + digits_of(n as nat) =~= final(out)@) by {
            if n >= 10 {
                assert(digits_of(n as nat) == digits_of((n / 10) as nat).push(digit_byte((n % 10) as nat)));
            }
        }
    }
}

/// Appends the last `k` digits of `f`, zero padded.
fn push_padded(out: &mut Vec<u8>, f: u128, k: u32)
    ensures
        final(out)@ == old(out)@ + padded_digits(f as nat, k as nat),
    decreases k,
{
    if k > 0 {
        push_padded(out, f / 10, k - 1);
        out.push((48 + f % 10) as u8);
        assert(final(out)@ =~= old(out)@ + padded_digits(f as nat, k as nat));
    } else {
        assert(final(out)@ =~= old(out)@ + padded_digits(f as nat, k as nat));
    }
}

/// Appends the `k`-digit fraction `f` without trailing zeros.
fn push_trimmed(out: &mut Vec<u8>, f: u128, k: u32)
    ensures
        final(out)@ == old(out)@ + trimmed_fraction(f as nat, k as nat),
    decreases k,
{
    if k == 0 || f == 0 {
        assert(final(out)@ =~= old(out)@ + trimmed_fraction(f as nat, k as nat));
    } else if f % 10 == 0 {
        push_trimmed(out, f / 10, k - 1);
    } else {
        push_padded(out, f, k);
    }
}

impl Decimal {
    /// The amount as a mathematical integer number of units.
    pub open spec fn view(self) -> int {
        self.units as int
    }

    /// Zero.
    pub fn zero() -> (r: Decimal)
        ensures
            r@ == 0,
    {
        Decimal { units: 0 }
    }

    /// One whole.
    pub fn one() -> (r: Decimal)
        ensures
            r@ == UNITS_PER_ONE,
    {
        Decimal { units: UNITS_PER_ONE }
    }

    /// The largest amount.
    pub fn max_value() -> (r: Decimal)
        ensures
            r@ == MAX_UNITS,
    {
        Decimal { units: MAX_UNITS }
    }

    /// `num * 10^-scale`.
    pub fn new(num: i64, scale: u32) -> (r: Decimal)
        requires
            scale <= 8,
        ensures
            r@ == num * pow10((8 - scale) as nat),
    {
        let factor = pow10_exec(8 - scale);
        proof {
            lemma_pow10_mono((8 - scale) as nat, 8);
            lemma_pow10_8();
            assert(num * factor <= 0x7fff_ffff_ffff_ffff * 100_000_000) by (nonlinear_arith)
                requires
                    1 <= factor <= 100_000_000,
                    -0x8000_0000_0000_0000 <= num <= 0x7fff_ffff_ffff_ffff;
            assert(-0x8000_0000_0000_0000 * 100_000_000 <= num * factor) by (nonlinear_arith)
                requires
                    1 <= factor <= 100_000_000,
                    -0x8000_0000_0000_0000 <= num <= 0x7fff_ffff_ffff_ffff;
        }
        Decimal { units: num as i128 * factor }
    }

    /// An amount given directly in units.
    pub fn from_units(units: i128) -> (r: Decimal)
        ensures
            r.units == units,
    {
        Decimal { units }
    }

    /// A whole number.
    pub fn from_int(n: i64) -> (r: Decimal)
        ensures
            r@ == n * UNITS_PER_ONE,
    {
        Decimal { units: n as i128 * 100_000_000 }
    }

    pub fn is_zero(&self) -> (r: bool)
        ensures
            r == (self@ == 0),
    {
        self.units == 0
    }

    pub fn is_positive(&self) -> (r: bool)
        ensures
            r == (self@ > 0),
    {
        self.units > 0
    }

    /// `self + other`, or `None` when the sum is not representable.
    pub fn checked_add(self, other: Decimal) -> (r: Option<Decimal>)
        ensures
            r matches Some(v) ==> v@ == self@ + other@,
            r is None <==> !(i128::MIN <= self@ + other@ <= i128::MAX),
    {
        match self.units.checked_add(other.units) {
            Some(u) => Some(Decimal { units: u }),
            None => None,
        }
    }

    /// `self - other`, or `None` when the difference is not representable.
    pub fn checked_sub(self, other: Decimal) -> (r: Option<Decimal>)
        ensures
            r matches Some(v) ==> v@ == self@ - other@,
            r is None <==> !(i128::MIN <= self@ - other@ <= i128::MAX),
    {
        match self.units.checked_sub(other.units) {
            Some(u) => Some(Decimal { units: u }),
            None => None,
        }
    }

    /// The smaller of two amounts.
    pub fn min(self, other: Decimal) -> (r: Decimal)
        ensures
            r@ == if self@ <= other@ { self@ } else { other@ },
    {
        if self.units <= other.units {
            self
        } else {
            other
        }
    }

    /// Product of two non-negative amounts, truncated to eight fractional
    /// digits; `MAX` when it does not fit.
    pub fn saturating_mul(self, other: Decimal) -> (r: Decimal)
        requires
            self@ >= 0,
            other@ >= 0,
        ensures
            r@ == saturated_product(self@, other@),
    {
        let s: u128 = 100_000_000;
        let a = self.units as u128;
        let b = other.units as u128;
        let a1 = a / s;
        let a0 = a % s;
        let b1 = b / s;
        let b0 = b % s;
        assert(a0 * b0 < 100_000_000 * 100_000_000) by (nonlinear_arith)
            requires a0 < 100_000_000, b0 < 100_000_000;
        let low = (a0 * b0) / s;
        proof {
            lemma_split_product(a1 as int, a0 as int, b1 as int, b0 as int);
            assert(a1 * b1 >= 0 && a1 * b0 >= 0 && a0 * b1 >= 0) by (nonlinear_arith)
                requires a1 >= 0, a0 >= 0, b1 >= 0, b0 >= 0;
            assert(a1 * b1 * 100_000_000 >= a1 * b1) by (nonlinear_arith)
                requires a1 * b1 >= 0;
        }
        let q: Option<u128> = match a1.checked_mul(b1) {
            None => None,
            Some(hh) => match hh.checked_mul(s) {
                None => None,
                Some(t1) => match a1.checked_mul(b0) {
                    None => None,
                    Some(t2) => match a0.checked_mul(b1) {
                        None => None,
                        Some(t3) => match t1.checked_add(t2) {
                            None => None,
                            Some(u) => match u.checked_add(t3) {
                                None => None,
                                Some(v) => v.checked_add(low),
                            },
                        },
                    },
                },
            },
        };
        match q {
            Some(v) => {
                if v <= MAX_UNITS as u128 {
                    Decimal { units: v as i128 }
                } else {
                    Decimal::max_value()
                }
            },
            None => Decimal::max_value(),
        }
    }

    /// The canonical text of the amount, as ASCII bytes.
    pub fn canonical_bytes(&self) -> (r: Vec<u8>)
        ensures
            r@ == decimal_text(self@),
    {
        let mut out: Vec<u8> = Vec::new();
        let a: u128 = if self.units < 0 {
            (-(self.units + 1)) as u128 + 1
        } else {
            self.units as u128
        };
        if self.units < 0 {
            out.push(45u8);
        }
        push_digits(&mut out, a / 100_000_000);
        let frac = a % 100_000_000;
        if frac != 0 {
            out.push(46u8);
            push_trimmed(&mut out, frac, 8);
        }
        assert(out@ =~= decimal_text(self@));
        out
    }
}

/// `a * b / 10^8` truncated, or the largest amount when that overflows.
pub open spec fn saturated_product(a: int, b: int) -> int {
    let q = (a * b) / (UNITS_PER_ONE as int);
    if q <= MAX_UNITS {
        q
    } else {
        MAX_UNITS as int
    }
}

/// `10^n` for small `n`.
fn pow10_exec(n: u32) -> (r: i128)
    requires
        n <= 8,
    ensures
        r == pow10(n as nat),
        1 <= r <= 100_000_000,
    decreases n,
{
    proof {
        lemma_pow10_mono(n as nat, 8);
        lemma_pow10_8();
    }
    if n == 0 {
        1
    } else {
        let p = pow10_exec(n - 1);
        10 * p
    }
}

/// The product of two split amounts, divided by one whole.
proof fn lemma_split_product(a1: int, a0: int, b1: int, b0: int)
    requires
        a1 >= 0,
        b1 >= 0,
        0 <= a0 < UNITS_PER_ONE,
        0 <= b0 < UNITS_PER_ONE,
    ensures
        ((a1 * UNITS_PER_ONE + a0) * (b1 * UNITS_PER_ONE + b0)) / (UNITS_PER_ONE as int)
            == a1 * b1 * UNITS_PER_ONE + a1 * b0 + a0 * b1 + (a0 * b0) / (UNITS_PER_ONE as int),
{
    let s = UNITS_PER_ONE as int;
    let x = (a1 * s + a0) * (b1 * s + b0);
    let lo = a0 * b0;
    let q = a1 * b1 * s + a1 * b0 + a0 * b1 + lo / s;
    assert(lo == (lo / s) * s + lo % s) by (nonlinear_arith)
        requires s > 0;
    assert(0 <= lo % s < s) by (nonlinear_arith)
        requires s > 0, lo >= 0;
    assert(lo >= 0) by (nonlinear_arith)
        requires a0 >= 0, b0 >= 0, lo == a0 * b0;
    assert(x == (a1 * b1 * s + a1 * b0 + a0 * b1) * s + a0 * b0) by (nonlinear_arith)
        requires x == (a1 * s + a0) * (b1 * s + b0);
    assert(q * s == (a1 * b1 * s + a1 * b0 + a0 * b1) * s + (lo / s) * s) by (nonlinear_arith)
        requires q == a1 * b1 * s + a1 * b0 + a0 * b1 + lo / s;
    assert(x == q * s + lo % s);
    vstd::arithmetic::div_mod::lemma_fundamental_div_mod_converse(x, s, q, lo % s);
}

proof fn lemma_pow10_8()
    ensures
        pow10(8) == 100_000_000,
{
    reveal_with_fuel(pow10, 9);
}

proof fn lemma_pow10_mono(a: nat, b: nat)
    requires
        a <= b,
    ensures
        pow10(a) <= pow10(b),
        pow10(a) >= 1,
    decreases b,
{
    if a < b {
        lemma_pow10_mono(a, (b - 1) as nat);
    } else if a > 0 {
        lemma_pow10_mono((a - 1) as nat, (a - 1) as nat);
    }
}

} // verus!
