//! The numeric domain of the language: exact rationals.
//!
//! Runtime numbers are fractions of two `i64`s with a positive denominator.
//! Every decimal literal is represented exactly, arithmetic is exact, and
//! two numbers are equal exactly when they denote the same rational value.
//! Results are reduced to lowest terms; an operation whose reduced result
//! still does not fit the fraction fields reports failure instead of
//! wrapping, and the evaluator turns that into a runtime error.

use vstd::arithmetic::div_mod::{
    lemma_fundamental_div_mod, lemma_fundamental_div_mod_converse, lemma_mod_multiples_basic,
    lemma_mod_self_0,
};
use vstd::math::abs;
use vstd::prelude::*;

use crate::text::{append_digits, push_char, spec_digits};

verus! {

/// Greatest common divisor of two naturals, by Euclid's algorithm.
pub open spec fn gcd(a: nat, b: nat) -> nat
    decreases b,
{
    if b == 0 {
        a
    } else {
        gcd(b, a % b)
    }
}

/// `gcd(a, b)` divides both arguments and is positive unless both are zero.
pub proof fn lemma_gcd_divides(a: nat, b: nat)
    ensures
        a > 0 || b > 0 ==> gcd(a, b) > 0,
        gcd(a, b) > 0 ==> a % gcd(a, b) == 0,
        gcd(a, b) > 0 ==> b % gcd(a, b) == 0,
    decreases b,
{
    if b == 0 {
        if a > 0 {
            lemma_mod_self_0(a as int);
            lemma_mod_multiples_basic(0, a as int);
        }
    } else {
        lemma_gcd_divides(b, a % b);
        let g = gcd(b, a % b);
        assert(g > 0);
        lemma_fundamental_div_mod(a as int, b as int);
        // a == b * (a / b) + a % b, and g divides both b and a % b.
        let qb = b as int / g as int;
        let qr = (a % b) as int / g as int;
        lemma_fundamental_div_mod(b as int, g as int);
        lemma_fundamental_div_mod((a % b) as int, g as int);
        assert(b as int == g * qb);
        assert((a % b) as int == g * qr);
        assert(a as int == g * (qb * (a as int / b as int) + qr)) by (nonlinear_arith)
            requires
                a as int == b * (a as int / b as int) + (a % b),
                b as int == g * qb,
                (a % b) as int == g * qr,
        ;
        lemma_mod_multiples_basic(qb * (a as int / b as int) + qr, g as int);
    }
}

/// If `g` divides `m` exactly, the quotient recovers `m` as a product.
proof fn lemma_div_exact(m: nat, g: nat)
    requires
        g > 0,
        m % g == 0,
    ensures
        m as int == g * (m as int / g as int),
{
    lemma_fundamental_div_mod(m as int, g as int);
}

/// An exact rational number: `num / den` with `den > 0`.
#[derive(Clone, Copy, Debug, PartialEq)]
pub struct LoxNum {
    pub num: i64,
    pub den: i64,
}

/// Whether the fraction `n / d` (with `d > 0`) still fits the `i64`
/// numerator and denominator after reduction to lowest terms.
pub open spec fn reduced_fits(n: int, d: int) -> bool {
    let g = gcd(abs(n), d as nat) as int;
    abs(n) as int / g <= i64::MAX && d / g <= i64::MAX
}

/// The fraction `n / d` (with `d > 0`) in lowest terms.
pub open spec fn spec_reduce(n: int, d: int) -> LoxNum {
    let g = gcd(abs(n), d as nat) as int;
    let m = abs(n) as int / g;
    LoxNum {
        num: (if n < 0 {
            -m
        } else {
            m
        }) as i64,
        den: (d / g) as i64,
    }
}

impl LoxNum {
    /// Well-formedness: the denominator is positive.
    pub open spec fn wf(self) -> bool {
        self.den > 0
    }

    /// The two fractions denote the same rational value.
    pub open spec fn same_value(self, other: LoxNum) -> bool {
        self.num * other.den == other.num * self.den
    }

    /// The fraction denotes the rational `n / d`.
    pub open spec fn denotes(self, n: int, d: int) -> bool {
        self.num * d == n * self.den
    }

    pub fn new(num: i64, den: i64) -> (r: LoxNum)
        requires
            den > 0,
        ensures
            r.num == num,
            r.den == den,
            r.wf(),
    {
        LoxNum { num, den }
    }

    /// The rational denoting the integer `n`.
    pub fn from_int(n: i64) -> (r: LoxNum)
        ensures
            r.num == n,
            r.den == 1,
            r.wf(),
    {
        LoxNum { num: n, den: 1 }
    }
}

/// Bound on the product of two `i64`-sized factors, used to justify `i128`
/// intermediate arithmetic.
proof fn lemma_i64_product_bound(x: int, y: int)
    requires
        i64::MIN <= x <= i64::MAX,
        i64::MIN <= y <= i64::MAX,
    ensures
        -0x4000_0000_0000_0000_0000_0000_0000_0000 <= x * y
            <= 0x4000_0000_0000_0000_0000_0000_0000_0000,
    decreases 0int,
{
    assert(-0x4000_0000_0000_0000_0000_0000_0000_0000 <= x * y
        <= 0x4000_0000_0000_0000_0000_0000_0000_0000) by (nonlinear_arith)
        requires
            -0x8000_0000_0000_0000 <= x <= 0x7fff_ffff_ffff_ffff,
            -0x8000_0000_0000_0000 <= y <= 0x7fff_ffff_ffff_ffff,
    ;
}

/// Bound on the product of an `i64` and a positive `i64` denominator; tight
/// enough that the sum of two such products fits in `i128`.
proof fn lemma_num_times_den_bound(x: int, y: int)
    requires
        i64::MIN <= x <= i64::MAX,
        1 <= y <= i64::MAX,
    ensures
        -0x3fff_ffff_ffff_ffff_8000_0000_0000_0000 <= x * y
            <= 0x3fff_ffff_ffff_ffff_8000_0000_0000_0000,
{
    assert(-0x3fff_ffff_ffff_ffff_8000_0000_0000_0000 <= x * y
        <= 0x3fff_ffff_ffff_ffff_8000_0000_0000_0000) by (nonlinear_arith)
        requires
            -0x8000_0000_0000_0000 <= x <= 0x7fff_ffff_ffff_ffff,
            1 <= y <= 0x7fff_ffff_ffff_ffff,
    ;
}

/// Euclid's algorithm on machine integers.
fn gcd_u128(a: u128, b: u128) -> (g: u128)
    ensures
        g == gcd(a as nat, b as nat),
    decreases b,
{
    if b == 0 {
        a
    } else {
        gcd_u128(b, a % b)
    }
}

/// Builds the reduced fraction `sign * mag / den`, reporting `None` when the
/// reduced numerator or denominator exceeds `i64::MAX`.
fn reduce_parts(neg: bool, mag: u128, den: u128) -> (r: Option<LoxNum>)
    requires
        den > 0,
    ensures
        match r {
            Some(x) => {
                &&& x.wf()
                &&& x == spec_reduce(if neg { -(mag as int) } else { mag as int }, den as int)
                &&& x.denotes(if neg { -(mag as int) } else { mag as int }, den as int)
                &&& reduced_fits(if neg { -(mag as int) } else { mag as int }, den as int)
            },
            None => !reduced_fits(if neg { -(mag as int) } else { mag as int }, den as int),
        },
{
    let g = gcd_u128(mag, den);
    proof {
        lemma_gcd_divides(mag as nat, den as nat);
        assert(abs(if neg { -(mag as int) } else { mag as int }) == mag as nat);
    }
    let qn = mag / g;
    let qd = den / g;
    proof {
        lemma_div_exact(mag as nat, g as nat);
        lemma_div_exact(den as nat, g as nat);
        assert(qd >= 1) by {
            if qd == 0 {
                assert(den as int == g * 0);
            }
        }
    }
    if qn <= i64::MAX as u128 && qd <= i64::MAX as u128 {
        let n64: i64 = if neg {
            -(qn as i64)
        } else {
            qn as i64
        };
        let r = LoxNum { num: n64, den: qd as i64 };
        proof {
            if neg {
                assert(r.num == -(qn as int));
                assert((-(qn as int)) * (den as int) == (-(mag as int)) * (qd as int))
                    by (nonlinear_arith)
                    requires
                        mag as int == g * qn,
                        den as int == g * qd,
                ;
            } else {
                assert(r.num == qn as int);
                assert((qn as int) * (den as int) == (mag as int) * (qd as int))
                    by (nonlinear_arith)
                    requires
                        mag as int == g * qn,
                        den as int == g * qd,
                ;
            }
        }
        Some(r)
    } else {
        None
    }
}

/// Builds the reduced fraction `n / d`, reporting `None` when the reduced
/// fraction does not fit.
fn reduce(n: i128, d: i128) -> (r: Option<LoxNum>)
    requires
        d > 0,
        n > i128::MIN,
    ensures
        match r {
            Some(x) => {
                &&& x.wf()
                &&& x == spec_reduce(n as int, d as int)
                &&& x.denotes(n as int, d as int)
                &&& reduced_fits(n as int, d as int)
            },
            None => !reduced_fits(n as int, d as int),
        },
{
    if n < 0 {
        reduce_parts(true, (-n) as u128, d as u128)
    } else {
        reduce_parts(false, n as u128, d as u128)
    }
}

impl LoxNum {
    /// Exact sum; `None` exactly when the reduced sum does not fit.
    pub fn checked_add(self, other: LoxNum) -> (r: Option<LoxNum>)
        requires
            self.wf(),
            other.wf(),
        ensures
            match r {
                Some(x) => {
                    &&& x.wf()
                    &&& x == spec_reduce(
                        self.num * other.den + other.num * self.den,
                        self.den * other.den,
                    )
                    &&& x.denotes(
                        self.num * other.den + other.num * self.den,
                        self.den * other.den,
                    )
                    &&& reduced_fits(
                        self.num * other.den + other.num * self.den,
                        self.den * other.den,
                    )
                },
                None => !reduced_fits(
                    self.num * other.den + other.num * self.den,
                    self.den * other.den,
                ),
            },
    {
        proof {
            lemma_num_times_den_bound(self.num as int, other.den as int);
            lemma_num_times_den_bound(other.num as int, self.den as int);
            lemma_i64_product_bound(self.den as int, other.den as int);
        }
        let n: i128 = (self.num as i128) * (other.den as i128)
            + (other.num as i128) * (self.den as i128);
        let d: i128 = (self.den as i128) * (other.den as i128);
        proof {
            assert(d > 0) by (nonlinear_arith)
                requires
                    self.den > 0,
                    other.den > 0,
                    d == self.den * other.den,
            ;
        }
        reduce(n, d)
    }

    /// Exact difference; `None` exactly when the reduced result does not fit.
    pub fn checked_sub(self, other: LoxNum) -> (r: Option<LoxNum>)
        requires
            self.wf(),
            other.wf(),
        ensures
            match r {
                Some(x) => {
                    &&& x.wf()
                    &&& x == spec_reduce(
                        self.num * other.den - other.num * self.den,
                        self.den * other.den,
                    )
                    &&& x.denotes(
                        self.num * other.den - other.num * self.den,
                        self.den * other.den,
                    )
                    &&& reduced_fits(
                        self.num * other.den - other.num * self.den,
                        self.den * other.den,
                    )
                },
                None => !reduced_fits(
                    self.num * other.den - other.num * self.den,
                    self.den * other.den,
                ),
            },
    {
        proof {
            lemma_num_times_den_bound(self.num as int, other.den as int);
            lemma_num_times_den_bound(other.num as int, self.den as int);
            lemma_i64_product_bound(self.den as int, other.den as int);
        }
        let n: i128 = (self.num as i128) * (other.den as i128)
            - (other.num as i128) * (self.den as i128);
        let d: i128 = (self.den as i128) * (other.den as i128);
        proof {
            assert(d > 0) by (nonlinear_arith)
                requires
                    self.den > 0,
                    other.den > 0,
                    d == self.den * other.den,
            ;
        }
        reduce(n, d)
    }

    /// Exact product; `None` exactly when the reduced result does not fit.
    pub fn checked_mul(self, other: LoxNum) -> (r: Option<LoxNum>)
        requires
            self.wf(),
            other.wf(),
        ensures
            match r {
                Some(x) => {
                    &&& x.wf()
                    &&& x == spec_reduce(self.num * other.num, self.den * other.den)
                    &&& x.denotes(self.num * other.num, self.den * other.den)
                    &&& reduced_fits(self.num * other.num, self.den * other.den)
                },
                None => !reduced_fits(self.num * other.num, self.den * other.den),
            },
    {
        proof {
            lemma_i64_product_bound(self.num as int, other.num as int);
            lemma_i64_product_bound(self.den as int, other.den as int);
        }
        let n: i128 = (self.num as i128) * (other.num as i128);
        let d: i128 = (self.den as i128) * (other.den as i128);
        proof {
            assert(d > 0) by (nonlinear_arith)
                requires
                    self.den > 0,
                    other.den > 0,
                    d == self.den * other.den,
            ;
        }
        reduce(n, d)
    }

    /// Exact quotient; the divisor must be nonzero (the evaluator reports a
    /// runtime error for a zero divisor). `None` exactly when the reduced
    /// result does not fit.
    pub fn checked_div(self, other: LoxNum) -> (r: Option<LoxNum>)
        requires
            self.wf(),
            other.wf(),
            other.num != 0,
        ensures
            match r {
                Some(x) => {
                    &&& x.wf()
                    &&& x == spec_reduce(
                        if other.num > 0 { self.num * other.den } else { -(self.num * other.den) },
                        if other.num > 0 { self.den * other.num } else { -(self.den * other.num) },
                    )
                    &&& reduced_fits(
                        if other.num > 0 { self.num * other.den } else { -(self.num * other.den) },
                        if other.num > 0 { self.den * other.num } else { -(self.den * other.num) },
                    )
                    &&& x.num * (self.den * other.num) == (self.num * other.den) * x.den
                    &&& x.denotes(
                        if other.num > 0 { self.num * other.den } else { -(self.num * other.den) },
                        if other.num > 0 { self.den * other.num } else { -(self.den * other.num) },
                    )
                },
                None => !reduced_fits(
                    if other.num > 0 { self.num * other.den } else { -(self.num * other.den) },
                    if other.num > 0 { self.den * other.num } else { -(self.den * other.num) },
                ),
            },
    {
        proof {
            lemma_i64_product_bound(self.num as int, other.den as int);
            lemma_i64_product_bound(self.den as int, other.num as int);
        }
        let mut n: i128 = (self.num as i128) * (other.den as i128);
        let mut d: i128 = (self.den as i128) * (other.num as i128);
        proof {
            assert(d != 0) by (nonlinear_arith)
                requires
                    self.den > 0,
                    other.num != 0,
                    d == self.den * other.num,
            ;
            assert(other.num > 0 ==> d > 0) by (nonlinear_arith)
                requires
                    self.den > 0,
                    d == self.den * other.num,
            ;
            assert(other.num < 0 ==> d < 0) by (nonlinear_arith)
                requires
                    self.den > 0,
                    d == self.den * other.num,
            ;
        }
        if d < 0 {
            n = -n;
            d = -d;
        }
        let r = reduce(n, d);
        proof {
            if let Some(x) = r {
                let n0 = (self.num as int) * (other.den as int);
                let d0 = (self.den as int) * (other.num as int);
                assert(x.num * d0 == n0 * x.den) by (nonlinear_arith)
                    requires
                        x.num * (d as int) == (n as int) * x.den,
                        (n as int == n0 && d as int == d0) || (n as int == -n0 && d as int == -d0),
                ;
            }
        }
        r
    }

    /// Exact negation; `None` exactly when the reduced result does not fit
    /// (only possible for the most negative representable numerator).
    pub fn checked_neg(self) -> (r: Option<LoxNum>)
        requires
            self.wf(),
        ensures
            match r {
                Some(x) => {
                    &&& x.wf()
                    &&& x == spec_reduce(-self.num, self.den as int)
                    &&& x.denotes(-self.num, self.den as int)
                    &&& reduced_fits(-self.num, self.den as int)
                },
                None => !reduced_fits(-self.num, self.den as int),
            },
    {
        reduce(-(self.num as i128), self.den as i128)
    }

    /// Value equality: same rational, regardless of representation.
    pub fn eq_value(self, other: LoxNum) -> (r: bool)
        ensures
            r == self.same_value(other),
    {
        proof {
            lemma_i64_product_bound(self.num as int, other.den as int);
            lemma_i64_product_bound(other.num as int, self.den as int);
        }
        (self.num as i128) * (other.den as i128) == (other.num as i128) * (self.den as i128)
    }

    /// Value ordering: `self < other` as rationals.
    pub fn lt_value(self, other: LoxNum) -> (r: bool)
        requires
            self.wf(),
            other.wf(),
        ensures
            r == (self.num * other.den < other.num * self.den),
    {
        proof {
            lemma_i64_product_bound(self.num as int, other.den as int);
            lemma_i64_product_bound(other.num as int, self.den as int);
        }
        (self.num as i128) * (other.den as i128) < (other.num as i128) * (self.den as i128)
    }

    /// Value ordering: `self <= other` as rationals.
    pub fn le_value(self, other: LoxNum) -> (r: bool)
        requires
            self.wf(),
            other.wf(),
        ensures
            r == (self.num * other.den <= other.num * self.den),
    {
        proof {
            lemma_i64_product_bound(self.num as int, other.den as int);
            lemma_i64_product_bound(other.num as int, self.den as int);
        }
        (self.num as i128) * (other.den as i128) <= (other.num as i128) * (self.den as i128)
    }
}

} // verus!

verus! {

/// The fractional digits of `r / d` (with `0 <= r < d`), at most `fuel`
/// of them; the expansion stops early when it terminates exactly.
pub open spec fn spec_frac_digits(r: nat, d: nat, fuel: nat) -> Seq<char>
    decreases fuel,
{
    if r == 0 || fuel == 0 || d == 0 {
        Seq::empty()
    } else {
        seq![crate::text::digit_char((r * 10) / d)] + spec_frac_digits((r * 10) % d, d, (fuel - 1) as nat)
    }
}

/// The rendering of the reduced fraction `rn / rd`: optional minus sign,
/// integer digits, and a fractional part when the value is not an integer.
pub open spec fn spec_render_reduced(neg: bool, rn: nat, rd: nat) -> Seq<char> {
    let ip = rn / rd;
    let rem = rn % rd;
    let digits = crate::text::spec_digits(ip) + if rem == 0 {
        Seq::<char>::empty()
    } else {
        seq!['.'] + spec_frac_digits(rem, rd, 16)
    };
    if neg {
        seq!['-'] + digits
    } else {
        digits
    }
}

/// `gcd(a, b)` is at most `b` when `b` is positive.
proof fn lemma_gcd_le(a: nat, b: nat)
    requires
        b > 0,
    ensures
        0 < gcd(a, b) <= b,
{
    lemma_gcd_divides(a, b);
    let g = gcd(a, b);
    lemma_div_exact(b, g);
    let q = b as int / g as int;
    assert(b as int == g * q);
    assert(q >= 1) by {
        if q <= 0 {
            assert(g * q <= 0) by (nonlinear_arith)
                requires
                    g > 0,
                    q <= 0,
            ;
        }
    }
    assert(g <= b) by (nonlinear_arith)
        requires
            b as int == g * q,
            q >= 1,
            g > 0,
    ;
}

impl LoxNum {
    /// The display form of this number: its value in lowest terms, as an
    /// integer when it is one, otherwise with up to sixteen fractional
    /// digits (exact whenever the decimal expansion terminates within them).
    pub open spec fn render(self) -> Seq<char> {
        let mag = abs(self.num as int);
        let g = gcd(mag, self.den as nat);
        if g == 0 {
            Seq::empty()
        } else {
            spec_render_reduced(self.num < 0, mag / g, (self.den as nat) / g)
        }
    }

    /// Renders the number for output.
    pub fn to_display(&self) -> (s: String)
        requires
            self.wf(),
        ensures
            s@ == self.render(),
    {
        let neg = self.num < 0;
        let mag: u64 = if neg {
            (-(self.num as i128)) as u64
        } else {
            self.num as u64
        };
        proof {
            assert(mag as nat == abs(self.num as int));
            lemma_gcd_le(mag as nat, self.den as nat);
        }
        let g: u64 = gcd_u128(mag as u128, self.den as u128) as u64;
        let rn = mag / g;
        let rd = (self.den as u64) / g;
        proof {
            lemma_gcd_divides(mag as nat, self.den as nat);
            lemma_div_exact(self.den as nat, g as nat);
            assert(rd >= 1) by {
                if rd == 0 {
                    assert(self.den as int == g * 0);
                }
            }
        }
        let mut s = String::new();
        if neg {
            push_char(&mut s, '-');
        }
        append_digits(&mut s, rn / rd);
        let mut rem = rn % rd;
        if rem != 0 {
            push_char(&mut s, '.');
            let mut fuel: u64 = 16;
            proof {
                assert(s@ + spec_frac_digits(rem as nat, rd as nat, fuel as nat) == self.render());
            }
            while rem != 0 && fuel > 0
                invariant
                    1 <= rd <= i64::MAX,
                    rem < rd,
                    s@ + spec_frac_digits(rem as nat, rd as nat, fuel as nat) == self.render(),
                decreases fuel,
            {
                let wide: u128 = (rem as u128) * 10;
                let digit: u64 = (wide / (rd as u128)) as u64;
                proof {
                    assert((rem as int * 10) / (rd as int) < 10) by (nonlinear_arith)
                        requires
                            0 <= rem < rd,
                            rd >= 1,
                    ;
                }
                push_char(&mut s, (48 + digit as u8) as char);
                rem = (wide % (rd as u128)) as u64;
                fuel = fuel - 1;
            }
        }
        s
    }
}

} // verus!
