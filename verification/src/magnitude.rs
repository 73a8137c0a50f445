//! Strictly non-negative rational magnitudes, kept in lowest terms.
//!
//! A magnitude carries no sign: the sign of a term lives on its directed
//! unit. The numerator and denominator are reduced on every operation, and
//! each operation's contract states the exact reduced fraction of the
//! mathematical result, through [`reduced_num`] and [`reduced_den`].

use vstd::prelude::*;

verus! {

/// Bound kept by every stored numerator and denominator, so that the
/// cross-multiplications of the arithmetic fit in 64 bits.
pub const MAG_LIMIT: usize = 0x4000_0000;

/// A magnitude is a non-negative rational in lowest terms with a positive
/// denominator.
#[derive(Debug, Eq, PartialEq, Structural, Copy, Clone)]
pub struct Magnitude {
    pub numerator: usize,
    pub denominator: usize,
}

/// Greatest common divisor by repeated subtraction, the form the reduction
/// uses; zero operands pass through the other operand.
pub open spec fn spec_gcd(a: nat, b: nat) -> nat
    decreases a + b,
{
    if a == 0 {
        b
    } else if b == 0 {
        a
    } else if a == b {
        a
    } else if a > b {
        spec_gcd((a - b) as nat, b)
    } else {
        spec_gcd(a, (b - a) as nat)
    }
}

/// Numerator of the fraction `n / d` in lowest terms.
pub open spec fn reduced_num(n: nat, d: nat) -> nat {
    if n == 0 {
        0
    } else {
        n / spec_gcd(n, d)
    }
}

/// Denominator of the fraction `n / d` in lowest terms.
pub open spec fn reduced_den(n: nat, d: nat) -> nat {
    if n == 0 {
        1
    } else {
        d / spec_gcd(n, d)
    }
}

impl Magnitude {
    /// A well-formed magnitude: positive denominator, both parts within
    /// the bound that keeps the arithmetic exact, and stored in lowest
    /// terms.
    pub open spec fn wf(self) -> bool {
        &&& 0 < self.denominator <= MAG_LIMIT
        &&& self.numerator <= MAG_LIMIT
        &&& self.numerator == 0 ==> self.denominator == 1
        &&& self.numerator > 0 ==> spec_gcd(self.numerator as nat, self.denominator as nat) == 1
    }

    /// Whether this magnitude is exactly the reduced form of `n / d`.
    pub open spec fn is_reduced_frac(self, n: nat, d: nat) -> bool {
        self.numerator == reduced_num(n, d) && self.denominator == reduced_den(n, d)
    }

    /// Construct the magnitude `numerator / denominator`, reduced to lowest
    /// terms. The denominator must not be zero, and the reduced parts must
    /// stay within [`MAG_LIMIT`].
    pub fn new(numerator: usize, denominator: usize) -> (r: Magnitude)
        requires
            denominator > 0,
            reduced_num(numerator as nat, denominator as nat) <= MAG_LIMIT,
            reduced_den(numerator as nat, denominator as nat) <= MAG_LIMIT,
        ensures
            r.is_reduced_frac(numerator as nat, denominator as nat),
            r.wf(),
    {
        let (n, d) = reduce_frac(numerator as u64, denominator as u64);
        Magnitude { numerator: n as usize, denominator: d as usize }
    }

    /// The magnitude of a whole number.
    pub fn from_usize(n: usize) -> (r: Magnitude)
        requires
            0 < n <= MAG_LIMIT,
        ensures
            r == (Magnitude { numerator: n, denominator: 1 }),
            r.wf(),
    {
        proof {
            lemma_gcd_with_one(n as nat);
        }
        Magnitude { numerator: n, denominator: 1 }
    }

    /// The magnitude one, the weight of a fresh term.
    pub fn one() -> (r: Magnitude)
        ensures
            r == (Magnitude { numerator: 1, denominator: 1 }),
            r.wf(),
    {
        proof {
            lemma_gcd_with_one(1);
        }
        Magnitude { numerator: 1, denominator: 1 }
    }

    /// Whether this magnitude is exactly zero.
    pub fn is_zero(&self) -> (r: bool)
        ensures
            r == (self.numerator == 0),
    {
        self.numerator == 0
    }

    /// Whether this magnitude equals the whole number `other`.
    pub fn eq_usize(&self, other: usize) -> (r: bool)
        ensures
            r == (self.denominator == 1 && self.numerator == other),
    {
        self.denominator == 1 && self.numerator == other
    }

    /// Whether this magnitude is strictly below `other`, by
    /// cross-multiplication.
    pub fn lt(&self, other: &Magnitude) -> (r: bool)
        requires
            self.wf(),
            other.wf(),
        ensures
            r == (self.numerator * other.denominator < other.numerator * self.denominator),
    {
        proof {
            lemma_mul_le(self.numerator as nat, other.denominator as nat, MAG_LIMIT as nat);
            lemma_mul_le(other.numerator as nat, self.denominator as nat, MAG_LIMIT as nat);
        }
        (self.numerator as u64) * (other.denominator as u64) < (other.numerator as u64)
            * (self.denominator as u64)
    }

    /// The sum of two magnitudes, in lowest terms.
    pub fn plus(&self, rhs: &Magnitude) -> (r: Magnitude)
        requires
            self.wf(),
            rhs.wf(),
            reduced_num(
                (self.numerator * rhs.denominator + rhs.numerator * self.denominator) as nat,
                (self.denominator * rhs.denominator) as nat,
            ) <= MAG_LIMIT,
            reduced_den(
                (self.numerator * rhs.denominator + rhs.numerator * self.denominator) as nat,
                (self.denominator * rhs.denominator) as nat,
            ) <= MAG_LIMIT,
        ensures
            r.is_reduced_frac(
                (self.numerator * rhs.denominator + rhs.numerator * self.denominator) as nat,
                (self.denominator * rhs.denominator) as nat,
            ),
            r.wf(),
    {
        proof {
            lemma_mul_le(self.numerator as nat, rhs.denominator as nat, MAG_LIMIT as nat);
            lemma_mul_le(rhs.numerator as nat, self.denominator as nat, MAG_LIMIT as nat);
            lemma_mul_le(self.denominator as nat, rhs.denominator as nat, MAG_LIMIT as nat);
            lemma_mul_pos(self.denominator as nat, rhs.denominator as nat);
        }
        let n = (self.numerator as u64) * (rhs.denominator as u64) + (rhs.numerator as u64)
            * (self.denominator as u64);
        let d = (self.denominator as u64) * (rhs.denominator as u64);
        let (rn, rd) = reduce_frac(n, d);
        Magnitude { numerator: rn as usize, denominator: rd as usize }
    }

    /// The difference of two magnitudes, in lowest terms. The left operand
    /// must not be below the right one: a magnitude never goes negative,
    /// and the callers that subtract flip the unit's sign instead.
    pub fn minus(&self, rhs: &Magnitude) -> (r: Magnitude)
        requires
            self.wf(),
            rhs.wf(),
            rhs.numerator * self.denominator <= self.numerator * rhs.denominator,
            reduced_num(
                (self.numerator * rhs.denominator - rhs.numerator * self.denominator) as nat,
                (self.denominator * rhs.denominator) as nat,
            ) <= MAG_LIMIT,
            reduced_den(
                (self.numerator * rhs.denominator - rhs.numerator * self.denominator) as nat,
                (self.denominator * rhs.denominator) as nat,
            ) <= MAG_LIMIT,
        ensures
            r.is_reduced_frac(
                (self.numerator * rhs.denominator - rhs.numerator * self.denominator) as nat,
                (self.denominator * rhs.denominator) as nat,
            ),
            r.wf(),
    {
        proof {
            lemma_mul_le(self.numerator as nat, rhs.denominator as nat, MAG_LIMIT as nat);
            lemma_mul_le(rhs.numerator as nat, self.denominator as nat, MAG_LIMIT as nat);
            lemma_mul_le(self.denominator as nat, rhs.denominator as nat, MAG_LIMIT as nat);
            lemma_mul_pos(self.denominator as nat, rhs.denominator as nat);
        }
        let n = (self.numerator as u64) * (rhs.denominator as u64) - (rhs.numerator as u64)
            * (self.denominator as u64);
        let d = (self.denominator as u64) * (rhs.denominator as u64);
        let (rn, rd) = reduce_frac(n, d);
        Magnitude { numerator: rn as usize, denominator: rd as usize }
    }

    /// The product of two magnitudes, in lowest terms.
    pub fn times(&self, rhs: &Magnitude) -> (r: Magnitude)
        requires
            self.wf(),
            rhs.wf(),
            reduced_num(
                (self.numerator * rhs.numerator) as nat,
                (self.denominator * rhs.denominator) as nat,
            ) <= MAG_LIMIT,
            reduced_den(
                (self.numerator * rhs.numerator) as nat,
                (self.denominator * rhs.denominator) as nat,
            ) <= MAG_LIMIT,
        ensures
            r.is_reduced_frac(
                (self.numerator * rhs.numerator) as nat,
                (self.denominator * rhs.denominator) as nat,
            ),
            r.wf(),
    {
        proof {
            lemma_mul_le(self.numerator as nat, rhs.numerator as nat, MAG_LIMIT as nat);
            lemma_mul_le(self.denominator as nat, rhs.denominator as nat, MAG_LIMIT as nat);
            lemma_mul_pos(self.denominator as nat, rhs.denominator as nat);
        }
        let n = (self.numerator as u64) * (rhs.numerator as u64);
        let d = (self.denominator as u64) * (rhs.denominator as u64);
        let (rn, rd) = reduce_frac(n, d);
        Magnitude { numerator: rn as usize, denominator: rd as usize }
    }

    /// The product of a magnitude and a whole number, in lowest terms.
    pub fn times_usize(&self, rhs: usize) -> (r: Magnitude)
        requires
            self.wf(),
            rhs <= MAG_LIMIT,
            reduced_num((self.numerator * rhs) as nat, self.denominator as nat) <= MAG_LIMIT,
            reduced_den((self.numerator * rhs) as nat, self.denominator as nat) <= MAG_LIMIT,
        ensures
            r.is_reduced_frac((self.numerator * rhs) as nat, self.denominator as nat),
            r.wf(),
    {
        proof {
            lemma_mul_le(self.numerator as nat, rhs as nat, MAG_LIMIT as nat);
        }
        let n = (self.numerator as u64) * (rhs as u64);
        let (rn, rd) = reduce_frac(n, self.denominator as u64);
        Magnitude { numerator: rn as usize, denominator: rd as usize }
    }

    /// The quotient of two magnitudes, in lowest terms; standard division,
    /// dividing by zero is excluded.
    pub fn divided_by(&self, rhs: &Magnitude) -> (r: Magnitude)
        requires
            self.wf(),
            rhs.wf(),
            rhs.numerator > 0,
            reduced_num(
                (self.numerator * rhs.denominator) as nat,
                (self.denominator * rhs.numerator) as nat,
            ) <= MAG_LIMIT,
            reduced_den(
                (self.numerator * rhs.denominator) as nat,
                (self.denominator * rhs.numerator) as nat,
            ) <= MAG_LIMIT,
        ensures
            r.is_reduced_frac(
                (self.numerator * rhs.denominator) as nat,
                (self.denominator * rhs.numerator) as nat,
            ),
            r.wf(),
    {
        proof {
            lemma_mul_le(self.numerator as nat, rhs.denominator as nat, MAG_LIMIT as nat);
            lemma_mul_le(self.denominator as nat, rhs.numerator as nat, MAG_LIMIT as nat);
            lemma_mul_pos(self.denominator as nat, rhs.numerator as nat);
        }
        let n = (self.numerator as u64) * (rhs.denominator as u64);
        let d = (self.denominator as u64) * (rhs.numerator as u64);
        let (rn, rd) = reduce_frac(n, d);
        Magnitude { numerator: rn as usize, denominator: rd as usize }
    }
}

/// Bounded factors have a bounded product.
pub proof fn lemma_mul_le(a: nat, b: nat, m: nat)
    requires
        a <= m,
        b <= m,
    ensures
        a * b <= m * m,
{
    assert(a * b <= m * m) by (nonlinear_arith)
        requires
            a <= m,
            b <= m,
    ;
}

/// Positive factors have a positive product.
pub proof fn lemma_mul_pos(a: nat, b: nat)
    requires
        a > 0,
        b > 0,
    ensures
        a * b > 0,
{
    assert(a * b > 0) by (nonlinear_arith)
        requires
            a > 0,
            b > 0,
    ;
}

/// One divides everything; a positive number divides itself and zero.
proof fn lemma_div_basics(a: nat, c: nat)
    requires
        c > 0,
    ensures
        a % 1 == 0,
        c % c == 0,
        0nat % c == 0,
{
    assert(a % 1 == 0 && c % c == 0 && 0nat % c == 0) by (nonlinear_arith)
        requires
            c > 0,
    ;
}

/// A multiple of a positive number is divisible by it, and conversely a
/// number it divides is one of its multiples.
proof fn lemma_multiple_divides(x: nat, c: nat)
    requires
        c > 0,
    ensures
        x % c == 0 <==> x == c * (x / c),
{
    vstd::arithmetic::div_mod::lemma_fundamental_div_mod(x as int, c as int);
}

/// Divisibility passes over a difference.
proof fn lemma_divides_sub(a: nat, b: nat, c: nat)
    requires
        c > 0,
        a >= b,
        a % c == 0,
        b % c == 0,
    ensures
        ((a - b) as nat) % c == 0,
{
    lemma_multiple_divides(a, c);
    lemma_multiple_divides(b, c);
    lemma_multiple_divides((a - b) as nat, c);
    let ka = a / c;
    let kb = b / c;
    assert(ka >= kb && (a - b) as nat == c * ((ka - kb) as nat)) by (nonlinear_arith)
        requires
            c > 0,
            a == c * ka,
            b == c * kb,
            a >= b,
    ;
    assert(((a - b) as nat) / c == (ka - kb) as nat) by (nonlinear_arith)
        requires
            c > 0,
            (a - b) as nat == c * ((ka - kb) as nat),
    ;
}

/// Divisibility passes over a sum.
proof fn lemma_divides_plus(a: nat, b: nat, c: nat)
    requires
        c > 0,
        a % c == 0,
        b % c == 0,
    ensures
        (a + b) % c == 0,
{
    lemma_multiple_divides(a, c);
    lemma_multiple_divides(b, c);
    lemma_multiple_divides(a + b, c);
    let ka = a / c;
    let kb = b / c;
    assert(a + b == c * (ka + kb)) by (nonlinear_arith)
        requires
            a == c * ka,
            b == c * kb,
    ;
    assert((a + b) / c == ka + kb) by (nonlinear_arith)
        requires
            c > 0,
            a + b == c * (ka + kb),
    ;
}

/// The greatest common divisor divides both of its operands.
pub proof fn lemma_gcd_divides(a: nat, b: nat)
    requires
        a > 0,
        b > 0,
    ensures
        a % spec_gcd(a, b) == 0,
        b % spec_gcd(a, b) == 0,
    decreases a + b,
{
    lemma_gcd_bounds(a, b);
    let g = spec_gcd(a, b);
    if a == b {
        lemma_div_basics(a, g);
    } else if a > b {
        lemma_gcd_divides((a - b) as nat, b);
        lemma_divides_plus((a - b) as nat, b, g);
    } else {
        lemma_gcd_divides(a, (b - a) as nat);
        lemma_divides_plus((b - a) as nat, a, g);
    }
}

/// Every common divisor of the operands divides their greatest common
/// divisor.
pub proof fn lemma_common_divides_gcd(a: nat, b: nat, c: nat)
    requires
        a > 0,
        b > 0,
        c > 0,
        a % c == 0,
        b % c == 0,
    ensures
        spec_gcd(a, b) % c == 0,
    decreases a + b,
{
    if a == b {
    } else if a > b {
        lemma_divides_sub(a, b, c);
        lemma_common_divides_gcd((a - b) as nat, b, c);
    } else {
        lemma_divides_sub(b, a, c);
        lemma_common_divides_gcd(a, (b - a) as nat, c);
    }
}

/// Dividing both parts of a fraction by their greatest common divisor
/// leaves coprime parts: reduction reaches lowest terms.
pub proof fn lemma_reduced_coprime(n: nat, d: nat)
    requires
        n > 0,
        d > 0,
    ensures
        spec_gcd(reduced_num(n, d), reduced_den(n, d)) == 1,
{
    lemma_gcd_bounds(n, d);
    lemma_gcd_divides(n, d);
    let g = spec_gcd(n, d);
    let rn = n / g;
    let rd = d / g;
    assert(n == g * rn && d == g * rd) by (nonlinear_arith)
        requires
            g > 0,
            n % g == 0,
            d % g == 0,
            rn == n / g,
            rd == d / g,
    ;
    lemma_reduced_le(n, d);
    lemma_gcd_bounds(rn, rd);
    let g2 = spec_gcd(rn, rd);
    if g2 > 1 {
        lemma_gcd_divides(rn, rd);
        lemma_multiple_divides(rn, g2);
        lemma_multiple_divides(rd, g2);
        let kn = rn / g2;
        let kd = rd / g2;
        assert(n == (g * g2) * kn && d == (g * g2) * kd && g * g2 > g && g * g2 > 0)
            by (nonlinear_arith)
            requires
                g > 0,
                g2 > 1,
                n == g * rn,
                d == g * rd,
                rn == g2 * kn,
                rd == g2 * kd,
        ;
        lemma_multiple_divides(n, g * g2);
        lemma_multiple_divides(d, g * g2);
        assert(n / (g * g2) == kn && d / (g * g2) == kd) by (nonlinear_arith)
            requires
                g * g2 > 0,
                n == (g * g2) * kn,
                d == (g * g2) * kd,
        ;
        lemma_common_divides_gcd(n, d, g * g2);
        lemma_multiple_divides(g, g * g2);
        assert(false) by (nonlinear_arith)
            requires
                g == (g * g2) * (g / (g * g2)),
                g > 0,
                g * g2 > g,
        ;
    }
}

/// One is coprime to everything.
proof fn lemma_gcd_with_one(n: nat)
    ensures
        spec_gcd(n, 1) == 1,
    decreases n,
{
    if n > 1 {
        lemma_gcd_with_one((n - 1) as nat);
    }
}

/// The greatest common divisor of positive numbers lies between one and
/// either operand.
pub proof fn lemma_gcd_bounds(a: nat, b: nat)
    requires
        a > 0,
        b > 0,
    ensures
        1 <= spec_gcd(a, b),
        spec_gcd(a, b) <= a,
        spec_gcd(a, b) <= b,
    decreases a + b,
{
    if a != b {
        if a > b {
            lemma_gcd_bounds((a - b) as nat, b);
        } else {
            lemma_gcd_bounds(a, (b - a) as nat);
        }
    }
}

/// Reduction never grows a fraction's parts, and keeps them positive where
/// they were.
pub proof fn lemma_reduced_le(n: nat, d: nat)
    requires
        d > 0,
    ensures
        reduced_num(n, d) <= n,
        1 <= reduced_den(n, d) <= d,
        n > 0 ==> 1 <= reduced_num(n, d),
{
    if n > 0 {
        lemma_gcd_bounds(n, d);
        let g = spec_gcd(n, d);
        assert(n / g <= n && n / g >= 1) by (nonlinear_arith)
            requires
                1 <= g <= n,
        ;
        assert(d / g <= d && d / g >= 1) by (nonlinear_arith)
            requires
                1 <= g <= d,
        ;
    }
}

/// Greatest common divisor by repeated subtraction.
fn gcd_u64(a: u64, b: u64) -> (g: u64)
    requires
        a > 0,
        b > 0,
    ensures
        g as nat == spec_gcd(a as nat, b as nat),
        g > 0,
        g <= a,
        g <= b,
    decreases a + b,
{
    if a == b {
        a
    } else if a > b {
        gcd_u64(a - b, b)
    } else {
        gcd_u64(a, b - a)
    }
}

/// Reduce the fraction `n / d` to lowest terms.
pub(crate) fn reduce_frac(n: u64, d: u64) -> (r: (u64, u64))
    requires
        d > 0,
    ensures
        r.0 as nat == reduced_num(n as nat, d as nat),
        r.1 as nat == reduced_den(n as nat, d as nat),
        r.1 > 0,
        r.0 == 0 ==> r.1 == 1,
        r.0 > 0 ==> spec_gcd(r.0 as nat, r.1 as nat) == 1,
{
    if n == 0 {
        (0, 1)
    } else {
        let g = gcd_u64(n, d);
        proof {
            lemma_div_pos(d as nat, g as nat);
            lemma_reduced_coprime(n as nat, d as nat);
            lemma_reduced_le(n as nat, d as nat);
        }
        (n / g, d / g)
    }
}

/// Dividing a positive number by a positive divisor that does not exceed
/// it gives a positive quotient.
proof fn lemma_div_pos(d: nat, g: nat)
    requires
        0 < g <= d,
    ensures
        d / g > 0,
{
    assert(d / g > 0) by (nonlinear_arith)
        requires
            0 < g <= d,
    ;
}

} // verus!

verus! {

/// Whether the reduced form of `n / d` stays within [`MAG_LIMIT`], decided
/// by carrying out the reduction.
pub(crate) fn reduced_fits(n: u64, d: u64) -> (r: bool)
    requires
        d > 0,
    ensures
        r == (reduced_num(n as nat, d as nat) <= MAG_LIMIT && reduced_den(n as nat, d as nat)
            <= MAG_LIMIT),
{
    let (rn, rd) = reduce_frac(n, d);
    rn <= MAG_LIMIT as u64 && rd <= MAG_LIMIT as u64
}

impl Magnitude {
    /// Whether the product of two magnitudes stays within bounds.
    pub fn mul_fits_check(&self, rhs: &Magnitude) -> (r: bool)
        requires
            self.wf(),
            rhs.wf(),
        ensures
            r == (reduced_num(
                (self.numerator * rhs.numerator) as nat,
                (self.denominator * rhs.denominator) as nat,
            ) <= MAG_LIMIT && reduced_den(
                (self.numerator * rhs.numerator) as nat,
                (self.denominator * rhs.denominator) as nat,
            ) <= MAG_LIMIT),
    {
        proof {
            lemma_mul_le(self.numerator as nat, rhs.numerator as nat, MAG_LIMIT as nat);
            lemma_mul_le(self.denominator as nat, rhs.denominator as nat, MAG_LIMIT as nat);
            lemma_mul_pos(self.denominator as nat, rhs.denominator as nat);
        }
        let n = (self.numerator as u64) * (rhs.numerator as u64);
        let d = (self.denominator as u64) * (rhs.denominator as u64);
        reduced_fits(n, d)
    }

    /// Whether the quotient of two magnitudes stays within bounds.
    pub fn div_fits_check(&self, rhs: &Magnitude) -> (r: bool)
        requires
            self.wf(),
            rhs.wf(),
            rhs.numerator > 0,
        ensures
            r == (reduced_num(
                (self.numerator * rhs.denominator) as nat,
                (self.denominator * rhs.numerator) as nat,
            ) <= MAG_LIMIT && reduced_den(
                (self.numerator * rhs.denominator) as nat,
                (self.denominator * rhs.numerator) as nat,
            ) <= MAG_LIMIT),
    {
        proof {
            lemma_mul_le(self.numerator as nat, rhs.denominator as nat, MAG_LIMIT as nat);
            lemma_mul_le(self.denominator as nat, rhs.numerator as nat, MAG_LIMIT as nat);
            lemma_mul_pos(self.denominator as nat, rhs.numerator as nat);
        }
        let n = (self.numerator as u64) * (rhs.denominator as u64);
        let d = (self.denominator as u64) * (rhs.numerator as u64);
        reduced_fits(n, d)
    }
}

} // verus!

verus! {

/// A well-formed magnitude is already in lowest terms: reducing its own
/// parts changes nothing.
pub proof fn lemma_reduced_identity(m: Magnitude)
    requires
        m.wf(),
    ensures
        reduced_num(m.numerator as nat, m.denominator as nat) == m.numerator,
        reduced_den(m.numerator as nat, m.denominator as nat) == m.denominator,
{
    if m.numerator > 0 {
        assert(m.numerator as nat / 1 == m.numerator as nat && m.denominator as nat / 1
            == m.denominator as nat) by (nonlinear_arith);
    }
}

} // verus!
