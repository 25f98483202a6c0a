//! Scalars for the matrix engine.
//!
//! The mathematical value of a scalar is an unbounded rational number, the
//! ghost type [`Rat`]. The executable scalar [`Frac`] is an exact fraction of
//! two machine integers whose operations are specified against `Rat`; machine
//! integers themselves implement the [`Scalar`] storage capability as well.

use vstd::prelude::*;
use vstd::string::StringExecFns;

verus! {

/// A rational number `num / den` over unbounded integers, with `den > 0`.
pub ghost struct Rat {
    pub num: int,
    pub den: int,
}

/// A well-formed rational has a positive denominator.
pub open spec fn rat_wf(a: Rat) -> bool {
    a.den >= 1
}

/// The rational with the given integer value.
pub open spec fn rat_of_int(n: int) -> Rat {
    Rat { num: n, den: 1 }
}

/// Two rationals denote the same value when their cross products agree.
pub open spec fn rat_eq(a: Rat, b: Rat) -> bool {
    a.num * b.den == b.num * a.den
}

/// Whether `a` denotes zero.
pub open spec fn rat_is_zero(a: Rat) -> bool {
    a.num == 0
}

/// The sum of two rationals, on a common denominator.
pub open spec fn rat_add(a: Rat, b: Rat) -> Rat {
    Rat { num: a.num * b.den + b.num * a.den, den: a.den * b.den }
}

/// The difference of two rationals, on a common denominator.
pub open spec fn rat_sub(a: Rat, b: Rat) -> Rat {
    Rat { num: a.num * b.den - b.num * a.den, den: a.den * b.den }
}

/// The product of two rationals.
pub open spec fn rat_mul(a: Rat, b: Rat) -> Rat {
    Rat { num: a.num * b.num, den: a.den * b.den }
}

/// The additive inverse of a rational.
pub open spec fn rat_neg(a: Rat) -> Rat {
    Rat { num: -a.num, den: a.den }
}

/// The quotient of two rationals, the sign moved into the numerator so that
/// the denominator stays positive. Meaningful only when `b` is not zero.
pub open spec fn rat_div(a: Rat, b: Rat) -> Rat {
    if b.num >= 0 {
        Rat { num: a.num * b.den, den: a.den * b.num }
    } else {
        Rat { num: -(a.num * b.den), den: -(a.den * b.num) }
    }
}

/// Whether `x` fits in a signed 64-bit machine word.
pub open spec fn fits_i64(x: int) -> bool {
    i64::MIN <= x <= i64::MAX
}

/// The machine bounds under which `Frac::add` computes `rat_add` exactly.
pub open spec fn add_fits(a: Rat, b: Rat) -> bool {
    &&& fits_i64(a.num * b.den)
    &&& fits_i64(b.num * a.den)
    &&& fits_i64(a.num * b.den + b.num * a.den)
    &&& fits_i64(a.den * b.den)
}

/// The machine bounds under which `Frac::sub` computes `rat_sub` exactly.
pub open spec fn sub_fits(a: Rat, b: Rat) -> bool {
    &&& fits_i64(a.num * b.den)
    &&& fits_i64(b.num * a.den)
    &&& fits_i64(a.num * b.den - b.num * a.den)
    &&& fits_i64(a.den * b.den)
}

/// The machine bounds under which `Frac::mul` computes `rat_mul` exactly.
pub open spec fn mul_fits(a: Rat, b: Rat) -> bool {
    &&& fits_i64(a.num * b.num)
    &&& fits_i64(a.den * b.den)
}

/// The machine bounds under which `Frac::neg` computes `rat_neg` exactly.
pub open spec fn neg_fits(a: Rat) -> bool {
    a.num > i64::MIN
}

/// The machine bounds under which `Frac::div` computes `rat_div` exactly.
pub open spec fn div_fits(a: Rat, b: Rat) -> bool {
    &&& fits_i64(a.num * b.den)
    &&& fits_i64(a.den * b.num)
    &&& a.num * b.den > i64::MIN
    &&& a.den * b.num > i64::MIN
}

/// The machine bounds under which `Frac::eqv` decides `rat_eq` exactly.
pub open spec fn eq_fits(a: Rat, b: Rat) -> bool {
    &&& fits_i64(a.num * b.den)
    &&& fits_i64(b.num * a.den)
}

/// An exact fraction of two machine integers, the denominator kept positive.
/// Results are not reduced; equality of values is `rat_eq` on the views.
#[derive(Clone, Copy, Debug)]
pub struct Frac {
    num: i64,
    den: i64,
}

impl View for Frac {
    type V = Rat;

    closed spec fn view(&self) -> Rat {
        Rat { num: self.num as int, den: self.den as int }
    }
}

impl Frac {
    /// The fraction `num / den`.
    pub fn new(num: i64, den: i64) -> (r: Frac)
        requires
            den >= 1,
        ensures
            r@ == (Rat { num: num as int, den: den as int }),
            rat_wf(r@),
    {
        Frac { num, den }
    }

    /// The fraction with the integer value `n`.
    pub fn from_int(n: i64) -> (r: Frac)
        ensures
            r@ == rat_of_int(n as int),
            rat_wf(r@),
    {
        Frac { num: n, den: 1 }
    }

    /// The numerator as stored.
    pub fn num(&self) -> (r: i64)
        ensures
            r as int == self@.num,
    {
        self.num
    }

    /// The denominator as stored; always positive for a well-formed fraction.
    pub fn den(&self) -> (r: i64)
        ensures
            r as int == self@.den,
    {
        self.den
    }

    /// The sum of two fractions.
    pub fn add(self, o: Frac) -> (r: Frac)
        requires
            rat_wf(self@),
            rat_wf(o@),
            add_fits(self@, o@),
        ensures
            r@ == rat_add(self@, o@),
            rat_wf(r@),
    {
        proof {
            assert(self@.den * o@.den >= 1) by (nonlinear_arith)
                requires self@.den >= 1 && o@.den >= 1;
        }
        Frac { num: self.num * o.den + o.num * self.den, den: self.den * o.den }
    }

    /// The difference of two fractions.
    pub fn sub(self, o: Frac) -> (r: Frac)
        requires
            rat_wf(self@),
            rat_wf(o@),
            sub_fits(self@, o@),
        ensures
            r@ == rat_sub(self@, o@),
            rat_wf(r@),
    {
        proof {
            assert(self@.den * o@.den >= 1) by (nonlinear_arith)
                requires self@.den >= 1 && o@.den >= 1;
        }
        Frac { num: self.num * o.den - o.num * self.den, den: self.den * o.den }
    }

    /// The product of two fractions.
    pub fn mul(self, o: Frac) -> (r: Frac)
        requires
            rat_wf(self@),
            rat_wf(o@),
            mul_fits(self@, o@),
        ensures
            r@ == rat_mul(self@, o@),
            rat_wf(r@),
    {
        proof {
            assert(self@.den * o@.den >= 1) by (nonlinear_arith)
                requires self@.den >= 1 && o@.den >= 1;
        }
        Frac { num: self.num * o.num, den: self.den * o.den }
    }

    /// The additive inverse of a fraction.
    pub fn neg(self) -> (r: Frac)
        requires
            rat_wf(self@),
            neg_fits(self@),
        ensures
            r@ == rat_neg(self@),
            rat_wf(r@),
    {
        Frac { num: -self.num, den: self.den }
    }

    /// The quotient of two fractions; the divisor must not be zero.
    pub fn div(self, o: Frac) -> (r: Frac)
        requires
            rat_wf(self@),
            rat_wf(o@),
            !rat_is_zero(o@),
            div_fits(self@, o@),
        ensures
            r@ == rat_div(self@, o@),
            rat_wf(r@),
    {
        if o.num >= 0 {
            proof {
                assert(self@.den * o@.num >= 1) by (nonlinear_arith)
                    requires self@.den >= 1 && o@.num >= 1;
            }
            Frac { num: self.num * o.den, den: self.den * o.num }
        } else {
            proof {
                assert(self@.den * o@.num <= -1) by (nonlinear_arith)
                    requires self@.den >= 1 && o@.num <= -1;
            }
            Frac { num: -(self.num * o.den), den: -(self.den * o.num) }
        }
    }

    /// Whether the fraction denotes zero.
    pub fn is_zero(&self) -> (r: bool)
        ensures
            r == rat_is_zero(self@),
    {
        self.num == 0
    }

    /// Whether two fractions denote the same rational value.
    pub fn eqv(&self, o: &Frac) -> (r: bool)
        requires
            rat_wf(self@),
            rat_wf(o@),
            eq_fits(self@, o@),
        ensures
            r == rat_eq(self@, o@),
    {
        self.num * o.den == o.num * self.den
    }
}

/// The capability a scalar needs for matrix storage and structural
/// transforms: a well-formedness condition, a zero to fill fresh cells with,
/// and a conjugation, which is the identity for real scalar types.
pub trait Scalar: Sized + Copy {
    /// Well-formedness of a stored scalar.
    spec fn wf(self) -> bool;

    /// The zero scalar.
    spec fn zero_spec() -> Self;

    /// The conjugate of a scalar.
    spec fn conj_spec(self) -> Self;

    /// Returns the zero scalar.
    fn zero() -> (r: Self)
        ensures
            r == Self::zero_spec(),
            r.wf(),
    ;

    /// Returns the conjugate of the scalar.
    fn conj(self) -> (r: Self)
        requires
            self.wf(),
        ensures
            r == self.conj_spec(),
            r.wf(),
    ;

    /// The textual form of the scalar.
    spec fn text_spec(self) -> Seq<char>;

    /// Renders the scalar as text.
    fn text(&self) -> (r: String)
        requires
            self.wf(),
        ensures
            r@ == self.text_spec(),
    ;
}

impl Scalar for i64 {
    open spec fn wf(self) -> bool {
        true
    }

    open spec fn zero_spec() -> i64 {
        0
    }

    open spec fn conj_spec(self) -> i64 {
        self
    }

    fn zero() -> (r: i64) {
        0
    }

    fn conj(self) -> (r: i64) {
        self
    }

    open spec fn text_spec(self) -> Seq<char> {
        int_text(self as int)
    }

    fn text(&self) -> (r: String) {
        let mut out = String::new();
        push_i64_text(*self, &mut out);
        proof {
            assert(out@ =~= int_text(*self as int));
        }
        out
    }
}

impl Scalar for Frac {
    open spec fn wf(self) -> bool {
        rat_wf(self@)
    }

    closed spec fn zero_spec() -> Frac {
        Frac { num: 0, den: 1 }
    }

    open spec fn conj_spec(self) -> Frac {
        self
    }

    fn zero() -> (r: Frac) {
        Frac { num: 0, den: 1 }
    }

    fn conj(self) -> (r: Frac) {
        self
    }

    open spec fn text_spec(self) -> Seq<char> {
        if self@.den == 1 {
            int_text(self@.num)
        } else {
            int_text(self@.num) + seq!['/'] + dec_digits(self@.den as nat)
        }
    }

    fn text(&self) -> (r: String) {
        let mut out = String::new();
        push_i64_text(self.num, &mut out);
        if self.den != 1 {
            proof {
                reveal_strlit("/");
            }
            out.append("/");
            push_u64_text(self.den as u64, &mut out);
            proof {
                assert(out@ =~= self.text_spec());
            }
        }
        out
    }
}

/// The zero fraction denotes the rational zero.
pub proof fn lemma_frac_zero()
    ensures
        (<Frac as Scalar>::zero_spec())@ == rat_of_int(0),
        rat_wf((<Frac as Scalar>::zero_spec())@),
{
}

} // verus!

verus! {

/// The character for one decimal digit.
pub open spec fn digit_char(d: nat) -> char {
    if d == 0 {
        '0'
    } else if d == 1 {
        '1'
    } else if d == 2 {
        '2'
    } else if d == 3 {
        '3'
    } else if d == 4 {
        '4'
    } else if d == 5 {
        '5'
    } else if d == 6 {
        '6'
    } else if d == 7 {
        '7'
    } else if d == 8 {
        '8'
    } else {
        '9'
    }
}

/// The decimal digits of `n`, most significant first.
pub open spec fn dec_digits(n: nat) -> Seq<char>
    decreases n,
{
    if n < 10 {
        seq![digit_char(n)]
    } else {
        dec_digits(n / 10).push(digit_char(n % 10))
    }
}

/// The decimal text of a signed integer value: a minus sign for negative
/// values, then the digits of the magnitude.
pub open spec fn int_text(n: int) -> Seq<char> {
    if n < 0 {
        seq!['-'] + dec_digits((-n) as nat)
    } else {
        dec_digits(n as nat)
    }
}

/// The single-character text of one decimal digit.
fn digit_str(d: u64) -> (r: &'static str)
    requires
        d < 10,
    ensures
        r@ == seq![digit_char(d as nat)],
{
    proof {
        reveal_strlit("0");
        reveal_strlit("1");
        reveal_strlit("2");
        reveal_strlit("3");
        reveal_strlit("4");
        reveal_strlit("5");
        reveal_strlit("6");
        reveal_strlit("7");
        reveal_strlit("8");
        reveal_strlit("9");
    }
    if d == 0 {
        "0"
    } else if d == 1 {
        "1"
    } else if d == 2 {
        "2"
    } else if d == 3 {
        "3"
    } else if d == 4 {
        "4"
    } else if d == 5 {
        "5"
    } else if d == 6 {
        "6"
    } else if d == 7 {
        "7"
    } else if d == 8 {
        "8"
    } else {
        "9"
    }
}

/// Appends the decimal digits of `v` to `out`.
fn push_u64_text(v: u64, out: &mut String)
    ensures
        final(out)@ == old(out)@ + dec_digits(v as nat),
    decreases v,
{
    if v < 10 {
        out.append(digit_str(v));
    } else {
        push_u64_text(v / 10, out);
        out.append(digit_str(v % 10));
        proof {
            assert(out@ =~= old(out)@ + dec_digits(v as nat));
        }
    }
}

/// Appends the decimal text of `v`, sign included, to `out`.
fn push_i64_text(v: i64, out: &mut String)
    ensures
        final(out)@ == old(out)@ + int_text(v as int),
{
    if v < 0 {
        proof {
            reveal_strlit("-");
        }
        out.append("-");
        let wide: i128 = v as i128;
        let mag: u64 = (-wide) as u64;
        push_u64_text(mag, out);
        proof {
            assert(out@ =~= old(out)@ + int_text(v as int));
        }
    } else {
        push_u64_text(v as u64, out);
    }
}

} // verus!
