//! The number model: an arbitrary-precision rational magnitude with exact
//! equality, ordering, sign and integrality queries, conversion to a
//! machine integer, and decimal rendering.

use vstd::prelude::*;
use vstd::arithmetic::div_mod::{
    lemma_fundamental_div_mod, lemma_mod_multiples_basic, lemma_mod_division_less_than_divisor,
    lemma_div_pos_is_pos, lemma_div_decreases, lemma_multiply_divide_lt,
};
use vstd::arithmetic::mul::{
    lemma_mul_nonnegative, lemma_mul_strict_inequality, lemma_mul_strictly_positive,
};
use crate::bigint::{
    big_add, big_clone, big_div, big_eq, big_from_u64, big_lt, big_mul, big_neg, big_rem,
    big_to_usize, bval,
};
use crate::utils::{dec_rep, digit_char, push_char};
use vstd::string::StringExecFns;

verus! {

/// The mathematical value of a number: the fraction `num / den`.
pub struct NumV {
    pub num: int,
    pub den: int,
}

/// An exact rational: an integer numerator over a positive denominator.
/// The fraction is not kept reduced; every operation is exact.
#[derive(Debug)]
pub struct Number {
    num: num_bigint::BigInt,
    den: num_bigint::BigInt,
}

impl View for Number {
    type V = NumV;

    closed spec fn view(&self) -> NumV {
        NumV { num: bval(self.num), den: bval(self.den) }
    }
}

/// `a` is less than `b` as a fraction, by cross multiplication.
pub open spec fn num_lt(a: NumV, b: NumV) -> bool {
    a.num * b.den < b.num * a.den
}

/// `a` equals `b` as a fraction, by cross multiplication.
pub open spec fn num_eq(a: NumV, b: NumV) -> bool {
    a.num * b.den == b.num * a.den
}

/// The fraction is a whole number.
pub open spec fn num_is_int(v: NumV) -> bool {
    v.num % v.den == 0
}

proof fn lemma_neg_mod_zero(n: int, d: int)
    requires
        d > 0,
    ensures
        ((-n) % d == 0) <==> (n % d == 0),
{
    if n % d == 0 {
        lemma_fundamental_div_mod(n, d);
        assert(-n == d * -(n / d)) by (nonlinear_arith)
            requires
                n == d * (n / d),
        ;
        lemma_mod_multiples_basic(-(n / d), d);
    }
    if (-n) % d == 0 {
        lemma_fundamental_div_mod(-n, d);
        assert(n == d * -((-n) / d)) by (nonlinear_arith)
            requires
                -n == d * ((-n) / d),
        ;
        lemma_mod_multiples_basic(-((-n) / d), d);
    }
}

impl Number {
    pub open spec fn wf(self) -> bool {
        self@.den > 0
    }

    /// The whole number `x`.
    pub fn from_u64(x: u64) -> (r: Number)
        ensures
            r@.num == x as int,
            r@.den == 1,
            r.wf(),
    {
        Number { num: big_from_u64(x), den: big_from_u64(1) }
    }

    /// The whole number `x`, from a wide machine integer.
    pub fn from_u128(x: u128) -> (r: Number)
        ensures
            r@.num == x as int,
            r@.den == 1,
            r.wf(),
    {
        Number { num: crate::bigint::big_from_u128(x), den: big_from_u64(1) }
    }

    /// A number assembled from exact integer parts.
    pub(crate) fn from_bigints(num: num_bigint::BigInt, den: num_bigint::BigInt) -> (r: Number)
        requires
            bval(den) > 0,
        ensures
            r@.num == bval(num),
            r@.den == bval(den),
            r.wf(),
    {
        Number { num, den }
    }

    /// The fraction `num / den`.
    pub fn from_frac(num: u64, den: u64) -> (r: Number)
        requires
            den > 0,
        ensures
            r@.num == num as int,
            r@.den == den as int,
            r.wf(),
    {
        Number { num: big_from_u64(num), den: big_from_u64(den) }
    }

    /// The negation of this number.
    pub fn neg(&self) -> (r: Number)
        requires
            self.wf(),
        ensures
            r@.num == -self@.num,
            r@.den == self@.den,
            r.wf(),
    {
        Number { num: big_neg(&self.num), den: big_clone(&self.den) }
    }

    /// The absolute value of this number.
    pub fn abs(&self) -> (r: Number)
        requires
            self.wf(),
        ensures
            r@.num == if self@.num >= 0 {
                self@.num
            } else {
                -self@.num
            },
            r@.den == self@.den,
            r.wf(),
    {
        if self.is_negative() {
            self.neg()
        } else {
            Number { num: big_clone(&self.num), den: big_clone(&self.den) }
        }
    }

    pub fn is_zero(&self) -> (r: bool)
        requires
            self.wf(),
        ensures
            r == (self@.num == 0),
    {
        big_eq(&self.num, &big_from_u64(0))
    }

    pub fn is_positive(&self) -> (r: bool)
        requires
            self.wf(),
        ensures
            r == (self@.num > 0),
    {
        big_lt(&big_from_u64(0), &self.num)
    }

    pub fn is_negative(&self) -> (r: bool)
        requires
            self.wf(),
        ensures
            r == (self@.num < 0),
    {
        big_lt(&self.num, &big_from_u64(0))
    }

    /// Whether the value has a fractional part.
    pub fn is_decimal(&self) -> (r: bool)
        requires
            self.wf(),
        ensures
            r == !num_is_int(self@),
    {
        let a = self.abs();
        proof {
            lemma_neg_mod_zero(self@.num, self@.den);
        }
        !big_eq(&big_rem(&a.num, &a.den), &big_from_u64(0))
    }

    /// The value as a machine integer: exact when the value is a whole
    /// number in range, an out-of-range indicator otherwise.
    pub fn to_usize(&self) -> (r: Option<usize>)
        requires
            self.wf(),
        ensures
            match r {
                Some(u) => self@.num == u as int * self@.den,
                None => forall|k: int| 0 <= k <= usize::MAX ==> self@.num != #[trigger] (k * self@.den),
            },
    {
        if self.is_decimal() {
            proof {
                assert forall|k: int| 0 <= k <= usize::MAX implies self@.num != #[trigger] (k
                    * self@.den) by {
                    if self@.num == k * self@.den {
                        lemma_mod_multiples_basic(k, self@.den);
                    }
                }
            }
            None
        } else if self.is_negative() {
            proof {
                assert forall|k: int| 0 <= k <= usize::MAX implies self@.num != #[trigger] (k
                    * self@.den) by {
                    lemma_mul_nonnegative(k, self@.den);
                }
            }
            None
        } else {
            let q = big_div(&self.num, &self.den);
            proof {
                lemma_fundamental_div_mod(self@.num, self@.den);
            }
            match big_to_usize(&q) {
                Some(u) => {
                    proof {
                        assert(self@.den * (u as int) == u as int * self@.den) by (nonlinear_arith);
                    }
                    Some(u)
                },
                None => {
                    proof {
                        lemma_div_pos_is_pos(self@.num, self@.den);
                        assert forall|k: int| 0 <= k <= usize::MAX implies self@.num != #[trigger] (
                        k * self@.den) by {
                            if self@.num == k * self@.den {
                                lemma_mul_strict_inequality(k, self@.num / self@.den, self@.den);
                            }
                        }
                    }
                    None
                }
            }
        }
    }

    /// Strict ordering of two exact fractions.
    pub fn lt(&self, other: &Number) -> (r: bool)
        requires
            self.wf(),
            other.wf(),
        ensures
            r == num_lt(self@, other@),
    {
        big_lt(&big_mul(&self.num, &other.den), &big_mul(&other.num, &self.den))
    }

    /// Exact equality of two fractions.
    pub fn eq_val(&self, other: &Number) -> (r: bool)
        requires
            self.wf(),
            other.wf(),
        ensures
            r == num_eq(self@, other@),
    {
        big_eq(&big_mul(&self.num, &other.den), &big_mul(&other.num, &self.den))
    }

    /// This number multiplied by the positive factor `fnum / fden`.
    pub fn scaled(&self, fnum: u64, fden: u64) -> (r: Number)
        requires
            self.wf(),
            fnum > 0,
            fden > 0,
        ensures
            r@.num == self@.num * fnum as int,
            r@.den == self@.den * fden as int,
            r.wf(),
    {
        let r = Number {
            num: big_mul(&self.num, &big_from_u64(fnum)),
            den: big_mul(&self.den, &big_from_u64(fden)),
        };
        proof {
            lemma_mul_strictly_positive(self@.den, fden as int);
        }
        r
    }
}

impl Clone for Number {
    fn clone(&self) -> (r: Self)
        ensures
            r@ == self@,
    {
        Number { num: big_clone(&self.num), den: big_clone(&self.den) }
    }
}

/// The decimal rendering of the fraction `v`: an optional minus sign, the
/// digits of the whole part, and up to ten digits of the fractional part,
/// stopping early when it terminates.
pub open spec fn number_css(v: NumV) -> Seq<char>
    recommends
        v.den > 0,
{
    let a = if v.num >= 0 {
        v.num
    } else {
        -v.num
    };
    let sign: Seq<char> = if v.num < 0 {
        "-"@
    } else {
        Seq::empty()
    };
    let whole = dec_rep((a / v.den) as nat);
    let fr = a % v.den;
    if fr == 0 {
        sign + whole
    } else {
        sign + whole + "."@ + frac_rep(fr, v.den, 10)
    }
}

/// The decimal digits of the fraction `fr / den`, at most `k` of them,
/// stopping when the expansion terminates.
pub open spec fn frac_rep(fr: int, den: int, k: nat) -> Seq<char>
    recommends
        0 <= fr < den,
    decreases k,
{
    if k == 0 || fr == 0 {
        Seq::empty()
    } else {
        seq![digit_char((fr * 10) / den)] + frac_rep((fr * 10) % den, den, (k - 1) as nat)
    }
}

/// The decimal digits of a nonnegative big integer.
fn big_dec_str(b: &num_bigint::BigInt) -> (s: String)
    requires
        bval(*b) >= 0,
    ensures
        s@ == dec_rep(bval(*b) as nat),
    decreases bval(*b),
{
    let ten = big_from_u64(10);
    if big_lt(b, &ten) {
        let u = match big_to_usize(b) {
            Some(u) => u,
            None => 0,  // unreachable: the value is in [0, 10)
        };
        let mut s = String::new();
        push_char(&mut s, (('0' as u8) + (u as u8)) as char);
        proof {
            assert(s@ =~= seq![digit_char(bval(*b))]);
        }
        s
    } else {
        let q = big_div(b, &ten);
        proof {
            lemma_div_decreases(bval(*b), 10);
            lemma_div_pos_is_pos(bval(*b), 10);
            lemma_mod_division_less_than_divisor(bval(*b), 10);
        }
        let mut s = big_dec_str(&q);
        let d = big_rem(b, &ten);
        let u = match big_to_usize(&d) {
            Some(u) => u,
            None => 0,  // unreachable: the remainder is in [0, 10)
        };
        push_char(&mut s, (('0' as u8) + (u as u8)) as char);
        s
    }
}

/// Up to `k` decimal digits of the fraction `fr / den`.
fn frac_dec_str(fr: &num_bigint::BigInt, den: &num_bigint::BigInt, k: u8) -> (s: String)
    requires
        0 <= bval(*fr) < bval(*den),
    ensures
        s@ == frac_rep(bval(*fr), bval(*den), k as nat),
    decreases k,
{
    if k == 0 || big_eq(fr, &big_from_u64(0)) {
        let s = String::new();
        proof {
            assert(s@ =~= frac_rep(bval(*fr), bval(*den), k as nat));
        }
        s
    } else {
        let ten = big_from_u64(10);
        let scaled = big_mul(fr, &ten);
        proof {
            lemma_mul_strictly_positive(bval(*fr), 10);
            lemma_mul_nonnegative(bval(*fr), 10);
        }
        proof {
            assert(bval(scaled) < bval(*den) * 10) by (nonlinear_arith)
                requires
                    bval(scaled) == bval(*fr) * 10,
                    bval(*fr) < bval(*den);
        }
        let digit = big_div(&scaled, den);
        let rest = big_rem(&scaled, den);
        proof {
            lemma_div_pos_is_pos(bval(scaled), bval(*den));
            lemma_multiply_divide_lt(bval(scaled), bval(*den), 10);
            lemma_mod_division_less_than_divisor(bval(scaled), bval(*den));
        }
        let u = match big_to_usize(&digit) {
            Some(u) => u,
            None => 0,  // unreachable: a single digit
        };
        let mut s = String::new();
        push_char(&mut s, (('0' as u8) + (u as u8)) as char);
        let tail = frac_dec_str(&rest, den, k - 1);
        let ghost shead = s@;
        s.append(tail.as_str());
        proof {
            assert(shead =~= seq![digit_char((bval(*fr) * 10) / bval(*den))]);
            assert(s@ =~= frac_rep(bval(*fr), bval(*den), k as nat));
        }
        s
    }
}

impl Number {
    /// The decimal rendering of this number.
    pub fn to_css_string(&self) -> (s: String)
        requires
            self.wf(),
        ensures
            s@ == number_css(self@),
    {
        let a = self.abs();
        let whole = big_div(&a.num, &a.den);
        let fr = big_rem(&a.num, &a.den);
        proof {
            lemma_div_pos_is_pos(a@.num, a@.den);
            lemma_mod_division_less_than_divisor(a@.num, a@.den);
        }
        let mut s = String::new();
        if self.is_negative() {
            push_char(&mut s, '-');
            proof {
                assert(s@ =~= "-"@) by {
                    reveal_strlit("-");
                }
            }
        }
        let ghost sign = s@;
        let ws = big_dec_str(&whole);
        s.append(ws.as_str());
        if !big_eq(&fr, &big_from_u64(0)) {
            push_char(&mut s, '.');
            let fs = frac_dec_str(&fr, &a.den, 10);
            let ghost mid = s@;
            s.append(fs.as_str());
            proof {
                assert(mid =~= sign + dec_rep((a@.num / a@.den) as nat) + "."@) by {
                    reveal_strlit(".");
                }
                assert(s@ =~= number_css(self@));
            }
        } else {
            proof {
                assert(s@ =~= number_css(self@));
            }
        }
        s
    }
}

} // verus!
