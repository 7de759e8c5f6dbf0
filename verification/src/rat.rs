use vstd::arithmetic::div_mod::{
    lemma_add_mod_noop, lemma_fundamental_div_mod, lemma_fundamental_div_mod_converse,
    lemma_mod_multiples_basic, lemma_mod_self_0, lemma_small_mod,
};
use vstd::prelude::*;

verus! {

/// A rational number at the specification level: the value `n / d`.
/// Well-formed values keep `d > 0`.
pub ghost struct Q {
    pub n: int,
    pub d: int,
}

pub open spec fn q_zero() -> Q {
    Q { n: 0, d: 1 }
}

pub open spec fn q_one() -> Q {
    Q { n: 1, d: 1 }
}

pub open spec fn q_of_int(n: int) -> Q {
    Q { n: n, d: 1 }
}

/// Value equality of two rationals, by cross-multiplication.
pub open spec fn q_eq(a: Q, b: Q) -> bool {
    a.n * b.d == b.n * a.d
}

/// Strict order on rationals with positive denominators.
pub open spec fn q_lt(a: Q, b: Q) -> bool {
    a.n * b.d < b.n * a.d
}

pub open spec fn q_le(a: Q, b: Q) -> bool {
    a.n * b.d <= b.n * a.d
}

pub open spec fn q_add(a: Q, b: Q) -> Q {
    Q { n: a.n * b.d + b.n * a.d, d: a.d * b.d }
}

pub open spec fn q_sub(a: Q, b: Q) -> Q {
    Q { n: a.n * b.d - b.n * a.d, d: a.d * b.d }
}

pub open spec fn q_mul(a: Q, b: Q) -> Q {
    Q { n: a.n * b.n, d: a.d * b.d }
}

pub open spec fn q_abs(n: int) -> nat {
    if n >= 0 {
        n as nat
    } else {
        (-n) as nat
    }
}

/// The symmetric range of machine numerators and denominators.
pub open spec fn fits(x: int) -> bool {
    -i128::MAX <= x <= i128::MAX
}

pub open spec fn gcd_spec(a: nat, b: nat) -> nat
    decreases b,
{
    if b == 0 {
        a
    } else {
        gcd_spec(b, a % b)
    }
}

/// The stored representative of a rational: both parts divided by their gcd.
pub open spec fn q_reduce(q: Q) -> Q {
    let g = gcd_spec(q.d as nat, q_abs(q.n)) as int;
    Q { n: q.n / g, d: q.d / g }
}

pub open spec fn add_fits(a: Q, b: Q) -> bool {
    fits(a.n * b.d) && fits(b.n * a.d) && fits(a.n * b.d + b.n * a.d) && fits(a.d * b.d)
}

pub open spec fn sub_fits(a: Q, b: Q) -> bool {
    fits(a.n * b.d) && fits(b.n * a.d) && fits(a.n * b.d - b.n * a.d) && fits(a.d * b.d)
}

pub open spec fn mul_fits(a: Q, b: Q) -> bool {
    fits(a.n * b.n) && fits(a.d * b.d)
}

/// Exact addition when every machine intermediate fits, otherwise nothing.
pub open spec fn q_try_add(a: Q, b: Q) -> Option<Q> {
    if add_fits(a, b) {
        Some(q_reduce(q_add(a, b)))
    } else {
        None
    }
}

pub open spec fn q_try_sub(a: Q, b: Q) -> Option<Q> {
    if sub_fits(a, b) {
        Some(q_reduce(q_sub(a, b)))
    } else {
        None
    }
}

pub open spec fn q_try_mul(a: Q, b: Q) -> Option<Q> {
    if mul_fits(a, b) {
        Some(q_reduce(q_mul(a, b)))
    } else {
        None
    }
}

/// An exact rational scalar: `num / den`, stored reduced, `den > 0`.
/// The numerator stays above `i128::MIN` so that its magnitude always fits.
#[derive(Clone, Copy, Debug, PartialEq, Eq, Structural)]
pub struct Rat {
    pub num: i128,
    pub den: i128,
}

impl View for Rat {
    type V = Q;

    open spec fn view(&self) -> Q {
        Q { n: self.num as int, d: self.den as int }
    }
}

pub proof fn lemma_gcd_divides(a: nat, b: nat)
    requires
        a > 0,
    ensures
        gcd_spec(a, b) > 0,
        a % gcd_spec(a, b) == 0,
        b % gcd_spec(a, b) == 0,
    decreases b,
{
    let g = gcd_spec(a, b);
    if b == 0 {
        lemma_mod_self_0(a as int);
        lemma_small_mod(0, a);
    } else {
        lemma_gcd_divides(b, a % b);
        lemma_fundamental_div_mod(a as int, b as int);
        let k = a as int / b as int;
        lemma_fundamental_div_mod(b as int, g as int);
        assert(b as int == g * (b as int / g as int));
        assert(b as int * k == g * ((b as int / g as int) * k)) by (nonlinear_arith)
            requires
                b as int == g * (b as int / g as int),
        ;
        lemma_mod_multiples_basic((b as int / g as int) * k, g as int);
        assert((b as int * k) % (g as int) == 0);
        lemma_add_mod_noop(b as int * k, (a % b) as int, g as int);
        lemma_small_mod(0, g);
        assert(a as int == b as int * k + (a % b) as int);
        assert(a % g == 0);
    }
}

/// Greatest common divisor by Euclid's algorithm.
pub fn gcd(a: u128, b: u128) -> (g: u128)
    requires
        a > 0,
    ensures
        g as nat == gcd_spec(a as nat, b as nat),
        g > 0,
        (a as nat) % (g as nat) == 0,
        (b as nat) % (g as nat) == 0,
    decreases b,
{
    proof {
        lemma_gcd_divides(a as nat, b as nat);
    }
    if b == 0 {
        a
    } else {
        gcd(b, a % b)
    }
}

/// Builds the reduced representative of `num / den`.
fn reduce(num: i128, den: i128) -> (r: Rat)
    requires
        den > 0,
        num > i128::MIN,
    ensures
        r.wf(),
        r@ == q_reduce(Q { n: num as int, d: den as int }),
        q_eq(r@, Q { n: num as int, d: den as int }),
{
    proof {
        lemma_reduce_eq(Q { n: num as int, d: den as int });
    }
    let m: u128 = if num >= 0 {
        num as u128
    } else {
        (-num) as u128
    };
    let g: u128 = gcd(den as u128, m);
    proof {
        assert(m as nat == q_abs(num as int));
    }
    if g == 1 {
        proof {
            lemma_fundamental_div_mod_converse(num as int, 1, num as int, 0);
            lemma_fundamental_div_mod_converse(den as int, 1, den as int, 0);
        }
        Rat { num, den }
    } else {
        let dm: u128 = m / g;
        let dd: u128 = (den as u128) / g;
        proof {
            lemma_fundamental_div_mod(m as int, g as int);
            lemma_fundamental_div_mod(den as int, g as int);
            assert(m as int == g * (dm as int));
            assert(den as int == g * (dd as int));
            assert(dm as int <= m as int && dd as int >= 1 && dd as int <= den as int)
                by (nonlinear_arith)
                requires
                    m as int == g * (dm as int),
                    den as int == g * (dd as int),
                    g >= 2,
                    den as int >= 1,
                    dm as int >= 0,
                    dd as int >= 0,
            ;
            if num < 0 {
                assert(num as int == g * (-(dm as int)) + 0) by (nonlinear_arith)
                    requires
                        m as int == (g as int) * (dm as int),
                        num as int == -(m as int),
                ;
                lemma_fundamental_div_mod_converse(num as int, g as int, -(dm as int), 0);
            } else {
                assert(num as int == g * (dm as int) + 0);
                lemma_fundamental_div_mod_converse(num as int, g as int, dm as int, 0);
            }
            lemma_fundamental_div_mod_converse(den as int, g as int, dd as int, 0);
        }
        let n2: i128 = if num >= 0 {
            dm as i128
        } else {
            -(dm as i128)
        };
        Rat { num: n2, den: dd as i128 }
    }
}

/// Dividing numerator and denominator by their gcd keeps the value.
pub proof fn lemma_reduce_eq(q: Q)
    requires
        q.d > 0,
        fits(q.n),
        fits(q.d),
    ensures
        q_reduce(q).d > 0,
        q_reduce(q).n > i128::MIN,
        q_eq(q_reduce(q), q),
{
    let g = gcd_spec(q.d as nat, q_abs(q.n)) as int;
    lemma_gcd_divides(q.d as nat, q_abs(q.n));
    assert(g > 0);
    lemma_fundamental_div_mod(q.d as int, g);
    assert(q.d == g * (q.d / g));
    if q.n >= 0 {
        lemma_fundamental_div_mod(q.n, g);
        assert(q.n == g * (q.n / g));
    } else {
        let m = -q.n;
        lemma_fundamental_div_mod(m, g);
        assert(m == g * (m / g));
        assert(q.n == g * (-(m / g)) + 0) by (nonlinear_arith)
            requires
                m == g * (m / g),
                q.n == -m,
        ;
        lemma_fundamental_div_mod_converse(q.n, g, -(m / g), 0);
        assert(q.n == g * (q.n / g));
    }
    assert((q.n / g) * q.d == q.n * (q.d / g) && q.d / g > 0 && q_abs(q.n / g) <= q_abs(q.n))
        by (nonlinear_arith)
        requires
            g > 0,
            q.d > 0,
            q.n == g * (q.n / g),
            q.d == g * (q.d / g),
    ;
}

impl Rat {
    pub open spec fn wf(&self) -> bool {
        self.den > 0 && self.num > i128::MIN
    }

    pub fn zero() -> (r: Rat)
        ensures
            r.wf(),
            r@ == q_zero(),
    {
        Rat { num: 0, den: 1 }
    }

    pub fn one() -> (r: Rat)
        ensures
            r.wf(),
            r@ == q_one(),
    {
        Rat { num: 1, den: 1 }
    }

    pub fn from_int(n: i128) -> (r: Rat)
        requires
            n > i128::MIN,
        ensures
            r.wf(),
            r@ == q_of_int(n as int),
    {
        Rat { num: n, den: 1 }
    }

    /// The reduced rational `num / den`; nothing when `den` is zero or a part
    /// has no representable magnitude.
    pub fn new(num: i128, den: i128) -> (r: Option<Rat>)
        ensures
            r is Some <==> den != 0 && num > i128::MIN && den > i128::MIN,
            r matches Some(v) ==> v.wf() && q_eq(v@, Q { n: num as int, d: den as int }),
            den > 0 && num > i128::MIN ==> (r matches Some(v) && v@ == q_reduce(
                Q { n: num as int, d: den as int },
            )),
    {
        if den == 0 || num == i128::MIN || den == i128::MIN {
            return None;
        }
        if den < 0 {
            let r = reduce(-num, -den);
            proof {
                assert(q_eq(r@, Q { n: num as int, d: den as int })) by (nonlinear_arith)
                    requires
                        q_eq(r@, Q { n: -(num as int), d: -(den as int) }),
                ;
            }
            Some(r)
        } else {
            Some(reduce(num, den))
        }
    }
}

/// Comparisons respect value equality on the compared side.
pub proof fn lemma_q_eq_order(a: Q, b: Q, c: Q)
    requires
        q_eq(b, c),
        a.d > 0,
        b.d > 0,
        c.d > 0,
    ensures
        q_le(a, b) <==> q_le(a, c),
        q_le(b, a) <==> q_le(c, a),
        q_lt(a, b) <==> q_lt(a, c),
        q_lt(b, a) <==> q_lt(c, a),
{
    assert(((a.n * b.d <= b.n * a.d) <==> (a.n * c.d <= c.n * a.d)) && ((b.n * a.d <= a.n * b.d)
        <==> (c.n * a.d <= a.n * c.d))) by (nonlinear_arith)
        requires
            b.n * c.d == c.n * b.d,
            a.d > 0,
            b.d > 0,
            c.d > 0,
    ;
}

/// Exact sum; `None` exactly when a machine intermediate does not fit.
pub fn rat_add(a: &Rat, b: &Rat) -> (r: Option<Rat>)
    requires
        a.wf(),
        b.wf(),
    ensures
        r is None <==> q_try_add(a@, b@) is None,
        r matches Some(v) ==> v.wf() && Some(v@) == q_try_add(a@, b@) && q_eq(v@, q_add(a@, b@)),
{
    let p1: i128 = match a.num.checked_mul(b.den) {
        Some(v) => v,
        None => { return None; },
    };
    if p1 == i128::MIN {
        return None;
    }
    let p2: i128 = match b.num.checked_mul(a.den) {
        Some(v) => v,
        None => { return None; },
    };
    if p2 == i128::MIN {
        return None;
    }
    let s: i128 = match p1.checked_add(p2) {
        Some(v) => v,
        None => { return None; },
    };
    if s == i128::MIN {
        return None;
    }
    let d: i128 = match a.den.checked_mul(b.den) {
        Some(v) => v,
        None => { return None; },
    };
    proof {
        assert(d > 0) by (nonlinear_arith)
            requires
                a@.d > 0,
                b@.d > 0,
                d == a@.d * b@.d,
        ;
        lemma_reduce_eq(q_add(a@, b@));
    }
    Some(reduce(s, d))
}

/// Exact difference; `None` exactly when a machine intermediate does not fit.
pub fn rat_sub(a: &Rat, b: &Rat) -> (r: Option<Rat>)
    requires
        a.wf(),
        b.wf(),
    ensures
        r is None <==> q_try_sub(a@, b@) is None,
        r matches Some(v) ==> v.wf() && Some(v@) == q_try_sub(a@, b@) && q_eq(v@, q_sub(a@, b@)),
{
    let p1: i128 = match a.num.checked_mul(b.den) {
        Some(v) => v,
        None => { return None; },
    };
    if p1 == i128::MIN {
        return None;
    }
    let p2: i128 = match b.num.checked_mul(a.den) {
        Some(v) => v,
        None => { return None; },
    };
    if p2 == i128::MIN {
        return None;
    }
    let s: i128 = match p1.checked_sub(p2) {
        Some(v) => v,
        None => { return None; },
    };
    if s == i128::MIN {
        return None;
    }
    let d: i128 = match a.den.checked_mul(b.den) {
        Some(v) => v,
        None => { return None; },
    };
    proof {
        assert(d > 0) by (nonlinear_arith)
            requires
                a@.d > 0,
                b@.d > 0,
                d == a@.d * b@.d,
        ;
        lemma_reduce_eq(q_sub(a@, b@));
    }
    Some(reduce(s, d))
}

/// Exact product; `None` exactly when a machine intermediate does not fit.
pub fn rat_mul(a: &Rat, b: &Rat) -> (r: Option<Rat>)
    requires
        a.wf(),
        b.wf(),
    ensures
        r is None <==> q_try_mul(a@, b@) is None,
        r matches Some(v) ==> v.wf() && Some(v@) == q_try_mul(a@, b@) && q_eq(v@, q_mul(a@, b@)),
{
    let p: i128 = match a.num.checked_mul(b.num) {
        Some(v) => v,
        None => { return None; },
    };
    if p == i128::MIN {
        return None;
    }
    let d: i128 = match a.den.checked_mul(b.den) {
        Some(v) => v,
        None => { return None; },
    };
    proof {
        assert(d > 0) by (nonlinear_arith)
            requires
                a@.d > 0,
                b@.d > 0,
                d == a@.d * b@.d,
        ;
        lemma_reduce_eq(q_mul(a@, b@));
    }
    Some(reduce(p, d))
}

/// Compares `an / ad` with `bn / bd` by Euclidean descent, never overflowing.
fn frac_lt(an: u128, ad: u128, bn: u128, bd: u128) -> (r: bool)
    requires
        ad > 0,
        bd > 0,
    ensures
        r <==> (an as int) * (bd as int) < (bn as int) * (ad as int),
    decreases ad + bd,
{
    let q1: u128 = an / ad;
    let r1: u128 = an % ad;
    let q2: u128 = bn / bd;
    let r2: u128 = bn % bd;
    proof {
        lemma_fundamental_div_mod(an as int, ad as int);
        lemma_fundamental_div_mod(bn as int, bd as int);
    }
    if q1 < q2 {
        proof {
            assert((an as int) * (bd as int) < (bn as int) * (ad as int)) by (nonlinear_arith)
                requires
                    an as int == (ad as int) * (q1 as int) + (r1 as int),
                    bn as int == (bd as int) * (q2 as int) + (r2 as int),
                    (q1 as int) < (q2 as int),
                    0 <= (r1 as int) < (ad as int),
                    0 <= (r2 as int) < (bd as int),
                    (ad as int) > 0,
                    (bd as int) > 0,
            ;
        }
        true
    } else if q2 < q1 {
        proof {
            assert((bn as int) * (ad as int) < (an as int) * (bd as int)) by (nonlinear_arith)
                requires
                    an as int == (ad as int) * (q1 as int) + (r1 as int),
                    bn as int == (bd as int) * (q2 as int) + (r2 as int),
                    (q2 as int) < (q1 as int),
                    0 <= (r1 as int) < (ad as int),
                    0 <= (r2 as int) < (bd as int),
                    (ad as int) > 0,
                    (bd as int) > 0,
            ;
        }
        false
    } else {
        proof {
            assert(((an as int) * (bd as int) < (bn as int) * (ad as int)) <==> ((r1 as int) * (bd
                as int) < (r2 as int) * (ad as int))) by (nonlinear_arith)
                requires
                    an as int == (ad as int) * (q1 as int) + (r1 as int),
                    bn as int == (bd as int) * (q2 as int) + (r2 as int),
                    q1 == q2,
                    (ad as int) > 0,
                    (bd as int) > 0,
            ;
        }
        if r1 == 0 {
            proof {
                assert((0 as int) * (bd as int) < (r2 as int) * (ad as int) <==> r2 != 0)
                    by (nonlinear_arith)
                    requires
                        0 <= (r2 as int),
                        (ad as int) > 0,
                        (bd as int) > 0,
                ;
            }
            r2 != 0
        } else if r2 == 0 {
            proof {
                assert(!((r1 as int) * (bd as int) < (0 as int) * (ad as int))) by (nonlinear_arith)
                    requires
                        0 <= (r1 as int),
                        (ad as int) > 0,
                        (bd as int) > 0,
                ;
            }
            false
        } else {
            frac_lt(bd, r2, ad, r1)
        }
    }
}

/// Exact strict comparison of two rationals; total, never overflows.
pub fn rat_lt(a: &Rat, b: &Rat) -> (r: bool)
    requires
        a.wf(),
        b.wf(),
    ensures
        r <==> q_lt(a@, b@),
{
    if a.num < 0 && b.num >= 0 {
        proof {
            assert(a@.n * b@.d < b@.n * a@.d) by (nonlinear_arith)
                requires
                    a@.n < 0,
                    b@.n >= 0,
                    a@.d > 0,
                    b@.d > 0,
            ;
        }
        true
    } else if a.num >= 0 && b.num < 0 {
        proof {
            assert(!(a@.n * b@.d < b@.n * a@.d)) by (nonlinear_arith)
                requires
                    a@.n >= 0,
                    b@.n < 0,
                    a@.d > 0,
                    b@.d > 0,
            ;
        }
        false
    } else if a.num >= 0 {
        frac_lt(a.num as u128, a.den as u128, b.num as u128, b.den as u128)
    } else {
        let ma: u128 = (-a.num) as u128;
        let mb: u128 = (-b.num) as u128;
        let r = frac_lt(mb, b.den as u128, ma, a.den as u128);
        proof {
            assert(((mb as int) * (a@.d) < (ma as int) * (b@.d)) <==> (a@.n * b@.d < b@.n * a@.d))
                by (nonlinear_arith)
                requires
                    ma as int == -a@.n,
                    mb as int == -b@.n,
                    a@.d > 0,
                    b@.d > 0,
            ;
        }
        r
    }
}

/// Exact value equality of two rationals; total, never overflows.
pub fn rat_value_eq(a: &Rat, b: &Rat) -> (r: bool)
    requires
        a.wf(),
        b.wf(),
    ensures
        r <==> q_eq(a@, b@),
{
    let lt = rat_lt(a, b);
    let gt = rat_lt(b, a);
    !lt && !gt
}

/// Whether the value is strictly positive.
pub fn rat_is_pos(a: &Rat) -> (r: bool)
    requires
        a.wf(),
    ensures
        r <==> q_lt(q_zero(), a@),
{
    proof {
        assert((0 as int) * a@.d == 0 && a@.n * (1 as int) == a@.n);
    }
    a.num > 0
}

} // verus!
