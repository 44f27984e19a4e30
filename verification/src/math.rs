use vstd::prelude::*;
use vstd::arithmetic::div_mod::{lemma_fundamental_div_mod, lemma_fundamental_div_mod_converse};
use crate::error::{Result, config_error};

verus! {

/// Greatest common divisor by Euclid's recursion.
pub open spec fn gcd_spec(a: nat, b: nat) -> nat
    decreases b,
{
    if b == 0 { a } else { gcd_spec(b, a % b) }
}

/// `d` divides `a`.
pub open spec fn divides(d: nat, a: nat) -> bool {
    exists|k: nat| a == #[trigger] (k * d)
}

proof fn lemma_divides_mod(d: nat, a: nat, b: nat)
    requires
        b > 0,
        divides(d, a),
        divides(d, b),
    ensures
        divides(d, a % b),
{
    let ka = choose|k: nat| a == #[trigger] (k * d);
    let kb = choose|k: nat| b == #[trigger] (k * d);
    lemma_fundamental_div_mod(a as int, b as int);
    let q = a / b;
    // a % b = a - q * b = (ka - q * kb) * d
    assert(a % b == a - q * b);
    assert(q * b == q * (kb * d));
    assert(q * (kb * d) == (q * kb) * d) by (nonlinear_arith);
    assert(a - q * b == (ka - q * kb) * d) by (nonlinear_arith)
        requires a == ka * d, q * b == (q * kb) * d;
    assert((ka - q * kb) * d >= 0);
    if d == 0 {
        assert(ka * d == 0) by (nonlinear_arith) requires d == 0;
        assert(a == 0);
        lemma_fundamental_div_mod_converse(a as int, b as int, 0, 0);
        assert(a % b == 0);
        assert(a % b == 0 * d);
    } else {
        assert(ka - q * kb >= 0) by (nonlinear_arith)
            requires (ka - q * kb) * d >= 0, d > 0;
        let k: nat = (ka - q * kb) as nat;
        assert(a % b == k * d);
    }
}

proof fn lemma_divides_add(d: nat, r: nat, q: nat, b: nat)
    requires
        divides(d, r),
        divides(d, b),
    ensures
        divides(d, q * b + r),
{
    let kr = choose|k: nat| r == #[trigger] (k * d);
    let kb = choose|k: nat| b == #[trigger] (k * d);
    let k: nat = q * kb + kr;
    assert(q * b + r == k * d) by (nonlinear_arith)
        requires r == kr * d, b == kb * d, k == q * kb + kr;
}

/// `gcd_spec(a, b)` divides `a` and `b`, and every common divisor of `a` and
/// `b` divides it.
pub proof fn lemma_gcd_divides(a: nat, b: nat)
    ensures
        divides(gcd_spec(a, b), a),
        divides(gcd_spec(a, b), b),
        forall|d: nat| divides(d, a) && divides(d, b) ==> #[trigger] divides(d, gcd_spec(a, b)),
    decreases b,
{
    if b == 0 {
        assert(a == 1 * a);
        assert(b == 0 * a);
    } else {
        lemma_gcd_divides(b, a % b);
        let g = gcd_spec(b, a % b);
        lemma_fundamental_div_mod(a as int, b as int);
        assert(a == (a / b) * b + a % b);
        lemma_divides_add(g, a % b, a / b, b);
        assert forall|d: nat| divides(d, a) && divides(d, b) implies #[trigger] divides(d, gcd_spec(a, b)) by {
            lemma_divides_mod(d, a, b);
        }
    }
}

/// Greatest common divisor of two positive integers; `Config` error if either is zero.
pub fn gcd(a: u32, b: u32) -> (r: Result<u32>)
    ensures
        (a == 0 || b == 0) <==> r is Err,
        r is Err ==> r->Err_0 is Config,
        r matches Ok(g) ==> {
            &&& g == gcd_spec(a as nat, b as nat)
            &&& g > 0
            &&& a % g == 0
            &&& b % g == 0
        },
{
    if a == 0 || b == 0 {
        return Err(config_error("gcd arguments must be greater than zero"));
    }
    let mut x = a;
    let mut y = b;
    while y != 0
        invariant
            x > 0,
            gcd_spec(x as nat, y as nat) == gcd_spec(a as nat, b as nat),
        decreases y,
    {
        let t = x % y;
        x = y;
        y = t;
    }
    proof {
        lemma_gcd_divides(a as nat, b as nat);
        let ka = choose|k: nat| (a as nat) == #[trigger] (k * (x as nat));
        let kb = choose|k: nat| (b as nat) == #[trigger] (k * (x as nat));
        lemma_fundamental_div_mod_converse(a as int, x as int, ka as int, 0);
        lemma_fundamental_div_mod_converse(b as int, x as int, kb as int, 0);
    }
    Ok(x)
}

} // verus!
