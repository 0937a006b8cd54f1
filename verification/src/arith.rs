use vstd::arithmetic::div_mod::lemma_fundamental_div_mod;
use vstd::arithmetic::div_mod::lemma_fundamental_div_mod_converse;
use vstd::arithmetic::div_mod::lemma_mod_bound;
use vstd::arithmetic::div_mod::lemma_mod_multiples_vanish;
use vstd::prelude::*;

verus! {

/// Counting on by one commutes with taking the remainder.
pub(crate) proof fn lemma_succ_mod(x: int, m: int)
    requires
        0 <= x,
        m >= 1,
    ensures
        ((x % m) + 1) % m == (x + 1) % m,
{
    lemma_fundamental_div_mod(x, m);
    lemma_mod_multiples_vanish(x / m, (x % m) + 1, m);
}

/// The quotient by `m` grows by one exactly when the dividend reaches a
/// multiple of `m`.
pub(crate) proof fn lemma_succ_div(x: int, m: int)
    requires
        0 <= x,
        m >= 1,
    ensures
        (x + 1) / m == if (x + 1) % m == 0 {
            x / m + 1
        } else {
            x / m
        },
{
    let q = x / m;
    let r = x % m;
    lemma_fundamental_div_mod(x, m);
    lemma_mod_bound(x, m);
    if r + 1 < m {
        lemma_fundamental_div_mod_converse(x + 1, m, q, r + 1);
    } else {
        assert(x + 1 == (q + 1) * m + 0) by (nonlinear_arith)
            requires
                x == m * q + r,
                r + 1 == m,
        ;
        lemma_fundamental_div_mod_converse(x + 1, m, q + 1, 0);
    }
}

} // verus!
