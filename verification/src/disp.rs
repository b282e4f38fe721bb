//! Density dissipation: a purely local fractional decay,
//! `density[c] -= dispersion * density[c]`, applied to every cell once per
//! tick to keep dye from accumulating without bound.

use vstd::prelude::*;

use crate::nums::{
    SCALE, VMAX, all_zero, in_range, lemma_tdiv_zero, tdiv, tdiv_exec,
};

verus! {

/// One decayed cell: `v` minus the truncated fraction `disp / SCALE` of it.
pub open spec fn disp_cell(v: i64, disp: int) -> i64 {
    (v - tdiv(v * disp, SCALE as int)) as i64
}

/// The whole field after one dissipation pass.
pub open spec fn disp_field(d: Seq<i64>, disp: int) -> Seq<i64> {
    Seq::new(d.len(), |c: int| disp_cell(d[c], disp))
}

/// The decayed cell keeps the sign of `v` and cannot grow in magnitude.
pub proof fn lemma_disp_cell_bounds(v: i64, disp: int)
    requires
        -VMAX <= v <= VMAX,
        0 <= disp <= SCALE,
    ensures
        v >= 0 ==> 0 <= disp_cell(v, disp) <= v,
        v < 0 ==> v <= disp_cell(v, disp) <= 0,
        disp_cell(v, disp) as int == v - tdiv(v * disp, SCALE as int),
{
    if v >= 0 {
        assert(0 <= (v as int) * disp <= (v as int) * (SCALE as int)) by (nonlinear_arith)
            requires 0 <= disp <= SCALE as int && v as int >= 0;
        crate::nums::lemma_tdiv_bound((v as int) * disp, SCALE as int, v as int);
    } else {
        assert((v as int) * (SCALE as int) <= (v as int) * disp <= 0) by (nonlinear_arith)
            requires 0 <= disp <= SCALE as int && (v as int) < 0;
        crate::nums::lemma_tdiv_bound((v as int) * disp, SCALE as int, -(v as int));
    }
}

/// Decay `density` in place: every cell loses the fraction
/// `amount / SCALE` of its value (truncated toward zero).
pub fn disperse(amount: i64, density: &mut Vec<i64>)
    requires
        0 <= amount <= SCALE,
        in_range(old(density)@),
    ensures
        final(density)@ == disp_field(old(density)@, amount as int),
        final(density).len() == old(density).len(),
        in_range(final(density)@),
{
    let ghost init = density@;
    let len = density.len();
    for c in 0..len
        invariant
            density.len() == len,
            init.len() == len as int,
            in_range(init),
            0 <= amount <= SCALE,
            in_range(density@),
            forall|k: int| 0 <= k < c ==> #[trigger] density@[k] == disp_cell(init[k], amount as int),
            forall|k: int| c <= k < len ==> #[trigger] density@[k] == init[k],
    {
        let v = density[c];
        proof {
            lemma_disp_cell_bounds(v, amount as int);
        }
        let q = tdiv_exec((v as i128) * (amount as i128), SCALE as i128);
        let nv = v - (q as i64);
        density.set(c, nv);
    }
    proof {
        assert(density@ =~= disp_field(init, amount as int));
    }
}

/// Sum of a field's cells, as an unbounded integer.
pub open spec fn seq_sum(s: Seq<i64>) -> int
    decreases s.len(),
{
    if s.len() == 0 {
        0
    } else {
        seq_sum(s.drop_last()) + s.last()
    }
}

/// When the decayed fraction of every cell divides evenly, one dissipation
/// pass scales the total mass by exactly `(SCALE - disp) / SCALE`.
pub proof fn lemma_disperse_mass(d: Seq<i64>, disp: int)
    requires
        0 <= disp <= SCALE,
        forall|c: int| 0 <= c < d.len() ==> (#[trigger] d[c]) * disp % (SCALE as int) == 0,
    ensures
        (SCALE as int) * seq_sum(disp_field(d, disp)) == ((SCALE as int) - disp) * seq_sum(d),
    decreases d.len(),
{
    if d.len() == 0 {
        assert(disp_field(d, disp) =~= Seq::<i64>::empty());
        assert((SCALE as int) * 0 == ((SCALE as int) - disp) * 0) by (nonlinear_arith);
    } else {
        let dd = d.drop_last();
        assert(disp_field(d, disp).drop_last() =~= disp_field(dd, disp));
        lemma_disperse_mass(dd, disp);
        let v = d.last() as int;
        lemma_tdiv_divides(v * disp, SCALE as int);
        let q = tdiv(v * disp, SCALE as int);
        assert(disp_field(d, disp).last() == disp_cell(d.last(), disp));
        assert(disp_cell(d.last(), disp) as int == v - q) by {
            if v >= 0 {
                assert(0 <= v * disp <= v * SCALE) by (nonlinear_arith)
                    requires v >= 0 && 0 <= disp <= SCALE;
                crate::nums::lemma_tdiv_bound(v * disp, SCALE as int, v);
            } else {
                assert(v * SCALE <= v * disp <= 0) by (nonlinear_arith)
                    requires v < 0 && 0 <= disp <= SCALE;
                crate::nums::lemma_tdiv_bound(v * disp, SCALE as int, -v);
            }
        }
        assert((SCALE as int) * (seq_sum(disp_field(dd, disp)) + (v - q)) == ((SCALE as int)
            - disp) * (seq_sum(dd) + v)) by (nonlinear_arith)
            requires
                (SCALE as int) * seq_sum(disp_field(dd, disp)) == ((SCALE as int) - disp)
                    * seq_sum(dd) && q * (SCALE as int) == v * disp;
    }
}

/// Exact division: when `den` divides `num`, the truncated quotient times
/// `den` gives `num` back.
pub proof fn lemma_tdiv_divides(num: int, den: int)
    requires
        den > 0,
        num % den == 0,
    ensures
        tdiv(num, den) * den == num,
{
    vstd::arithmetic::div_mod::lemma_fundamental_div_mod(num, den);
    let q = num / den;
    assert(den * q == q * den) by (nonlinear_arith);
    if num < 0 {
        assert(num == q * den);
        assert(-num == (-q) * den) by (nonlinear_arith)
            requires num == q * den;
        vstd::arithmetic::div_mod::lemma_fundamental_div_mod_converse_div(-num, den, -q, 0);
        assert((-num) / den == -q);
        assert(tdiv(num, den) * den == q * den);
    }
}

/// Dissipating an all-zero field changes nothing.
pub proof fn lemma_disp_zero(d: Seq<i64>, disp: int)
    requires
        all_zero(d),
        0 <= disp,
    ensures
        disp_field(d, disp) == d,
{
    let s = disp_field(d, disp);
    assert forall|c: int| 0 <= c < s.len() implies s[c] == d[c] by {
        assert(d[c] == 0);
        assert(0 * disp == 0) by (nonlinear_arith);
        lemma_tdiv_zero(SCALE as int);
    }
    assert(s =~= d);
}

} // verus!
