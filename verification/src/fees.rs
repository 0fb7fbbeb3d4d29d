use vstd::prelude::*;

use crate::types::{Balance, Coin, DenomDefinition, Rate, MAX_DENOM_TOTAL};
use crate::sums::{
    balances_non_neg, denoms_sum, denoms_sum_excluding, find_definition,
    lemma_denoms_sum_excluding_bounds,
};
use vstd::arithmetic::div_mod::{lemma_fundamental_div_mod, lemma_mod_division_less_than_divisor};

verus! {

// ---------------------------------------------------------------------------
// The fee formula.
// ---------------------------------------------------------------------------

/// `p / q` rounded toward positive infinity, for `p >= 0` and `q > 0`.
pub open spec fn ceil_div(p: int, q: int) -> int {
    (p + q - 1) / q
}

/// One sender's share of a fee: the ceiling of
/// `fee_base * rate * amount / non_issuer_input`, with the rate taken exactly
/// as the fraction `rate.num / rate.den`.  With no non-issuer input volume no
/// fee applies and no division occurs.
pub open spec fn fee_share(fee_base: int, rate: Rate, amount: int, non_issuer_input: int) -> int {
    if non_issuer_input <= 0 {
        0
    } else {
        ceil_div(fee_base * rate.num as int * amount, rate.den as int * non_issuer_input)
    }
}

/// Input volume of `def.denom` sent by addresses other than the issuer.
pub open spec fn non_issuer_input_sum(ins: Seq<Balance>, def: DenomDefinition) -> int {
    denoms_sum_excluding(ins, def.denom@, def.issuer@)
}

/// Output volume of `def.denom` credited to addresses other than the issuer.
pub open spec fn non_issuer_output_sum(outs: Seq<Balance>, def: DenomDefinition) -> int {
    denoms_sum_excluding(outs, def.denom@, def.issuer@)
}

/// The volume that fees apply to: the lesser of the non-issuer input and
/// non-issuer output volumes.
pub open spec fn fee_base(ins: Seq<Balance>, outs: Seq<Balance>, def: DenomDefinition) -> int {
    let nis = non_issuer_input_sum(ins, def);
    let nos = non_issuer_output_sum(outs, def);
    if nis <= nos {
        nis
    } else {
        nos
    }
}

/// The burn share of one non-issuer input coin of `def.denom`.
pub open spec fn burn_share(
    ins: Seq<Balance>,
    outs: Seq<Balance>,
    def: DenomDefinition,
    amount: int,
) -> int {
    fee_share(fee_base(ins, outs, def), def.burn_rate, amount, non_issuer_input_sum(ins, def))
}

/// The commission share of one non-issuer input coin of `def.denom`.
pub open spec fn commission_share(
    ins: Seq<Balance>,
    outs: Seq<Balance>,
    def: DenomDefinition,
    amount: int,
) -> int {
    fee_share(fee_base(ins, outs, def), def.commission_rate, amount, non_issuer_input_sum(ins, def))
}

// ---------------------------------------------------------------------------
// Per-entry effects.
// ---------------------------------------------------------------------------

/// What one input coin costs its sender: the amount, plus the burn and
/// commission shares for senders other than the issuer.  An input coin whose
/// denomination has no definition is rejected by validation; its debit
/// defaults to the bare amount.
pub open spec fn entry_debit(
    defs: Seq<DenomDefinition>,
    ins: Seq<Balance>,
    outs: Seq<Balance>,
    sender: Seq<char>,
    c: Coin,
) -> int {
    match find_definition(defs, c.denom@) {
        None => c.amount as int,
        Some(def) => if sender == def.issuer@ {
            c.amount as int
        } else {
            c.amount as int + burn_share(ins, outs, def, c.amount as int) + commission_share(
                ins,
                outs,
                def,
                c.amount as int,
            )
        },
    }
}

/// The burn collected from one input coin.
pub open spec fn entry_burn(
    defs: Seq<DenomDefinition>,
    ins: Seq<Balance>,
    outs: Seq<Balance>,
    sender: Seq<char>,
    c: Coin,
) -> int {
    match find_definition(defs, c.denom@) {
        None => 0,
        Some(def) => if sender == def.issuer@ {
            0
        } else {
            burn_share(ins, outs, def, c.amount as int)
        },
    }
}

/// The commission collected from one input coin.
pub open spec fn entry_commission(
    defs: Seq<DenomDefinition>,
    ins: Seq<Balance>,
    outs: Seq<Balance>,
    sender: Seq<char>,
    c: Coin,
) -> int {
    match find_definition(defs, c.denom@) {
        None => 0,
        Some(def) => if sender == def.issuer@ {
            0
        } else {
            commission_share(ins, outs, def, c.amount as int)
        },
    }
}

/// Every definition in the list carries well-formed rates.
pub open spec fn rates_wf(defs: Seq<DenomDefinition>) -> bool {
    forall|k: int|
        0 <= k < defs.len() ==> (#[trigger] defs[k]).burn_rate.wf() && defs[k].commission_rate.wf()
}

// ---------------------------------------------------------------------------
// Lemmas about the fee formula.
// ---------------------------------------------------------------------------

/// The ceiling division is the least integer at or above the exact quotient:
/// `ceil_div(p, q) * q` covers `p`, and one step down no longer does.
pub proof fn lemma_ceil_div_bounds(p: int, q: int)
    requires
        p >= 0,
        q > 0,
    ensures
        ceil_div(p, q) >= 0,
        ceil_div(p, q) * q >= p,
        (ceil_div(p, q) - 1) * q < p,
{
    let x = p + q - 1;
    lemma_fundamental_div_mod(x, q);
    lemma_mod_division_less_than_divisor(x, q);
    let d = x / q;
    let r = x % q;
    assert(x == q * d + r);
    assert(d * q == x - r) by (nonlinear_arith)
        requires
            x == q * d + r,
    ;
    assert(d * q >= p);
    assert((d - 1) * q == d * q - q) by (nonlinear_arith);
    assert((d - 1) * q < p);
    assert(d >= 0) by (nonlinear_arith)
        requires
            q * d + r == x,
            x >= 0,
            0 <= r < q,
            q > 0,
    ;
}

/// A fee share is the exact ceiling of its proportional value and never
/// exceeds the coin amount it is charged on.
pub proof fn lemma_fee_share_le_amount(fee_base: int, rate: Rate, amount: int, nis: int)
    requires
        rate.wf(),
        amount >= 0,
        0 <= fee_base <= nis,
    ensures
        0 <= fee_share(fee_base, rate, amount, nis) <= amount,
{
    if nis > 0 {
        let p = fee_base * rate.num as int * amount;
        let q = rate.den as int * nis;
        assert(q > 0) by (nonlinear_arith)
            requires
                rate.den as int > 0,
                nis > 0,
                q == rate.den as int * nis,
        ;
        assert(p >= 0 && p <= q * amount) by (nonlinear_arith)
            requires
                0 <= fee_base <= nis,
                0 <= rate.num as int <= rate.den as int,
                amount >= 0,
                p == fee_base * rate.num as int * amount,
                q == rate.den as int * nis,
        ;
        lemma_ceil_div_bounds(p, q);
        let s = ceil_div(p, q);
        assert((s - 1) * q < q * amount);
        assert(s <= amount) by (nonlinear_arith)
            requires
                (s - 1) * q < q * amount,
                q > 0,
        ;
    }
}

/// A rate with numerator zero charges nothing.
pub proof fn lemma_fee_share_zero_rate(fee_base: int, rate: Rate, amount: int, nis: int)
    requires
        rate.wf(),
        rate.num == 0,
        amount >= 0,
        0 <= fee_base <= nis,
    ensures
        fee_share(fee_base, rate, amount, nis) == 0,
{
    lemma_fee_share_le_amount(fee_base, rate, amount, nis);
    if nis > 0 {
        let p = fee_base * rate.num as int * amount;
        let q = rate.den as int * nis;
        assert(p == 0) by (nonlinear_arith)
            requires
                p == fee_base * 0 * amount,
        ;
        assert(q > 0) by (nonlinear_arith)
            requires
                rate.den as int > 0,
                nis > 0,
                q == rate.den as int * nis,
        ;
        lemma_ceil_div_bounds(p, q);
        let s = ceil_div(p, q);
        assert((s - 1) * q < 0);
        assert(s <= 0) by (nonlinear_arith)
            requires
                (s - 1) * q < 0,
                q > 0,
        ;
    }
}

/// `find_definition` returns an element of the list carrying the denomination
/// it was asked for.
pub proof fn lemma_find_definition_props(
    defs: Seq<DenomDefinition>,
    denom: Seq<char>,
    def: DenomDefinition,
)
    requires
        find_definition(defs, denom) == Some(def),
    ensures
        def.denom@ == denom,
        exists|k: int| 0 <= k < defs.len() && defs[k] == def,
    decreases defs.len(),
{
    if defs.first().denom@ == denom {
        assert(0 <= 0 < defs.len() && defs[0] == def);
    } else {
        lemma_find_definition_props(defs.drop_first(), denom, def);
        let k = choose|k: int| 0 <= k < defs.drop_first().len() && defs.drop_first()[k] == def;
        assert(defs.drop_first()[k] == defs[k + 1]);
        assert(0 <= k + 1 < defs.len() && defs[k + 1] == def);
    }
}

/// A definition found in a list with well-formed rates has well-formed rates.
pub proof fn lemma_found_definition_rates_wf(
    defs: Seq<DenomDefinition>,
    denom: Seq<char>,
    def: DenomDefinition,
)
    requires
        rates_wf(defs),
        find_definition(defs, denom) == Some(def),
    ensures
        def.denom@ == denom,
        def.burn_rate.wf(),
        def.commission_rate.wf(),
{
    lemma_find_definition_props(defs, denom, def);
    let k = choose|k: int| 0 <= k < defs.len() && defs[k] == def;
    assert(defs[k].burn_rate.wf() && defs[k].commission_rate.wf());
}

/// Bounds on the effects of one input coin: the debit covers at least the
/// amount and at most the amount plus both shares, each share at most the
/// amount again.
pub proof fn lemma_entry_effect_bounds(
    defs: Seq<DenomDefinition>,
    ins: Seq<Balance>,
    outs: Seq<Balance>,
    sender: Seq<char>,
    c: Coin,
)
    requires
        rates_wf(defs),
        balances_non_neg(ins),
        balances_non_neg(outs),
        c.amount >= 0,
    ensures
        0 <= entry_burn(defs, ins, outs, sender, c) <= c.amount as int,
        0 <= entry_commission(defs, ins, outs, sender, c) <= c.amount as int,
        c.amount as int <= entry_debit(defs, ins, outs, sender, c) <= 3 * c.amount as int,
        entry_debit(defs, ins, outs, sender, c) == c.amount as int + entry_burn(
            defs,
            ins,
            outs,
            sender,
            c,
        ) + entry_commission(defs, ins, outs, sender, c),
{
    match find_definition(defs, c.denom@) {
        None => {},
        Some(def) => {
            lemma_found_definition_rates_wf(defs, c.denom@, def);
            lemma_denoms_sum_excluding_bounds(ins, def.denom@, def.issuer@);
            lemma_denoms_sum_excluding_bounds(outs, def.denom@, def.issuer@);
            let nis = non_issuer_input_sum(ins, def);
            let base = fee_base(ins, outs, def);
            lemma_fee_share_le_amount(base, def.burn_rate, c.amount as int, nis);
            lemma_fee_share_le_amount(base, def.commission_rate, c.amount as int, nis);
        },
    }
}

// ---------------------------------------------------------------------------
// Executable fee computation.
// ---------------------------------------------------------------------------

/// Computes `fee_share` exactly, with all intermediate products inside
/// `i128`.
pub fn compute_fee_share(base: i128, rate: &Rate, amount: i128, nis: i128) -> (s: i128)
    requires
        rate.wf(),
        0 <= amount <= MAX_DENOM_TOTAL as int,
        0 <= base <= nis,
        nis <= MAX_DENOM_TOTAL as int,
    ensures
        s as int == fee_share(base as int, *rate, amount as int, nis as int),
        0 <= s <= amount,
{
    proof {
        lemma_fee_share_le_amount(base as int, *rate, amount as int, nis as int);
    }
    if nis == 0 {
        return 0;
    }
    let num = rate.num as i128;
    let den = rate.den as i128;
    assert(base * num * amount <= MAX_DENOM_TOTAL as int * 0xffff_ffff * MAX_DENOM_TOTAL as int
        && base * num * amount >= 0 && base * num <= MAX_DENOM_TOTAL as int * 0xffff_ffff)
        by (nonlinear_arith)
        requires
            0 <= base <= MAX_DENOM_TOTAL as int,
            0 <= num <= 0xffff_ffff,
            0 <= amount <= MAX_DENOM_TOTAL as int,
    ;
    assert(den * nis <= 0x1_0000_0000 * MAX_DENOM_TOTAL as int && den * nis > 0)
        by (nonlinear_arith)
        requires
            0 < den <= 0x1_0000_0000,
            0 < nis <= MAX_DENOM_TOTAL as int,
    ;
    let p = base * num * amount;
    let q = den * nis;
    let pu = p as u128;
    let qu = q as u128;
    let su = (pu + qu - 1) / qu;
    proof {
        lemma_ceil_div_bounds(p as int, q as int);
        assert(su as int == ceil_div(p as int, q as int));
        assert(ceil_div(p as int, q as int) <= amount);
    }
    su as i128
}

} // verus!
