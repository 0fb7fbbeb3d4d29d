use vstd::prelude::*;

use crate::types::{Balance, Coin, DenomDefinition, Rate};
use crate::sums::{
    balance_of, balances_non_neg, coin_sum, coins_non_neg, denoms_sum, denoms_sum_to,
    find_definition, lemma_balances_non_neg_prefix, lemma_coins_non_neg_prefix,
    lemma_denoms_sum_excluding_bounds,
};
use crate::fees::{
    ceil_div, entry_burn, entry_commission, entry_debit, fee_base, fee_share,
    lemma_ceil_div_bounds, lemma_fee_share_le_amount, lemma_fee_share_zero_rate,
    non_issuer_input_sum, rates_wf,
};
use crate::model::{
    burn_total, coin_burns, coin_commissions, coin_debits, commission_total, debit_total,
    debits_for_denom, issuer_credit, lemma_changes_sum_to_is_balance_of,
    lemma_debits_for_denom_split, net_delta, sums_match, wf_changes,
};

verus! {

/// Conservation: on a transfer whose per-denomination totals agree,
/// everything debited from senders for a denomination equals everything
/// credited to receivers, plus the commission credited to the issuer, plus
/// the amount burned.  What is burned appears in no credit: it leaves
/// circulation.
pub proof fn lemma_conservation(
    defs: Seq<DenomDefinition>,
    ins: Seq<Balance>,
    outs: Seq<Balance>,
    d: Seq<char>,
)
    requires
        sums_match(ins, outs),
    ensures
        debits_for_denom(defs, ins, outs, ins, d) == denoms_sum(outs, d) + commission_total(
            defs,
            ins,
            outs,
            ins,
            d,
        ) + burn_total(defs, ins, outs, ins, d),
{
    lemma_debits_for_denom_split(defs, ins, outs, ins, d);
    assert(!crate::model::denom_mismatch(ins, outs, d));
}

/// Issuer exemption: a sender that is the issuer of a coin's denomination is
/// debited exactly the input amount, with no burn and no commission.
pub proof fn lemma_issuer_exemption(
    defs: Seq<DenomDefinition>,
    ins: Seq<Balance>,
    outs: Seq<Balance>,
    def: DenomDefinition,
    sender: Seq<char>,
    c: Coin,
)
    requires
        find_definition(defs, c.denom@) == Some(def),
        sender == def.issuer@,
    ensures
        entry_debit(defs, ins, outs, sender, c) == c.amount as int,
        entry_burn(defs, ins, outs, sender, c) == 0,
        entry_commission(defs, ins, outs, sender, c) == 0,
{
}

/// Rounding: each fee share is the exact ceiling of its proportional value
/// `fee_base * rate * amount / non_issuer_input`.  The share, scaled by the
/// denominator, covers the exact numerator, and one unit less falls short:
/// no share is ever rounded down.
pub proof fn lemma_share_is_ceiling(fee_base: int, rate: Rate, amount: int, nis: int)
    requires
        rate.wf(),
        amount >= 0,
        0 <= fee_base <= nis,
        nis > 0,
    ensures
        fee_share(fee_base, rate, amount, nis) == ceil_div(
            fee_base * rate.num as int * amount,
            rate.den as int * nis,
        ),
        fee_share(fee_base, rate, amount, nis) * (rate.den as int * nis) >= fee_base
            * rate.num as int * amount,
        (fee_share(fee_base, rate, amount, nis) - 1) * (rate.den as int * nis) < fee_base
            * rate.num as int * amount,
        0 <= fee_share(fee_base, rate, amount, nis) <= amount,
{
    let p = fee_base * rate.num as int * amount;
    let q = rate.den as int * nis;
    assert(q > 0 && p >= 0) by (nonlinear_arith)
        requires
            rate.den as int > 0,
            nis > 0,
            0 <= fee_base,
            0 <= rate.num as int,
            amount >= 0,
            p == fee_base * rate.num as int * amount,
            q == rate.den as int * nis,
    ;
    lemma_ceil_div_bounds(p, q);
    lemma_fee_share_le_amount(fee_base, rate, amount, nis);
}

/// With both rates zero, one coin list collects no burn and no commission.
proof fn lemma_zero_rate_coin_fees(
    defs: Seq<DenomDefinition>,
    ins: Seq<Balance>,
    outs: Seq<Balance>,
    def: DenomDefinition,
    sender: Seq<char>,
    coins: Seq<Coin>,
    d: Seq<char>,
)
    requires
        balances_non_neg(ins),
        balances_non_neg(outs),
        coins_non_neg(coins),
        find_definition(defs, d) == Some(def),
        def.burn_rate.wf(),
        def.commission_rate.wf(),
        def.burn_rate.num == 0,
        def.commission_rate.num == 0,
    ensures
        coin_commissions(defs, ins, outs, sender, coins, d) == 0,
        coin_burns(defs, ins, outs, sender, coins, d) == 0,
    decreases coins.len(),
{
    if coins.len() > 0 {
        assert(coins.drop_last() == coins.take(coins.len() - 1));
        lemma_coins_non_neg_prefix(coins, coins.len() - 1);
        lemma_zero_rate_coin_fees(defs, ins, outs, def, sender, coins.drop_last(), d);
        let c = coins.last();
        assert(coins[coins.len() - 1].amount >= 0);
        if c.denom@ == d {
            lemma_denoms_sum_excluding_bounds(ins, def.denom@, def.issuer@);
            lemma_denoms_sum_excluding_bounds(outs, def.denom@, def.issuer@);
            lemma_fee_share_zero_rate(
                fee_base(ins, outs, def),
                def.burn_rate,
                c.amount as int,
                non_issuer_input_sum(ins, def),
            );
            lemma_fee_share_zero_rate(
                fee_base(ins, outs, def),
                def.commission_rate,
                c.amount as int,
                non_issuer_input_sum(ins, def),
            );
        }
    }
}

/// With both rates zero, a transfer collects no burn and no commission at
/// all for that denomination.
proof fn lemma_zero_rate_totals(
    defs: Seq<DenomDefinition>,
    ins: Seq<Balance>,
    outs: Seq<Balance>,
    bals: Seq<Balance>,
    def: DenomDefinition,
    d: Seq<char>,
)
    requires
        balances_non_neg(ins),
        balances_non_neg(outs),
        balances_non_neg(bals),
        find_definition(defs, d) == Some(def),
        def.burn_rate.wf(),
        def.commission_rate.wf(),
        def.burn_rate.num == 0,
        def.commission_rate.num == 0,
    ensures
        commission_total(defs, ins, outs, bals, d) == 0,
        burn_total(defs, ins, outs, bals, d) == 0,
    decreases bals.len(),
{
    if bals.len() > 0 {
        assert(bals.drop_last() == bals.take(bals.len() - 1));
        lemma_balances_non_neg_prefix(bals, bals.len() - 1);
        lemma_zero_rate_totals(defs, ins, outs, bals.drop_last(), def, d);
        assert(coins_non_neg(bals[bals.len() - 1].coins@));
        lemma_zero_rate_coin_fees(
            defs,
            ins,
            outs,
            def,
            bals.last().address@,
            bals.last().coins@,
            d,
        );
    }
}

/// Zero-rate idempotence: with burn and commission rates both zero, every
/// sender is debited exactly its input amount, nothing is burned, and no
/// address receives an issuer credit for the denomination.
pub proof fn lemma_zero_rate_idempotence(
    defs: Seq<DenomDefinition>,
    ins: Seq<Balance>,
    outs: Seq<Balance>,
    def: DenomDefinition,
    d: Seq<char>,
)
    requires
        balances_non_neg(ins),
        balances_non_neg(outs),
        find_definition(defs, d) == Some(def),
        def.burn_rate.wf(),
        def.commission_rate.wf(),
        def.burn_rate.num == 0,
        def.commission_rate.num == 0,
    ensures
        forall|sender: Seq<char>, c: Coin|
            c.denom@ == d && c.amount >= 0 ==> #[trigger] entry_debit(defs, ins, outs, sender, c)
                == c.amount as int,
        commission_total(defs, ins, outs, ins, d) == 0,
        burn_total(defs, ins, outs, ins, d) == 0,
        forall|a: Seq<char>| #[trigger] issuer_credit(defs, ins, outs, a, d) == 0,
{
    lemma_zero_rate_totals(defs, ins, outs, ins, def, d);
    assert forall|sender: Seq<char>, c: Coin|
        c.denom@ == d && c.amount >= 0 implies #[trigger] entry_debit(defs, ins, outs, sender, c)
        == c.amount as int by {
        lemma_denoms_sum_excluding_bounds(ins, def.denom@, def.issuer@);
        lemma_denoms_sum_excluding_bounds(outs, def.denom@, def.issuer@);
        lemma_fee_share_zero_rate(
            fee_base(ins, outs, def),
            def.burn_rate,
            c.amount as int,
            non_issuer_input_sum(ins, def),
        );
        lemma_fee_share_zero_rate(
            fee_base(ins, outs, def),
            def.commission_rate,
            c.amount as int,
            non_issuer_input_sum(ins, def),
        );
    }
}

// ---------------------------------------------------------------------------
// Summing the per-address effects over a list of distinct addresses, to carry
// conservation from the model's totals onto an actual change list.
// ---------------------------------------------------------------------------

/// No address appears twice.
spec fn addrs_distinct(addrs: Seq<Seq<char>>) -> bool {
    forall|k1: int, k2: int|
        #![trigger addrs[k1], addrs[k2]]
        0 <= k1 < k2 < addrs.len() ==> addrs[k1] != addrs[k2]
}

/// Sum over `addrs` of a contribution paid only to `x`.
spec fn indicator_sum(addrs: Seq<Seq<char>>, x: Seq<char>, c: int) -> int
    decreases addrs.len(),
{
    if addrs.len() == 0 {
        0
    } else {
        indicator_sum(addrs.drop_last(), x, c) + (if addrs.last() == x {
            c
        } else {
            0
        })
    }
}

/// Sum over `addrs` of what `bals` credits to each address.
spec fn credits_over(addrs: Seq<Seq<char>>, bals: Seq<Balance>, d: Seq<char>) -> int
    decreases addrs.len(),
{
    if addrs.len() == 0 {
        0
    } else {
        credits_over(addrs.drop_last(), bals, d) + denoms_sum_to(bals, addrs.last(), d)
    }
}

/// Sum over `addrs` of each address's issuer credit.
spec fn issuer_over(
    addrs: Seq<Seq<char>>,
    defs: Seq<DenomDefinition>,
    ins: Seq<Balance>,
    outs: Seq<Balance>,
    d: Seq<char>,
) -> int
    decreases addrs.len(),
{
    if addrs.len() == 0 {
        0
    } else {
        issuer_over(addrs.drop_last(), defs, ins, outs, d) + issuer_credit(
            defs,
            ins,
            outs,
            addrs.last(),
            d,
        )
    }
}

/// Sum over `addrs` of each address's net delta.
spec fn deltas_over(
    addrs: Seq<Seq<char>>,
    defs: Seq<DenomDefinition>,
    ins: Seq<Balance>,
    outs: Seq<Balance>,
    d: Seq<char>,
) -> int
    decreases addrs.len(),
{
    if addrs.len() == 0 {
        0
    } else {
        deltas_over(addrs.drop_last(), defs, ins, outs, d) + net_delta(
            defs,
            ins,
            outs,
            addrs.last(),
            d,
        )
    }
}

/// The addresses of a list of balances, in order.
spec fn addrs_of(s: Seq<Balance>) -> Seq<Seq<char>> {
    Seq::new(s.len(), |k: int| s[k].address@)
}

/// The given addresses with later repetitions dropped.
spec fn dedup_addrs(s: Seq<Seq<char>>) -> Seq<Seq<char>>
    decreases s.len(),
{
    if s.len() == 0 {
        Seq::empty()
    } else if dedup_addrs(s.drop_last()).contains(s.last()) {
        dedup_addrs(s.drop_last())
    } else {
        dedup_addrs(s.drop_last()).push(s.last())
    }
}

proof fn lemma_dedup_distinct(s: Seq<Seq<char>>)
    ensures
        addrs_distinct(dedup_addrs(s)),
    decreases s.len(),
{
    if s.len() > 0 {
        lemma_dedup_distinct(s.drop_last());
        let rec = dedup_addrs(s.drop_last());
        if !rec.contains(s.last()) {
            let u = rec.push(s.last());
            assert forall|k1: int, k2: int|
                #![trigger u[k1], u[k2]]
                0 <= k1 < k2 < u.len() implies u[k1] != u[k2] by {
                if k2 == u.len() - 1 {
                    assert(u[k1] == rec[k1]);
                    if rec[k1] == s.last() {
                        assert(rec.contains(s.last()));
                    }
                } else {
                    assert(u[k1] == rec[k1] && u[k2] == rec[k2]);
                }
            }
        }
    }
}

proof fn lemma_dedup_contains(s: Seq<Seq<char>>, x: Seq<char>)
    ensures
        dedup_addrs(s).contains(x) <==> s.contains(x),
    decreases s.len(),
{
    if s.len() > 0 {
        lemma_dedup_contains(s.drop_last(), x);
        let rec = dedup_addrs(s.drop_last());
        assert(s.contains(x) <==> (s.drop_last().contains(x) || s.last() == x)) by {
            if s.contains(x) {
                let k = choose|k: int| 0 <= k < s.len() && s[k] == x;
                if k < s.len() - 1 {
                    assert(s.drop_last()[k] == x);
                }
            }
            if s.drop_last().contains(x) {
                let k = choose|k: int| 0 <= k < s.drop_last().len() && s.drop_last()[k] == x;
                assert(s[k] == x);
            }
            if s.last() == x {
                assert(s[s.len() - 1] == x);
            }
        }
        if rec.contains(s.last()) {
            if s.last() == x {
                assert(dedup_addrs(s).contains(x));
            }
        } else {
            let u = rec.push(s.last());
            assert(u.contains(x) <==> (rec.contains(x) || s.last() == x)) by {
                if u.contains(x) {
                    let k = choose|k: int| 0 <= k < u.len() && u[k] == x;
                    if k < u.len() - 1 {
                        assert(rec[k] == x);
                    }
                }
                if rec.contains(x) {
                    let k = choose|k: int| 0 <= k < rec.len() && rec[k] == x;
                    assert(u[k] == x);
                }
                assert(u[u.len() - 1] == s.last());
            }
        }
    }
}

/// A contribution paid to an address absent from the list sums to zero.
proof fn lemma_indicator_absent(addrs: Seq<Seq<char>>, x: Seq<char>, c: int)
    requires
        !addrs.contains(x),
    ensures
        indicator_sum(addrs, x, c) == 0,
    decreases addrs.len(),
{
    if addrs.len() > 0 {
        assert(!addrs.drop_last().contains(x)) by {
            if addrs.drop_last().contains(x) {
                let k = choose|k: int|
                    0 <= k < addrs.drop_last().len() && addrs.drop_last()[k] == x;
                assert(addrs[k] == x);
            }
        }
        assert(addrs.last() != x) by {
            assert(addrs[addrs.len() - 1] == addrs.last());
        }
        lemma_indicator_absent(addrs.drop_last(), x, c);
    }
}

/// A contribution paid to an address listed once sums to that contribution.
proof fn lemma_indicator_found(addrs: Seq<Seq<char>>, x: Seq<char>, c: int)
    requires
        addrs_distinct(addrs),
        addrs.contains(x),
    ensures
        indicator_sum(addrs, x, c) == c,
    decreases addrs.len(),
{
    assert(addrs.len() > 0);
    assert forall|k1: int, k2: int|
        #![trigger addrs.drop_last()[k1], addrs.drop_last()[k2]]
        0 <= k1 < k2 < addrs.drop_last().len() implies addrs.drop_last()[k1]
        != addrs.drop_last()[k2] by {
        assert(addrs.drop_last()[k1] == addrs[k1]);
        assert(addrs.drop_last()[k2] == addrs[k2]);
    }
    if addrs.last() == x {
        assert(!addrs.drop_last().contains(x)) by {
            if addrs.drop_last().contains(x) {
                let k = choose|k: int|
                    0 <= k < addrs.drop_last().len() && addrs.drop_last()[k] == x;
                assert(addrs[k] == addrs[addrs.len() - 1]);
            }
        }
        lemma_indicator_absent(addrs.drop_last(), x, c);
    } else {
        assert(addrs.drop_last().contains(x)) by {
            let k = choose|k: int| 0 <= k < addrs.len() && addrs[k] == x;
            assert(addrs[addrs.len() - 1] == addrs.last());
            assert(k < addrs.len() - 1);
            assert(addrs.drop_last()[k] == x);
        }
        lemma_indicator_found(addrs.drop_last(), x, c);
    }
}

/// Nothing is credited over an empty list of balances.
proof fn lemma_credits_over_empty(addrs: Seq<Seq<char>>, bals: Seq<Balance>, d: Seq<char>)
    requires
        bals.len() == 0,
    ensures
        credits_over(addrs, bals, d) == 0,
    decreases addrs.len(),
{
    if addrs.len() > 0 {
        lemma_credits_over_empty(addrs.drop_last(), bals, d);
    }
}

/// Dropping the last balance moves its coin sum out of the credit total, as
/// an indicator contribution to its address.
proof fn lemma_credits_over_step(addrs: Seq<Seq<char>>, bals: Seq<Balance>, d: Seq<char>)
    requires
        bals.len() > 0,
    ensures
        credits_over(addrs, bals, d) == credits_over(addrs, bals.drop_last(), d) + indicator_sum(
            addrs,
            bals.last().address@,
            coin_sum(bals.last().coins@, d),
        ),
    decreases addrs.len(),
{
    if addrs.len() > 0 {
        lemma_credits_over_step(addrs.drop_last(), bals, d);
    }
}

/// Over distinct addresses covering every balance, the credits sum to the
/// full total.
proof fn lemma_credits_over_total(addrs: Seq<Seq<char>>, bals: Seq<Balance>, d: Seq<char>)
    requires
        addrs_distinct(addrs),
        forall|i: int| 0 <= i < bals.len() ==> addrs.contains((#[trigger] bals[i]).address@),
    ensures
        credits_over(addrs, bals, d) == denoms_sum(bals, d),
    decreases bals.len(),
{
    if bals.len() == 0 {
        lemma_credits_over_empty(addrs, bals, d);
    } else {
        lemma_credits_over_step(addrs, bals, d);
        assert forall|i: int|
            0 <= i < bals.drop_last().len() implies addrs.contains(
            (#[trigger] bals.drop_last()[i]).address@,
        ) by {
            assert(bals.drop_last()[i] == bals[i]);
        }
        lemma_credits_over_total(addrs, bals.drop_last(), d);
        assert(addrs.contains(bals[bals.len() - 1].address@));
        lemma_indicator_found(addrs, bals.last().address@, coin_sum(bals.last().coins@, d));
    }
}

/// Sum over `addrs` of what each address is debited out of `bals`.
spec fn debits_over_on(
    addrs: Seq<Seq<char>>,
    defs: Seq<DenomDefinition>,
    ins: Seq<Balance>,
    outs: Seq<Balance>,
    bals: Seq<Balance>,
    d: Seq<char>,
) -> int
    decreases addrs.len(),
{
    if addrs.len() == 0 {
        0
    } else {
        debits_over_on(addrs.drop_last(), defs, ins, outs, bals, d) + debit_total(
            defs,
            ins,
            outs,
            bals,
            addrs.last(),
            d,
        )
    }
}

proof fn lemma_debits_over_on_empty(
    addrs: Seq<Seq<char>>,
    defs: Seq<DenomDefinition>,
    ins: Seq<Balance>,
    outs: Seq<Balance>,
    bals: Seq<Balance>,
    d: Seq<char>,
)
    requires
        bals.len() == 0,
    ensures
        debits_over_on(addrs, defs, ins, outs, bals, d) == 0,
    decreases addrs.len(),
{
    if addrs.len() > 0 {
        lemma_debits_over_on_empty(addrs.drop_last(), defs, ins, outs, bals, d);
    }
}

proof fn lemma_debits_over_on_step(
    addrs: Seq<Seq<char>>,
    defs: Seq<DenomDefinition>,
    ins: Seq<Balance>,
    outs: Seq<Balance>,
    bals: Seq<Balance>,
    d: Seq<char>,
)
    requires
        bals.len() > 0,
    ensures
        debits_over_on(addrs, defs, ins, outs, bals, d) == debits_over_on(
            addrs,
            defs,
            ins,
            outs,
            bals.drop_last(),
            d,
        ) + indicator_sum(
            addrs,
            bals.last().address@,
            coin_debits(defs, ins, outs, bals.last().address@, bals.last().coins@, d),
        ),
    decreases addrs.len(),
{
    if addrs.len() > 0 {
        lemma_debits_over_on_step(addrs.drop_last(), defs, ins, outs, bals, d);
    }
}

/// Over distinct addresses covering every sender, the debits sum to
/// everything debited for the denomination.
proof fn lemma_debits_over_total(
    addrs: Seq<Seq<char>>,
    defs: Seq<DenomDefinition>,
    ins: Seq<Balance>,
    outs: Seq<Balance>,
    bals: Seq<Balance>,
    d: Seq<char>,
)
    requires
        addrs_distinct(addrs),
        forall|i: int| 0 <= i < bals.len() ==> addrs.contains((#[trigger] bals[i]).address@),
    ensures
        debits_over_on(addrs, defs, ins, outs, bals, d) == debits_for_denom(
            defs,
            ins,
            outs,
            bals,
            d,
        ),
    decreases bals.len(),
{
    if bals.len() == 0 {
        lemma_debits_over_on_empty(addrs, defs, ins, outs, bals, d);
    } else {
        lemma_debits_over_on_step(addrs, defs, ins, outs, bals, d);
        assert forall|i: int|
            0 <= i < bals.drop_last().len() implies addrs.contains(
            (#[trigger] bals.drop_last()[i]).address@,
        ) by {
            assert(bals.drop_last()[i] == bals[i]);
        }
        lemma_debits_over_total(addrs, defs, ins, outs, bals.drop_last(), d);
        assert(addrs.contains(bals[bals.len() - 1].address@));
        lemma_indicator_found(
            addrs,
            bals.last().address@,
            coin_debits(defs, ins, outs, bals.last().address@, bals.last().coins@, d),
        );
    }
}

/// The issuer credits over a list of addresses are the commission total when
/// the issuer is listed, and nothing without a definition.
proof fn lemma_issuer_over_total(
    addrs: Seq<Seq<char>>,
    defs: Seq<DenomDefinition>,
    ins: Seq<Balance>,
    outs: Seq<Balance>,
    d: Seq<char>,
)
    ensures
        issuer_over(addrs, defs, ins, outs, d) == (match find_definition(defs, d) {
            Some(def) => indicator_sum(addrs, def.issuer@, commission_total(defs, ins, outs, ins, d)),
            None => 0,
        }),
    decreases addrs.len(),
{
    if addrs.len() > 0 {
        lemma_issuer_over_total(addrs.drop_last(), defs, ins, outs, d);
    }
}

/// Net deltas split into credits, issuer credits, and debits.
proof fn lemma_deltas_over_split(
    addrs: Seq<Seq<char>>,
    defs: Seq<DenomDefinition>,
    ins: Seq<Balance>,
    outs: Seq<Balance>,
    d: Seq<char>,
)
    ensures
        deltas_over(addrs, defs, ins, outs, d) == credits_over(addrs, outs, d) + issuer_over(
            addrs,
            defs,
            ins,
            outs,
            d,
        ) - debits_over_on(addrs, defs, ins, outs, ins, d),
    decreases addrs.len(),
{
    if addrs.len() > 0 {
        lemma_deltas_over_split(addrs.drop_last(), defs, ins, outs, d);
    }
}

/// On a change list that realizes the net deltas, the credited totals over
/// any addresses are those net deltas summed.
proof fn lemma_changes_credits_are_deltas(
    addrs: Seq<Seq<char>>,
    defs: Seq<DenomDefinition>,
    ins: Seq<Balance>,
    outs: Seq<Balance>,
    changes: Seq<Balance>,
    d: Seq<char>,
)
    requires
        wf_changes(changes),
        forall|a: Seq<char>|
            #[trigger] balance_of(changes, a, d) == net_delta(defs, ins, outs, a, d),
    ensures
        credits_over(addrs, changes, d) == deltas_over(addrs, defs, ins, outs, d),
    decreases addrs.len(),
{
    if addrs.len() > 0 {
        lemma_changes_credits_are_deltas(addrs.drop_last(), defs, ins, outs, changes, d);
        lemma_changes_sum_to_is_balance_of(changes, addrs.last(), d);
    }
}

/// Without a definition there is no fee: nothing is collected as commission.
proof fn lemma_no_def_no_commission_coins(
    defs: Seq<DenomDefinition>,
    ins: Seq<Balance>,
    outs: Seq<Balance>,
    sender: Seq<char>,
    coins: Seq<Coin>,
    d: Seq<char>,
)
    requires
        find_definition(defs, d) is None,
    ensures
        coin_commissions(defs, ins, outs, sender, coins, d) == 0,
    decreases coins.len(),
{
    if coins.len() > 0 {
        lemma_no_def_no_commission_coins(defs, ins, outs, sender, coins.drop_last(), d);
    }
}

/// Without a definition there is no fee: the commission total is zero.
proof fn lemma_no_def_no_commission(
    defs: Seq<DenomDefinition>,
    ins: Seq<Balance>,
    outs: Seq<Balance>,
    bals: Seq<Balance>,
    d: Seq<char>,
)
    requires
        find_definition(defs, d) is None,
    ensures
        commission_total(defs, ins, outs, bals, d) == 0,
    decreases bals.len(),
{
    if bals.len() > 0 {
        lemma_no_def_no_commission(defs, ins, outs, bals.drop_last(), d);
        lemma_no_def_no_commission_coins(
            defs,
            ins,
            outs,
            bals.last().address@,
            bals.last().coins@,
            d,
        );
    }
}

/// Conservation over an actual result: in a change list that realizes the
/// net deltas of a transfer whose totals agree, the signed deltas of one
/// denomination sum to exactly the negative of the amount burned.
pub proof fn lemma_result_conservation(
    defs: Seq<DenomDefinition>,
    ins: Seq<Balance>,
    outs: Seq<Balance>,
    changes: Seq<Balance>,
    d: Seq<char>,
)
    requires
        sums_match(ins, outs),
        wf_changes(changes),
        forall|a: Seq<char>|
            #[trigger] balance_of(changes, a, d) == net_delta(defs, ins, outs, a, d),
    ensures
        denoms_sum(changes, d) == -burn_total(defs, ins, outs, ins, d),
{
    let iss: Seq<Seq<char>> = match find_definition(defs, d) {
        Some(def) => Seq::empty().push(def.issuer@),
        None => Seq::empty(),
    };
    let pool = addrs_of(changes) + addrs_of(ins) + addrs_of(outs) + iss;
    let aa = dedup_addrs(pool);
    lemma_dedup_distinct(pool);
    let n1 = changes.len() as int;
    let n2 = ins.len() as int;
    let n3 = outs.len() as int;
    assert forall|i: int| 0 <= i < changes.len() implies aa.contains(
        (#[trigger] changes[i]).address@,
    ) by {
        assert(pool[i] == changes[i].address@);
        assert(pool.contains(changes[i].address@));
        lemma_dedup_contains(pool, changes[i].address@);
    }
    assert forall|i: int| 0 <= i < ins.len() implies aa.contains((#[trigger] ins[i]).address@) by {
        assert(pool[n1 + i] == ins[i].address@);
        assert(pool.contains(ins[i].address@));
        lemma_dedup_contains(pool, ins[i].address@);
    }
    assert forall|i: int| 0 <= i < outs.len() implies aa.contains(
        (#[trigger] outs[i]).address@,
    ) by {
        assert(pool[n1 + n2 + i] == outs[i].address@);
        assert(pool.contains(outs[i].address@));
        lemma_dedup_contains(pool, outs[i].address@);
    }
    lemma_credits_over_total(aa, changes, d);
    lemma_changes_credits_are_deltas(aa, defs, ins, outs, changes, d);
    lemma_deltas_over_split(aa, defs, ins, outs, d);
    lemma_credits_over_total(aa, outs, d);
    lemma_debits_over_total(aa, defs, ins, outs, ins, d);
    lemma_issuer_over_total(aa, defs, ins, outs, d);
    match find_definition(defs, d) {
        Some(def) => {
            assert(pool[n1 + n2 + n3] == def.issuer@);
            assert(pool.contains(def.issuer@));
            lemma_dedup_contains(pool, def.issuer@);
            lemma_indicator_found(aa, def.issuer@, commission_total(defs, ins, outs, ins, d));
        },
        None => {
            lemma_no_def_no_commission(defs, ins, outs, ins, d);
        },
    }
    lemma_debits_for_denom_split(defs, ins, outs, ins, d);
    assert(!crate::model::denom_mismatch(ins, outs, d));
}

/// Mismatch rejection: a denomination whose input total differs from its
/// output total makes the whole transfer invalid; `calculate_balance_changes`
/// then returns an error, never a result.
pub proof fn lemma_mismatch_rejected(ins: Seq<Balance>, outs: Seq<Balance>, d: Seq<char>)
    requires
        denoms_sum(ins, d) != denoms_sum(outs, d),
    ensures
        !sums_match(ins, outs),
{
    assert(crate::model::denom_mismatch(ins, outs, d));
}

} // verus!
