use vstd::prelude::*;

use crate::types::{Balance, Coin, DenomDefinition, MAX_DENOM_TOTAL};
use crate::sums::{
    balance_of, balances_non_neg, coin_sum, coins_non_neg, denoms_sum, denoms_sum_excluding,
    find_account_coins, find_coin_amount, find_definition, lemma_balances_non_neg_prefix,
    lemma_coin_sum_non_neg, lemma_coin_sum_prefix_le, lemma_coin_sum_take_step,
    lemma_coins_non_neg_prefix, lemma_denoms_sum_excluding_bounds,
    lemma_denoms_sum_excluding_prefix_le, lemma_denoms_sum_excluding_take_step,
    lemma_denoms_sum_non_neg, lemma_denoms_sum_prefix_le, lemma_denoms_sum_take_step,
};
use crate::fees::{
    compute_fee_share, entry_commission, entry_debit, lemma_entry_effect_bounds,
    lemma_found_definition_rates_wf, rates_wf,
};

verus! {

/// Total amount of `denom` across `bals`.
#[verifier::loop_isolation(false)]
pub fn sum_for_denom(bals: &Vec<Balance>, denom: &String) -> (s: i128)
    requires
        balances_non_neg(bals@),
        denoms_sum(bals@, denom@) <= MAX_DENOM_TOTAL as int,
    ensures
        s as int == denoms_sum(bals@, denom@),
        0 <= s <= MAX_DENOM_TOTAL,
{
    proof {
        lemma_denoms_sum_non_neg(bals@, denom@);
    }
    let mut total: i128 = 0;
    let mut i: usize = 0;
    while i < bals.len()
        invariant
            0 <= i <= bals.len(),
            total as int == denoms_sum(bals@.take(i as int), denom@),
            0 <= total as int <= denoms_sum(bals@, denom@),
        decreases bals.len() - i,
    {
        let b = &bals[i];
        let ghost done: int = total as int;
        let mut j: usize = 0;
        while j < b.coins.len()
            invariant
                0 <= j <= b.coins@.len(),
                done == denoms_sum(bals@.take(i as int), denom@),
                total as int == done + coin_sum(b.coins@.take(j as int), denom@),
                0 <= total as int <= denoms_sum(bals@, denom@),
            decreases b.coins@.len() - j,
        {
            let c = &b.coins[j];
            proof {
                lemma_coin_sum_take_step(b.coins@, denom@, j as int);
                assert(coins_non_neg(b.coins@));
                lemma_coins_non_neg_prefix(b.coins@, j as int + 1);
                lemma_coin_sum_non_neg(b.coins@.take(j as int + 1), denom@);
                lemma_coin_sum_prefix_le(b.coins@, denom@, j as int + 1);
                lemma_denoms_sum_take_step(bals@, denom@, i as int);
                lemma_denoms_sum_prefix_le(bals@, denom@, i as int + 1);
            }
            if c.denom == *denom {
                total = total + c.amount;
            }
            j += 1;
        }
        proof {
            lemma_denoms_sum_take_step(bals@, denom@, i as int);
            assert(b.coins@.take(b.coins@.len() as int) =~= b.coins@);
        }
        i += 1;
    }
    proof {
        assert(bals@.take(bals@.len() as int) =~= bals@);
    }
    total
}

/// Total amount of `denom` across the balances of `bals` whose address is
/// not `excl`.
#[verifier::loop_isolation(false)]
pub fn sum_for_denom_excluding(bals: &Vec<Balance>, denom: &String, excl: &String) -> (s: i128)
    requires
        balances_non_neg(bals@),
        denoms_sum(bals@, denom@) <= MAX_DENOM_TOTAL as int,
    ensures
        s as int == denoms_sum_excluding(bals@, denom@, excl@),
        0 <= s <= MAX_DENOM_TOTAL,
{
    proof {
        lemma_denoms_sum_excluding_bounds(bals@, denom@, excl@);
    }
    let mut total: i128 = 0;
    let mut i: usize = 0;
    while i < bals.len()
        invariant
            0 <= i <= bals.len(),
            total as int == denoms_sum_excluding(bals@.take(i as int), denom@, excl@),
            0 <= total as int <= denoms_sum_excluding(bals@, denom@, excl@),
        decreases bals.len() - i,
    {
        let b = &bals[i];
        let ghost done: int = total as int;
        proof {
            lemma_denoms_sum_excluding_take_step(bals@, denom@, excl@, i as int);
            lemma_denoms_sum_excluding_prefix_le(bals@, denom@, excl@, i as int + 1);
        }
        if b.address != *excl {
            let mut j: usize = 0;
            while j < b.coins.len()
                invariant
                    0 <= j <= b.coins@.len(),
                    done == denoms_sum_excluding(bals@.take(i as int), denom@, excl@),
                    bals@[i as int].address@ != excl@,
                    total as int == done + coin_sum(b.coins@.take(j as int), denom@),
                    0 <= total as int,
                    done + coin_sum(b.coins@.take(j as int), denom@) <= denoms_sum_excluding(
                        bals@,
                        denom@,
                        excl@,
                    ),
                decreases b.coins@.len() - j,
            {
                let c = &b.coins[j];
                proof {
                    lemma_coin_sum_take_step(b.coins@, denom@, j as int);
                    assert(coins_non_neg(b.coins@));
                    lemma_coins_non_neg_prefix(b.coins@, j as int + 1);
                    lemma_coin_sum_non_neg(b.coins@.take(j as int + 1), denom@);
                    lemma_coin_sum_prefix_le(b.coins@, denom@, j as int + 1);
                    lemma_denoms_sum_excluding_take_step(bals@, denom@, excl@, i as int);
                    lemma_denoms_sum_excluding_prefix_le(bals@, denom@, excl@, i as int + 1);
                }
                if c.denom == *denom {
                    total = total + c.amount;
                }
                j += 1;
            }
            proof {
                assert(b.coins@.take(b.coins@.len() as int) =~= b.coins@);
            }
        }
        i += 1;
    }
    proof {
        assert(bals@.take(bals@.len() as int) =~= bals@);
    }
    total
}

/// The definition of `denom`, if the list holds one.
#[verifier::loop_isolation(false)]
pub fn lookup_definition<'a>(defs: &'a Vec<DenomDefinition>, denom: &String) -> (r: Option<
    &'a DenomDefinition,
>)
    ensures
        match r {
            Some(def) => find_definition(defs@, denom@) == Some(*def),
            None => find_definition(defs@, denom@) is None,
        },
{
    let mut i: usize = 0;
    proof {
        assert(defs@.skip(0) =~= defs@);
    }
    while i < defs.len()
        invariant
            0 <= i <= defs.len(),
            find_definition(defs@, denom@) == find_definition(defs@.skip(i as int), denom@),
        decreases defs.len() - i,
    {
        proof {
            assert(defs@.skip(i as int).first() == defs@[i as int]);
            assert(defs@.skip(i as int).drop_first() =~= defs@.skip(i as int + 1));
        }
        if defs[i].denom == *denom {
            return Some(&defs[i]);
        }
        i += 1;
    }
    proof {
        assert(defs@.skip(i as int).len() == 0);
    }
    None
}

/// The existing amount of `denom` held by `addr`, reading absent addresses
/// and denominations as zero.  A later balance entry for the same address
/// supersedes an earlier one, as does a later coin for the same denomination.
#[verifier::loop_isolation(false)]
pub fn balance_amount(bals: &Vec<Balance>, addr: &String, denom: &String) -> (a: i128)
    ensures
        a as int == balance_of(bals@, addr@, denom@),
{
    let mut i: usize = bals.len();
    proof {
        assert(bals@.take(i as int) =~= bals@);
    }
    while i > 0
        invariant
            0 <= i <= bals.len(),
            find_account_coins(bals@, addr@) == find_account_coins(bals@.take(i as int), addr@),
        decreases i,
    {
        let ni = i - 1;
        let b = &bals[ni];
        proof {
            assert(bals@.take(ni as int + 1).last() == bals@[ni as int]);
            assert(bals@.take(ni as int + 1).drop_last() =~= bals@.take(ni as int));
        }
        if b.address == *addr {
            let coins = &b.coins;
            let mut j: usize = coins.len();
            proof {
                assert(coins@.take(j as int) =~= coins@);
            }
            while j > 0
                invariant
                    0 <= j <= coins@.len(),
                    find_coin_amount(coins@, denom@) == find_coin_amount(
                        coins@.take(j as int),
                        denom@,
                    ),
                decreases j,
            {
                let nj = j - 1;
                proof {
                    assert(coins@.take(nj as int + 1).last() == coins@[nj as int]);
                    assert(coins@.take(nj as int + 1).drop_last() =~= coins@.take(nj as int));
                }
                if coins[nj].denom == *denom {
                    return coins[nj].amount;
                }
                j = nj;
            }
            return 0;
        }
        i = ni;
    }
    0
}

/// The debit and the commission share of one input coin, for a sender that
/// holds `def`'s denomination: the bare amount for the issuer, the amount
/// plus both fee shares for anyone else.
#[verifier::loop_isolation(false)]
pub fn compute_entry_effects(
    defs: &Vec<DenomDefinition>,
    def: &DenomDefinition,
    inputs: &Vec<Balance>,
    outputs: &Vec<Balance>,
    sender: &String,
    coin: &Coin,
) -> (r: (i128, i128))
    requires
        rates_wf(defs@),
        balances_non_neg(inputs@),
        balances_non_neg(outputs@),
        denoms_sum(inputs@, coin.denom@) <= MAX_DENOM_TOTAL as int,
        denoms_sum(outputs@, coin.denom@) <= MAX_DENOM_TOTAL as int,
        find_definition(defs@, coin.denom@) == Some(*def),
        0 <= coin.amount <= MAX_DENOM_TOTAL as int,
    ensures
        r.0 as int == entry_debit(defs@, inputs@, outputs@, sender@, *coin),
        r.1 as int == entry_commission(defs@, inputs@, outputs@, sender@, *coin),
        coin.amount as int <= r.0 as int <= 3 * coin.amount as int,
        0 <= r.1 <= coin.amount,
{
    proof {
        lemma_found_definition_rates_wf(defs@, coin.denom@, *def);
        lemma_entry_effect_bounds(defs@, inputs@, outputs@, sender@, *coin);
    }
    if *sender == def.issuer {
        (coin.amount, 0)
    } else {
        let nis = sum_for_denom_excluding(inputs, &coin.denom, &def.issuer);
        let nos = sum_for_denom_excluding(outputs, &coin.denom, &def.issuer);
        let base = if nis <= nos {
            nis
        } else {
            nos
        };
        let sb = compute_fee_share(base, &def.burn_rate, coin.amount, nis);
        let sc = compute_fee_share(base, &def.commission_rate, coin.amount, nis);
        (coin.amount + sb + sc, sc)
    }
}

} // verus!
