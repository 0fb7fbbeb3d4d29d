use vstd::prelude::*;

use crate::types::{Balance, Coin, DenomDefinition};

verus! {

// ---------------------------------------------------------------------------
// Sums of coin amounts, per denomination.
// ---------------------------------------------------------------------------

/// Sum of the amounts of all coins in `coins` whose denomination is `denom`.
pub open spec fn coin_sum(coins: Seq<Coin>, denom: Seq<char>) -> int
    decreases coins.len(),
{
    if coins.len() == 0 {
        0
    } else {
        coin_sum(coins.drop_last(), denom) + (if coins.last().denom@ == denom {
            coins.last().amount as int
        } else {
            0
        })
    }
}

/// Total amount of `denom` across all balances.
pub open spec fn denoms_sum(bals: Seq<Balance>, denom: Seq<char>) -> int
    decreases bals.len(),
{
    if bals.len() == 0 {
        0
    } else {
        denoms_sum(bals.drop_last(), denom) + coin_sum(bals.last().coins@, denom)
    }
}

/// Total amount of `denom` across the balances whose address is not `excl`
/// (the non-issuer volume when `excl` is the issuer).
pub open spec fn denoms_sum_excluding(bals: Seq<Balance>, denom: Seq<char>, excl: Seq<char>) -> int
    decreases bals.len(),
{
    if bals.len() == 0 {
        0
    } else {
        denoms_sum_excluding(bals.drop_last(), denom, excl) + (if bals.last().address@ != excl {
            coin_sum(bals.last().coins@, denom)
        } else {
            0
        })
    }
}

/// Total amount of `denom` across the balances whose address is `addr`.
pub open spec fn denoms_sum_to(bals: Seq<Balance>, addr: Seq<char>, denom: Seq<char>) -> int
    decreases bals.len(),
{
    if bals.len() == 0 {
        0
    } else {
        denoms_sum_to(bals.drop_last(), addr, denom) + (if bals.last().address@ == addr {
            coin_sum(bals.last().coins@, denom)
        } else {
            0
        })
    }
}

// ---------------------------------------------------------------------------
// Lookups.
// ---------------------------------------------------------------------------

/// The first definition whose denomination is `denom`.
pub open spec fn find_definition(defs: Seq<DenomDefinition>, denom: Seq<char>) -> Option<
    DenomDefinition,
>
    decreases defs.len(),
{
    if defs.len() == 0 {
        None
    } else if defs.first().denom@ == denom {
        Some(defs.first())
    } else {
        find_definition(defs.drop_first(), denom)
    }
}

/// The coins of the last balance whose address is `addr`.  A later entry for
/// the same address supersedes an earlier one.
pub open spec fn find_account_coins(bals: Seq<Balance>, addr: Seq<char>) -> Option<Seq<Coin>>
    decreases bals.len(),
{
    if bals.len() == 0 {
        None
    } else if bals.last().address@ == addr {
        Some(bals.last().coins@)
    } else {
        find_account_coins(bals.drop_last(), addr)
    }
}

/// The amount of the last coin whose denomination is `denom`.
pub open spec fn find_coin_amount(coins: Seq<Coin>, denom: Seq<char>) -> Option<int>
    decreases coins.len(),
{
    if coins.len() == 0 {
        None
    } else if coins.last().denom@ == denom {
        Some(coins.last().amount as int)
    } else {
        find_coin_amount(coins.drop_last(), denom)
    }
}

/// The amount of `denom` in a coin list, with an absent denomination read as
/// zero.
pub open spec fn coin_value(coins: Seq<Coin>, denom: Seq<char>) -> int {
    match find_coin_amount(coins, denom) {
        None => 0,
        Some(a) => a,
    }
}

/// The amount of `denom` held by `addr`, with absent addresses and absent
/// denominations read as zero.
pub open spec fn balance_of(bals: Seq<Balance>, addr: Seq<char>, denom: Seq<char>) -> int {
    match find_account_coins(bals, addr) {
        None => 0,
        Some(coins) => coin_value(coins, denom),
    }
}

/// No two balances carry the same address.
pub open spec fn addresses_unique(bals: Seq<Balance>) -> bool {
    forall|k1: int, k2: int|
        #![trigger bals[k1].address@, bals[k2].address@]
        0 <= k1 < k2 < bals.len() ==> bals[k1].address@ != bals[k2].address@
}

/// No two coins of the list carry the same denomination.
pub open spec fn coins_denoms_unique(coins: Seq<Coin>) -> bool {
    forall|j1: int, j2: int|
        #![trigger coins[j1].denom@, coins[j2].denom@]
        0 <= j1 < j2 < coins.len() ==> coins[j1].denom@ != coins[j2].denom@
}

// ---------------------------------------------------------------------------
// Non-negativity and occurrence.
// ---------------------------------------------------------------------------

/// Every coin amount in the list is non-negative.
pub open spec fn coins_non_neg(coins: Seq<Coin>) -> bool {
    forall|j: int| 0 <= j < coins.len() ==> (#[trigger] coins[j]).amount >= 0
}

/// Every coin amount in every balance is non-negative.
pub open spec fn balances_non_neg(bals: Seq<Balance>) -> bool {
    forall|i: int| 0 <= i < bals.len() ==> coins_non_neg((#[trigger] bals[i]).coins@)
}

/// Some coin in some balance carries denomination `denom`.
pub open spec fn denom_occurs(bals: Seq<Balance>, denom: Seq<char>) -> bool {
    exists|i: int, j: int|
        0 <= i < bals.len() && 0 <= j < bals[i].coins@.len() && (#[trigger] bals[i].coins@[j]).denom@
            == denom
}

// ---------------------------------------------------------------------------
// Lemmas.
// ---------------------------------------------------------------------------

/// A prefix of a coin list is non-negative if the list is.
pub proof fn lemma_coins_non_neg_prefix(coins: Seq<Coin>, j: int)
    requires
        coins_non_neg(coins),
        0 <= j <= coins.len(),
    ensures
        coins_non_neg(coins.take(j)),
{
    assert forall|k: int| 0 <= k < coins.take(j).len() implies (#[trigger] coins.take(
        j,
    )[k]).amount >= 0 by {
        assert(coins.take(j)[k] == coins[k]);
    }
}

/// The sum over a list of non-negative coins is non-negative.
pub proof fn lemma_coin_sum_non_neg(coins: Seq<Coin>, denom: Seq<char>)
    requires
        coins_non_neg(coins),
    ensures
        coin_sum(coins, denom) >= 0,
    decreases coins.len(),
{
    if coins.len() > 0 {
        assert(coins.drop_last() == coins.take(coins.len() - 1));
        lemma_coins_non_neg_prefix(coins, coins.len() - 1);
        lemma_coin_sum_non_neg(coins.drop_last(), denom);
        assert(coins[coins.len() - 1].amount >= 0);
    }
}

/// Extending a coin prefix by one coin extends its sum by that coin's
/// contribution.
pub proof fn lemma_coin_sum_take_step(coins: Seq<Coin>, denom: Seq<char>, j: int)
    requires
        0 <= j < coins.len(),
    ensures
        coin_sum(coins.take(j + 1), denom) == coin_sum(coins.take(j), denom) + (if coins[j].denom@
            == denom {
            coins[j].amount as int
        } else {
            0
        }),
{
    assert(coins.take(j + 1).drop_last() =~= coins.take(j));
    assert(coins.take(j + 1).last() == coins[j]);
}

/// For non-negative coins, the sum over a prefix never exceeds the sum over
/// the whole list.
pub proof fn lemma_coin_sum_prefix_le(coins: Seq<Coin>, denom: Seq<char>, j: int)
    requires
        coins_non_neg(coins),
        0 <= j <= coins.len(),
    ensures
        coin_sum(coins.take(j), denom) <= coin_sum(coins, denom),
    decreases coins.len() - j,
{
    if j == coins.len() {
        assert(coins.take(j) =~= coins);
    } else {
        lemma_coin_sum_take_step(coins, denom, j);
        assert(coins[j].amount >= 0);
        lemma_coin_sum_prefix_le(coins, denom, j + 1);
    }
}

/// A prefix of a non-negative balance list is non-negative.
pub proof fn lemma_balances_non_neg_prefix(bals: Seq<Balance>, i: int)
    requires
        balances_non_neg(bals),
        0 <= i <= bals.len(),
    ensures
        balances_non_neg(bals.take(i)),
{
    assert forall|k: int| 0 <= k < bals.take(i).len() implies coins_non_neg(
        (#[trigger] bals.take(i)[k]).coins@,
    ) by {
        assert(bals.take(i)[k] == bals[k]);
    }
}

/// The total of a denomination over non-negative balances is non-negative.
pub proof fn lemma_denoms_sum_non_neg(bals: Seq<Balance>, denom: Seq<char>)
    requires
        balances_non_neg(bals),
    ensures
        denoms_sum(bals, denom) >= 0,
    decreases bals.len(),
{
    if bals.len() > 0 {
        assert(bals.drop_last() == bals.take(bals.len() - 1));
        lemma_balances_non_neg_prefix(bals, bals.len() - 1);
        lemma_denoms_sum_non_neg(bals.drop_last(), denom);
        assert(coins_non_neg(bals[bals.len() - 1].coins@));
        lemma_coin_sum_non_neg(bals.last().coins@, denom);
    }
}

/// Extending a balance prefix by one balance extends the total by that
/// balance's coin sum.
pub proof fn lemma_denoms_sum_take_step(bals: Seq<Balance>, denom: Seq<char>, i: int)
    requires
        0 <= i < bals.len(),
    ensures
        denoms_sum(bals.take(i + 1), denom) == denoms_sum(bals.take(i), denom) + coin_sum(
            bals[i].coins@,
            denom,
        ),
{
    assert(bals.take(i + 1).drop_last() =~= bals.take(i));
    assert(bals.take(i + 1).last() == bals[i]);
}

/// For non-negative balances, the total over a prefix never exceeds the total
/// over the whole list.
pub proof fn lemma_denoms_sum_prefix_le(bals: Seq<Balance>, denom: Seq<char>, i: int)
    requires
        balances_non_neg(bals),
        0 <= i <= bals.len(),
    ensures
        denoms_sum(bals.take(i), denom) <= denoms_sum(bals, denom),
    decreases bals.len() - i,
{
    if i == bals.len() {
        assert(bals.take(i) =~= bals);
    } else {
        lemma_denoms_sum_take_step(bals, denom, i);
        assert(coins_non_neg(bals[i].coins@));
        lemma_coin_sum_non_neg(bals[i].coins@, denom);
        lemma_denoms_sum_prefix_le(bals, denom, i + 1);
    }
}

/// Extending a balance prefix by one balance extends the excluding total by
/// that balance's contribution.
pub proof fn lemma_denoms_sum_excluding_take_step(
    bals: Seq<Balance>,
    denom: Seq<char>,
    excl: Seq<char>,
    i: int,
)
    requires
        0 <= i < bals.len(),
    ensures
        denoms_sum_excluding(bals.take(i + 1), denom, excl) == denoms_sum_excluding(
            bals.take(i),
            denom,
            excl,
        ) + (if bals[i].address@ != excl {
            coin_sum(bals[i].coins@, denom)
        } else {
            0
        }),
{
    assert(bals.take(i + 1).drop_last() =~= bals.take(i));
    assert(bals.take(i + 1).last() == bals[i]);
}

/// The non-issuer volume sits between zero and the full total.
pub proof fn lemma_denoms_sum_excluding_bounds(bals: Seq<Balance>, denom: Seq<char>, excl: Seq<char>)
    requires
        balances_non_neg(bals),
    ensures
        0 <= denoms_sum_excluding(bals, denom, excl),
        denoms_sum_excluding(bals, denom, excl) <= denoms_sum(bals, denom),
    decreases bals.len(),
{
    if bals.len() > 0 {
        assert(bals.drop_last() == bals.take(bals.len() - 1));
        lemma_balances_non_neg_prefix(bals, bals.len() - 1);
        lemma_denoms_sum_excluding_bounds(bals.drop_last(), denom, excl);
        assert(coins_non_neg(bals[bals.len() - 1].coins@));
        lemma_coin_sum_non_neg(bals.last().coins@, denom);
    }
}

/// For non-negative balances, a prefix of the excluding total never exceeds
/// the whole excluding total.
pub proof fn lemma_denoms_sum_excluding_prefix_le(
    bals: Seq<Balance>,
    denom: Seq<char>,
    excl: Seq<char>,
    i: int,
)
    requires
        balances_non_neg(bals),
        0 <= i <= bals.len(),
    ensures
        denoms_sum_excluding(bals.take(i), denom, excl) <= denoms_sum_excluding(bals, denom, excl),
    decreases bals.len() - i,
{
    if i == bals.len() {
        assert(bals.take(i) =~= bals);
    } else {
        lemma_denoms_sum_excluding_take_step(bals, denom, excl, i);
        assert(coins_non_neg(bals[i].coins@));
        lemma_coin_sum_non_neg(bals[i].coins@, denom);
        lemma_denoms_sum_excluding_prefix_le(bals, denom, excl, i + 1);
    }
}

/// One coin of a list contributes no more than the list's whole sum.
pub proof fn lemma_coin_le_coin_sum(coins: Seq<Coin>, denom: Seq<char>, j: int)
    requires
        coins_non_neg(coins),
        0 <= j < coins.len(),
        coins[j].denom@ == denom,
    ensures
        coins[j].amount as int <= coin_sum(coins, denom),
{
    lemma_coin_sum_take_step(coins, denom, j);
    lemma_coin_sum_prefix_le(coins, denom, j + 1);
    lemma_coins_non_neg_prefix(coins, j);
    lemma_coin_sum_non_neg(coins.take(j), denom);
}

/// Extending a balance prefix by one balance extends the credit total by that
/// balance's contribution.
pub proof fn lemma_denoms_sum_to_take_step(
    bals: Seq<Balance>,
    addr: Seq<char>,
    denom: Seq<char>,
    i: int,
)
    requires
        0 <= i < bals.len(),
    ensures
        denoms_sum_to(bals.take(i + 1), addr, denom) == denoms_sum_to(bals.take(i), addr, denom)
            + (if bals[i].address@ == addr {
            coin_sum(bals[i].coins@, denom)
        } else {
            0
        }),
{
    assert(bals.take(i + 1).drop_last() =~= bals.take(i));
    assert(bals.take(i + 1).last() == bals[i]);
}

/// The credit total to one address sits between zero and the full total.
pub proof fn lemma_denoms_sum_to_bounds(bals: Seq<Balance>, addr: Seq<char>, denom: Seq<char>)
    requires
        balances_non_neg(bals),
    ensures
        0 <= denoms_sum_to(bals, addr, denom),
        denoms_sum_to(bals, addr, denom) <= denoms_sum(bals, denom),
    decreases bals.len(),
{
    if bals.len() > 0 {
        assert(bals.drop_last() == bals.take(bals.len() - 1));
        lemma_balances_non_neg_prefix(bals, bals.len() - 1);
        lemma_denoms_sum_to_bounds(bals.drop_last(), addr, denom);
        assert(coins_non_neg(bals[bals.len() - 1].coins@));
        lemma_coin_sum_non_neg(bals.last().coins@, denom);
    }
}

/// One balance's coin sum contributes no more than the full total.
pub proof fn lemma_balance_le_denoms_sum(bals: Seq<Balance>, denom: Seq<char>, i: int)
    requires
        balances_non_neg(bals),
        0 <= i < bals.len(),
    ensures
        0 <= coin_sum(bals[i].coins@, denom) <= denoms_sum(bals, denom),
{
    assert(coins_non_neg(bals[i].coins@));
    lemma_coin_sum_non_neg(bals[i].coins@, denom);
    lemma_denoms_sum_take_step(bals, denom, i);
    lemma_balances_non_neg_prefix(bals, i);
    lemma_denoms_sum_non_neg(bals.take(i), denom);
    lemma_denoms_sum_prefix_le(bals, denom, i + 1);
}

/// A denomination that occurs nowhere in a list of balances sums to zero.
pub proof fn lemma_coin_sum_absent(coins: Seq<Coin>, denom: Seq<char>)
    requires
        forall|j: int| 0 <= j < coins.len() ==> (#[trigger] coins[j]).denom@ != denom,
    ensures
        coin_sum(coins, denom) == 0,
    decreases coins.len(),
{
    if coins.len() > 0 {
        assert forall|k: int| 0 <= k < coins.drop_last().len() implies (#[trigger] coins.drop_last(
        )[k]).denom@ != denom by {
            assert(coins.drop_last()[k] == coins[k]);
        }
        lemma_coin_sum_absent(coins.drop_last(), denom);
        assert(coins[coins.len() - 1].denom@ != denom);
    }
}

/// A denomination that occurs in no balance has total zero.
pub proof fn lemma_denoms_sum_absent(bals: Seq<Balance>, denom: Seq<char>)
    requires
        !denom_occurs(bals, denom),
    ensures
        denoms_sum(bals, denom) == 0,
    decreases bals.len(),
{
    if bals.len() > 0 {
        assert(!denom_occurs(bals.drop_last(), denom)) by {
            if denom_occurs(bals.drop_last(), denom) {
                let (i, j): (int, int) = choose|i: int, j: int|
                    0 <= i < bals.drop_last().len() && 0 <= j < bals.drop_last()[i].coins@.len()
                        && (#[trigger] bals.drop_last()[i].coins@[j]).denom@ == denom;
                assert(bals.drop_last()[i] == bals[i]);
                assert(bals[i].coins@[j].denom@ == denom);
            }
        }
        lemma_denoms_sum_absent(bals.drop_last(), denom);
        let n = bals.len() - 1;
        assert forall|j: int| 0 <= j < bals[n].coins@.len() implies (#[trigger] bals[n].coins@[j]).denom@
            != denom by {
            if bals[n].coins@[j].denom@ == denom {
                assert(0 <= n < bals.len() && 0 <= j < bals[n].coins@.len() && (bals[n].coins@[j]).denom@
                    == denom);
            }
        }
        lemma_coin_sum_absent(bals[n].coins@, denom);
        assert(bals.last() == bals[n]);
    }
}

/// With unique denominations, a coin list's sum for a denomination is the
/// amount of its (at most one) coin of that denomination.
pub proof fn lemma_coin_sum_is_value(coins: Seq<Coin>, denom: Seq<char>)
    requires
        coins_denoms_unique(coins),
    ensures
        coin_sum(coins, denom) == coin_value(coins, denom),
    decreases coins.len(),
{
    if coins.len() > 0 {
        assert forall|j1: int, j2: int|
            #![trigger coins.drop_last()[j1].denom@, coins.drop_last()[j2].denom@]
            0 <= j1 < j2 < coins.drop_last().len() implies coins.drop_last()[j1].denom@
            != coins.drop_last()[j2].denom@ by {
            assert(coins.drop_last()[j1] == coins[j1]);
            assert(coins.drop_last()[j2] == coins[j2]);
        }
        lemma_coin_sum_is_value(coins.drop_last(), denom);
        if coins.last().denom@ == denom {
            assert forall|x: int|
                0 <= x < coins.drop_last().len() implies (#[trigger] coins.drop_last()[x]).denom@
                != denom by {
                assert(coins.drop_last()[x] == coins[x]);
                assert(coins[x].denom@ != coins[coins.len() - 1].denom@);
            }
            lemma_coin_sum_absent(coins.drop_last(), denom);
        }
    }
}

/// An address carried by no balance receives nothing.
pub proof fn lemma_denoms_sum_to_absent(bals: Seq<Balance>, addr: Seq<char>, denom: Seq<char>)
    requires
        forall|x: int| 0 <= x < bals.len() ==> (#[trigger] bals[x]).address@ != addr,
    ensures
        denoms_sum_to(bals, addr, denom) == 0,
    decreases bals.len(),
{
    if bals.len() > 0 {
        assert(bals[bals.len() - 1].address@ != addr);
        assert forall|x: int| 0 <= x < bals.drop_last().len() implies (#[trigger] bals.drop_last(
        )[x]).address@ != addr by {
            assert(bals.drop_last()[x] == bals[x]);
        }
        lemma_denoms_sum_to_absent(bals.drop_last(), addr, denom);
    }
}

// ---------------------------------------------------------------------------
// Lemmas about the lookups.
// ---------------------------------------------------------------------------

/// With unique addresses, the lookup of the address at index `k` finds
/// exactly that balance's coins.
pub proof fn lemma_find_account_found(bals: Seq<Balance>, k: int)
    requires
        addresses_unique(bals),
        0 <= k < bals.len(),
    ensures
        find_account_coins(bals, bals[k].address@) == Some(bals[k].coins@),
    decreases bals.len(),
{
    if k == bals.len() - 1 {
        assert(bals.last() == bals[k]);
    } else {
        assert(bals.last().address@ != bals[k].address@);
        assert forall|k1: int, k2: int|
            #![trigger bals.drop_last()[k1].address@, bals.drop_last()[k2].address@]
            0 <= k1 < k2 < bals.drop_last().len() implies bals.drop_last()[k1].address@
            != bals.drop_last()[k2].address@ by {
            assert(bals.drop_last()[k1] == bals[k1]);
            assert(bals.drop_last()[k2] == bals[k2]);
        }
        lemma_find_account_found(bals.drop_last(), k);
        assert(bals.drop_last()[k] == bals[k]);
    }
}

/// An address carried by no balance is not found.
pub proof fn lemma_find_account_absent(bals: Seq<Balance>, addr: Seq<char>)
    requires
        forall|x: int| 0 <= x < bals.len() ==> (#[trigger] bals[x]).address@ != addr,
    ensures
        find_account_coins(bals, addr) is None,
    decreases bals.len(),
{
    if bals.len() > 0 {
        assert(bals[bals.len() - 1].address@ != addr);
        assert forall|x: int| 0 <= x < bals.drop_last().len() implies (#[trigger] bals.drop_last(
        )[x]).address@ != addr by {
            assert(bals.drop_last()[x] == bals[x]);
        }
        lemma_find_account_absent(bals.drop_last(), addr);
    }
}

/// A found address has a witness index.
pub proof fn lemma_find_account_witness(bals: Seq<Balance>, addr: Seq<char>)
    requires
        find_account_coins(bals, addr) is Some,
    ensures
        exists|x: int| 0 <= x < bals.len() && (#[trigger] bals[x]).address@ == addr,
    decreases bals.len(),
{
    if bals.last().address@ == addr {
        assert(bals[bals.len() - 1].address@ == addr);
    } else {
        lemma_find_account_witness(bals.drop_last(), addr);
        let x = choose|x: int|
            0 <= x < bals.drop_last().len() && (#[trigger] bals.drop_last()[x]).address@ == addr;
        assert(bals.drop_last()[x] == bals[x]);
        assert(bals[x].address@ == addr);
    }
}

/// Replacing the balance at `k` by one with the same address leaves the
/// lookup of every other address unchanged.
pub proof fn lemma_find_account_update_other(bals: Seq<Balance>, k: int, b2: Balance, addr: Seq<char>)
    requires
        0 <= k < bals.len(),
        b2.address@ == bals[k].address@,
        addr != b2.address@,
    ensures
        find_account_coins(bals.update(k, b2), addr) == find_account_coins(bals, addr),
    decreases bals.len(),
{
    let u = bals.update(k, b2);
    if k == bals.len() - 1 {
        assert(u.last() == b2);
        assert(u.drop_last() =~= bals.drop_last());
    } else {
        assert(u.last() == bals.last());
        if bals.last().address@ != addr {
            assert(u.drop_last() =~= bals.drop_last().update(k, b2));
            assert(bals.drop_last()[k] == bals[k]);
            lemma_find_account_update_other(bals.drop_last(), k, b2, addr);
        }
    }
}

/// With unique denominations, the lookup of the denomination at index `m`
/// finds exactly that coin's amount.
pub proof fn lemma_find_coin_found(coins: Seq<Coin>, m: int)
    requires
        coins_denoms_unique(coins),
        0 <= m < coins.len(),
    ensures
        find_coin_amount(coins, coins[m].denom@) == Some(coins[m].amount as int),
    decreases coins.len(),
{
    if m == coins.len() - 1 {
        assert(coins.last() == coins[m]);
    } else {
        assert(coins.last().denom@ != coins[m].denom@);
        assert forall|j1: int, j2: int|
            #![trigger coins.drop_last()[j1].denom@, coins.drop_last()[j2].denom@]
            0 <= j1 < j2 < coins.drop_last().len() implies coins.drop_last()[j1].denom@
            != coins.drop_last()[j2].denom@ by {
            assert(coins.drop_last()[j1] == coins[j1]);
            assert(coins.drop_last()[j2] == coins[j2]);
        }
        lemma_find_coin_found(coins.drop_last(), m);
        assert(coins.drop_last()[m] == coins[m]);
    }
}

/// A denomination carried by no coin is not found.
pub proof fn lemma_find_coin_absent(coins: Seq<Coin>, denom: Seq<char>)
    requires
        forall|x: int| 0 <= x < coins.len() ==> (#[trigger] coins[x]).denom@ != denom,
    ensures
        find_coin_amount(coins, denom) is None,
    decreases coins.len(),
{
    if coins.len() > 0 {
        assert(coins[coins.len() - 1].denom@ != denom);
        assert forall|x: int| 0 <= x < coins.drop_last().len() implies (#[trigger] coins.drop_last(
        )[x]).denom@ != denom by {
            assert(coins.drop_last()[x] == coins[x]);
        }
        lemma_find_coin_absent(coins.drop_last(), denom);
    }
}

/// Replacing the coin at `m` by one with the same denomination leaves the
/// lookup of every other denomination unchanged.
pub proof fn lemma_find_coin_update_other(coins: Seq<Coin>, m: int, c2: Coin, denom: Seq<char>)
    requires
        0 <= m < coins.len(),
        c2.denom@ == coins[m].denom@,
        denom != c2.denom@,
    ensures
        find_coin_amount(coins.update(m, c2), denom) == find_coin_amount(coins, denom),
    decreases coins.len(),
{
    let u = coins.update(m, c2);
    if m == coins.len() - 1 {
        assert(u.last() == c2);
        assert(u.drop_last() =~= coins.drop_last());
    } else {
        assert(u.last() == coins.last());
        if coins.last().denom@ != denom {
            assert(u.drop_last() =~= coins.drop_last().update(m, c2));
            assert(coins.drop_last()[m] == coins[m]);
            lemma_find_coin_update_other(coins.drop_last(), m, c2, denom);
        }
    }
}

} // verus!
