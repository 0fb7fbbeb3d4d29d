use vstd::prelude::*;

use crate::types::{Balance, Coin, DenomDefinition, MAX_DENOM_TOTAL};
use crate::sums::{
    addresses_unique, balance_of, balances_non_neg, coin_sum, coins_denoms_unique, coins_non_neg,
    denom_occurs, denoms_sum, denoms_sum_to, find_definition, lemma_balances_non_neg_prefix,
    lemma_coin_sum_is_value, lemma_coin_sum_non_neg, lemma_coins_non_neg_prefix,
    lemma_denoms_sum_absent, lemma_denoms_sum_non_neg, lemma_denoms_sum_to_absent,
};
use crate::fees::{
    commission_share, entry_burn, entry_commission, entry_debit, lemma_entry_effect_bounds,
    rates_wf,
};

verus! {

// ---------------------------------------------------------------------------
// Aggregated effects.
// ---------------------------------------------------------------------------

/// Sum of `entry_debit` over the coins of one sender that carry `denom`.
pub open spec fn coin_debits(
    defs: Seq<DenomDefinition>,
    ins: Seq<Balance>,
    outs: Seq<Balance>,
    sender: Seq<char>,
    coins: Seq<Coin>,
    denom: Seq<char>,
) -> int
    decreases coins.len(),
{
    if coins.len() == 0 {
        0
    } else {
        coin_debits(defs, ins, outs, sender, coins.drop_last(), denom) + (if coins.last().denom@
            == denom {
            entry_debit(defs, ins, outs, sender, coins.last())
        } else {
            0
        })
    }
}

/// Total debit of address `addr` for `denom` across all input balances.
pub open spec fn debit_total(
    defs: Seq<DenomDefinition>,
    ins: Seq<Balance>,
    outs: Seq<Balance>,
    bals: Seq<Balance>,
    addr: Seq<char>,
    denom: Seq<char>,
) -> int
    decreases bals.len(),
{
    if bals.len() == 0 {
        0
    } else {
        debit_total(defs, ins, outs, bals.drop_last(), addr, denom) + (if bals.last().address@
            == addr {
            coin_debits(defs, ins, outs, bals.last().address@, bals.last().coins@, denom)
        } else {
            0
        })
    }
}

/// Sum of `entry_debit` over the coins of `denom` of every sender.
pub open spec fn debits_for_denom(
    defs: Seq<DenomDefinition>,
    ins: Seq<Balance>,
    outs: Seq<Balance>,
    bals: Seq<Balance>,
    denom: Seq<char>,
) -> int
    decreases bals.len(),
{
    if bals.len() == 0 {
        0
    } else {
        debits_for_denom(defs, ins, outs, bals.drop_last(), denom) + coin_debits(
            defs,
            ins,
            outs,
            bals.last().address@,
            bals.last().coins@,
            denom,
        )
    }
}

/// Sum of `entry_commission` over the coins of one sender that carry `denom`.
pub open spec fn coin_commissions(
    defs: Seq<DenomDefinition>,
    ins: Seq<Balance>,
    outs: Seq<Balance>,
    sender: Seq<char>,
    coins: Seq<Coin>,
    denom: Seq<char>,
) -> int
    decreases coins.len(),
{
    if coins.len() == 0 {
        0
    } else {
        coin_commissions(defs, ins, outs, sender, coins.drop_last(), denom) + (if coins.last().denom@
            == denom {
            entry_commission(defs, ins, outs, sender, coins.last())
        } else {
            0
        })
    }
}

/// Total commission collected for `denom`, across every input entry.
pub open spec fn commission_total(
    defs: Seq<DenomDefinition>,
    ins: Seq<Balance>,
    outs: Seq<Balance>,
    bals: Seq<Balance>,
    denom: Seq<char>,
) -> int
    decreases bals.len(),
{
    if bals.len() == 0 {
        0
    } else {
        commission_total(defs, ins, outs, bals.drop_last(), denom) + coin_commissions(
            defs,
            ins,
            outs,
            bals.last().address@,
            bals.last().coins@,
            denom,
        )
    }
}

/// Sum of `entry_burn` over the coins of one sender that carry `denom`.
pub open spec fn coin_burns(
    defs: Seq<DenomDefinition>,
    ins: Seq<Balance>,
    outs: Seq<Balance>,
    sender: Seq<char>,
    coins: Seq<Coin>,
    denom: Seq<char>,
) -> int
    decreases coins.len(),
{
    if coins.len() == 0 {
        0
    } else {
        coin_burns(defs, ins, outs, sender, coins.drop_last(), denom) + (if coins.last().denom@
            == denom {
            entry_burn(defs, ins, outs, sender, coins.last())
        } else {
            0
        })
    }
}

/// Total amount of `denom` burned (removed from circulation) by the transfer.
pub open spec fn burn_total(
    defs: Seq<DenomDefinition>,
    ins: Seq<Balance>,
    outs: Seq<Balance>,
    bals: Seq<Balance>,
    denom: Seq<char>,
) -> int
    decreases bals.len(),
{
    if bals.len() == 0 {
        0
    } else {
        burn_total(defs, ins, outs, bals.drop_last(), denom) + coin_burns(
            defs,
            ins,
            outs,
            bals.last().address@,
            bals.last().coins@,
            denom,
        )
    }
}

/// The commission credited to address `a` for denomination `d`: the whole
/// commission collected for `d` when `a` is its issuer, nothing otherwise.
pub open spec fn issuer_credit(
    defs: Seq<DenomDefinition>,
    ins: Seq<Balance>,
    outs: Seq<Balance>,
    a: Seq<char>,
    d: Seq<char>,
) -> int {
    match find_definition(defs, d) {
        Some(def) => if def.issuer@ == a {
            commission_total(defs, ins, outs, ins, d)
        } else {
            0
        },
        None => 0,
    }
}

/// The net signed balance change of address `a` in denomination `d`:
/// credits received, plus its commission as issuer, minus its debits as a
/// sender.
pub open spec fn net_delta(
    defs: Seq<DenomDefinition>,
    ins: Seq<Balance>,
    outs: Seq<Balance>,
    a: Seq<char>,
    d: Seq<char>,
) -> int {
    denoms_sum_to(outs, a, d) + issuer_credit(defs, ins, outs, a, d) - debit_total(
        defs,
        ins,
        outs,
        ins,
        a,
        d,
    )
}

// ---------------------------------------------------------------------------
// Per-entry contribution to a key, used to follow the accumulation.
// ---------------------------------------------------------------------------

/// What one input coin from `sender` contributes to the delta of the key
/// `(a, d)`: its debit on the sender's own key, and its commission share on
/// the issuer's key.
pub open spec fn entry_contrib(
    defs: Seq<DenomDefinition>,
    ins: Seq<Balance>,
    outs: Seq<Balance>,
    sender: Seq<char>,
    c: Coin,
    a: Seq<char>,
    d: Seq<char>,
) -> int {
    (if a == sender && d == c.denom@ {
        -entry_debit(defs, ins, outs, sender, c)
    } else {
        0
    }) + (if d == c.denom@ && (match find_definition(defs, c.denom@) {
        Some(def) => a == def.issuer@,
        None => false,
    }) {
        entry_commission(defs, ins, outs, sender, c)
    } else {
        0
    })
}

/// Contribution of one sender's coin list to the key `(a, d)`.
pub open spec fn coins_contrib(
    defs: Seq<DenomDefinition>,
    ins: Seq<Balance>,
    outs: Seq<Balance>,
    sender: Seq<char>,
    coins: Seq<Coin>,
    a: Seq<char>,
    d: Seq<char>,
) -> int
    decreases coins.len(),
{
    if coins.len() == 0 {
        0
    } else {
        coins_contrib(defs, ins, outs, sender, coins.drop_last(), a, d) + entry_contrib(
            defs,
            ins,
            outs,
            sender,
            coins.last(),
            a,
            d,
        )
    }
}

/// Contribution of a list of input balances to the key `(a, d)`.
pub open spec fn inputs_contrib(
    defs: Seq<DenomDefinition>,
    ins: Seq<Balance>,
    outs: Seq<Balance>,
    bals: Seq<Balance>,
    a: Seq<char>,
    d: Seq<char>,
) -> int
    decreases bals.len(),
{
    if bals.len() == 0 {
        0
    } else {
        inputs_contrib(defs, ins, outs, bals.drop_last(), a, d) + coins_contrib(
            defs,
            ins,
            outs,
            bals.last().address@,
            bals.last().coins@,
            a,
            d,
        )
    }
}

// ---------------------------------------------------------------------------
// Validation.
// ---------------------------------------------------------------------------

/// Input coin `(i, j)` names a denomination with no definition.
pub open spec fn unknown_at(defs: Seq<DenomDefinition>, ins: Seq<Balance>, i: int, j: int) -> bool {
    find_definition(defs, ins[i].coins@[j].denom@) is None
}

/// The sender of input coin `(i, j)` cannot cover its amount plus its fee
/// shares out of its existing balance.
pub open spec fn insufficient_at(
    bals: Seq<Balance>,
    defs: Seq<DenomDefinition>,
    ins: Seq<Balance>,
    outs: Seq<Balance>,
    i: int,
    j: int,
) -> bool {
    &&& !unknown_at(defs, ins, i, j)
    &&& balance_of(bals, ins[i].address@, ins[i].coins@[j].denom@) < entry_debit(
        defs,
        ins,
        outs,
        ins[i].address@,
        ins[i].coins@[j],
    )
}

/// Input coin `(i, j)` violates validation (checked in this order: unknown
/// denomination first, insufficient balance second).
pub open spec fn violation_at(
    bals: Seq<Balance>,
    defs: Seq<DenomDefinition>,
    ins: Seq<Balance>,
    outs: Seq<Balance>,
    i: int,
    j: int,
) -> bool {
    unknown_at(defs, ins, i, j) || insufficient_at(bals, defs, ins, outs, i, j)
}

/// No input coin before position `(i, j)` (senders in order, coins in order)
/// violates validation.
pub open spec fn no_violation_before(
    bals: Seq<Balance>,
    defs: Seq<DenomDefinition>,
    ins: Seq<Balance>,
    outs: Seq<Balance>,
    i: int,
    j: int,
) -> bool {
    forall|i2: int, j2: int|
        0 <= i2 < ins.len() && 0 <= j2 < ins[i2].coins@.len() && (i2 < i || (i2 == i && j2 < j))
            ==> !(#[trigger] violation_at(bals, defs, ins, outs, i2, j2))
}

/// Every input coin passes validation: its denomination is defined and its
/// sender can cover amount plus fees.
pub open spec fn inputs_valid(
    bals: Seq<Balance>,
    defs: Seq<DenomDefinition>,
    ins: Seq<Balance>,
    outs: Seq<Balance>,
) -> bool {
    forall|i: int, j: int|
        0 <= i < ins.len() && 0 <= j < ins[i].coins@.len() ==> !(#[trigger] violation_at(
            bals,
            defs,
            ins,
            outs,
            i,
            j,
        ))
}

/// The input and output totals of denomination `d` differ.
pub open spec fn denom_mismatch(ins: Seq<Balance>, outs: Seq<Balance>, d: Seq<char>) -> bool {
    denoms_sum(ins, d) != denoms_sum(outs, d)
}

/// Every denomination moves the same total in and out.
pub open spec fn sums_match(ins: Seq<Balance>, outs: Seq<Balance>) -> bool {
    forall|d: Seq<char>| !(#[trigger] denom_mismatch(ins, outs, d))
}

/// No input coin before position `(i, j)` carries a mismatched denomination.
pub open spec fn no_input_mismatch_before(
    ins: Seq<Balance>,
    outs: Seq<Balance>,
    i: int,
    j: int,
) -> bool {
    forall|i2: int, j2: int|
        0 <= i2 < ins.len() && 0 <= j2 < ins[i2].coins@.len() && (i2 < i || (i2 == i && j2 < j))
            ==> !denom_mismatch(ins, outs, (#[trigger] ins[i2].coins@[j2]).denom@)
}

/// No input coin at all carries a mismatched denomination.
pub open spec fn no_input_mismatch(ins: Seq<Balance>, outs: Seq<Balance>) -> bool {
    forall|i2: int, j2: int|
        0 <= i2 < ins.len() && 0 <= j2 < ins[i2].coins@.len() ==> !denom_mismatch(
            ins,
            outs,
            (#[trigger] ins[i2].coins@[j2]).denom@,
        )
}

/// No output coin before position `(i, j)` carries a mismatched denomination.
pub open spec fn no_output_mismatch_before(
    ins: Seq<Balance>,
    outs: Seq<Balance>,
    i: int,
    j: int,
) -> bool {
    forall|i2: int, j2: int|
        0 <= i2 < outs.len() && 0 <= j2 < outs[i2].coins@.len() && (i2 < i || (i2 == i && j2 < j))
            ==> !denom_mismatch(ins, outs, (#[trigger] outs[i2].coins@[j2]).denom@)
}

/// No output coin at all carries a mismatched denomination.
pub open spec fn no_output_mismatch(ins: Seq<Balance>, outs: Seq<Balance>) -> bool {
    forall|i2: int, j2: int|
        0 <= i2 < outs.len() && 0 <= j2 < outs[i2].coins@.len() ==> !denom_mismatch(
            ins,
            outs,
            (#[trigger] outs[i2].coins@[j2]).denom@,
        )
}

/// `d` is the denomination of the first input coin whose denomination has no
/// definition or whose sender cannot pay, and that coin's flaw is the unknown
/// denomination.
pub open spec fn reports_unknown(
    bals: Seq<Balance>,
    defs: Seq<DenomDefinition>,
    ins: Seq<Balance>,
    outs: Seq<Balance>,
    d: Seq<char>,
) -> bool {
    exists|i: int, j: int|
        {
            &&& 0 <= i < ins.len() && 0 <= j < ins[i].coins@.len()
            &&& no_violation_before(bals, defs, ins, outs, i, j)
            &&& #[trigger] unknown_at(defs, ins, i, j)
            &&& d == ins[i].coins@[j].denom@
        }
}

/// `(a, d)` are the sender and denomination of the first input coin that
/// violates validation, and that coin's flaw is an insufficient balance.
pub open spec fn reports_insufficient(
    bals: Seq<Balance>,
    defs: Seq<DenomDefinition>,
    ins: Seq<Balance>,
    outs: Seq<Balance>,
    a: Seq<char>,
    d: Seq<char>,
) -> bool {
    exists|i: int, j: int|
        {
            &&& 0 <= i < ins.len() && 0 <= j < ins[i].coins@.len()
            &&& no_violation_before(bals, defs, ins, outs, i, j)
            &&& #[trigger] insufficient_at(bals, defs, ins, outs, i, j)
            &&& a == ins[i].address@
            &&& d == ins[i].coins@[j].denom@
        }
}

/// `d` is the denomination of the first coin, scanning all input coins and
/// then all output coins, whose input total differs from its output total.
pub open spec fn reports_mismatch(ins: Seq<Balance>, outs: Seq<Balance>, d: Seq<char>) -> bool {
    ||| exists|i: int, j: int|
        {
            &&& 0 <= i < ins.len() && 0 <= j < ins[i].coins@.len()
            &&& no_input_mismatch_before(ins, outs, i, j)
            &&& denom_mismatch(ins, outs, (#[trigger] ins[i].coins@[j]).denom@)
            &&& d == ins[i].coins@[j].denom@
        }
    ||| (no_input_mismatch(ins, outs) && exists|i: int, j: int|
        {
            &&& 0 <= i < outs.len() && 0 <= j < outs[i].coins@.len()
            &&& no_output_mismatch_before(ins, outs, i, j)
            &&& denom_mismatch(ins, outs, (#[trigger] outs[i].coins@[j]).denom@)
            &&& d == outs[i].coins@[j].denom@
        })
}

// ---------------------------------------------------------------------------
// Well-formedness of the inputs and of the result.
// ---------------------------------------------------------------------------

/// The definition list is well formed: rates in `[0, 1]` and one definition
/// per denomination.
pub open spec fn defs_wf(defs: Seq<DenomDefinition>) -> bool {
    &&& rates_wf(defs)
    &&& forall|k1: int, k2: int|
        #![trigger defs[k1].denom@, defs[k2].denom@]
        0 <= k1 < k2 < defs.len() ==> defs[k1].denom@ != defs[k2].denom@
}

/// The transfer is well formed: every amount non-negative and every
/// per-denomination total within `MAX_DENOM_TOTAL`.
pub open spec fn tx_wf(ins: Seq<Balance>, outs: Seq<Balance>) -> bool {
    &&& balances_non_neg(ins)
    &&& balances_non_neg(outs)
    &&& forall|d: Seq<char>| #[trigger] denoms_sum(ins, d) <= MAX_DENOM_TOTAL as int
    &&& forall|d: Seq<char>| #[trigger] denoms_sum(outs, d) <= MAX_DENOM_TOTAL as int
}

/// A result list is well formed: one entry per address, one coin per
/// denomination within an entry.
pub open spec fn wf_changes(s: Seq<Balance>) -> bool {
    &&& addresses_unique(s)
    &&& forall|k: int| 0 <= k < s.len() ==> coins_denoms_unique((#[trigger] s[k]).coins@)
}

// ---------------------------------------------------------------------------
// Lemmas: prefix steps.
// ---------------------------------------------------------------------------

/// Extending a coin prefix by one coin extends its contribution to `(a, d)`
/// by that coin's contribution.
pub proof fn lemma_coins_contrib_take_step(
    defs: Seq<DenomDefinition>,
    ins: Seq<Balance>,
    outs: Seq<Balance>,
    sender: Seq<char>,
    coins: Seq<Coin>,
    a: Seq<char>,
    d: Seq<char>,
    j: int,
)
    requires
        0 <= j < coins.len(),
    ensures
        coins_contrib(defs, ins, outs, sender, coins.take(j + 1), a, d) == coins_contrib(
            defs,
            ins,
            outs,
            sender,
            coins.take(j),
            a,
            d,
        ) + entry_contrib(defs, ins, outs, sender, coins[j], a, d),
{
    assert(coins.take(j + 1).drop_last() =~= coins.take(j));
    assert(coins.take(j + 1).last() == coins[j]);
}

/// Extending a balance prefix by one balance extends its contribution to
/// `(a, d)` by that balance's coins' contribution.
pub proof fn lemma_inputs_contrib_take_step(
    defs: Seq<DenomDefinition>,
    ins: Seq<Balance>,
    outs: Seq<Balance>,
    bals: Seq<Balance>,
    a: Seq<char>,
    d: Seq<char>,
    i: int,
)
    requires
        0 <= i < bals.len(),
    ensures
        inputs_contrib(defs, ins, outs, bals.take(i + 1), a, d) == inputs_contrib(
            defs,
            ins,
            outs,
            bals.take(i),
            a,
            d,
        ) + coins_contrib(defs, ins, outs, bals[i].address@, bals[i].coins@, a, d),
{
    assert(bals.take(i + 1).drop_last() =~= bals.take(i));
    assert(bals.take(i + 1).last() == bals[i]);
}

// ---------------------------------------------------------------------------
// Lemmas: the contribution sum decomposes into the named totals.
// ---------------------------------------------------------------------------

/// One coin list's contribution to `(a, d)` is its debits when `a` is the
/// sender, plus its commissions when `a` is the issuer of `d`.
pub proof fn lemma_coins_contrib_split(
    defs: Seq<DenomDefinition>,
    ins: Seq<Balance>,
    outs: Seq<Balance>,
    sender: Seq<char>,
    coins: Seq<Coin>,
    a: Seq<char>,
    d: Seq<char>,
)
    ensures
        coins_contrib(defs, ins, outs, sender, coins, a, d) == (if a == sender {
            -coin_debits(defs, ins, outs, sender, coins, d)
        } else {
            0
        }) + (if (match find_definition(defs, d) {
            Some(def) => a == def.issuer@,
            None => false,
        }) {
            coin_commissions(defs, ins, outs, sender, coins, d)
        } else {
            0
        }),
    decreases coins.len(),
{
    if coins.len() > 0 {
        lemma_coins_contrib_split(defs, ins, outs, sender, coins.drop_last(), a, d);
    }
}

/// A balance list's contribution to `(a, d)` is `a`'s debits plus, when `a`
/// issues `d`, the commission collected.
pub proof fn lemma_inputs_contrib_split(
    defs: Seq<DenomDefinition>,
    ins: Seq<Balance>,
    outs: Seq<Balance>,
    bals: Seq<Balance>,
    a: Seq<char>,
    d: Seq<char>,
)
    ensures
        inputs_contrib(defs, ins, outs, bals, a, d) == -debit_total(defs, ins, outs, bals, a, d)
            + (if (match find_definition(defs, d) {
            Some(def) => a == def.issuer@,
            None => false,
        }) {
            commission_total(defs, ins, outs, bals, d)
        } else {
            0
        }),
    decreases bals.len(),
{
    if bals.len() > 0 {
        lemma_inputs_contrib_split(defs, ins, outs, bals.drop_last(), a, d);
        lemma_coins_contrib_split(
            defs,
            ins,
            outs,
            bals.last().address@,
            bals.last().coins@,
            a,
            d,
        );
    }
}

/// The net delta of `(a, d)` is what the accumulation of all input
/// contributions and all output credits produces.
pub proof fn lemma_net_delta_decomposition(
    defs: Seq<DenomDefinition>,
    ins: Seq<Balance>,
    outs: Seq<Balance>,
    a: Seq<char>,
    d: Seq<char>,
)
    ensures
        net_delta(defs, ins, outs, a, d) == inputs_contrib(defs, ins, outs, ins, a, d)
            + denoms_sum_to(outs, a, d),
{
    lemma_inputs_contrib_split(defs, ins, outs, ins, a, d);
}

// ---------------------------------------------------------------------------
// Lemmas: each debit splits into amount, burn, and commission.
// ---------------------------------------------------------------------------

/// One coin's debit is its amount plus its burn plus its commission.
pub proof fn lemma_entry_debit_decomposes(
    defs: Seq<DenomDefinition>,
    ins: Seq<Balance>,
    outs: Seq<Balance>,
    sender: Seq<char>,
    c: Coin,
)
    ensures
        entry_debit(defs, ins, outs, sender, c) == c.amount as int + entry_burn(
            defs,
            ins,
            outs,
            sender,
            c,
        ) + entry_commission(defs, ins, outs, sender, c),
{
}

/// One coin list's debits split into transferred amounts, burns, and
/// commissions.
pub proof fn lemma_coin_debits_split(
    defs: Seq<DenomDefinition>,
    ins: Seq<Balance>,
    outs: Seq<Balance>,
    sender: Seq<char>,
    coins: Seq<Coin>,
    d: Seq<char>,
)
    ensures
        coin_debits(defs, ins, outs, sender, coins, d) == coin_sum(coins, d) + coin_burns(
            defs,
            ins,
            outs,
            sender,
            coins,
            d,
        ) + coin_commissions(defs, ins, outs, sender, coins, d),
    decreases coins.len(),
{
    if coins.len() > 0 {
        lemma_coin_debits_split(defs, ins, outs, sender, coins.drop_last(), d);
        lemma_entry_debit_decomposes(defs, ins, outs, sender, coins.last());
    }
}

/// Everything debited for a denomination splits into the amount transferred,
/// the amount burned, and the commission collected.
pub proof fn lemma_debits_for_denom_split(
    defs: Seq<DenomDefinition>,
    ins: Seq<Balance>,
    outs: Seq<Balance>,
    bals: Seq<Balance>,
    d: Seq<char>,
)
    ensures
        debits_for_denom(defs, ins, outs, bals, d) == denoms_sum(bals, d) + burn_total(
            defs,
            ins,
            outs,
            bals,
            d,
        ) + commission_total(defs, ins, outs, bals, d),
    decreases bals.len(),
{
    if bals.len() > 0 {
        lemma_debits_for_denom_split(defs, ins, outs, bals.drop_last(), d);
        lemma_coin_debits_split(defs, ins, outs, bals.last().address@, bals.last().coins@, d);
    }
}

// ---------------------------------------------------------------------------
// Lemmas: bounds on the aggregates.
// ---------------------------------------------------------------------------

/// Bounds on one coin list's aggregated effects.
pub proof fn lemma_coin_aggregates_bounds(
    defs: Seq<DenomDefinition>,
    ins: Seq<Balance>,
    outs: Seq<Balance>,
    sender: Seq<char>,
    coins: Seq<Coin>,
    d: Seq<char>,
)
    requires
        rates_wf(defs),
        balances_non_neg(ins),
        balances_non_neg(outs),
        coins_non_neg(coins),
    ensures
        0 <= coin_debits(defs, ins, outs, sender, coins, d) <= 3 * coin_sum(coins, d),
        0 <= coin_commissions(defs, ins, outs, sender, coins, d) <= coin_sum(coins, d),
        0 <= coin_burns(defs, ins, outs, sender, coins, d) <= coin_sum(coins, d),
    decreases coins.len(),
{
    if coins.len() > 0 {
        assert(coins.drop_last() == coins.take(coins.len() - 1));
        lemma_coins_non_neg_prefix(coins, coins.len() - 1);
        lemma_coin_aggregates_bounds(defs, ins, outs, sender, coins.drop_last(), d);
        assert(coins[coins.len() - 1].amount >= 0);
        lemma_entry_effect_bounds(defs, ins, outs, sender, coins.last());
    }
}

/// Bounds on a balance list's aggregated effects.
pub proof fn lemma_total_aggregates_bounds(
    defs: Seq<DenomDefinition>,
    ins: Seq<Balance>,
    outs: Seq<Balance>,
    bals: Seq<Balance>,
    a: Seq<char>,
    d: Seq<char>,
)
    requires
        rates_wf(defs),
        balances_non_neg(ins),
        balances_non_neg(outs),
        balances_non_neg(bals),
    ensures
        0 <= debit_total(defs, ins, outs, bals, a, d) <= 3 * denoms_sum(bals, d),
        0 <= commission_total(defs, ins, outs, bals, d) <= denoms_sum(bals, d),
        0 <= burn_total(defs, ins, outs, bals, d) <= denoms_sum(bals, d),
        0 <= debits_for_denom(defs, ins, outs, bals, d) <= 3 * denoms_sum(bals, d),
    decreases bals.len(),
{
    if bals.len() > 0 {
        assert(bals.drop_last() == bals.take(bals.len() - 1));
        lemma_balances_non_neg_prefix(bals, bals.len() - 1);
        lemma_total_aggregates_bounds(defs, ins, outs, bals.drop_last(), a, d);
        assert(coins_non_neg(bals[bals.len() - 1].coins@));
        lemma_coin_aggregates_bounds(
            defs,
            ins,
            outs,
            bals.last().address@,
            bals.last().coins@,
            d,
        );
        lemma_coin_sum_non_neg(bals.last().coins@, d);
    }
}

/// A coin list's contribution to any key is bounded by its coin sum.
pub proof fn lemma_coins_contrib_bounds(
    defs: Seq<DenomDefinition>,
    ins: Seq<Balance>,
    outs: Seq<Balance>,
    sender: Seq<char>,
    coins: Seq<Coin>,
    a: Seq<char>,
    d: Seq<char>,
)
    requires
        rates_wf(defs),
        balances_non_neg(ins),
        balances_non_neg(outs),
        coins_non_neg(coins),
    ensures
        -3 * coin_sum(coins, d) <= coins_contrib(defs, ins, outs, sender, coins, a, d) <= coin_sum(
            coins,
            d,
        ),
{
    lemma_coins_contrib_split(defs, ins, outs, sender, coins, a, d);
    lemma_coin_aggregates_bounds(defs, ins, outs, sender, coins, d);
    lemma_coin_sum_non_neg(coins, d);
}

/// A balance list's contribution to any key is bounded by its total.
pub proof fn lemma_inputs_contrib_bounds(
    defs: Seq<DenomDefinition>,
    ins: Seq<Balance>,
    outs: Seq<Balance>,
    bals: Seq<Balance>,
    a: Seq<char>,
    d: Seq<char>,
)
    requires
        rates_wf(defs),
        balances_non_neg(ins),
        balances_non_neg(outs),
        balances_non_neg(bals),
    ensures
        -3 * denoms_sum(bals, d) <= inputs_contrib(defs, ins, outs, bals, a, d) <= denoms_sum(
            bals,
            d,
        ),
{
    lemma_inputs_contrib_split(defs, ins, outs, bals, a, d);
    lemma_total_aggregates_bounds(defs, ins, outs, bals, a, d);
    lemma_denoms_sum_non_neg(bals, d);
}

/// In a well-formed change list, the total credited to one address for one
/// denomination is exactly the looked-up delta of that key.
pub proof fn lemma_changes_sum_to_is_balance_of(s: Seq<Balance>, a: Seq<char>, d: Seq<char>)
    requires
        wf_changes(s),
    ensures
        denoms_sum_to(s, a, d) == balance_of(s, a, d),
    decreases s.len(),
{
    if s.len() > 0 {
        assert forall|k1: int, k2: int|
            #![trigger s.drop_last()[k1].address@, s.drop_last()[k2].address@]
            0 <= k1 < k2 < s.drop_last().len() implies s.drop_last()[k1].address@
            != s.drop_last()[k2].address@ by {
            assert(s.drop_last()[k1] == s[k1]);
            assert(s.drop_last()[k2] == s[k2]);
        }
        assert forall|k: int| 0 <= k < s.drop_last().len() implies coins_denoms_unique(
            (#[trigger] s.drop_last()[k]).coins@,
        ) by {
            assert(s.drop_last()[k] == s[k]);
        }
        lemma_changes_sum_to_is_balance_of(s.drop_last(), a, d);
        if s.last().address@ == a {
            assert forall|x: int| 0 <= x < s.drop_last().len() implies (#[trigger] s.drop_last(
            )[x]).address@ != a by {
                assert(s.drop_last()[x] == s[x]);
                assert(s[x].address@ != s[s.len() - 1].address@);
            }
            lemma_denoms_sum_to_absent(s.drop_last(), a, d);
            assert(coins_denoms_unique(s[s.len() - 1].coins@));
            lemma_coin_sum_is_value(s.last().coins@, d);
        }
    }
}

// ---------------------------------------------------------------------------
// Lemmas: mismatch scanning covers every denomination.
// ---------------------------------------------------------------------------

/// If no coin of the inputs and no coin of the outputs carries a mismatched
/// denomination, then every denomination's totals agree.
pub proof fn lemma_no_mismatch_implies_sums_match(ins: Seq<Balance>, outs: Seq<Balance>)
    requires
        no_input_mismatch(ins, outs),
        no_output_mismatch(ins, outs),
    ensures
        sums_match(ins, outs),
{
    assert forall|d: Seq<char>| !(#[trigger] denom_mismatch(ins, outs, d)) by {
        if denom_occurs(ins, d) {
            let (i, j): (int, int) = choose|i: int, j: int|
                0 <= i < ins.len() && 0 <= j < ins[i].coins@.len() && (#[trigger] ins[i].coins@[j]).denom@
                    == d;
            assert(!denom_mismatch(ins, outs, ins[i].coins@[j].denom@));
        } else if denom_occurs(outs, d) {
            let (i, j): (int, int) = choose|i: int, j: int|
                0 <= i < outs.len() && 0 <= j < outs[i].coins@.len() && (#[trigger] outs[i].coins@[j]).denom@
                    == d;
            assert(!denom_mismatch(ins, outs, outs[i].coins@[j].denom@));
        } else {
            lemma_denoms_sum_absent(ins, d);
            lemma_denoms_sum_absent(outs, d);
        }
    }
}

} // verus!
