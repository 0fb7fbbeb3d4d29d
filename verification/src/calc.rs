use vstd::prelude::*;
use vstd::pervasive::unreached;

use crate::types::{Balance, DenomDefinition, Error, MultiSend};
use crate::sums::{
    balance_of, balances_non_neg, coin_sum, coins_non_neg, denoms_sum, denoms_sum_to,
    find_definition, lemma_balance_le_denoms_sum, lemma_balances_non_neg_prefix,
    lemma_coin_le_coin_sum, lemma_coin_sum_non_neg, lemma_coin_sum_prefix_le,
    lemma_coin_sum_take_step, lemma_coins_non_neg_prefix, lemma_denoms_sum_non_neg,
    lemma_denoms_sum_prefix_le, lemma_denoms_sum_to_bounds, lemma_denoms_sum_to_take_step,
};
use crate::fees::rates_wf;
use crate::model::{
    coins_contrib, defs_wf, denom_mismatch, entry_contrib, inputs_contrib, inputs_valid,
    insufficient_at, lemma_coins_contrib_bounds, lemma_coins_contrib_take_step,
    lemma_inputs_contrib_bounds, lemma_inputs_contrib_take_step, lemma_net_delta_decomposition,
    lemma_no_mismatch_implies_sums_match, net_delta, no_input_mismatch, no_input_mismatch_before,
    no_output_mismatch, no_output_mismatch_before, no_violation_before, reports_insufficient,
    reports_mismatch, reports_unknown, sums_match, tx_wf, unknown_at, violation_at, wf_changes,
};
use crate::lookups::{balance_amount, compute_entry_effects, lookup_definition, sum_for_denom};
use crate::changes::{add_delta, prune_zero_deltas};

verus! {

/// Computes the net balance changes of one multi-send.
///
/// The transfer is validated in a fixed order — for every input coin, sender
/// by sender and coin by coin, the denomination must be defined and the
/// sender must cover the amount plus its projected burn and commission
/// shares; then every denomination's input total must equal its output
/// total — and the first violation found is returned as the error.  On
/// success the result holds exactly the addresses and denominations whose
/// net change is non-zero, each with its exact signed delta: credits
/// received, plus the collected commission for the issuer, minus debits
/// (amount plus fee shares) for senders.
#[verifier::loop_isolation(false)]
#[verifier::rlimit(60)]
pub fn calculate_balance_changes(
    original_balances: Vec<Balance>,
    definitions: Vec<DenomDefinition>,
    multi_send_tx: MultiSend,
) -> (r: Result<Vec<Balance>, Error>)
    requires
        defs_wf(definitions@),
        tx_wf(multi_send_tx.inputs@, multi_send_tx.outputs@),
    ensures
        match r {
            Ok(changes) => {
                &&& inputs_valid(
                    original_balances@,
                    definitions@,
                    multi_send_tx.inputs@,
                    multi_send_tx.outputs@,
                )
                &&& sums_match(multi_send_tx.inputs@, multi_send_tx.outputs@)
                &&& wf_changes(changes@)
                &&& forall|a: Seq<char>, d: Seq<char>|
                    #[trigger] balance_of(changes@, a, d) == net_delta(
                        definitions@,
                        multi_send_tx.inputs@,
                        multi_send_tx.outputs@,
                        a,
                        d,
                    )
                &&& forall|x: int| 0 <= x < changes@.len() ==> (#[trigger] changes@[x]).coins@.len() > 0
                &&& forall|x: int, y: int|
                    0 <= x < changes@.len() && 0 <= y < changes@[x].coins@.len() ==> (
                    #[trigger] changes@[x].coins@[y]).amount != 0
            },
            Err(e) => match e {
                Error::UnknownDenomination(dn) => reports_unknown(
                    original_balances@,
                    definitions@,
                    multi_send_tx.inputs@,
                    multi_send_tx.outputs@,
                    dn@,
                ),
                Error::InsufficientBalance(ad, dn) => reports_insufficient(
                    original_balances@,
                    definitions@,
                    multi_send_tx.inputs@,
                    multi_send_tx.outputs@,
                    ad@,
                    dn@,
                ),
                Error::MismatchedSumForDenom(dn) => inputs_valid(
                    original_balances@,
                    definitions@,
                    multi_send_tx.inputs@,
                    multi_send_tx.outputs@,
                ) && reports_mismatch(multi_send_tx.inputs@, multi_send_tx.outputs@, dn@),
            },
        },
        (r is Ok) <==> (inputs_valid(
            original_balances@,
            definitions@,
            multi_send_tx.inputs@,
            multi_send_tx.outputs@,
        ) && sums_match(multi_send_tx.inputs@, multi_send_tx.outputs@)),
        inputs_valid(
            original_balances@,
            definitions@,
            multi_send_tx.inputs@,
            multi_send_tx.outputs@,
        ) && !sums_match(multi_send_tx.inputs@, multi_send_tx.outputs@) ==> r matches Err(
            Error::MismatchedSumForDenom(_),
        ),
{
    let ghost bals = original_balances@;
    let ghost defs = definitions@;
    let ghost ins = multi_send_tx.inputs@;
    let ghost outs = multi_send_tx.outputs@;
    let inputs = &multi_send_tx.inputs;
    let outputs = &multi_send_tx.outputs;

    // Validation: every input coin's denomination is defined and its sender
    // covers the amount plus the projected fee shares.
    let mut i: usize = 0;
    while i < inputs.len()
        invariant
            no_violation_before(bals, defs, ins, outs, i as int, 0),
        decreases ins.len() - i,
    {
        let bi = &inputs[i];
        let mut j: usize = 0;
        while j < bi.coins.len()
            invariant
                no_violation_before(bals, defs, ins, outs, i as int, j as int),
            decreases bi.coins@.len() - j,
        {
            let coin = &bi.coins[j];
            match lookup_definition(&definitions, &coin.denom) {
                None => {
                    proof {
                        assert(unknown_at(defs, ins, i as int, j as int));
                        assert(violation_at(bals, defs, ins, outs, i as int, j as int));
                        assert(reports_unknown(bals, defs, ins, outs, coin.denom@));
                        assert(!inputs_valid(bals, defs, ins, outs));
                    }
                    return Err(Error::UnknownDenomination(coin.denom.clone()));
                },
                Some(def) => {
                    proof {
                        assert(coins_non_neg(ins[i as int].coins@));
                        lemma_coin_le_coin_sum(ins[i as int].coins@, coin.denom@, j as int);
                        lemma_balance_le_denoms_sum(ins, coin.denom@, i as int);
                    }
                    let effects = compute_entry_effects(
                        &definitions,
                        def,
                        inputs,
                        outputs,
                        &bi.address,
                        coin,
                    );
                    let have = balance_amount(&original_balances, &bi.address, &coin.denom);
                    if have < effects.0 {
                        proof {
                            assert(insufficient_at(bals, defs, ins, outs, i as int, j as int));
                            assert(violation_at(bals, defs, ins, outs, i as int, j as int));
                            assert(reports_insufficient(
                                bals,
                                defs,
                                ins,
                                outs,
                                bi.address@,
                                coin.denom@,
                            ));
                            assert(!inputs_valid(bals, defs, ins, outs));
                        }
                        return Err(
                            Error::InsufficientBalance(bi.address.clone(), coin.denom.clone()),
                        );
                    }
                    proof {
                        assert(!violation_at(bals, defs, ins, outs, i as int, j as int));
                        assert forall|i2: int, j2: int|
                            0 <= i2 < ins.len() && 0 <= j2 < ins[i2].coins@.len() && (i2 < i as int
                                || (i2 == i as int && j2 < j as int + 1)) implies !(
                        #[trigger] violation_at(bals, defs, ins, outs, i2, j2)) by {
                            if !(i2 == i as int && j2 == j as int) {
                                assert(!violation_at(bals, defs, ins, outs, i2, j2));
                            }
                        }
                    }
                },
            }
            j += 1;
        }
        proof {
            assert forall|i2: int, j2: int|
                0 <= i2 < ins.len() && 0 <= j2 < ins[i2].coins@.len() && (i2 < i as int + 1 || (i2
                    == i as int + 1 && j2 < 0)) implies !(#[trigger] violation_at(
                bals,
                defs,
                ins,
                outs,
                i2,
                j2,
            )) by {
                assert(!violation_at(bals, defs, ins, outs, i2, j2));
            }
        }
        i += 1;
    }
    proof {
        assert(inputs_valid(bals, defs, ins, outs)) by {
            assert forall|i2: int, j2: int|
                0 <= i2 < ins.len() && 0 <= j2 < ins[i2].coins@.len() implies !(
            #[trigger] violation_at(bals, defs, ins, outs, i2, j2)) by {
                assert(!violation_at(bals, defs, ins, outs, i2, j2));
            }
        }
    }

    // Validation: every denomination moves the same total in and out.  The
    // scan covers each input coin's denomination, then each output coin's.
    let mut i: usize = 0;
    while i < inputs.len()
        invariant
            no_input_mismatch_before(ins, outs, i as int, 0),
        decreases ins.len() - i,
    {
        let bi = &inputs[i];
        let mut j: usize = 0;
        while j < bi.coins.len()
            invariant
                no_input_mismatch_before(ins, outs, i as int, j as int),
            decreases bi.coins@.len() - j,
        {
            let coin = &bi.coins[j];
            let si = sum_for_denom(inputs, &coin.denom);
            let so = sum_for_denom(outputs, &coin.denom);
            if si != so {
                proof {
                    assert(denom_mismatch(ins, outs, coin.denom@));
                    assert(reports_mismatch(ins, outs, coin.denom@));
                    assert(!sums_match(ins, outs));
                }
                return Err(Error::MismatchedSumForDenom(coin.denom.clone()));
            }
            proof {
                assert forall|i2: int, j2: int|
                    0 <= i2 < ins.len() && 0 <= j2 < ins[i2].coins@.len() && (i2 < i as int || (i2
                        == i as int && j2 < j as int + 1)) implies !denom_mismatch(
                    ins,
                    outs,
                    (#[trigger] ins[i2].coins@[j2]).denom@,
                ) by {
                    if !(i2 == i as int && j2 == j as int) {
                        assert(!denom_mismatch(ins, outs, ins[i2].coins@[j2].denom@));
                    }
                }
            }
            j += 1;
        }
        proof {
            assert forall|i2: int, j2: int|
                0 <= i2 < ins.len() && 0 <= j2 < ins[i2].coins@.len() && (i2 < i as int + 1 || (i2
                    == i as int + 1 && j2 < 0)) implies !denom_mismatch(
                ins,
                outs,
                (#[trigger] ins[i2].coins@[j2]).denom@,
            ) by {
                assert(!denom_mismatch(ins, outs, ins[i2].coins@[j2].denom@));
            }
        }
        i += 1;
    }
    proof {
        assert(no_input_mismatch(ins, outs)) by {
            assert forall|i2: int, j2: int|
                0 <= i2 < ins.len() && 0 <= j2 < ins[i2].coins@.len() implies !denom_mismatch(
                ins,
                outs,
                (#[trigger] ins[i2].coins@[j2]).denom@,
            ) by {
                assert(!denom_mismatch(ins, outs, ins[i2].coins@[j2].denom@));
            }
        }
    }
    let mut i: usize = 0;
    while i < outputs.len()
        invariant
            no_output_mismatch_before(ins, outs, i as int, 0),
        decreases outs.len() - i,
    {
        let bo = &outputs[i];
        let mut j: usize = 0;
        while j < bo.coins.len()
            invariant
                no_output_mismatch_before(ins, outs, i as int, j as int),
            decreases bo.coins@.len() - j,
        {
            let coin = &bo.coins[j];
            let si = sum_for_denom(inputs, &coin.denom);
            let so = sum_for_denom(outputs, &coin.denom);
            if si != so {
                proof {
                    assert(denom_mismatch(ins, outs, coin.denom@));
                    assert(reports_mismatch(ins, outs, coin.denom@));
                    assert(!sums_match(ins, outs));
                }
                return Err(Error::MismatchedSumForDenom(coin.denom.clone()));
            }
            proof {
                assert forall|i2: int, j2: int|
                    0 <= i2 < outs.len() && 0 <= j2 < outs[i2].coins@.len() && (i2 < i as int || (
                    i2 == i as int && j2 < j as int + 1)) implies !denom_mismatch(
                    ins,
                    outs,
                    (#[trigger] outs[i2].coins@[j2]).denom@,
                ) by {
                    if !(i2 == i as int && j2 == j as int) {
                        assert(!denom_mismatch(ins, outs, outs[i2].coins@[j2].denom@));
                    }
                }
            }
            j += 1;
        }
        proof {
            assert forall|i2: int, j2: int|
                0 <= i2 < outs.len() && 0 <= j2 < outs[i2].coins@.len() && (i2 < i as int + 1 || (
                i2 == i as int + 1 && j2 < 0)) implies !denom_mismatch(
                ins,
                outs,
                (#[trigger] outs[i2].coins@[j2]).denom@,
            ) by {
                assert(!denom_mismatch(ins, outs, outs[i2].coins@[j2].denom@));
            }
        }
        i += 1;
    }
    proof {
        assert(no_output_mismatch(ins, outs)) by {
            assert forall|i2: int, j2: int|
                0 <= i2 < outs.len() && 0 <= j2 < outs[i2].coins@.len() implies !denom_mismatch(
                ins,
                outs,
                (#[trigger] outs[i2].coins@[j2]).denom@,
            ) by {
                assert(!denom_mismatch(ins, outs, outs[i2].coins@[j2].denom@));
            }
        }
        lemma_no_mismatch_implies_sums_match(ins, outs);
    }

    // Accumulation: senders' debits and the issuers' commission credits,
    // entry by entry, then receivers' credits.
    let mut acc: Vec<Balance> = Vec::new();
    let mut i: usize = 0;
    while i < inputs.len()
        invariant
            i <= inputs@.len(),
            wf_changes(acc@),
            forall|a: Seq<char>, d: Seq<char>|
                #[trigger] balance_of(acc@, a, d) == inputs_contrib(
                    defs,
                    ins,
                    outs,
                    ins.take(i as int),
                    a,
                    d,
                ),
        decreases ins.len() - i,
    {
        let bi = &inputs[i];
        let mut j: usize = 0;
        while j < bi.coins.len()
            invariant
                j <= bi.coins@.len(),
                wf_changes(acc@),
                forall|a: Seq<char>, d: Seq<char>|
                    #[trigger] balance_of(acc@, a, d) == inputs_contrib(
                        defs,
                        ins,
                        outs,
                        ins.take(i as int),
                        a,
                        d,
                    ) + coins_contrib(
                        defs,
                        ins,
                        outs,
                        ins[i as int].address@,
                        ins[i as int].coins@.take(j as int),
                        a,
                        d,
                    ),
            decreases bi.coins@.len() - j,
        {
            let coin = &bi.coins[j];
            proof {
                assert(!violation_at(bals, defs, ins, outs, i as int, j as int));
                assert(!unknown_at(defs, ins, i as int, j as int));
            }
            let def = match lookup_definition(&definitions, &coin.denom) {
                Some(d) => d,
                None => unreached(),
            };
            proof {
                assert(coins_non_neg(ins[i as int].coins@));
                lemma_coin_le_coin_sum(ins[i as int].coins@, coin.denom@, j as int);
                lemma_balance_le_denoms_sum(ins, coin.denom@, i as int);
            }
            let effects = compute_entry_effects(
                &definitions,
                def,
                inputs,
                outputs,
                &bi.address,
                coin,
            );
            let ghost cd = coin.denom@;
            let ghost sender = ins[i as int].address@;
            let ghost base = acc@;
            proof {
                lemma_balances_non_neg_prefix(ins, i as int);
                lemma_coins_non_neg_prefix(ins[i as int].coins@, j as int);
                lemma_inputs_contrib_bounds(defs, ins, outs, ins.take(i as int), sender, cd);
                lemma_coins_contrib_bounds(
                    defs,
                    ins,
                    outs,
                    sender,
                    ins[i as int].coins@.take(j as int),
                    sender,
                    cd,
                );
                lemma_inputs_contrib_bounds(
                    defs,
                    ins,
                    outs,
                    ins.take(i as int),
                    def.issuer@,
                    cd,
                );
                lemma_coins_contrib_bounds(
                    defs,
                    ins,
                    outs,
                    sender,
                    ins[i as int].coins@.take(j as int),
                    def.issuer@,
                    cd,
                );
                lemma_denoms_sum_prefix_le(ins, cd, i as int);
                lemma_coin_sum_prefix_le(ins[i as int].coins@, cd, j as int);
                lemma_coin_sum_non_neg(ins[i as int].coins@.take(j as int), cd);
                lemma_denoms_sum_non_neg(ins.take(i as int), cd);
                lemma_coin_sum_non_neg(ins[i as int].coins@, cd);
            }
            let debit = effects.0;
            let comm = effects.1;
            add_delta(&mut acc, &bi.address, &coin.denom, -debit);
            let ghost mid = acc@;
            add_delta(&mut acc, &def.issuer, &coin.denom, comm);
            proof {
                assert(ins[i as int].coins@[j as int] == *coin);
                assert(find_definition(defs, cd) == Some(*def));
                assert forall|a: Seq<char>, d: Seq<char>| #[trigger] balance_of(acc@, a, d)
                    == inputs_contrib(defs, ins, outs, ins.take(i as int), a, d) + coins_contrib(
                    defs,
                    ins,
                    outs,
                    ins[i as int].address@,
                    ins[i as int].coins@.take(j as int + 1),
                    a,
                    d,
                ) by {
                    lemma_coins_contrib_take_step(
                        defs,
                        ins,
                        outs,
                        sender,
                        ins[i as int].coins@,
                        a,
                        d,
                        j as int,
                    );
                    assert(balance_of(mid, a, d) == balance_of(base, a, d) + (if a == sender && d
                        == cd {
                        -(debit as int)
                    } else {
                        0
                    }));
                    assert(balance_of(acc@, a, d) == balance_of(mid, a, d) + (if a == def.issuer@
                        && d == cd {
                        comm as int
                    } else {
                        0
                    }));
                    assert(entry_contrib(defs, ins, outs, sender, *coin, a, d) == (if a == sender
                        && d == cd {
                        -(debit as int)
                    } else {
                        0
                    }) + (if a == def.issuer@ && d == cd {
                        comm as int
                    } else {
                        0
                    }));
                }
            }
            j += 1;
        }
        proof {
            assert(ins[i as int].coins@.take(ins[i as int].coins@.len() as int) =~= ins[i as int].coins@);
            assert forall|a: Seq<char>, d: Seq<char>| #[trigger] balance_of(acc@, a, d)
                == inputs_contrib(defs, ins, outs, ins.take(i as int + 1), a, d) by {
                lemma_inputs_contrib_take_step(defs, ins, outs, ins, a, d, i as int);
            }
        }
        i += 1;
    }
    proof {
        assert(ins.take(ins.len() as int) =~= ins);
    }
    let mut i: usize = 0;
    while i < outputs.len()
        invariant
            i <= outputs@.len(),
            wf_changes(acc@),
            forall|a: Seq<char>, d: Seq<char>|
                #[trigger] balance_of(acc@, a, d) == inputs_contrib(defs, ins, outs, ins, a, d)
                    + denoms_sum_to(outs.take(i as int), a, d),
        decreases outs.len() - i,
    {
        let bo = &outputs[i];
        let mut j: usize = 0;
        while j < bo.coins.len()
            invariant
                j <= bo.coins@.len(),
                wf_changes(acc@),
                forall|a: Seq<char>, d: Seq<char>|
                    #[trigger] balance_of(acc@, a, d) == inputs_contrib(defs, ins, outs, ins, a, d)
                        + denoms_sum_to(outs.take(i as int), a, d) + (if a
                        == outs[i as int].address@ {
                        coin_sum(outs[i as int].coins@.take(j as int), d)
                    } else {
                        0
                    }),
            decreases bo.coins@.len() - j,
        {
            let coin = &bo.coins[j];
            let ghost cd = coin.denom@;
            let ghost receiver = outs[i as int].address@;
            let ghost base = acc@;
            proof {
                assert(coins_non_neg(outs[i as int].coins@));
                lemma_coin_le_coin_sum(outs[i as int].coins@, cd, j as int);
                lemma_balance_le_denoms_sum(outs, cd, i as int);
                lemma_inputs_contrib_bounds(defs, ins, outs, ins, receiver, cd);
                lemma_balances_non_neg_prefix(outs, i as int);
                lemma_denoms_sum_to_bounds(outs.take(i as int), receiver, cd);
                lemma_denoms_sum_prefix_le(outs, cd, i as int);
                lemma_coins_non_neg_prefix(outs[i as int].coins@, j as int);
                lemma_coin_sum_non_neg(outs[i as int].coins@.take(j as int), cd);
                lemma_coin_sum_prefix_le(outs[i as int].coins@, cd, j as int);
                lemma_coin_sum_non_neg(outs[i as int].coins@, cd);
                lemma_denoms_sum_non_neg(outs.take(i as int), cd);
            }
            add_delta(&mut acc, &bo.address, &coin.denom, coin.amount);
            proof {
                lemma_coin_sum_take_step(outs[i as int].coins@, cd, j as int);
                assert forall|a: Seq<char>, d: Seq<char>| #[trigger] balance_of(acc@, a, d)
                    == inputs_contrib(defs, ins, outs, ins, a, d) + denoms_sum_to(
                    outs.take(i as int),
                    a,
                    d,
                ) + (if a == receiver {
                    coin_sum(outs[i as int].coins@.take(j as int + 1), d)
                } else {
                    0
                }) by {
                    assert(balance_of(acc@, a, d) == balance_of(base, a, d) + (if a == receiver
                        && d == cd {
                        coin.amount as int
                    } else {
                        0
                    }));
                    if d != cd {
                        assert(coin_sum(outs[i as int].coins@.take(j as int + 1), d) == coin_sum(
                            outs[i as int].coins@.take(j as int),
                            d,
                        )) by {
                            lemma_coin_sum_take_step(outs[i as int].coins@, d, j as int);
                        }
                    }
                }
            }
            j += 1;
        }
        proof {
            assert(outs[i as int].coins@.take(outs[i as int].coins@.len() as int) =~= outs[i as int].coins@);
            assert forall|a: Seq<char>, d: Seq<char>| #[trigger] balance_of(acc@, a, d)
                == inputs_contrib(defs, ins, outs, ins, a, d) + denoms_sum_to(
                outs.take(i as int + 1),
                a,
                d,
            ) by {
                lemma_denoms_sum_to_take_step(outs, a, d, i as int);
            }
        }
        i += 1;
    }
    proof {
        assert(outs.take(outs.len() as int) =~= outs);
    }
    let changes = prune_zero_deltas(&acc);
    proof {
        assert forall|a: Seq<char>, d: Seq<char>| #[trigger] balance_of(changes@, a, d)
            == net_delta(defs, ins, outs, a, d) by {
            lemma_net_delta_decomposition(defs, ins, outs, a, d);
        }
    }
    Ok(changes)
}

} // verus!
