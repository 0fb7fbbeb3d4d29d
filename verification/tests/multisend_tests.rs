use multisend::calc::calculate_balance_changes;
use multisend::types::{Balance, Coin, DenomDefinition, Error, MultiSend, Rate};

fn coin(denom: &str, amount: i128) -> Coin {
    Coin { denom: denom.to_string(), amount }
}

fn balance(address: &str, coins: Vec<Coin>) -> Balance {
    Balance { address: address.to_string(), coins }
}

fn definition(denom: &str, issuer: &str, burn: Rate, commission: Rate) -> DenomDefinition {
    DenomDefinition {
        denom: denom.to_string(),
        issuer: issuer.to_string(),
        burn_rate: burn,
        commission_rate: commission,
    }
}

/// The net delta of `(address, denom)` in a result, if an entry holds one.
fn delta(changes: &[Balance], address: &str, denom: &str) -> Option<i128> {
    for b in changes {
        if b.address == address {
            for c in &b.coins {
                if c.denom == denom {
                    return Some(c.amount);
                }
            }
            return None;
        }
    }
    None
}

#[test]
fn test_balance_changes() {
    let original_balances = vec![
        balance("account1", vec![coin("denom1", 1000), coin("denom2", 2000)]),
        balance("account2", vec![coin("denom1", 500), coin("denom2", 1500)]),
    ];
    let definitions = vec![
        definition("denom1", "issuer_account", Rate::new(10, 100), Rate::new(5, 100)),
        definition("denom2", "issuer_account", Rate::new(20, 100), Rate::new(10, 100)),
    ];
    let multi_send_tx = MultiSend {
        inputs: vec![
            balance("account1", vec![coin("denom1", 300), coin("denom2", 1000)]),
            balance("account2", vec![coin("denom1", 200), coin("denom2", 500)]),
        ],
        outputs: vec![
            balance("account_recipient", vec![coin("denom1", 500), coin("denom2", 1500)]),
            balance("issuer_account", vec![coin("denom1", 50), coin("denom2", 100)]),
        ],
    };
    // denom1 moves 500 in but 550 out (and denom2 1500 in, 1600 out): the
    // totals disagree, so the transfer is rejected on the first input coin's
    // denomination.
    let result = calculate_balance_changes(original_balances, definitions, multi_send_tx);
    assert_eq!(result, Err(Error::MismatchedSumForDenom("denom1".to_string())));
}

#[test]
fn fee_example_single_sender() {
    // burn 8%, commission 12% on a 1000 transfer: fee base 1000, burn 80,
    // commission 120, so the sender owes 1200, the recipient gains 1000 and
    // the issuer gains the 120 commission; 80 vanish.
    let original_balances = vec![balance("account1", vec![coin("denom1", 1200)])];
    let definitions = vec![
        definition("denom1", "issuer_account_A", Rate::new(8, 100), Rate::new(12, 100)),
    ];
    let tx = MultiSend {
        inputs: vec![balance("account1", vec![coin("denom1", 1000)])],
        outputs: vec![balance("account_recipient", vec![coin("denom1", 1000)])],
    };
    let changes = calculate_balance_changes(original_balances, definitions, tx).unwrap();
    assert_eq!(changes.len(), 3);
    assert_eq!(delta(&changes, "account1", "denom1"), Some(-1200));
    assert_eq!(delta(&changes, "account_recipient", "denom1"), Some(1000));
    assert_eq!(delta(&changes, "issuer_account_A", "denom1"), Some(120));
}

#[test]
fn insufficient_balance_counts_fees() {
    // The same transfer with only 1000 in the bank: the debit of 1200
    // (amount plus fees) cannot be covered, and the transfer is rejected.
    let original_balances = vec![balance("account1", vec![coin("denom1", 1000)])];
    let definitions = vec![
        definition("denom1", "issuer_account_A", Rate::new(8, 100), Rate::new(12, 100)),
    ];
    let tx = MultiSend {
        inputs: vec![balance("account1", vec![coin("denom1", 1000)])],
        outputs: vec![balance("account_recipient", vec![coin("denom1", 1000)])],
    };
    let result = calculate_balance_changes(original_balances, definitions, tx);
    assert_eq!(
        result,
        Err(Error::InsufficientBalance("account1".to_string(), "denom1".to_string()))
    );
}

#[test]
fn rounding_two_senders() {
    // Two non-issuer senders of 60 and 90 (non-issuer input 150), non-issuer
    // output 75, burn 10%: fee base 75, total burn 7.5, shares
    // ceil(7.5 * 60 / 150) = 3 and ceil(7.5 * 90 / 150) = 5 — each share is
    // rounded up on its own, so 8 are burned in place of 7.5.
    let original_balances = vec![
        balance("sender_a", vec![coin("token", 1000)]),
        balance("sender_b", vec![coin("token", 1000)]),
    ];
    let definitions = vec![
        definition("token", "issuer", Rate::new(10, 100), Rate::new(0, 100)),
    ];
    let tx = MultiSend {
        inputs: vec![
            balance("sender_a", vec![coin("token", 60)]),
            balance("sender_b", vec![coin("token", 90)]),
        ],
        outputs: vec![
            balance("receiver", vec![coin("token", 75)]),
            balance("issuer", vec![coin("token", 75)]),
        ],
    };
    let changes = calculate_balance_changes(original_balances, definitions, tx).unwrap();
    assert_eq!(delta(&changes, "sender_a", "token"), Some(-63));
    assert_eq!(delta(&changes, "sender_b", "token"), Some(-95));
    assert_eq!(delta(&changes, "receiver", "token"), Some(75));
    assert_eq!(delta(&changes, "issuer", "token"), Some(75));
    // Conservation: 63 + 95 debited == 75 + 75 credited + 8 burned.
    let debited: i128 = 63 + 95;
    let credited: i128 = 75 + 75;
    assert_eq!(debited - credited, 8);
}

#[test]
fn commission_accumulates_to_issuer() {
    // Commission 10% in place of burn: the shares 3 and 5 go to the issuer
    // on top of its own output of 75.
    let original_balances = vec![
        balance("sender_a", vec![coin("token", 1000)]),
        balance("sender_b", vec![coin("token", 1000)]),
    ];
    let definitions = vec![
        definition("token", "issuer", Rate::new(0, 100), Rate::new(10, 100)),
    ];
    let tx = MultiSend {
        inputs: vec![
            balance("sender_a", vec![coin("token", 60)]),
            balance("sender_b", vec![coin("token", 90)]),
        ],
        outputs: vec![
            balance("receiver", vec![coin("token", 75)]),
            balance("issuer", vec![coin("token", 75)]),
        ],
    };
    let changes = calculate_balance_changes(original_balances, definitions, tx).unwrap();
    assert_eq!(delta(&changes, "sender_a", "token"), Some(-63));
    assert_eq!(delta(&changes, "sender_b", "token"), Some(-95));
    assert_eq!(delta(&changes, "receiver", "token"), Some(75));
    assert_eq!(delta(&changes, "issuer", "token"), Some(83));
}

#[test]
fn zero_rates_charge_no_fee() {
    let original_balances = vec![balance("sender", vec![coin("token", 100)])];
    let definitions = vec![
        definition("token", "issuer", Rate::zero(), Rate::zero()),
    ];
    let tx = MultiSend {
        inputs: vec![balance("sender", vec![coin("token", 100)])],
        outputs: vec![balance("receiver", vec![coin("token", 100)])],
    };
    let changes = calculate_balance_changes(original_balances, definitions, tx).unwrap();
    // The debit is exactly the input amount and no issuer entry appears.
    assert_eq!(changes.len(), 2);
    assert_eq!(delta(&changes, "sender", "token"), Some(-100));
    assert_eq!(delta(&changes, "receiver", "token"), Some(100));
    assert_eq!(delta(&changes, "issuer", "token"), None);
}

#[test]
fn issuer_pays_no_fee_as_sender() {
    // The only sender is the issuer, so the non-issuer input volume is zero:
    // no fee applies even with non-zero rates.
    let original_balances = vec![balance("issuer", vec![coin("token", 100)])];
    let definitions = vec![
        definition("token", "issuer", Rate::new(10, 100), Rate::new(25, 100)),
    ];
    let tx = MultiSend {
        inputs: vec![balance("issuer", vec![coin("token", 100)])],
        outputs: vec![balance("receiver", vec![coin("token", 100)])],
    };
    let changes = calculate_balance_changes(original_balances, definitions, tx).unwrap();
    assert_eq!(changes.len(), 2);
    assert_eq!(delta(&changes, "issuer", "token"), Some(-100));
    assert_eq!(delta(&changes, "receiver", "token"), Some(100));
}

#[test]
fn unknown_denomination_rejected() {
    let original_balances = vec![balance("sender", vec![coin("mystery", 10)])];
    let definitions = vec![];
    let tx = MultiSend {
        inputs: vec![balance("sender", vec![coin("mystery", 10)])],
        outputs: vec![balance("receiver", vec![coin("mystery", 10)])],
    };
    let result = calculate_balance_changes(original_balances, definitions, tx);
    assert_eq!(result, Err(Error::UnknownDenomination("mystery".to_string())));
}

#[test]
fn unknown_denomination_reported_before_mismatch() {
    // The per-coin checks run before the sum comparison, so an undefined
    // denomination wins over mismatched totals.
    let original_balances = vec![balance("sender", vec![coin("mystery", 10)])];
    let definitions = vec![];
    let tx = MultiSend {
        inputs: vec![balance("sender", vec![coin("mystery", 10)])],
        outputs: vec![balance("receiver", vec![coin("mystery", 99)])],
    };
    let result = calculate_balance_changes(original_balances, definitions, tx);
    assert_eq!(result, Err(Error::UnknownDenomination("mystery".to_string())));
}

#[test]
fn mismatch_on_output_only_denomination() {
    // A denomination that appears only in the outputs has input total zero;
    // its mismatch is found after every input coin checked clean.
    let original_balances = vec![balance("sender", vec![coin("one", 5)])];
    let definitions = vec![
        definition("one", "issuer", Rate::zero(), Rate::zero()),
    ];
    let tx = MultiSend {
        inputs: vec![balance("sender", vec![coin("one", 5)])],
        outputs: vec![balance("receiver", vec![coin("one", 5), coin("two", 10)])],
    };
    let result = calculate_balance_changes(original_balances, definitions, tx);
    assert_eq!(result, Err(Error::MismatchedSumForDenom("two".to_string())));
}

#[test]
fn sender_and_receiver_merge_to_one_entry() {
    // An address that both sends and receives a denomination gets a single
    // net entry, not two.
    let original_balances = vec![balance("sender", vec![coin("token", 100)])];
    let definitions = vec![
        definition("token", "issuer", Rate::zero(), Rate::zero()),
    ];
    let tx = MultiSend {
        inputs: vec![balance("sender", vec![coin("token", 100)])],
        outputs: vec![
            balance("sender", vec![coin("token", 30)]),
            balance("receiver", vec![coin("token", 70)]),
        ],
    };
    let changes = calculate_balance_changes(original_balances, definitions, tx).unwrap();
    assert_eq!(changes.len(), 2);
    assert_eq!(delta(&changes, "sender", "token"), Some(-70));
    assert_eq!(delta(&changes, "receiver", "token"), Some(70));
}

#[test]
fn zero_net_changes_are_dropped() {
    // An address whose debits and credits cancel exactly leaves no entry.
    let original_balances = vec![balance("sender", vec![coin("token", 50)])];
    let definitions = vec![
        definition("token", "issuer", Rate::zero(), Rate::zero()),
    ];
    let tx = MultiSend {
        inputs: vec![balance("sender", vec![coin("token", 50)])],
        outputs: vec![balance("sender", vec![coin("token", 50)])],
    };
    let changes = calculate_balance_changes(original_balances, definitions, tx).unwrap();
    assert_eq!(changes.len(), 0);
}

#[test]
fn absent_balance_reads_as_zero() {
    // A sender with no recorded balance holds zero of everything and cannot
    // send a positive amount.
    let original_balances = vec![];
    let definitions = vec![
        definition("token", "issuer", Rate::zero(), Rate::zero()),
    ];
    let tx = MultiSend {
        inputs: vec![balance("ghostless", vec![coin("token", 1)])],
        outputs: vec![balance("receiver", vec![coin("token", 1)])],
    };
    let result = calculate_balance_changes(original_balances, definitions, tx);
    assert_eq!(
        result,
        Err(Error::InsufficientBalance("ghostless".to_string(), "token".to_string()))
    );
}

#[test]
fn empty_transfer_succeeds_with_no_changes() {
    let result = calculate_balance_changes(
        vec![],
        vec![],
        MultiSend { inputs: vec![], outputs: vec![] },
    );
    assert_eq!(result, Ok(vec![]));
}

#[test]
fn conservation_across_two_denominations() {
    // For each denomination: total debited == total credited + commission
    // credited + burned.
    let original_balances = vec![
        balance("acct_a", vec![coin("gold", 10_000), coin("silver", 10_000)]),
        balance("acct_b", vec![coin("gold", 10_000)]),
    ];
    let definitions = vec![
        definition("gold", "mint", Rate::new(1, 3), Rate::new(1, 7)),
        definition("silver", "mint", Rate::new(2, 5), Rate::new(0, 1)),
    ];
    let tx = MultiSend {
        inputs: vec![
            balance("acct_a", vec![coin("gold", 700), coin("silver", 500)]),
            balance("acct_b", vec![coin("gold", 300)]),
        ],
        outputs: vec![
            balance("acct_c", vec![coin("gold", 1000), coin("silver", 500)]),
        ],
    };
    let changes = calculate_balance_changes(original_balances, definitions, tx).unwrap();
    for denom in ["gold", "silver"] {
        let mut debited: i128 = 0;
        let mut credited: i128 = 0;
        let mut commission: i128 = 0;
        for b in &changes {
            for c in &b.coins {
                if c.denom == denom {
                    if c.amount < 0 {
                        debited += -c.amount;
                    } else if b.address == "mint" {
                        commission += c.amount;
                    } else {
                        credited += c.amount;
                    }
                }
            }
        }
        // gold: fee base 1000, burn 1000/3 -> shares ceil per sender;
        // silver: burn 200, no commission.  Whatever the rounding, nothing
        // is created or lost besides the burn.
        assert!(debited >= credited + commission);
        let burned = debited - credited - commission;
        if denom == "gold" {
            // burn shares: ceil(1000/3 * 700/1000) = 234, ceil(1000/3 * 300/1000) = 100
            // commission shares: ceil(1000/7 * 700/1000) = 100, ceil(1000/7 * 300/1000) = 43
            assert_eq!(debited, 700 + 234 + 100 + 300 + 100 + 43);
            assert_eq!(commission, 143);
            assert_eq!(burned, 334);
        } else {
            // burn shares: ceil(200 * 500/500) = 200, commission 0
            assert_eq!(debited, 700);
            assert_eq!(commission, 0);
            assert_eq!(burned, 200);
        }
    }
}
