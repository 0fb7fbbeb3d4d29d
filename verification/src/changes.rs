use vstd::prelude::*;

use crate::types::{Balance, Coin};
use crate::model::wf_changes;
use crate::sums::{
    addresses_unique, balance_of, coin_value, coins_denoms_unique, find_account_coins,
    find_coin_amount, lemma_find_account_absent, lemma_find_account_found,
    lemma_find_account_update_other, lemma_find_account_witness, lemma_find_coin_absent,
    lemma_find_coin_found, lemma_find_coin_update_other,
};

verus! {

/// The index of the balance entry of `addr`, if the list holds one.
#[verifier::loop_isolation(false)]
fn find_address_index(bals: &Vec<Balance>, addr: &String) -> (r: Option<usize>)
    ensures
        match r {
            Some(k) => k < bals@.len() && bals@[k as int].address@ == addr@,
            None => forall|x: int| 0 <= x < bals@.len() ==> (#[trigger] bals@[x]).address@ != addr@,
        },
{
    let mut k: usize = 0;
    while k < bals.len()
        invariant
            0 <= k <= bals@.len(),
            forall|x: int| 0 <= x < k ==> (#[trigger] bals@[x]).address@ != addr@,
        decreases bals@.len() - k,
    {
        if bals[k].address == *addr {
            return Some(k);
        }
        k += 1;
    }
    None
}

/// The index of the coin of `denom`, if the list holds one.
#[verifier::loop_isolation(false)]
fn find_coin_index(coins: &Vec<Coin>, denom: &String) -> (r: Option<usize>)
    ensures
        match r {
            Some(m) => m < coins@.len() && coins@[m as int].denom@ == denom@,
            None => forall|x: int| 0 <= x < coins@.len() ==> (#[trigger] coins@[x]).denom@ != denom@,
        },
{
    let mut m: usize = 0;
    while m < coins.len()
        invariant
            0 <= m <= coins@.len(),
            forall|x: int| 0 <= x < m ==> (#[trigger] coins@[x]).denom@ != denom@,
        decreases coins@.len() - m,
    {
        if coins[m].denom == *denom {
            return Some(m);
        }
        m += 1;
    }
    None
}

/// Adds `delta` to the accumulated change of `(addr, denom)`, inserting the
/// entry or the coin where none exists yet.  Every other key keeps its value.
#[verifier::loop_isolation(false)]
pub fn add_delta(acc: &mut Vec<Balance>, addr: &String, denom: &String, delta: i128)
    requires
        wf_changes(old(acc)@),
        i128::MIN as int <= balance_of(old(acc)@, addr@, denom@) + delta as int,
        balance_of(old(acc)@, addr@, denom@) + delta as int <= i128::MAX as int,
    ensures
        wf_changes(final(acc)@),
        forall|a: Seq<char>, d: Seq<char>|
            #[trigger] balance_of(final(acc)@, a, d) == balance_of(old(acc)@, a, d) + (if a
                == addr@ && d == denom@ {
                delta as int
            } else {
                0
            }),
{
    let ghost orig = old(acc)@;
    match find_address_index(acc, addr) {
        Some(k) => {
            proof {
                lemma_find_account_found(orig, k as int);
            }
            let mut b = acc.remove(k);
            let ghost oldcoins = orig[k as int].coins@;
            match find_coin_index(&b.coins, denom) {
                Some(m) => {
                    proof {
                        assert(coins_denoms_unique(oldcoins));
                        lemma_find_coin_found(oldcoins, m as int);
                        assert(balance_of(orig, addr@, denom@) == oldcoins[m as int].amount as int);
                    }
                    let mut c = b.coins.remove(m);
                    c.amount = c.amount + delta;
                    let ghost c2 = c;
                    b.coins.insert(m, c);
                    let ghost b2 = b;
                    acc.insert(k, b);
                    proof {
                        assert(b2.coins@ =~= oldcoins.update(m as int, c2));
                        assert(acc@ =~= orig.update(k as int, b2));
                        lemma_updated_entry(orig, k as int, b2, oldcoins, m as int, c2, addr@, denom@, delta as int);
                    }
                },
                None => {
                    proof {
                        lemma_find_coin_absent(oldcoins, denom@);
                        assert(balance_of(orig, addr@, denom@) == 0);
                    }
                    b.coins.push(Coin { denom: denom.clone(), amount: delta });
                    let ghost b2 = b;
                    acc.insert(k, b);
                    proof {
                        assert(b2.coins@.drop_last() =~= oldcoins);
                        assert(b2.coins@.last().denom@ == denom@);
                        assert(acc@ =~= orig.update(k as int, b2));
                        lemma_extended_entry(orig, k as int, b2, oldcoins, addr@, denom@, delta as int);
                    }
                },
            }
        },
        None => {
            proof {
                lemma_find_account_absent(orig, addr@);
                assert(balance_of(orig, addr@, denom@) == 0);
            }
            let mut cs: Vec<Coin> = Vec::new();
            cs.push(Coin { denom: denom.clone(), amount: delta });
            let b = Balance { address: addr.clone(), coins: cs };
            let ghost b2 = b;
            acc.push(b);
            proof {
                assert(acc@ =~= orig.push(b2));
                lemma_new_entry(orig, b2, addr@, denom@, delta as int);
            }
        },
    }
}

/// Copies the accumulated changes, dropping zero amounts and then empty
/// entries: what remains are exactly the keys with a non-zero value, each
/// with its value unchanged.
#[verifier::loop_isolation(false)]
pub fn prune_zero_deltas(acc: &Vec<Balance>) -> (r: Vec<Balance>)
    requires
        wf_changes(acc@),
    ensures
        wf_changes(r@),
        forall|a: Seq<char>, d: Seq<char>| #[trigger] balance_of(r@, a, d) == balance_of(acc@, a, d),
        forall|x: int| 0 <= x < r@.len() ==> (#[trigger] r@[x]).coins@.len() > 0,
        forall|x: int, j: int|
            0 <= x < r@.len() && 0 <= j < r@[x].coins@.len() ==> (#[trigger] r@[x].coins@[j]).amount
                != 0,
{
    let mut r: Vec<Balance> = Vec::new();
    let mut k: usize = 0;
    while k < acc.len()
        invariant
            0 <= k <= acc@.len(),
            wf_changes(r@),
            forall|a: Seq<char>, d: Seq<char>|
                #[trigger] balance_of(r@, a, d) == balance_of(acc@.take(k as int), a, d),
            forall|x: int| 0 <= x < r@.len() ==> (#[trigger] r@[x]).coins@.len() > 0,
            forall|x: int, j: int|
                0 <= x < r@.len() && 0 <= j < r@[x].coins@.len() ==> (#[trigger] r@[x].coins@[j]).amount
                    != 0,
            forall|a: Seq<char>|
                #[trigger] find_account_coins(r@, a) is Some ==> find_account_coins(
                    acc@.take(k as int),
                    a,
                ) is Some,
        decreases acc@.len() - k,
    {
        let b = &acc[k];
        proof {
            assert(coins_denoms_unique(acc@[k as int].coins@));
        }
        let mut kept: Vec<Coin> = Vec::new();
        let mut j: usize = 0;
        while j < b.coins.len()
            invariant
                0 <= j <= b.coins@.len(),
                coins_denoms_unique(kept@),
                forall|d: Seq<char>|
                    #[trigger] coin_value(kept@, d) == coin_value(b.coins@.take(j as int), d),
                forall|x: int| 0 <= x < kept@.len() ==> (#[trigger] kept@[x]).amount != 0,
                forall|d: Seq<char>|
                    #[trigger] find_coin_amount(kept@, d) is Some ==> find_coin_amount(
                        b.coins@.take(j as int),
                        d,
                    ) is Some,
            decreases b.coins@.len() - j,
        {
            let c = &b.coins[j];
            let ghost cd = b.coins@[j as int].denom@;
            let ghost keptold = kept@;
            proof {
                assert(b.coins@.take(j as int + 1).last() == b.coins@[j as int]);
                assert(b.coins@.take(j as int + 1).drop_last() =~= b.coins@.take(j as int));
                // The current denomination is new to this entry, so the
                // prefix it extends holds no coin of it.
                assert forall|x: int|
                    0 <= x < b.coins@.take(j as int).len() implies (#[trigger] b.coins@.take(
                    j as int,
                )[x]).denom@ != cd by {
                    assert(b.coins@.take(j as int)[x] == b.coins@[x]);
                    assert(b.coins@[x].denom@ != b.coins@[j as int].denom@);
                }
                lemma_find_coin_absent(b.coins@.take(j as int), cd);
            }
            if c.amount != 0 {
                kept.push(Coin { denom: c.denom.clone(), amount: c.amount });
                proof {
                    assert(kept@.drop_last() =~= keptold);
                    assert(kept@.last().denom@ == cd);
                    assert forall|x: int| 0 <= x < keptold.len() implies (#[trigger] keptold[x]).denom@
                        != cd by {
                        if keptold[x].denom@ == cd {
                            lemma_find_coin_found(keptold, x);
                            assert(find_coin_amount(keptold, cd) is Some);
                        }
                    }
                    assert forall|j1: int, j2: int|
                        #![trigger kept@[j1].denom@, kept@[j2].denom@]
                        0 <= j1 < j2 < kept@.len() implies kept@[j1].denom@ != kept@[j2].denom@ by {
                        if j2 < keptold.len() {
                            assert(kept@[j1] == keptold[j1] && kept@[j2] == keptold[j2]);
                            assert(keptold[j1].denom@ != keptold[j2].denom@);
                        } else {
                            assert(kept@[j1] == keptold[j1]);
                            assert(kept@[j2].denom@ == cd);
                        }
                    }
                    assert forall|d: Seq<char>| #[trigger] coin_value(kept@, d) == coin_value(
                        b.coins@.take(j as int + 1),
                        d,
                    ) by {
                        assert(coin_value(keptold, d) == coin_value(b.coins@.take(j as int), d));
                        if d == cd {
                            assert(find_coin_amount(kept@, d) == Some(kept@.last().amount as int));
                            assert(find_coin_amount(b.coins@.take(j as int + 1), d) == Some(
                                b.coins@[j as int].amount as int,
                            ));
                            assert(kept@.last().amount == b.coins@[j as int].amount);
                        } else {
                            assert(find_coin_amount(kept@, d) == find_coin_amount(keptold, d));
                            assert(find_coin_amount(b.coins@.take(j as int + 1), d)
                                == find_coin_amount(b.coins@.take(j as int), d));
                        }
                    }
                    assert forall|d: Seq<char>| #[trigger] find_coin_amount(kept@, d) is Some
                        implies find_coin_amount(b.coins@.take(j as int + 1), d) is Some by {
                        if d == cd {
                            assert(find_coin_amount(b.coins@.take(j as int + 1), d) == Some(
                                b.coins@[j as int].amount as int,
                            ));
                        } else {
                            assert(find_coin_amount(kept@, d) == find_coin_amount(keptold, d));
                            assert(find_coin_amount(b.coins@.take(j as int + 1), d)
                                == find_coin_amount(b.coins@.take(j as int), d));
                        }
                    }
                }
            } else {
                proof {
                    assert forall|d: Seq<char>| #[trigger] coin_value(kept@, d) == coin_value(
                        b.coins@.take(j as int + 1),
                        d,
                    ) by {
                        if d == cd {
                            assert(coin_value(b.coins@.take(j as int + 1), d) == 0);
                            assert(coin_value(b.coins@.take(j as int), d) == 0);
                        } else {
                            assert(find_coin_amount(b.coins@.take(j as int + 1), d)
                                == find_coin_amount(b.coins@.take(j as int), d));
                        }
                    }
                    assert forall|d: Seq<char>| #[trigger] find_coin_amount(kept@, d) is Some
                        implies find_coin_amount(b.coins@.take(j as int + 1), d) is Some by {
                        if d == cd {
                            assert(find_coin_amount(b.coins@.take(j as int + 1), d) == Some(
                                b.coins@[j as int].amount as int,
                            ));
                        } else {
                            assert(find_coin_amount(b.coins@.take(j as int + 1), d)
                                == find_coin_amount(b.coins@.take(j as int), d));
                        }
                    }
                }
            }
            j += 1;
        }
        proof {
            assert(b.coins@.take(b.coins@.len() as int) =~= b.coins@);
            assert(acc@.take(k as int + 1).last() == acc@[k as int]);
            assert(acc@.take(k as int + 1).drop_last() =~= acc@.take(k as int));
        }
        let ghost addrk = acc@[k as int].address@;
        proof {
            // This address is new to the prefix already copied.
            assert forall|x: int| 0 <= x < r@.len() implies (#[trigger] r@[x]).address@ != addrk by {
                if r@[x].address@ == addrk {
                    lemma_find_account_found(r@, x);
                    lemma_find_account_witness(acc@.take(k as int), addrk);
                    let x2 = choose|x2: int|
                        0 <= x2 < acc@.take(k as int).len() && (#[trigger] acc@.take(
                            k as int,
                        )[x2]).address@ == addrk;
                    assert(acc@.take(k as int)[x2] == acc@[x2]);
                    assert(acc@[x2].address@ != acc@[k as int].address@);
                }
            }
            lemma_find_account_absent(r@, addrk);
        }
        if kept.len() > 0 {
            let ghost rold = r@;
            let ghost keptv = kept@;
            r.push(Balance { address: b.address.clone(), coins: kept });
            proof {
                assert(r@.drop_last() =~= rold);
                assert(r@.last().address@ == addrk);
                assert(r@.last().coins@ == keptv);
                assert forall|k1: int, k2: int|
                    #![trigger r@[k1].address@, r@[k2].address@]
                    0 <= k1 < k2 < r@.len() implies r@[k1].address@ != r@[k2].address@ by {
                    if k2 == r@.len() - 1 {
                        assert(r@[k1] == rold[k1]);
                        assert(rold[k1].address@ != addrk);
                    } else {
                        assert(r@[k1] == rold[k1] && r@[k2] == rold[k2]);
                        assert(rold[k1].address@ != rold[k2].address@);
                    }
                }
                assert forall|x: int| 0 <= x < r@.len() implies coins_denoms_unique(
                    (#[trigger] r@[x]).coins@,
                ) by {
                    if x < r@.len() - 1 {
                        assert(r@[x] == rold[x]);
                    }
                }
                assert forall|a: Seq<char>, d: Seq<char>| #[trigger] balance_of(r@, a, d)
                    == balance_of(acc@.take(k as int + 1), a, d) by {
                    if a == addrk {
                        assert(find_account_coins(r@, a) == Some(keptv));
                        assert(find_account_coins(acc@.take(k as int + 1), a) == Some(
                            acc@[k as int].coins@,
                        ));
                        assert(coin_value(keptv, d) == coin_value(b.coins@.take(j as int), d));
                        assert(b.coins@.take(j as int) == b.coins@);
                        assert(coin_value(keptv, d) == coin_value(acc@[k as int].coins@, d));
                        assert(balance_of(r@, a, d) == coin_value(keptv, d));
                        assert(balance_of(acc@.take(k as int + 1), a, d) == coin_value(
                            acc@[k as int].coins@,
                            d,
                        ));
                    } else {
                        assert(find_account_coins(r@, a) == find_account_coins(rold, a));
                        assert(find_account_coins(acc@.take(k as int + 1), a)
                            == find_account_coins(acc@.take(k as int), a));
                        assert(balance_of(r@, a, d) == balance_of(rold, a, d));
                        assert(balance_of(rold, a, d) == balance_of(acc@.take(k as int), a, d));
                        assert(balance_of(acc@.take(k as int + 1), a, d) == balance_of(
                            acc@.take(k as int),
                            a,
                            d,
                        ));
                    }
                }
                assert forall|a: Seq<char>| #[trigger] find_account_coins(r@, a) is Some
                    implies find_account_coins(acc@.take(k as int + 1), a) is Some by {
                    if a != addrk {
                        assert(find_account_coins(r@, a) == find_account_coins(rold, a));
                        assert(find_account_coins(acc@.take(k as int + 1), a)
                            == find_account_coins(acc@.take(k as int), a));
                    }
                }
            }
        } else {
            proof {
                assert forall|a: Seq<char>, d: Seq<char>| #[trigger] balance_of(r@, a, d)
                    == balance_of(acc@.take(k as int + 1), a, d) by {
                    if a == addrk {
                        assert(find_account_coins(acc@.take(k as int + 1), a) == Some(
                            acc@[k as int].coins@,
                        ));
                        assert(coin_value(kept@, d) == coin_value(b.coins@.take(j as int), d));
                        assert(b.coins@.take(j as int) == b.coins@);
                        assert(kept@.len() == 0);
                        assert(find_coin_amount(kept@, d) is None);
                        assert(coin_value(acc@[k as int].coins@, d) == 0);
                        assert(find_account_coins(r@, a) is None);
                        assert(balance_of(r@, a, d) == 0);
                        assert(balance_of(acc@.take(k as int + 1), a, d) == coin_value(
                            acc@[k as int].coins@,
                            d,
                        ));
                    } else {
                        assert(find_account_coins(acc@.take(k as int + 1), a)
                            == find_account_coins(acc@.take(k as int), a));
                        assert(balance_of(acc@.take(k as int + 1), a, d) == balance_of(
                            acc@.take(k as int),
                            a,
                            d,
                        ));
                        assert(balance_of(r@, a, d) == balance_of(acc@.take(k as int), a, d));
                    }
                }
                assert forall|a: Seq<char>| #[trigger] find_account_coins(r@, a) is Some
                    implies find_account_coins(acc@.take(k as int + 1), a) is Some by {
                    if a != addrk {
                        assert(find_account_coins(acc@.take(k as int + 1), a)
                            == find_account_coins(acc@.take(k as int), a));
                    }
                }
            }
        }
        k += 1;
    }
    proof {
        assert(acc@.take(acc@.len() as int) =~= acc@);
    }
    r
}

/// After the amount of coin `m` of entry `k` is shifted by `delta`, every
/// key's accumulated value moves by exactly that delta on `(addr, denom)`.
proof fn lemma_updated_entry(
    orig: Seq<Balance>,
    k: int,
    b2: Balance,
    oldcoins: Seq<Coin>,
    m: int,
    c2: Coin,
    addr: Seq<char>,
    denom: Seq<char>,
    delta: int,
)
    requires
        wf_changes(orig),
        0 <= k < orig.len(),
        orig[k].address@ == addr,
        oldcoins == orig[k].coins@,
        0 <= m < oldcoins.len(),
        oldcoins[m].denom@ == denom,
        c2.denom@ == denom,
        c2.amount as int == oldcoins[m].amount as int + delta,
        b2.address@ == addr,
        b2.coins@ == oldcoins.update(m, c2),
    ensures
        wf_changes(orig.update(k, b2)),
        forall|a: Seq<char>, d: Seq<char>|
            #[trigger] balance_of(orig.update(k, b2), a, d) == balance_of(orig, a, d) + (if a
                == addr && d == denom {
                delta
            } else {
                0
            }),
{
    let u = orig.update(k, b2);
    assert forall|k1: int, k2: int|
        #![trigger u[k1].address@, u[k2].address@]
        0 <= k1 < k2 < u.len() implies u[k1].address@ != u[k2].address@ by {
        assert(orig[k1].address@ != orig[k2].address@);
    }
    assert(coins_denoms_unique(oldcoins));
    assert forall|j1: int, j2: int|
        #![trigger b2.coins@[j1].denom@, b2.coins@[j2].denom@]
        0 <= j1 < j2 < b2.coins@.len() implies b2.coins@[j1].denom@ != b2.coins@[j2].denom@ by {
        assert(oldcoins[j1].denom@ != oldcoins[j2].denom@);
    }
    assert forall|x: int| 0 <= x < u.len() implies coins_denoms_unique(
        (#[trigger] u[x]).coins@,
    ) by {
        if x != k {
            assert(u[x] == orig[x]);
        }
    }
    assert(wf_changes(u));
    lemma_find_account_found(orig, k);
    lemma_find_account_found(u, k);
    assert(u[k] == b2);
    assert forall|a: Seq<char>, d: Seq<char>| #[trigger] balance_of(u, a, d) == balance_of(
        orig,
        a,
        d,
    ) + (if a == addr && d == denom {
        delta
    } else {
        0
    }) by {
        if a == addr {
            if d == denom {
                lemma_find_coin_found(oldcoins, m);
                lemma_find_coin_found(b2.coins@, m);
                assert(b2.coins@[m] == c2);
            } else {
                lemma_find_coin_update_other(oldcoins, m, c2, d);
            }
        } else {
            lemma_find_account_update_other(orig, k, b2, a);
        }
    }
}

/// After a coin of a denomination new to entry `k` is pushed, every key's
/// accumulated value moves by exactly `delta` on `(addr, denom)`.
proof fn lemma_extended_entry(
    orig: Seq<Balance>,
    k: int,
    b2: Balance,
    oldcoins: Seq<Coin>,
    addr: Seq<char>,
    denom: Seq<char>,
    delta: int,
)
    requires
        wf_changes(orig),
        0 <= k < orig.len(),
        orig[k].address@ == addr,
        oldcoins == orig[k].coins@,
        forall|x: int| 0 <= x < oldcoins.len() ==> (#[trigger] oldcoins[x]).denom@ != denom,
        b2.address@ == addr,
        b2.coins@.len() == oldcoins.len() + 1,
        b2.coins@.drop_last() == oldcoins,
        b2.coins@.last().denom@ == denom,
        b2.coins@.last().amount as int == delta,
    ensures
        wf_changes(orig.update(k, b2)),
        forall|a: Seq<char>, d: Seq<char>|
            #[trigger] balance_of(orig.update(k, b2), a, d) == balance_of(orig, a, d) + (if a
                == addr && d == denom {
                delta
            } else {
                0
            }),
{
    let u = orig.update(k, b2);
    assert forall|k1: int, k2: int|
        #![trigger u[k1].address@, u[k2].address@]
        0 <= k1 < k2 < u.len() implies u[k1].address@ != u[k2].address@ by {
        assert(orig[k1].address@ != orig[k2].address@);
    }
    assert(coins_denoms_unique(oldcoins));
    assert forall|j1: int, j2: int|
        #![trigger b2.coins@[j1].denom@, b2.coins@[j2].denom@]
        0 <= j1 < j2 < b2.coins@.len() implies b2.coins@[j1].denom@ != b2.coins@[j2].denom@ by {
        if j2 < oldcoins.len() {
            assert(b2.coins@[j1] == oldcoins[j1] && b2.coins@[j2] == oldcoins[j2]);
            assert(oldcoins[j1].denom@ != oldcoins[j2].denom@);
        } else {
            assert(b2.coins@[j2] == b2.coins@.last());
            assert(b2.coins@[j1] == oldcoins[j1]);
            assert(oldcoins[j1].denom@ != denom);
        }
    }
    assert forall|x: int| 0 <= x < u.len() implies coins_denoms_unique(
        (#[trigger] u[x]).coins@,
    ) by {
        if x != k {
            assert(u[x] == orig[x]);
        }
    }
    assert(wf_changes(u));
    lemma_find_account_found(orig, k);
    lemma_find_account_found(u, k);
    assert(u[k] == b2);
    lemma_find_coin_absent(oldcoins, denom);
    assert forall|a: Seq<char>, d: Seq<char>| #[trigger] balance_of(u, a, d) == balance_of(
        orig,
        a,
        d,
    ) + (if a == addr && d == denom {
        delta
    } else {
        0
    }) by {
        if a == addr {
            if d == denom {
                assert(find_coin_amount(b2.coins@, d) == Some(delta));
            } else {
                assert(find_coin_amount(b2.coins@, d) == find_coin_amount(oldcoins, d));
            }
        } else {
            lemma_find_account_update_other(orig, k, b2, a);
        }
    }
}

/// After an entry for a new address is pushed, every key's accumulated value
/// moves by exactly `delta` on `(addr, denom)`.
proof fn lemma_new_entry(orig: Seq<Balance>, b2: Balance, addr: Seq<char>, denom: Seq<char>, delta: int)
    requires
        wf_changes(orig),
        forall|x: int| 0 <= x < orig.len() ==> (#[trigger] orig[x]).address@ != addr,
        b2.address@ == addr,
        b2.coins@.len() == 1,
        b2.coins@[0].denom@ == denom,
        b2.coins@[0].amount as int == delta,
    ensures
        wf_changes(orig.push(b2)),
        forall|a: Seq<char>, d: Seq<char>|
            #[trigger] balance_of(orig.push(b2), a, d) == balance_of(orig, a, d) + (if a == addr
                && d == denom {
                delta
            } else {
                0
            }),
{
    let u = orig.push(b2);
    assert(u.drop_last() =~= orig);
    assert(u.last() == b2);
    assert forall|k1: int, k2: int|
        #![trigger u[k1].address@, u[k2].address@]
        0 <= k1 < k2 < u.len() implies u[k1].address@ != u[k2].address@ by {
        if k2 == u.len() - 1 {
            assert(u[k1] == orig[k1]);
            assert(orig[k1].address@ != addr);
        } else {
            assert(u[k1] == orig[k1] && u[k2] == orig[k2]);
            assert(orig[k1].address@ != orig[k2].address@);
        }
    }
    assert forall|x: int| 0 <= x < u.len() implies coins_denoms_unique(
        (#[trigger] u[x]).coins@,
    ) by {
        if x < u.len() - 1 {
            assert(u[x] == orig[x]);
        } else {
            assert(u[x].coins@.len() == 1);
        }
    }
    assert(wf_changes(u));
    lemma_find_account_absent(orig, addr);
    assert forall|a: Seq<char>, d: Seq<char>| #[trigger] balance_of(u, a, d) == balance_of(
        orig,
        a,
        d,
    ) + (if a == addr && d == denom {
        delta
    } else {
        0
    }) by {
        if a == addr {
            assert(find_account_coins(u, a) == Some(b2.coins@));
            if d == denom {
                assert(b2.coins@.last() == b2.coins@[0]);
                assert(find_coin_amount(b2.coins@, d) == Some(delta));
            } else {
                assert(b2.coins@.last().denom@ != d);
                assert(find_coin_amount(b2.coins@, d) == find_coin_amount(
                    b2.coins@.drop_last(),
                    d,
                ));
                assert(b2.coins@.drop_last().len() == 0);
                assert(find_coin_amount(b2.coins@.drop_last(), d) is None);
            }
        }
    }
}

} // verus!
