//! Balances keyed by account and symbol, with no entry for a zero amount.
use crate::types::{Address, TokenAmount};
use vstd::prelude::*;

verus! {

/// One stored balance: an account, a symbol and a nonzero amount.
#[derive(Debug)]
pub struct BalanceEntry {
    pub account: Address,
    pub symbol: Address,
    pub amount: TokenAmount,
}

impl View for BalanceEntry {
    type V = (Seq<u8>, Seq<u8>, nat);

    open spec fn view(&self) -> (Seq<u8>, Seq<u8>, nat) {
        (self.account@, self.symbol@, self.amount@)
    }
}

pub open spec fn entries_view(es: Seq<BalanceEntry>) -> Seq<(Seq<u8>, Seq<u8>, nat)> {
    es.map_values(|e: BalanceEntry| e@)
}

pub open spec fn has_key(es: Seq<(Seq<u8>, Seq<u8>, nat)>, i: int, a: Seq<u8>, s: Seq<u8>) -> bool {
    0 <= i < es.len() && es[i].0 == a && es[i].1 == s
}

/// The balance of account `a` in symbol `s`; zero where nothing is stored.
pub open spec fn balance_in(es: Seq<(Seq<u8>, Seq<u8>, nat)>, a: Seq<u8>, s: Seq<u8>) -> nat {
    if exists|i: int| has_key(es, i, a, s) {
        es[choose|i: int| has_key(es, i, a, s)].2
    } else {
        0
    }
}

/// No two entries share an account and a symbol.
pub open spec fn keys_unique(es: Seq<(Seq<u8>, Seq<u8>, nat)>) -> bool {
    forall|i: int, j: int|
        0 <= i < es.len() && 0 <= j < es.len() && i != j ==> !(es[i].0 == es[j].0 && es[i].1
            == es[j].1)
}

/// No entry holds zero.
pub open spec fn no_zero(es: Seq<(Seq<u8>, Seq<u8>, nat)>) -> bool {
    forall|i: int| 0 <= i < es.len() ==> es[i].2 > 0
}

pub open spec fn well_formed(es: Seq<(Seq<u8>, Seq<u8>, nat)>) -> bool {
    keys_unique(es) && no_zero(es)
}

/// What an entry adds to the supply of symbol `s`.
pub open spec fn share(e: (Seq<u8>, Seq<u8>, nat), s: Seq<u8>) -> nat {
    if e.1 == s {
        e.2
    } else {
        0
    }
}

/// The sum of all balances in symbol `s`.
pub open spec fn supply_in(es: Seq<(Seq<u8>, Seq<u8>, nat)>, s: Seq<u8>) -> nat
    decreases es.len(),
{
    if es.len() == 0 {
        0
    } else {
        supply_in(es.drop_last(), s) + share(es.last(), s)
    }
}

pub proof fn lemma_balance_at(es: Seq<(Seq<u8>, Seq<u8>, nat)>, i: int, a: Seq<u8>, s: Seq<u8>)
    requires
        keys_unique(es),
        has_key(es, i, a, s),
    ensures
        balance_in(es, a, s) == es[i].2,
{
    let j = choose|j: int| has_key(es, j, a, s);
    assert(has_key(es, j, a, s));
    assert(i == j);
}

pub proof fn lemma_supply_update(
    es: Seq<(Seq<u8>, Seq<u8>, nat)>,
    i: int,
    e: (Seq<u8>, Seq<u8>, nat),
    s: Seq<u8>,
)
    requires
        0 <= i < es.len(),
    ensures
        supply_in(es.update(i, e), s) + share(es[i], s) == supply_in(es, s) + share(e, s),
    decreases es.len(),
{
    let u = es.update(i, e);
    if i == es.len() - 1 {
        assert(u.drop_last() =~= es.drop_last());
    } else {
        assert(u.drop_last() =~= es.drop_last().update(i, e));
        lemma_supply_update(es.drop_last(), i, e, s);
    }
}

pub proof fn lemma_supply_remove(es: Seq<(Seq<u8>, Seq<u8>, nat)>, i: int, s: Seq<u8>)
    requires
        0 <= i < es.len(),
    ensures
        supply_in(es.remove(i), s) + share(es[i], s) == supply_in(es, s),
    decreases es.len(),
{
    let u = es.remove(i);
    if i == es.len() - 1 {
        assert(u =~= es.drop_last());
    } else {
        assert(u.drop_last() =~= es.drop_last().remove(i));
        assert(u.last() == es.last());
        lemma_supply_remove(es.drop_last(), i, s);
    }
}

pub proof fn lemma_supply_push(es: Seq<(Seq<u8>, Seq<u8>, nat)>, e: (Seq<u8>, Seq<u8>, nat), s: Seq<u8>)
    ensures
        supply_in(es.push(e), s) == supply_in(es, s) + share(e, s),
{
    assert(es.push(e).drop_last() =~= es);
}

/// The entries after setting the balance of `a` in `s` to `v`: the entry is
/// updated in place, removed when `v` is zero, or appended when new.
pub open spec fn set_entry(
    es: Seq<(Seq<u8>, Seq<u8>, nat)>,
    a: Seq<u8>,
    s: Seq<u8>,
    v: nat,
) -> Seq<(Seq<u8>, Seq<u8>, nat)> {
    if exists|i: int| has_key(es, i, a, s) {
        let i = choose|i: int| has_key(es, i, a, s);
        if v == 0 {
            es.remove(i)
        } else {
            es.update(i, (a, s, v))
        }
    } else if v == 0 {
        es
    } else {
        es.push((a, s, v))
    }
}

/// Finds the entry of account `a` in symbol `s`.
pub fn find_entry(es: &Vec<BalanceEntry>, a: &Address, s: &Address) -> (r: Option<usize>)
    ensures
        r matches Some(i) ==> has_key(entries_view(es@), i as int, a@, s@),
        r is None ==> forall|i: int| !has_key(entries_view(es@), i, a@, s@),
{
    let mut i: usize = 0;
    while i < es.len()
        invariant
            i <= es@.len(),
            forall|j: int| 0 <= j < i ==> !has_key(entries_view(es@), j, a@, s@),
        decreases es@.len() - i,
    {
        if es[i].account.same(a) && es[i].symbol.same(s) {
            return Some(i);
        }
        i = i + 1;
    }
    None
}

/// The stored balance of account `a` in symbol `s`, or zero.
pub fn get_balance(es: &Vec<BalanceEntry>, a: &Address, s: &Address) -> (r: TokenAmount)
    requires
        keys_unique(entries_view(es@)),
    ensures
        r@ == balance_in(entries_view(es@), a@, s@),
{
    match find_entry(es, a, s) {
        Some(i) => {
            proof {
                lemma_balance_at(entries_view(es@), i as int, a@, s@);
            }
            es[i].amount.duplicate()
        },
        None => TokenAmount::zero(),
    }
}

/// Sets the balance of account `a` in symbol `s` to `v`, keeping no zero entry.
pub fn set_balance(es: &mut Vec<BalanceEntry>, a: &Address, s: &Address, v: TokenAmount)
    requires
        well_formed(entries_view(old(es)@)),
    ensures
        well_formed(entries_view(final(es)@)),
        entries_view(final(es)@) == set_entry(entries_view(old(es)@), a@, s@, v@),
        forall|a2: Seq<u8>, s2: Seq<u8>|
            #[trigger] balance_in(entries_view(final(es)@), a2, s2) == if a2 == a@ && s2 == s@ {
                v@
            } else {
                balance_in(entries_view(old(es)@), a2, s2)
            },
        forall|s2: Seq<u8>|
            #[trigger] supply_in(entries_view(final(es)@), s2) + (if s2 == s@ {
                balance_in(entries_view(old(es)@), a@, s@)
            } else {
                0
            }) == supply_in(entries_view(old(es)@), s2) + (if s2 == s@ {
                v@
            } else {
                0
            }),
{
    let ghost old_v = entries_view(es@);
    let ghost key_a = a@;
    let ghost key_s = s@;
    let ghost v_val = v@;
    let zero = v.is_zero();
    match find_entry(es, a, s) {
        Some(i) => {
            proof {
                lemma_balance_at(old_v, i as int, a@, s@);
                let j = choose|j: int| has_key(old_v, j, key_a, key_s);
                assert(has_key(old_v, j, key_a, key_s));
                assert(i == j);
            }
            if zero {
                es.remove(i);
                let ghost nv = entries_view(es@);
                proof {
                    assert(nv =~= old_v.remove(i as int));
                    assert forall|a2: Seq<u8>, s2: Seq<u8>| #[trigger]
                        balance_in(nv, a2, s2) == if a2 == key_a && s2 == key_s {
                            v_val
                        } else {
                            balance_in(old_v, a2, s2)
                        } by {
                        if exists|j: int| has_key(nv, j, a2, s2) {
                            let j = choose|j: int| has_key(nv, j, a2, s2);
                            let k = if j < i { j } else { j + 1 };
                            assert(has_key(old_v, k, a2, s2));
                            lemma_balance_at(nv, j, a2, s2);
                            lemma_balance_at(old_v, k, a2, s2);
                        } else {
                            if exists|k: int| has_key(old_v, k, a2, s2) {
                                let k = choose|k: int| has_key(old_v, k, a2, s2);
                                if k != i {
                                    let j = if k < i { k } else { k - 1 };
                                    assert(has_key(nv, j, a2, s2));
                                }
                            }
                        }
                    }
                    assert forall|s2: Seq<u8>| #[trigger]
                        supply_in(nv, s2) + (if s2 == key_s {
                            balance_in(old_v, key_a, key_s)
                        } else {
                            0
                        }) == supply_in(old_v, s2) + (if s2 == key_s {
                            v_val
                        } else {
                            0
                        }) by {
                        lemma_supply_remove(old_v, i as int, s2);
                    }
                }
            } else {
                let acct = a.duplicate();
                let sym = s.duplicate();
                es.set(i, BalanceEntry { account: acct, symbol: sym, amount: v });
                let ghost nv = entries_view(es@);
                let ghost e = (key_a, key_s, v_val);
                proof {
                    assert(nv =~= old_v.update(i as int, e));
                    assert forall|a2: Seq<u8>, s2: Seq<u8>| #[trigger]
                        balance_in(nv, a2, s2) == if a2 == key_a && s2 == key_s {
                            v_val
                        } else {
                            balance_in(old_v, a2, s2)
                        } by {
                        if a2 == key_a && s2 == key_s {
                            lemma_balance_at(nv, i as int, a2, s2);
                        } else if exists|j: int| has_key(nv, j, a2, s2) {
                            let j = choose|j: int| has_key(nv, j, a2, s2);
                            assert(has_key(old_v, j, a2, s2));
                            lemma_balance_at(nv, j, a2, s2);
                            lemma_balance_at(old_v, j, a2, s2);
                        } else {
                            if exists|k: int| has_key(old_v, k, a2, s2) {
                                let k = choose|k: int| has_key(old_v, k, a2, s2);
                                assert(has_key(nv, k, a2, s2));
                            }
                        }
                    }
                    assert forall|s2: Seq<u8>| #[trigger]
                        supply_in(nv, s2) + (if s2 == key_s {
                            balance_in(old_v, key_a, key_s)
                        } else {
                            0
                        }) == supply_in(old_v, s2) + (if s2 == key_s {
                            v_val
                        } else {
                            0
                        }) by {
                        lemma_supply_update(old_v, i as int, e, s2);
                    }
                }
            }
        },
        None => {
            proof {
                assert(!exists|k: int| has_key(old_v, k, key_a, key_s));
            }
            if !zero {
                let acct = a.duplicate();
                let sym = s.duplicate();
                es.push(BalanceEntry { account: acct, symbol: sym, amount: v });
                let ghost nv = entries_view(es@);
                let ghost e = (key_a, key_s, v_val);
                proof {
                    assert(nv =~= old_v.push(e));
                    assert forall|i: int, j: int|
                        0 <= i < nv.len() && 0 <= j < nv.len() && i != j implies !(nv[i].0
                            == nv[j].0 && nv[i].1 == nv[j].1) by {
                        if i == old_v.len() {
                            assert(!has_key(old_v, j, key_a, key_s));
                        } else if j == old_v.len() {
                            assert(!has_key(old_v, i, key_a, key_s));
                        }
                    }
                    assert forall|a2: Seq<u8>, s2: Seq<u8>| #[trigger]
                        balance_in(nv, a2, s2) == if a2 == key_a && s2 == key_s {
                            v_val
                        } else {
                            balance_in(old_v, a2, s2)
                        } by {
                        if a2 == key_a && s2 == key_s {
                            lemma_balance_at(nv, old_v.len() as int, a2, s2);
                        } else if exists|j: int| has_key(nv, j, a2, s2) {
                            let j = choose|j: int| has_key(nv, j, a2, s2);
                            assert(has_key(old_v, j, a2, s2));
                            lemma_balance_at(nv, j, a2, s2);
                            lemma_balance_at(old_v, j, a2, s2);
                        } else {
                            if exists|k: int| has_key(old_v, k, a2, s2) {
                                let k = choose|k: int| has_key(old_v, k, a2, s2);
                                assert(has_key(nv, k, a2, s2));
                            }
                        }
                    }
                    assert forall|s2: Seq<u8>| #[trigger]
                        supply_in(nv, s2) + (if s2 == key_s {
                            balance_in(old_v, key_a, key_s)
                        } else {
                            0
                        }) == supply_in(old_v, s2) + (if s2 == key_s {
                            v_val
                        } else {
                            0
                        }) by {
                        lemma_supply_push(old_v, e, s2);
                    }
                }
            }
        },
    }
}

} // verus!
