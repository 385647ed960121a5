use vstd::prelude::*;

verus! {

use crate::amount::Amount;
use crate::decimal::{dec_sat, Decimal};
use crate::table::Table;

/// An account's per-commodity balance container: commodity -> decimal,
/// viewed as a map from commodity views to values in fractional units.
pub type Inventory = Table<Decimal>;

/// The balance a map holds under a commodity, zero when absent.
pub open spec fn bal0(m: Map<Seq<char>, int>, c: Seq<char>) -> int {
    if m.contains_key(c) {
        m[c]
    } else {
        0
    }
}

/// The inventory after adding `x` under commodity `c`.
pub open spec fn inv_add_one(m: Map<Seq<char>, int>, c: Seq<char>, x: int) -> Map<Seq<char>, int> {
    m.insert(c, dec_sat(bal0(m, c) + x))
}

/// The inventory after subtracting every entry of `b` from `a`.
pub open spec fn inv_sub_all(a: Map<Seq<char>, int>, b: Map<Seq<char>, int>) -> Map<
    Seq<char>,
    int,
> {
    Map::new(
        |c: Seq<char>| a.contains_key(c) || b.contains_key(c),
        |c: Seq<char>|
            if b.contains_key(c) {
                dec_sat(bal0(a, c) - b[c])
            } else {
                a[c]
            },
    )
}

/// Whether any commodity holds a non-zero balance.
pub open spec fn inv_has_nonzero(m: Map<Seq<char>, int>) -> bool {
    exists|c: Seq<char>| #[trigger] m.contains_key(c) && m[c] != 0
}

/// Whether some commodity's balance lies strictly beyond the
/// tolerance `0.5 * 10^-p`.
pub open spec fn inv_exceeds_tolerance(m: Map<Seq<char>, int>, p: nat) -> bool {
    exists|c: Seq<char>| #[trigger] m.contains_key(c) && crate::decimal::exceeds_tol(m[c], p)
}

impl Inventory {
    /// The stored balance of a commodity, zero when absent.
    pub fn balance_of(&self, c: &String) -> (r: Decimal)
        ensures
            r@ == bal0(self@, c@),
    {
        match self.get(c) {
            Some(d) => *d,
            None => Decimal::zero(),
        }
    }

    /// Adds `x` to the balance of commodity `c`, creating the entry if
    /// it is absent.
    pub fn add_value(&mut self, c: &String, x: Decimal)
        ensures
            final(self)@ == inv_add_one(old(self)@, c@, x@),
    {
        let cur = self.balance_of(c);
        self.set(c, cur.add(x));
    }

    /// Whether any commodity holds a non-zero balance.
    pub fn has_nonzero(&self) -> (r: bool)
        ensures
            r == inv_has_nonzero(self@),
    {
        let n = self.len();
        let mut i: usize = 0;
        while i < n
            invariant
                n == self.keys_seq().len(),
                i <= n,
                self.vals_seq().len() == n,
                forall|k: Seq<char>| #[trigger] self@.contains_key(k) <==> self.keys_seq().contains(
                    k,
                ),
                forall|j: int|
                    0 <= j < n ==> self@.contains_key(#[trigger] self.keys_seq()[j]) && self@[
                        self.keys_seq()[j]] == self.vals_seq()[j],
                forall|j: int| 0 <= j < i ==> #[trigger] self.vals_seq()[j] == 0,
            decreases n - i,
        {
            if !self.val_at(i).is_zero() {
                proof {
                    assert(self@.contains_key(self.keys_seq()[i as int]) && self@[self.keys_seq()[
                    i as int]] != 0);
                }
                return true;
            }
            i = i + 1;
        }
        proof {
            assert forall|c: Seq<char>| #[trigger] self@.contains_key(c) implies self@[c] == 0 by {
                assert(self.keys_seq().contains(c));
                let j = choose|j: int|
                    0 <= j < self.keys_seq().len() && self.keys_seq()[j] == c;
                assert(self@[c] == self.vals_seq()[j]);
            }
        }
        false
    }

    /// Whether some commodity's balance lies strictly beyond the
    /// tolerance `0.5 * 10^-precision`.
    pub fn any_exceeds_tolerance(&self, precision: u32) -> (r: bool)
        ensures
            r == inv_exceeds_tolerance(self@, precision as nat),
    {
        let n = self.len();
        let mut i: usize = 0;
        while i < n
            invariant
                n == self.keys_seq().len(),
                i <= n,
                self.vals_seq().len() == n,
                forall|k: Seq<char>| #[trigger] self@.contains_key(k) <==> self.keys_seq().contains(
                    k,
                ),
                forall|j: int|
                    0 <= j < n ==> self@.contains_key(#[trigger] self.keys_seq()[j]) && self@[
                        self.keys_seq()[j]] == self.vals_seq()[j],
                forall|j: int|
                    0 <= j < i ==> !crate::decimal::exceeds_tol(
                        #[trigger] self.vals_seq()[j],
                        precision as nat,
                    ),
            decreases n - i,
        {
            if self.val_at(i).exceeds_tolerance(precision) {
                proof {
                    assert(self@.contains_key(self.keys_seq()[i as int])
                        && crate::decimal::exceeds_tol(
                        self@[self.keys_seq()[i as int]],
                        precision as nat,
                    ));
                }
                return true;
            }
            i = i + 1;
        }
        proof {
            assert forall|c: Seq<char>| #[trigger] self@.contains_key(c) implies
                !crate::decimal::exceeds_tol(self@[c], precision as nat) by {
                assert(self.keys_seq().contains(c));
                let j = choose|j: int|
                    0 <= j < self.keys_seq().len() && self.keys_seq()[j] == c;
                assert(self@[c] == self.vals_seq()[j]);
            }
        }
        false
    }

    /// A deep copy with the same contents.
    pub fn duplicate(&self) -> (r: Inventory)
        ensures
            r@ == self@,
    {
        let n = self.len();
        let mut r: Inventory = Table::new();
        let mut i: usize = 0;
        while i < n
            invariant
                n == self.keys_seq().len(),
                i <= n,
                self.vals_seq().len() == n,
                forall|k: Seq<char>| #[trigger] self@.contains_key(k) <==> self.keys_seq().contains(
                    k,
                ),
                forall|j: int|
                    0 <= j < n ==> self@.contains_key(#[trigger] self.keys_seq()[j]) && self@[
                        self.keys_seq()[j]] == self.vals_seq()[j],
                forall|j: int|
                    0 <= j < i ==> r@.contains_key(#[trigger] self.keys_seq()[j]) && r@[
                        self.keys_seq()[j]] == self@[self.keys_seq()[j]],
                forall|q: Seq<char>| #[trigger] r@.contains_key(q) ==> exists|j: int|
                    0 <= j < i && self.keys_seq()[j] == q,
            decreases n - i,
        {
            let k = self.key_at(i);
            let v = *self.val_at(i);
            r.set(k, v);
            proof {
                assert forall|q: Seq<char>| #[trigger] r@.contains_key(q) implies exists|j: int|
                    0 <= j < i + 1 && self.keys_seq()[j] == q by {
                    if q == self.keys_seq()[i as int] {
                        assert(self.keys_seq()[i as int] == q);
                    } else {
                        let j = choose|j: int| 0 <= j < i && self.keys_seq()[j] == q;
                        assert(0 <= j < i + 1 && self.keys_seq()[j] == q);
                    }
                }
            }
            i = i + 1;
        }
        proof {
            assert forall|q: Seq<char>| #[trigger] self@.contains_key(q) implies r@.contains_key(q)
                && r@[q] == self@[q] by {
                assert(self.keys_seq().contains(q));
                let j = choose|j: int|
                    0 <= j < self.keys_seq().len() && self.keys_seq()[j] == q;
            }
            assert forall|q: Seq<char>| #[trigger] r@.contains_key(q) implies self@.contains_key(
                q) by {
                let j = choose|j: int| 0 <= j < n && self.keys_seq()[j] == q;
            }
            assert(r@ =~= self@);
        }
        r
    }

    /// Subtracts every entry of `other` from this inventory.
    pub fn sub_inventory(&mut self, other: &Inventory)
        ensures
            final(self)@ == inv_sub_all(old(self)@, other@),
    {
        let ghost a = self@;
        let ghost ks = other.keys_seq();
        let n = other.len();
        let mut i: usize = 0;
        while i < n
            invariant
                n == ks.len(),
                ks == other.keys_seq(),
                i <= n,
                other.vals_seq().len() == n,
                crate::table::keys_distinct(ks),
                forall|k: Seq<char>| #[trigger] other@.contains_key(k) <==> ks.contains(k),
                forall|j: int|
                    0 <= j < n ==> other@.contains_key(#[trigger] ks[j]) && other@[ks[j]]
                        == other.vals_seq()[j],
                forall|q: Seq<char>|
                    #[trigger] self@.contains_key(q) <==> (a.contains_key(q) || exists|j: int|
                        0 <= j < i && ks[j] == q),
                forall|j: int|
                    0 <= j < i ==> self@[#[trigger] ks[j]] == dec_sat(bal0(a, ks[j]) - other@[
                        ks[j]]),
                forall|q: Seq<char>|
                    (#[trigger] a.contains_key(q) && !(exists|j: int| 0 <= j < i && ks[j] == q))
                        ==> self@.contains_key(q) && self@[q] == a[q],
            decreases n - i,
        {
            let ghost prev = self@;
            let c = other.key_at(i);
            let v = *other.val_at(i);
            self.add_value(c, v.neg());
            proof {
                assert(c@ == ks[i as int]);
                assert(!(exists|j: int| 0 <= j < i && ks[j] == c@)) by {
                    if exists|j: int| 0 <= j < i && ks[j] == c@ {
                        let j = choose|j: int| 0 <= j < i && ks[j] == c@;
                        assert(ks[j] != ks[i as int]);
                    }
                }
                assert(bal0(prev, c@) == bal0(a, c@));
                assert forall|q: Seq<char>| #[trigger] self@.contains_key(q) implies (
                a.contains_key(q) || exists|j: int| 0 <= j < i + 1 && ks[j] == q) by {
                    if q == c@ {
                        assert(0 <= i < i + 1 && ks[i as int] == q);
                    }
                }
                assert forall|q: Seq<char>|
                    (a.contains_key(q) || exists|j: int| 0 <= j < i + 1 && ks[j] == q)
                    implies #[trigger] self@.contains_key(q) by {}
                assert forall|j: int| 0 <= j < i + 1 implies self@[#[trigger] ks[j]] == dec_sat(
                    bal0(a, ks[j]) - other@[ks[j]]) by {
                    if j < i {
                        assert(ks[j] != ks[i as int]);
                    }
                }
            }
            i = i + 1;
        }
        proof {
            assert forall|q: Seq<char>|
                #[trigger] inv_sub_all(a, other@).contains_key(q) implies self@.contains_key(q)
                && self@[q] == inv_sub_all(a, other@)[q] by {
                if other@.contains_key(q) {
                    assert(ks.contains(q));
                    let j = choose|j: int| 0 <= j < ks.len() && ks[j] == q;
                    assert(self@[ks[j]] == dec_sat(bal0(a, ks[j]) - other@[ks[j]]));
                } else {
                    assert(!(exists|j: int| 0 <= j < n && ks[j] == q)) by {
                        if exists|j: int| 0 <= j < n && ks[j] == q {
                            let j = choose|j: int| 0 <= j < n && ks[j] == q;
                            assert(ks.contains(q));
                        }
                    }
                }
            }
            assert forall|q: Seq<char>| #[trigger] self@.contains_key(q) implies inv_sub_all(
                a, other@).contains_key(q) by {
                if !a.contains_key(q) {
                    let j = choose|j: int| 0 <= j < n && ks[j] == q;
                    assert(ks.contains(q));
                }
            }
            assert(self@ =~= inv_sub_all(a, other@));
        }
    }
}

/// An account's state: its inventory. Conversions against the price
/// grip are carried out by the ledger, which owns the grip.
pub struct AccountSnapshot {
    pub inner: Inventory,
}

impl View for AccountSnapshot {
    type V = Map<Seq<char>, int>;

    open spec fn view(&self) -> Map<Seq<char>, int> {
        self.inner@
    }
}

impl AccountSnapshot {
    /// A snapshot holding nothing.
    pub fn empty() -> (r: AccountSnapshot)
        ensures
            r@ == Map::<Seq<char>, int>::empty(),
    {
        AccountSnapshot { inner: Table::new() }
    }

    /// Adds an amount to the inventory.
    pub fn add_amount(&mut self, amount: &Amount)
        ensures
            final(self)@ == inv_add_one(old(self)@, amount@.currency, amount@.number),
    {
        self.inner.add_value(&amount.currency, amount.number);
    }

    /// The stored balance of a commodity, zero when absent.
    pub fn get(&self, currency: &String) -> (r: Decimal)
        ensures
            r@ == bal0(self@, currency@),
    {
        self.inner.balance_of(currency)
    }

    /// A deep copy with the same contents.
    pub fn duplicate(&self) -> (r: AccountSnapshot)
        ensures
            r@ == self@,
    {
        AccountSnapshot { inner: self.inner.duplicate() }
    }
}

impl Table<AccountSnapshot> {
    /// A deep copy of a whole account -> snapshot table.
    pub fn duplicate(&self) -> (r: Table<AccountSnapshot>)
        ensures
            r@ == self@,
    {
        let n = self.len();
        let mut r: Table<AccountSnapshot> = Table::new();
        let mut i: usize = 0;
        while i < n
            invariant
                n == self.keys_seq().len(),
                i <= n,
                self.vals_seq().len() == n,
                forall|k: Seq<char>| #[trigger] self@.contains_key(k) <==> self.keys_seq().contains(
                    k,
                ),
                forall|j: int|
                    0 <= j < n ==> self@.contains_key(#[trigger] self.keys_seq()[j]) && self@[
                        self.keys_seq()[j]] == self.vals_seq()[j],
                forall|j: int|
                    0 <= j < i ==> r@.contains_key(#[trigger] self.keys_seq()[j]) && r@[
                        self.keys_seq()[j]] == self@[self.keys_seq()[j]],
                forall|q: Seq<char>| #[trigger] r@.contains_key(q) ==> exists|j: int|
                    0 <= j < i && self.keys_seq()[j] == q,
            decreases n - i,
        {
            let k = self.key_at(i);
            let v = self.val_at(i).duplicate();
            r.set(k, v);
            proof {
                assert forall|q: Seq<char>| #[trigger] r@.contains_key(q) implies exists|j: int|
                    0 <= j < i + 1 && self.keys_seq()[j] == q by {
                    if q == self.keys_seq()[i as int] {
                        assert(self.keys_seq()[i as int] == q);
                    } else {
                        let j = choose|j: int| 0 <= j < i && self.keys_seq()[j] == q;
                        assert(0 <= j < i + 1 && self.keys_seq()[j] == q);
                    }
                }
            }
            i = i + 1;
        }
        proof {
            assert forall|q: Seq<char>| #[trigger] self@.contains_key(q) implies r@.contains_key(q)
                && r@[q] == self@[q] by {
                assert(self.keys_seq().contains(q));
                let j = choose|j: int|
                    0 <= j < self.keys_seq().len() && self.keys_seq()[j] == q;
            }
            assert forall|q: Seq<char>| #[trigger] r@.contains_key(q) implies self@.contains_key(
                q) by {
                let j = choose|j: int| 0 <= j < n && self.keys_seq()[j] == q;
            }
            assert(r@ =~= self@);
        }
        r
    }
}

} // verus!
