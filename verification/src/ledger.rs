use vstd::prelude::*;

verus! {

use crate::amount::AccountName;
use crate::error::{LedgerError, LedgerErrorV};
use crate::inventory::AccountSnapshot;
use crate::price_grip::{DatedPriceGrip, PriceObs, PriceObsV};
use crate::table::Table;

/// The lifecycle state of an account.
#[derive(Clone, Copy, Debug, PartialEq, Eq, Structural)]
pub enum AccountStatus {
    Open,
    Close,
}

/// Marker value for set-like tables: presence is all that matters.
#[derive(Clone, Copy, Debug, PartialEq, Eq, Structural)]
pub struct Present;

impl View for Present {
    type V = ();

    open spec fn view(&self) -> () {
        ()
    }
}

/// A set of commodity names.
pub type CurrencySet = Table<Present>;

impl CurrencySet {
    /// A deep copy with the same contents.
    pub fn duplicate_set(&self) -> (r: CurrencySet)
        ensures
            r@ == self@,
    {
        let n = self.len();
        let mut r: CurrencySet = Table::new();
        let mut i: usize = 0;
        while i < n
            invariant
                n == self.keys_seq().len(),
                i <= n,
                self.vals_seq().len() == n,
                forall|k: Seq<char>| #[trigger] self@.contains_key(k) <==> self.keys_seq().contains(
                    k,
                ),
                forall|j: int|
                    0 <= j < n ==> self@.contains_key(#[trigger] self.keys_seq()[j]) && self@[
                        self.keys_seq()[j]] == self.vals_seq()[j],
                forall|j: int|
                    0 <= j < i ==> r@.contains_key(#[trigger] self.keys_seq()[j]) && r@[
                        self.keys_seq()[j]] == self@[self.keys_seq()[j]],
                forall|q: Seq<char>| #[trigger] r@.contains_key(q) ==> exists|j: int|
                    0 <= j < i && self.keys_seq()[j] == q,
            decreases n - i,
        {
            let k = self.key_at(i);
            r.set(k, Present);
            proof {
                assert forall|q: Seq<char>| #[trigger] r@.contains_key(q) implies exists|j: int|
                    0 <= j < i + 1 && self.keys_seq()[j] == q by {
                    if q == self.keys_seq()[i as int] {
                        assert(self.keys_seq()[i as int] == q);
                    } else {
                        let j = choose|j: int| 0 <= j < i && self.keys_seq()[j] == q;
                        assert(0 <= j < i + 1 && self.keys_seq()[j] == q);
                    }
                }
            }
            i = i + 1;
        }
        proof {
            assert forall|q: Seq<char>| #[trigger] self@.contains_key(q) implies r@.contains_key(q)
                && r@[q] == self@[q] by {
                assert(self.keys_seq().contains(q));
                let j = choose|j: int|
                    0 <= j < self.keys_seq().len() && self.keys_seq()[j] == q;
            }
            assert forall|q: Seq<char>| #[trigger] r@.contains_key(q) implies self@.contains_key(
                q) by {
                let j = choose|j: int| 0 <= j < n && self.keys_seq()[j] == q;
            }
            assert(r@ =~= self@);
        }
        r
    }
}

/// A metadata map: key -> value strings.
pub type MetaTable = Table<String>;

impl MetaTable {
    /// A deep copy with the same contents.
    pub fn duplicate_meta(&self) -> (r: MetaTable)
        ensures
            r@ == self@,
    {
        let n = self.len();
        let mut r: MetaTable = Table::new();
        let mut i: usize = 0;
        while i < n
            invariant
                n == self.keys_seq().len(),
                i <= n,
                self.vals_seq().len() == n,
                forall|k: Seq<char>| #[trigger] self@.contains_key(k) <==> self.keys_seq().contains(
                    k,
                ),
                forall|j: int|
                    0 <= j < n ==> self@.contains_key(#[trigger] self.keys_seq()[j]) && self@[
                        self.keys_seq()[j]] == self.vals_seq()[j],
                forall|j: int|
                    0 <= j < i ==> r@.contains_key(#[trigger] self.keys_seq()[j]) && r@[
                        self.keys_seq()[j]] == self@[self.keys_seq()[j]],
                forall|q: Seq<char>| #[trigger] r@.contains_key(q) ==> exists|j: int|
                    0 <= j < i && self.keys_seq()[j] == q,
            decreases n - i,
        {
            let k = self.key_at(i);
            let v = self.val_at(i).clone();
            r.set(k, v);
            proof {
                assert forall|q: Seq<char>| #[trigger] r@.contains_key(q) implies exists|j: int|
                    0 <= j < i + 1 && self.keys_seq()[j] == q by {
                    if q == self.keys_seq()[i as int] {
                        assert(self.keys_seq()[i as int] == q);
                    } else {
                        let j = choose|j: int| 0 <= j < i && self.keys_seq()[j] == q;
                        assert(0 <= j < i + 1 && self.keys_seq()[j] == q);
                    }
                }
            }
            i = i + 1;
        }
        proof {
            assert forall|q: Seq<char>| #[trigger] self@.contains_key(q) implies r@.contains_key(q)
                && r@[q] == self@[q] by {
                assert(self.keys_seq().contains(q));
                let j = choose|j: int|
                    0 <= j < self.keys_seq().len() && self.keys_seq()[j] == q;
            }
            assert forall|q: Seq<char>| #[trigger] r@.contains_key(q) implies self@.contains_key(
                q) by {
                let j = choose|j: int| 0 <= j < n && self.keys_seq()[j] == q;
            }
            assert(r@ =~= self@);
        }
        r
    }
}

/// What the ledger knows about an account.
pub struct AccountInfo {
    pub status: AccountStatus,
    pub currencies: CurrencySet,
    pub meta: MetaTable,
}

pub struct AccountInfoV {
    pub status: AccountStatus,
    pub currencies: Map<Seq<char>, ()>,
    pub meta: Map<Seq<char>, Seq<char>>,
}

impl View for AccountInfo {
    type V = AccountInfoV;

    open spec fn view(&self) -> AccountInfoV {
        AccountInfoV { status: self.status, currencies: self.currencies@, meta: self.meta@ }
    }
}

impl AccountInfo {
    /// A fresh, open account with no restrictions.
    pub fn opened() -> (r: AccountInfo)
        ensures
            r@.status == AccountStatus::Open,
            r@.currencies == Map::<Seq<char>, ()>::empty(),
            r@.meta == Map::<Seq<char>, Seq<char>>::empty(),
    {
        AccountInfo { status: AccountStatus::Open, currencies: Table::new(), meta: Table::new() }
    }

    /// A deep copy with the same contents.
    pub fn duplicate(&self) -> (r: AccountInfo)
        ensures
            r@ == self@,
    {
        AccountInfo {
            status: self.status,
            currencies: self.currencies.duplicate_set(),
            meta: self.meta.duplicate_meta(),
        }
    }
}

/// What the ledger knows about a declared commodity.
pub struct CurrencyInfo {
    pub meta: MetaTable,
    pub prices: Vec<PriceObs>,
}

pub struct CurrencyInfoV {
    pub meta: Map<Seq<char>, Seq<char>>,
    pub prices: Seq<PriceObsV>,
}

impl View for CurrencyInfo {
    type V = CurrencyInfoV;

    open spec fn view(&self) -> CurrencyInfoV {
        CurrencyInfoV { meta: self.meta@, prices: self.prices@.map(|i: int, o: PriceObs| o@) }
    }
}

impl CurrencyInfo {
    pub fn empty() -> (r: CurrencyInfo)
        ensures
            r@.meta == Map::<Seq<char>, Seq<char>>::empty(),
            r@.prices == Seq::<PriceObsV>::empty(),
    {
        let r = CurrencyInfo { meta: Table::new(), prices: Vec::new() };
        proof {
            assert(r@.prices =~= Seq::<PriceObsV>::empty());
        }
        r
    }

    /// A deep copy with the same contents.
    pub fn duplicate(&self) -> (r: CurrencyInfo)
        ensures
            r@ == self@,
    {
        let n: usize = self.prices.len();
        let mut prices: Vec<PriceObs> = Vec::new();
        let mut i: usize = 0;
        while i < n
            invariant
                n == self.prices@.len(),
                i <= n,
                prices@.len() == i,
                forall|j: int| 0 <= j < i ==> #[trigger] prices@[j]@ == self.prices@[j]@,
            decreases n - i,
        {
            let o = &self.prices[i];
            prices.push(
                PriceObs {
                    date: o.date,
                    base: o.base.clone(),
                    quote: o.quote.clone(),
                    rate: o.rate,
                },
            );
            i = i + 1;
        }
        let r = CurrencyInfo { meta: self.meta.duplicate_meta(), prices };
        proof {
            assert(r@.prices =~= self@.prices);
        }
        r
    }
}

/// A document attached to the ledger.
#[derive(Clone, Debug, PartialEq)]
pub enum DocumentType {
    AccountDocument { date: u64, account: AccountName, filename: String },
}

pub enum DocumentTypeV {
    AccountDocument { date: int, account: Seq<char>, filename: Seq<char> },
}

impl View for DocumentType {
    type V = DocumentTypeV;

    open spec fn view(&self) -> DocumentTypeV {
        match self {
            DocumentType::AccountDocument { date, account, filename } => DocumentTypeV::AccountDocument {
                date: *date as int,
                account: account@,
                filename: filename@,
            },
        }
    }
}

/// The frozen per-day copies of the account snapshots, keyed by day.
pub struct DailyAccountSnapshot {
    days: Vec<(u64, Table<AccountSnapshot>)>,
}

impl DailyAccountSnapshot {
    #[verifier::type_invariant]
    pub closed spec fn inv(self) -> bool {
        forall|i: int, j: int|
            0 <= i < j < self.days@.len() ==> self.days@[i].0 != self.days@[j].0
    }

    pub fn new() -> (r: DailyAccountSnapshot)
        ensures
            r@ == Map::<int, Map<Seq<char>, Map<Seq<char>, int>>>::empty(),
    {
        let r = DailyAccountSnapshot { days: Vec::new() };
        proof {
            assert(r@ =~= Map::<int, Map<Seq<char>, Map<Seq<char>, int>>>::empty());
        }
        r
    }

    fn find_index(&self, day: u64) -> (r: Option<usize>)
        ensures
            match r {
                Some(j) => j < self.days@.len() && self.days@[j as int].0 == day,
                None => forall|j: int| 0 <= j < self.days@.len() ==> self.days@[j].0 != day,
            },
    {
        let n: usize = self.days.len();
        let mut i: usize = 0;
        while i < n
            invariant
                n == self.days@.len(),
                i <= n,
                forall|j: int| 0 <= j < i ==> self.days@[j].0 != day,
            decreases n - i,
        {
            if self.days[i].0 == day {
                return Some(i);
            }
            i = i + 1;
        }
        None
    }

    proof fn lemma_view_index(self, i: int)
        requires
            self.inv(),
            0 <= i < self.days@.len(),
        ensures
            self@.contains_key(self.days@[i].0 as int),
            self@[self.days@[i].0 as int] == self.days@[i].1@,
    {
        let k = self.days@[i].0 as int;
        assert(exists|j: int|
            0 <= j < self.days@.len() && self.days@[j].0 as int == k);
        let j = day_witness(self.days@, k);
        assert(0 <= j < self.days@.len() && self.days@[j].0 as int == k);
        if j != i {
            if j < i {
                assert(self.days@[j].0 != self.days@[i].0);
            } else {
                assert(self.days@[i].0 != self.days@[j].0);
            }
        }
        assert(j == i);
    }

    /// Freezes a snapshot for a day, replacing any earlier copy.
    pub fn insert_snapshot(&mut self, day: u64, snapshot: Table<AccountSnapshot>)
        ensures
            final(self)@ == old(self)@.insert(day as int, snapshot@),
    {
        proof {
            use_type_invariant(&*self);
        }
        let ghost pre = *self;
        let found = self.find_index(day);
        let mut moved: Vec<(u64, Table<AccountSnapshot>)> = Vec::new();
        core::mem::swap(&mut self.days, &mut moved);
        match found {
            Some(j) => {
                moved[j] = (day, snapshot);
            },
            None => {
                moved.push((day, snapshot));
            },
        }
        core::mem::swap(&mut self.days, &mut moved);
        proof {
            match found {
                Some(j) => {
                    assert forall|q: int| #[trigger] self@.contains_key(q) implies pre@.insert(
                        day as int,
                        snapshot@,
                    ).contains_key(q) by {
                        let i = day_witness(self.days@, q);
                        assert(0 <= i < self.days@.len() && self.days@[i].0 as int == q);
                        assert(pre.days@[i].0 as int == q || q == day as int);
                    }
                    assert forall|q: int| #[trigger] pre@.insert(day as int, snapshot@).contains_key(
                        q,
                    ) implies self@.contains_key(q) && self@[q] == pre@.insert(
                        day as int,
                        snapshot@,
                    )[q] by {
                        if q == day as int {
                            self.lemma_view_index(j as int);
                        } else {
                            let i = day_witness(pre.days@, q);
                            assert(0 <= i < pre.days@.len() && pre.days@[i].0 as int == q);
                            assert(self.days@[i].0 as int == q && self.days@[i].1@
                                == pre.days@[i].1@);
                            self.lemma_view_index(i);
                            pre.lemma_view_index(i);
                        }
                    }
                    assert(self@ =~= pre@.insert(day as int, snapshot@));
                },
                None => {
                    let n = pre.days@.len() as int;
                    assert forall|q: int| #[trigger] self@.contains_key(q) implies pre@.insert(
                        day as int,
                        snapshot@,
                    ).contains_key(q) by {
                        let i = day_witness(self.days@, q);
                        assert(0 <= i < self.days@.len() && self.days@[i].0 as int == q);
                        if i < n {
                            assert(pre.days@[i].0 as int == q);
                        } else {
                            assert(q == day as int);
                        }
                    }
                    assert forall|q: int| #[trigger] pre@.insert(day as int, snapshot@).contains_key(
                        q,
                    ) implies self@.contains_key(q) && self@[q] == pre@.insert(
                        day as int,
                        snapshot@,
                    )[q] by {
                        if q == day as int {
                            self.lemma_view_index(n);
                        } else {
                            let i = day_witness(pre.days@, q);
                            assert(0 <= i < pre.days@.len() && pre.days@[i].0 as int == q);
                            assert(self.days@[i].0 as int == q && self.days@[i].1@
                                == pre.days@[i].1@);
                            self.lemma_view_index(i);
                            pre.lemma_view_index(i);
                        }
                    }
                    assert(self@ =~= pre@.insert(day as int, snapshot@));
                },
            }
        }
    }

    /// The frozen snapshot of a day, if one was recorded.
    pub fn get_snapshot<'a>(&'a self, day: u64) -> (r: Option<&'a Table<AccountSnapshot>>)
        ensures
            match r {
                Some(t) => self@.contains_key(day as int) && t@ == self@[day as int],
                None => !self@.contains_key(day as int),
            },
    {
        proof {
            use_type_invariant(self);
        }
        match self.find_index(day) {
            Some(j) => {
                proof {
                    self.lemma_view_index(j as int);
                }
                Some(&self.days[j].1)
            },
            None => {
                proof {
                    if self@.contains_key(day as int) {
                        let i = day_witness(self.days@, day as int);
                        assert(0 <= i < self.days@.len() && self.days@[i].0 as int
                            == day as int);
                    }
                }
                None
            },
        }
    }
}

spec fn day_witness(s: Seq<(u64, Table<AccountSnapshot>)>, k: int) -> int {
    choose|i: int| 0 <= i < s.len() && s[i].0 as int == k
}

impl View for DailyAccountSnapshot {
    type V = Map<int, Map<Seq<char>, Map<Seq<char>, int>>>;

    closed spec fn view(&self) -> Map<int, Map<Seq<char>, Map<Seq<char>, int>>> {
        Map::new(
            |k: int| exists|i: int| 0 <= i < self.days@.len() && self.days@[i].0 as int == k,
            |k: int| self.days@[day_witness(self.days@, k)].1@,
        )
    }
}

/// The mathematical content of a `Ledger`.
pub struct LedgerV {
    pub accounts: Map<Seq<char>, AccountInfoV>,
    pub currencies: Map<Seq<char>, CurrencyInfoV>,
    pub options: Map<Seq<char>, Seq<char>>,
    pub documents: Map<Seq<char>, DocumentTypeV>,
    pub prices: Seq<PriceObsV>,
    pub snapshot: Map<Seq<char>, Map<Seq<char>, int>>,
    pub daily_snapshot: Map<int, Map<Seq<char>, Map<Seq<char>, int>>>,
    pub errors: Seq<LedgerErrorV>,
}

/// The aggregate the processor builds and the query layer reads.
pub struct Ledger {
    pub accounts: Table<AccountInfo>,
    pub currencies: Table<CurrencyInfo>,
    pub options: Table<String>,
    pub documents: Table<DocumentType>,
    pub prices: DatedPriceGrip,
    pub snapshot: Table<AccountSnapshot>,
    pub daily_snapshot: DailyAccountSnapshot,
    pub errors: Vec<LedgerError>,
}

impl View for Ledger {
    type V = LedgerV;

    open spec fn view(&self) -> LedgerV {
        LedgerV {
            accounts: self.accounts@,
            currencies: self.currencies@,
            options: self.options@,
            documents: self.documents@,
            prices: self.prices@,
            snapshot: self.snapshot@,
            daily_snapshot: self.daily_snapshot@,
            errors: self.errors@.map(|i: int, e: LedgerError| e@),
        }
    }
}

/// The empty ledger model.
pub open spec fn ledger_empty() -> LedgerV {
    LedgerV {
        accounts: Map::empty(),
        currencies: Map::empty(),
        options: Map::empty(),
        documents: Map::empty(),
        prices: Seq::empty(),
        snapshot: Map::empty(),
        daily_snapshot: Map::empty(),
        errors: Seq::empty(),
    }
}

impl Ledger {
    /// A ledger holding nothing.
    pub fn new() -> (r: Ledger)
        ensures
            r@ == ledger_empty(),
    {
        let r = Ledger {
            accounts: Table::new(),
            currencies: Table::new(),
            options: Table::new(),
            documents: Table::new(),
            prices: DatedPriceGrip::new(),
            snapshot: Table::new(),
            daily_snapshot: DailyAccountSnapshot::new(),
            errors: Vec::new(),
        };
        proof {
            assert(r@.errors =~= Seq::<LedgerErrorV>::empty());
            assert(r@ == ledger_empty());
        }
        r
    }
}

} // verus!
