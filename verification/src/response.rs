use vstd::prelude::*;

verus! {

use vstd::utf8::encode_utf8;
use crate::amount::{AmountV, Currency};
use crate::decimal::{dec_sat, Decimal};
use crate::inventory::bal0;
use crate::ledger::{AccountStatus, Ledger};

/// An amount as the query layer reports it.
#[derive(Clone, Debug, PartialEq)]
pub struct AmountResponse {
    pub number: Decimal,
    pub commodity: Currency,
}

impl View for AmountResponse {
    type V = AmountV;

    open spec fn view(&self) -> AmountV {
        AmountV { number: self.number@, currency: self.commodity@ }
    }
}

/// One metadata entry as the query layer reports it.
#[derive(Clone, Debug, PartialEq)]
pub struct MetaResponse {
    pub key: String,
    pub value: String,
}

impl MetaResponse {
    pub fn new(key: String, value: String) -> (r: MetaResponse)
        ensures
            r.key@ == key@,
            r.value@ == value@,
    {
        MetaResponse { key, value }
    }
}

/// An account with its status and commodity balances.
#[derive(Clone, Debug, PartialEq)]
pub struct AccountResponse {
    pub name: String,
    pub status: String,
    pub commodities: Vec<AmountResponse>,
}

/// One posting of a journal listing, with the inferred units and the
/// account balance around it.
#[derive(Clone, Debug, PartialEq)]
pub struct JournalTransactionPostingResponse {
    pub account: String,
    pub unit_number: Option<Decimal>,
    pub unit_commodity: Option<String>,
    pub cost_number: Option<Decimal>,
    pub cost_commodity: Option<String>,
    pub price_number: Option<Decimal>,
    pub price_commodity: Option<String>,
    pub inferred_unit_number: Decimal,
    pub inferred_unit_commodity: String,
    pub account_before_number: Decimal,
    pub account_before_commodity: String,
    pub account_after_number: Decimal,
    pub account_after_commodity: String,
}

/// A balance check in a journal listing.
#[derive(Clone, Debug, PartialEq)]
pub struct JournalBalanceCheckItemResponse {
    pub id: String,
    pub sequence: i64,
}

impl JournalBalanceCheckItemResponse {
    pub fn new(id: String, sequence: i64) -> (r: JournalBalanceCheckItemResponse)
        ensures
            r.id@ == id@,
            r.sequence == sequence,
    {
        JournalBalanceCheckItemResponse { id, sequence }
    }
}

/// What a client needs to draft a transaction: the payees seen so far
/// and the account names the ledger knows.
#[derive(Clone, Debug, PartialEq)]
pub struct InfoForNewTransaction {
    pub payee: Vec<String>,
    pub account_name: Vec<String>,
}

/// A source file with its text.
#[derive(Clone, Debug, PartialEq)]
pub struct FileDetailResponse {
    pub path: String,
    pub content: String,
}

impl FileDetailResponse {
    pub fn new(path: String, content: String) -> (r: FileDetailResponse)
        ensures
            r.path@ == path@,
            r.content@ == content@,
    {
        FileDetailResponse { path, content }
    }
}

/// The four headline figures of the ledger, in one commodity.
#[derive(Clone, Debug, PartialEq)]
pub struct CurrentStatisticResponse {
    pub balance: AmountResponse,
    pub liability: AmountResponse,
    pub income: AmountResponse,
    pub expense: AmountResponse,
}

/// The display name of an account status.
pub open spec fn status_str(s: AccountStatus) -> Seq<char> {
    match s {
        AccountStatus::Open => "Open"@,
        AccountStatus::Close => "Close"@,
    }
}

/// Whether `p` is a prefix of `s`.
pub open spec fn bytes_prefix(p: Seq<u8>, s: Seq<u8>) -> bool {
    p.len() <= s.len() && s.take(p.len() as int) == p
}

/// The saturated sum of the balances of commodity `c` over the first
/// `n` accounts whose name starts with `prefix`.
pub open spec fn sum_balances(
    ks: Seq<Seq<char>>,
    vs: Seq<Map<Seq<char>, int>>,
    n: int,
    prefix: Seq<char>,
    c: Seq<char>,
) -> int
    decreases n,
{
    if n <= 0 {
        0
    } else {
        let rest = sum_balances(ks, vs, n - 1, prefix, c);
        if bytes_prefix(encode_utf8(prefix), encode_utf8(ks[n - 1])) {
            dec_sat(rest + bal0(vs[n - 1], c))
        } else {
            rest
        }
    }
}

/// Whether `p` names a prefix of `s`, byte-wise.
pub fn str_has_prefix(s: &str, p: &str) -> (r: bool)
    ensures
        r == bytes_prefix(encode_utf8(p@), encode_utf8(s@)),
{
    let sb = s.as_bytes();
    let pb = p.as_bytes();
    let n: usize = pb.len();
    if n > sb.len() {
        return false;
    }
    let mut i: usize = 0;
    while i < n
        invariant
            sb@ == encode_utf8(s@),
            pb@ == encode_utf8(p@),
            n == pb@.len(),
            n <= sb@.len(),
            i <= n,
            forall|j: int| 0 <= j < i ==> sb@[j] == pb@[j],
        decreases n - i,
    {
        if sb[i] != pb[i] {
            proof {
                assert(sb@.take(n as int)[i as int] != pb@[i as int]);
            }
            return false;
        }
        i = i + 1;
    }
    proof {
        assert(sb@.take(n as int) =~= pb@);
    }
    true
}

impl Ledger {
    /// The account list: every account the ledger knows, its status,
    /// and its balance in every commodity its snapshot holds.
    pub fn account_list(&self) -> (r: Vec<AccountResponse>)
        ensures
            r@.len() == self.accounts.keys_seq().len(),
            forall|i: int|
                0 <= i < r@.len() ==> #[trigger] r@[i].name@ == self.accounts.keys_seq()[i],
            forall|i: int|
                0 <= i < r@.len() ==> self@.accounts.contains_key(#[trigger] r@[i].name@)
                    && r@[i].status@ == status_str(self@.accounts[r@[i].name@].status),
            forall|i: int, j: int|
                0 <= i < r@.len() && 0 <= j < r@[i].commodities@.len()
                    ==> bal0(
                    crate::semantics::snap_of(self@, #[trigger] r@[i].name@),
                    #[trigger] r@[i].commodities@[j]@.currency,
                ) == r@[i].commodities@[j]@.number,
    {
        let n = self.accounts.len();
        let mut r: Vec<AccountResponse> = Vec::new();
        let mut i: usize = 0;
        while i < n
            invariant
                n == self.accounts.keys_seq().len(),
                i <= n,
                r@.len() == i,
                forall|k: Seq<char>| #[trigger] self.accounts@.contains_key(k)
                    <==> self.accounts.keys_seq().contains(k),
                forall|x: int|
                    0 <= x < n ==> self.accounts@.contains_key(
                        #[trigger] self.accounts.keys_seq()[x],
                    ) && self.accounts@[self.accounts.keys_seq()[x]]
                        == self.accounts.vals_seq()[x],
                self.accounts.vals_seq().len() == n,
                forall|x: int|
                    0 <= x < i ==> #[trigger] r@[x].name@ == self.accounts.keys_seq()[x],
                forall|x: int|
                    0 <= x < i ==> self@.accounts.contains_key(#[trigger] r@[x].name@) && r@[
                        x].status@ == status_str(self@.accounts[r@[x].name@].status),
                forall|x: int, j: int|
                    0 <= x < i && 0 <= j < r@[x].commodities@.len()
                        ==> bal0(
                        crate::semantics::snap_of(self@, #[trigger] r@[x].name@),
                        #[trigger] r@[x].commodities@[j]@.currency,
                    ) == r@[x].commodities@[j]@.number,
            decreases n - i,
        {
            let name = self.accounts.key_at(i).clone();
            let status: String = match self.accounts.val_at(i).status {
                AccountStatus::Open => "Open".to_owned(),
                AccountStatus::Close => "Close".to_owned(),
            };
            let mut commodities: Vec<AmountResponse> = Vec::new();
            match self.snapshot.get(&name) {
                Some(snap) => {
                    let m = snap.inner.len();
                    let mut j: usize = 0;
                    while j < m
                        invariant
                            m == snap.inner.keys_seq().len(),
                            j <= m,
                            snap.inner.vals_seq().len() == m,
                            self@.snapshot.contains_key(name@),
                            snap.inner@ == self@.snapshot[name@],
                            forall|x: int|
                                0 <= x < m ==> snap.inner@.contains_key(
                                    #[trigger] snap.inner.keys_seq()[x],
                                ) && snap.inner@[snap.inner.keys_seq()[x]]
                                    == snap.inner.vals_seq()[x],
                            commodities@.len() == j,
                            forall|x: int|
                                0 <= x < j ==> bal0(
                                    crate::semantics::snap_of(self@, name@),
                                    #[trigger] commodities@[x]@.currency,
                                ) == commodities@[x]@.number,
                        decreases m - j,
                    {
                        let c = snap.inner.key_at(j).clone();
                        let v = *snap.inner.val_at(j);
                        commodities.push(AmountResponse { number: v, commodity: c });
                        j = j + 1;
                    }
                },
                None => {},
            }
            r.push(AccountResponse { name, status, commodities });
            i = i + 1;
        }
        r
    }

    /// The balance of one account in one commodity as of a frozen
    /// day: `None` when no snapshot was recorded for that day.
    pub fn balance_at_day(&self, day: u64, account: &String, commodity: &String) -> (r: Option<
        Decimal,
    >)
        ensures
            match r {
                Some(v) => self@.daily_snapshot.contains_key(day as int) && v@ == bal0(
                    if self@.daily_snapshot[day as int].contains_key(account@) {
                        self@.daily_snapshot[day as int][account@]
                    } else {
                        Map::empty()
                    },
                    commodity@,
                ),
                None => !self@.daily_snapshot.contains_key(day as int),
            },
    {
        match self.daily_snapshot.get_snapshot(day) {
            Some(t) => match t.get(account) {
                Some(snap) => Some(snap.get(commodity)),
                None => Some(Decimal::zero()),
            },
            None => None,
        }
    }

    /// The rate the grip picks for `base -> quote` as of `date`.
    pub fn price_lookup(&self, date: u64, base: &String, quote: &String) -> (r: Option<Decimal>)
        ensures
            match r {
                Some(rate) => crate::price_grip::grip_best(
                    self@.prices,
                    date as int,
                    base@,
                    quote@,
                ).is_some() && crate::price_grip::grip_best(
                    self@.prices,
                    date as int,
                    base@,
                    quote@,
                ).unwrap().rate == rate@,
                None => crate::price_grip::grip_best(
                    self@.prices,
                    date as int,
                    base@,
                    quote@,
                ).is_none(),
            },
    {
        self.prices.lookup_rate(date, base, quote)
    }

    /// The account names a new transaction can draw on. The ledger
    /// keeps no transaction log, so the payee list is empty.
    pub fn info_for_new_transaction(&self) -> (r: InfoForNewTransaction)
        ensures
            r.payee@.len() == 0,
            r.account_name@.len() == self.accounts.keys_seq().len(),
            forall|i: int|
                0 <= i < r.account_name@.len() ==> #[trigger] r.account_name@[i]@
                    == self.accounts.keys_seq()[i],
    {
        let n = self.accounts.len();
        let mut names: Vec<String> = Vec::new();
        let mut i: usize = 0;
        while i < n
            invariant
                n == self.accounts.keys_seq().len(),
                i <= n,
                names@.len() == i,
                forall|x: int|
                    0 <= x < i ==> #[trigger] names@[x]@ == self.accounts.keys_seq()[x],
            decreases n - i,
        {
            names.push(self.accounts.key_at(i).clone());
            i = i + 1;
        }
        InfoForNewTransaction { payee: Vec::new(), account_name: names }
    }

    /// The saturated sum, in `commodity`, of every account whose name
    /// starts with `prefix`.
    pub fn sum_account_type(&self, prefix: &str, commodity: &String) -> (r: Decimal)
        ensures
            r@ == sum_balances(
                self.snapshot.keys_seq(),
                self.snapshot.vals_seq(),
                self.snapshot.keys_seq().len() as int,
                prefix@,
                commodity@,
            ),
    {
        let n = self.snapshot.len();
        let mut acc = Decimal::zero();
        let mut i: usize = 0;
        while i < n
            invariant
                n == self.snapshot.keys_seq().len(),
                i <= n,
                self.snapshot.vals_seq().len() == n,
                forall|x: int|
                    0 <= x < n ==> self.snapshot@.contains_key(
                        #[trigger] self.snapshot.keys_seq()[x],
                    ) && self.snapshot@[self.snapshot.keys_seq()[x]]
                        == self.snapshot.vals_seq()[x],
                acc@ == sum_balances(
                    self.snapshot.keys_seq(),
                    self.snapshot.vals_seq(),
                    i as int,
                    prefix@,
                    commodity@,
                ),
            decreases n - i,
        {
            let name = self.snapshot.key_at(i);
            if str_has_prefix(name.as_str(), prefix) {
                let v = self.snapshot.val_at(i).get(commodity);
                acc = acc.add(v);
            }
            i = i + 1;
        }
        acc
    }

    /// The headline figures: assets, liabilities, income and expenses
    /// summed in one commodity.
    pub fn current_statistic(&self, commodity: &String) -> (r: CurrentStatisticResponse)
        ensures
            r.balance@.number == sum_balances(
                self.snapshot.keys_seq(),
                self.snapshot.vals_seq(),
                self.snapshot.keys_seq().len() as int,
                "Assets"@,
                commodity@,
            ),
            r.liability@.number == sum_balances(
                self.snapshot.keys_seq(),
                self.snapshot.vals_seq(),
                self.snapshot.keys_seq().len() as int,
                "Liabilities"@,
                commodity@,
            ),
            r.income@.number == sum_balances(
                self.snapshot.keys_seq(),
                self.snapshot.vals_seq(),
                self.snapshot.keys_seq().len() as int,
                "Income"@,
                commodity@,
            ),
            r.expense@.number == sum_balances(
                self.snapshot.keys_seq(),
                self.snapshot.vals_seq(),
                self.snapshot.keys_seq().len() as int,
                "Expenses"@,
                commodity@,
            ),
            r.balance@.currency == commodity@,
            r.liability@.currency == commodity@,
            r.income@.currency == commodity@,
            r.expense@.currency == commodity@,
    {
        CurrentStatisticResponse {
            balance: AmountResponse {
                number: self.sum_account_type("Assets", commodity),
                commodity: commodity.clone(),
            },
            liability: AmountResponse {
                number: self.sum_account_type("Liabilities", commodity),
                commodity: commodity.clone(),
            },
            income: AmountResponse {
                number: self.sum_account_type("Income", commodity),
                commodity: commodity.clone(),
            },
            expense: AmountResponse {
                number: self.sum_account_type("Expenses", commodity),
                commodity: commodity.clone(),
            },
        }
    }
}

} // verus!
