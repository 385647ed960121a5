use vstd::prelude::*;

verus! {

use vstd::utf8::encode_utf8;
use crate::amount::Amount;
use crate::decimal::{pow10, Decimal};
use crate::directive::{Close, Commodity, Document, Open, Options, Price};
use crate::error::{LedgerError, LedgerErrorV};
use crate::inventory::AccountSnapshot;
use crate::ledger::{AccountInfo, AccountStatus, CurrencyInfo, DocumentType, Ledger, LedgerV, Present};
use crate::price_grip::PriceObs;
use crate::semantics::{
    account_or_new, add_currencies, all_digits, digits_val, merge_meta, parse_precision,
    spec_precision, step_close, step_commodity, step_document, step_open, step_options,
    step_price, step_record_daily, StateV,
};
use crate::table::Table;

/// The processor's mutable context: the day whose snapshot is still
/// open. The price grip itself is owned by the ledger.
pub struct ProcessContext {
    pub target_day: Option<u64>,
}

impl View for ProcessContext {
    type V = Option<int>;

    open spec fn view(&self) -> Option<int> {
        match self.target_day {
            Some(d) => Some(d as int),
            None => None,
        }
    }
}

impl ProcessContext {
    /// The snapshot a fresh account starts from.
    pub fn default_account_snapshot(&self) -> (r: AccountSnapshot)
        ensures
            r@ == Map::<Seq<char>, int>::empty(),
    {
        AccountSnapshot::empty()
    }
}

/// The state a ledger and context denote together.
pub open spec fn state_of(l: LedgerV, c: Option<int>) -> StateV {
    StateV { ledger: l, target_day: c }
}

proof fn lemma_digits_val_bound(s: Seq<u8>)
    requires
        all_digits(s),
    ensures
        digits_val(s) < pow10(s.len()),
    decreases s.len(),
{
    crate::decimal::lemma_pow10_positive(s.len());
    if s.len() > 0 {
        assert(all_digits(s.drop_last())) by {
            assert(forall|i: int|
                0 <= i < s.len() - 1 ==> s.drop_last()[i] == s[i]);
        }
        lemma_digits_val_bound(s.drop_last());
    }
}

/// Parses one to nine ASCII digits.
fn parse_precision_exec(v: &str) -> (r: Option<u32>)
    ensures
        match r {
            Some(p) => parse_precision(encode_utf8(v@)) == Some(p as nat),
            None => parse_precision(encode_utf8(v@)).is_none(),
        },
{
    let bs = v.as_bytes();
    let n: usize = bs.len();
    if n == 0 || n > 9 {
        return None;
    }
    let mut acc: u32 = 0;
    let mut i: usize = 0;
    while i < n
        invariant
            bs@ == encode_utf8(v@),
            n == bs@.len(),
            0 < n <= 9,
            i <= n,
            all_digits(bs@.take(i as int)),
            acc as nat == digits_val(bs@.take(i as int)),
        decreases n - i,
    {
        let b = bs[i];
        if b < 48 || b > 57 {
            proof {
                assert(!all_digits(bs@));
            }
            return None;
        }
        proof {
            assert(bs@.take(i + 1).drop_last() =~= bs@.take(i as int));
            assert(bs@.take(i + 1).last() == bs@[i as int]);
            assert(all_digits(bs@.take(i + 1))) by {
                assert(forall|j: int|
                    0 <= j < i + 1 ==> bs@.take(i + 1)[j] == bs@[j]);
            }
            lemma_digits_val_bound(bs@.take(i as int));
            crate::decimal::lemma_pow10_increases((i as nat), 8nat);
            reveal_with_fuel(pow10, 9);
        }
        acc = acc * 10 + ((b - 48) as u32);
        i = i + 1;
    }
    proof {
        assert(bs@.take(n as int) =~= bs@);
    }
    Some(acc)
}

/// The balance precision the ledger's options call for.
pub fn precision_from_options(options: &Table<String>) -> (r: u32)
    ensures
        r as nat == spec_precision(options@),
{
    let key: String = "operating_currency_precision".to_owned();
    match options.get(&key) {
        Some(v) => match parse_precision_exec(v.as_str()) {
            Some(p) => p,
            None => 2,
        },
        None => 2,
    }
}

/// Freezes the previous day's snapshot when the date moves on: the
/// first dated directive fixes the open day; a later date stores a
/// deep copy of the running snapshot under the day it closes.
pub fn record_daily_snapshot(ledger: &mut Ledger, context: &mut ProcessContext, date: u64)
    ensures
        final(ledger)@ == step_record_daily(state_of(old(ledger)@, old(context)@), date as int).ledger,
        final(context)@ == step_record_daily(
            state_of(old(ledger)@, old(context)@),
            date as int,
        ).target_day,
{
    match context.target_day {
        None => {
            context.target_day = Some(date);
        },
        Some(t) => {
            if t != date {
                let dup = ledger.snapshot.duplicate();
                ledger.daily_snapshot.insert_snapshot(t, dup);
                context.target_day = Some(date);
            }
        },
    }
}

impl Options {
    /// `option`: stores the key/value pair.
    pub fn process(&self, ledger: &mut Ledger, context: &mut ProcessContext)
        ensures
            final(ledger)@ == step_options(state_of(old(ledger)@, old(context)@), self@).ledger,
            final(context)@ == old(context)@,
    {
        ledger.options.set(&self.key, self.value.clone());
    }
}

impl Open {
    /// `open`: (re)opens the account, merging metadata and widening
    /// the allowed commodity set.
    pub fn process(&self, ledger: &mut Ledger, context: &mut ProcessContext)
        ensures
            final(ledger)@ == step_open(state_of(old(ledger)@, old(context)@), self@).ledger,
            final(context)@ == old(context)@,
    {
        let ghost prev_v = account_or_new(ledger@, self.account@);
        let mut info: AccountInfo = match ledger.accounts.get(&self.account) {
            Some(a) => a.duplicate(),
            None => AccountInfo::opened(),
        };
        info.status = AccountStatus::Open;
        let n: usize = self.meta.len();
        let mut i: usize = 0;
        while i < n
            invariant
                n == self.meta@.len(),
                i <= n,
                info.status == AccountStatus::Open,
                info.currencies@ == prev_v.currencies,
                info.meta@ == merge_meta(prev_v.meta, self@.meta.take(i as int)),
            decreases n - i,
        {
            proof {
                assert(self@.meta.take(i + 1).drop_last() =~= self@.meta.take(i as int));
                assert(self@.meta.take(i + 1).last() == self@.meta[i as int]);
                assert(self@.meta[i as int] == (self.meta@[i as int].0@, self.meta@[i as int].1@));
            }
            let pair = &self.meta[i];
            info.meta.set(&pair.0, pair.1.clone());
            i = i + 1;
        }
        proof {
            assert(self@.meta.take(n as int) =~= self@.meta);
        }
        let m: usize = self.commodities.len();
        let mut j: usize = 0;
        while j < m
            invariant
                m == self.commodities@.len(),
                j <= m,
                info.status == AccountStatus::Open,
                info.meta@ == merge_meta(prev_v.meta, self@.meta),
                info.currencies@ == add_currencies(prev_v.currencies, self@.commodities.take(
                    j as int)),
            decreases m - j,
        {
            proof {
                assert(self@.commodities.take(j + 1).drop_last() =~= self@.commodities.take(
                    j as int));
                assert(self@.commodities.take(j + 1).last() == self@.commodities[j as int]);
                assert(self@.commodities[j as int] == self.commodities@[j as int]@);
            }
            info.currencies.set(&self.commodities[j], Present);
            j = j + 1;
        }
        proof {
            assert(self@.commodities.take(m as int) =~= self@.commodities);
        }
        ledger.accounts.set(&self.account, info);
    }
}

impl Close {
    /// `close`: marks the account closed, merging metadata; a non-zero
    /// remaining balance is recorded as an error.
    pub fn process(&self, ledger: &mut Ledger, context: &mut ProcessContext)
        ensures
            final(ledger)@ == step_close(state_of(old(ledger)@, old(context)@), self@).ledger,
            final(context)@ == old(context)@,
    {
        let ghost pre = ledger@;
        let ghost prev_v = account_or_new(ledger@, self.account@);
        let mut info: AccountInfo = match ledger.accounts.get(&self.account) {
            Some(a) => a.duplicate(),
            None => AccountInfo::opened(),
        };
        info.status = AccountStatus::Close;
        let n: usize = self.meta.len();
        let mut i: usize = 0;
        while i < n
            invariant
                n == self.meta@.len(),
                i <= n,
                info.status == AccountStatus::Close,
                info.currencies@ == prev_v.currencies,
                info.meta@ == merge_meta(prev_v.meta, self@.meta.take(i as int)),
            decreases n - i,
        {
            proof {
                assert(self@.meta.take(i + 1).drop_last() =~= self@.meta.take(i as int));
                assert(self@.meta.take(i + 1).last() == self@.meta[i as int]);
                assert(self@.meta[i as int] == (self.meta@[i as int].0@, self.meta@[i as int].1@));
            }
            let pair = &self.meta[i];
            info.meta.set(&pair.0, pair.1.clone());
            i = i + 1;
        }
        proof {
            assert(self@.meta.take(n as int) =~= self@.meta);
        }
        let nonzero = match ledger.snapshot.get(&self.account) {
            Some(s) => s.inner.has_nonzero(),
            None => false,
        };
        if nonzero {
            let ghost olderr = ledger.errors@;
            ledger.errors.push(
                LedgerError::AccountClosedWithBalance {
                    span: self.span,
                    account_name: self.account.clone(),
                },
            );
            proof {
                assert(ledger.errors@.map(|k: int, e: LedgerError| e@) =~= olderr.map(
                    |k: int, e: LedgerError| e@,
                ).push(
                    LedgerErrorV::AccountClosedWithBalance {
                        span: self.span as int,
                        account_name: self.account@,
                    },
                ));
            }
        }
        ledger.accounts.set(&self.account, info);
    }
}

impl Commodity {
    /// `commodity`: declares a currency once; a second declaration
    /// keeps the existing record and notes the redefinition.
    pub fn process(&self, ledger: &mut Ledger, context: &mut ProcessContext)
        ensures
            final(ledger)@ == step_commodity(state_of(old(ledger)@, old(context)@), self@).ledger,
            final(context)@ == old(context)@,
    {
        if ledger.currencies.contains_key(&self.currency) {
            let ghost olderr = ledger.errors@;
            ledger.errors.push(
                LedgerError::CommodityRedefined { span: self.span, currency: self.currency.clone() },
            );
            proof {
                assert(ledger.errors@.map(|k: int, e: LedgerError| e@) =~= olderr.map(
                    |k: int, e: LedgerError| e@,
                ).push(
                    LedgerErrorV::CommodityRedefined {
                        span: self.span as int,
                        currency: self.currency@,
                    },
                ));
            }
        } else {
            let mut info = CurrencyInfo::empty();
            let n: usize = self.meta.len();
            let mut i: usize = 0;
            while i < n
                invariant
                    n == self.meta@.len(),
                    i <= n,
                    info@.prices == Seq::<crate::price_grip::PriceObsV>::empty(),
                    info@.meta == merge_meta(
                        Map::<Seq<char>, Seq<char>>::empty(),
                        self@.meta.take(i as int),
                    ),
                decreases n - i,
            {
                proof {
                    assert(self@.meta.take(i + 1).drop_last() =~= self@.meta.take(i as int));
                    assert(self@.meta.take(i + 1).last() == self@.meta[i as int]);
                    assert(self@.meta[i as int] == (
                        self.meta@[i as int].0@,
                        self.meta@[i as int].1@,
                    ));
                }
                let pair = &self.meta[i];
                info.meta.set(&pair.0, pair.1.clone());
                i = i + 1;
            }
            proof {
                assert(self@.meta.take(n as int) =~= self@.meta);
            }
            ledger.currencies.set(&self.currency, info);
        }
    }
}

impl Price {
    /// `price`: appends the observation to the grip and to the base
    /// commodity's history.
    pub fn process(&self, ledger: &mut Ledger, context: &mut ProcessContext)
        ensures
            final(ledger)@ == step_price(state_of(old(ledger)@, old(context)@), self@).ledger,
            final(context)@ == old(context)@,
    {
        ledger.prices.insert(
            self.date,
            self.currency.clone(),
            self.amount.currency.clone(),
            self.amount.number,
        );
        let mut info: CurrencyInfo = match ledger.currencies.get(&self.currency) {
            Some(c) => c.duplicate(),
            None => CurrencyInfo::empty(),
        };
        let ghost oldprices = info@.prices;
        info.prices.push(
            PriceObs {
                date: self.date,
                base: self.currency.clone(),
                quote: self.amount.currency.clone(),
                rate: self.amount.number,
            },
        );
        proof {
            assert(info@.prices =~= oldprices.push(
                crate::price_grip::PriceObsV {
                    date: self.date as int,
                    base: self.currency@,
                    quote: self.amount.currency@,
                    rate: self.amount.number@,
                },
            ));
        }
        ledger.currencies.set(&self.currency, info);
    }
}

impl Document {
    /// `document`: stores the record under its filename; duplicates
    /// overwrite.
    pub fn process(&self, ledger: &mut Ledger, context: &mut ProcessContext)
        ensures
            final(ledger)@ == step_document(state_of(old(ledger)@, old(context)@), self@).ledger,
            final(context)@ == old(context)@,
    {
        ledger.documents.set(
            &self.filename,
            DocumentType::AccountDocument {
                date: self.date,
                account: self.account.clone(),
                filename: self.filename.clone(),
            },
        );
    }
}

impl crate::directive::Transaction {
    /// A transaction: freeze the day if it moved on, test the balance
    /// rule, then post every leg (inferring the residual posting).
    pub fn process(&self, ledger: &mut Ledger, context: &mut ProcessContext)
        ensures
            final(ledger)@ == crate::semantics::step_transaction(
                state_of(old(ledger)@, old(context)@),
                self@,
            ).ledger,
            final(context)@ == crate::semantics::step_transaction(
                state_of(old(ledger)@, old(context)@),
                self@,
            ).target_day,
    {
        record_daily_snapshot(ledger, context, self.date);
        let ghost st1 = step_record_daily(
            state_of(old(ledger)@, old(context)@),
            self.date as int,
        );
        let ghost lg1 = *ledger;
        let ghost cx1 = *context;
        let pn: usize = self.postings.len();
        let mut residual: crate::inventory::Inventory = Table::new();
        let mut missing: usize = 0;
        let mut i: usize = 0;
        while i < pn
            invariant
                pn == self.postings@.len(),
                i <= pn,
                missing <= i,
                missing as int == crate::semantics::missing_count(self@.postings, i as int),
                residual@ == crate::semantics::residual_map(self@.postings, i as int),
                *ledger == lg1,
                *context == cx1,
            decreases pn - i,
        {
            proof {
                assert(self@.postings[i as int] == self.postings@[i as int]@);
            }
            let p = &self.postings[i];
            match &p.units {
                Some(u) => {
                    let weighed: Amount = match &p.price {
                        Some(pr) => Amount::new(u.number.mul(pr.number), pr.currency.clone()),
                        None => match &p.cost {
                            Some(co) => Amount::new(u.number.mul(co.number), co.currency.clone()),
                            None => u.duplicate(),
                        },
                    };
                    proof {
                        assert(crate::semantics::posting_contribution(self@.postings[i as int])
                            == Some(weighed@));
                    }
                    residual.add_value(&weighed.currency, weighed.number);
                },
                None => {
                    missing = missing + 1;
                },
            }
            i = i + 1;
        }
        let prec = precision_from_options(&ledger.options);
        let nb: bool = if missing == 1 {
            false
        } else if missing == 0 {
            residual.any_exceeds_tolerance(prec)
        } else {
            true
        };
        proof {
            assert(nb == crate::semantics::txn_not_balanced(
                self@,
                spec_precision(ledger@.options),
            ));
        }
        if nb {
            let ghost olderr = ledger.errors@;
            ledger.errors.push(LedgerError::TransactionNotBalanced { span: self.span });
            proof {
                assert(ledger.errors@.map(|k: int, e: LedgerError| e@) =~= olderr.map(
                    |k: int, e: LedgerError| e@,
                ).push(LedgerErrorV::TransactionNotBalanced { span: self.span as int }));
            }
        }
        let ghost lv2 = ledger@;
        let ghost cx2 = *context;
        proof {
            assert(crate::semantics::apply_postings(lv2, self@, 0int) == lv2);
        }
        let mut k: usize = 0;
        while k < pn
            invariant
                pn == self.postings@.len(),
                k <= pn,
                missing as int == crate::semantics::missing_count(self@.postings, pn as int),
                residual@ == crate::semantics::residual_map(self@.postings, pn as int),
                ledger@ == crate::semantics::apply_postings(lv2, self@, k as int),
                *context == cx2,
            decreases pn - k,
        {
            let ghost lvk = ledger@;
            proof {
                assert(self@.postings[k as int] == self.postings@[k as int]@);
            }
            let p = &self.postings[k];
            let known = ledger.accounts.contains_key(&p.account);
            if !known {
                ledger.accounts.set(&p.account, AccountInfo::opened());
                let ghost olderr = ledger.errors@;
                ledger.errors.push(
                    LedgerError::UnknownAccount {
                        span: self.span,
                        account_name: p.account.clone(),
                    },
                );
                proof {
                    assert(ledger.errors@.map(|j: int, e: LedgerError| e@) =~= olderr.map(
                        |j: int, e: LedgerError| e@,
                    ).push(
                        LedgerErrorV::UnknownAccount {
                            span: self.span as int,
                            account_name: p.account@,
                        },
                    ));
                }
            }
            let closed: bool = match ledger.accounts.get(&p.account) {
                Some(a) => match a.status {
                    AccountStatus::Close => true,
                    AccountStatus::Open => false,
                },
                None => false,
            };
            if closed {
                let ghost olderr = ledger.errors@;
                ledger.errors.push(
                    LedgerError::TransactionHasAccountAlreadyClosed {
                        span: self.span,
                        account_name: p.account.clone(),
                    },
                );
                proof {
                    assert(ledger.errors@.map(|j: int, e: LedgerError| e@) =~= olderr.map(
                        |j: int, e: LedgerError| e@,
                    ).push(
                        LedgerErrorV::TransactionHasAccountAlreadyClosed {
                            span: self.span as int,
                            account_name: p.account@,
                        },
                    ));
                }
            }
            match &p.units {
                Some(u) => {
                    let bad: bool = match ledger.accounts.get(&p.account) {
                        Some(a) => if a.currencies.is_empty() {
                            false
                        } else {
                            !a.currencies.contains_key(&u.currency)
                        },
                        None => false,
                    };
                    if bad {
                        let ghost olderr = ledger.errors@;
                        ledger.errors.push(
                            LedgerError::AccountCommodityNotDefined {
                                span: self.span,
                                account_name: p.account.clone(),
                                currency: u.currency.clone(),
                            },
                        );
                        proof {
                            assert(ledger.errors@.map(|j: int, e: LedgerError| e@) =~= olderr.map(
                                |j: int, e: LedgerError| e@,
                            ).push(
                                LedgerErrorV::AccountCommodityNotDefined {
                                    span: self.span as int,
                                    account_name: p.account@,
                                    currency: u.currency@,
                                },
                            ));
                        }
                    }
                },
                None => {},
            }
            let prev_snap: AccountSnapshot = match ledger.snapshot.get(&p.account) {
                Some(s) => s.duplicate(),
                None => AccountSnapshot::empty(),
            };
            match &p.units {
                Some(u) => {
                    let mut s = prev_snap;
                    s.add_amount(u);
                    ledger.snapshot.set(&p.account, s);
                },
                None => {
                    if missing == 1 {
                        let mut s = prev_snap;
                        s.inner.sub_inventory(&residual);
                        ledger.snapshot.set(&p.account, s);
                    } else {
                        ledger.snapshot.set(&p.account, prev_snap);
                    }
                },
            }
            proof {
                assert(ledger@ == crate::semantics::apply_one_posting(
                    lvk,
                    self@,
                    self@.postings[k as int],
                ));
            }
            k = k + 1;
        }
    }
}

impl crate::directive::Balance {
    /// A balance assertion or pad. A passing check leaves every part
    /// of the ledger but the daily bookkeeping untouched; a pad books
    /// the distance on the account and its negation on the pad
    /// account. The check records what it found on the directive.
    pub fn process(&mut self, ledger: &mut Ledger, context: &mut ProcessContext)
        ensures
            ({
                let st = state_of(old(ledger)@, old(context)@);
                match old(self)@ {
                    crate::directive::BalanceV::BalanceCheck(b) => {
                        let res = crate::semantics::step_balance_check(st, b);
                        &&& final(ledger)@ == res.0.ledger
                        &&& final(context)@ == res.0.target_day
                        &&& final(self)@ == crate::directive::BalanceV::BalanceCheck(res.1)
                    },
                    crate::directive::BalanceV::BalancePad(b) => {
                        let st2 = crate::semantics::step_balance_pad(st, b);
                        &&& final(ledger)@ == st2.ledger
                        &&& final(context)@ == st2.target_day
                        &&& final(self)@ == old(self)@
                    },
                }
            }),
    {
        match self {
            crate::directive::Balance::BalanceCheck(bc) => {
                record_daily_snapshot(ledger, context, bc.date);
                let current: Decimal = match ledger.snapshot.get(&bc.account) {
                    Some(s) => s.get(&bc.amount.currency),
                    None => Decimal::zero(),
                };
                let distance: Decimal = bc.amount.number.sub(current);
                let prec = precision_from_options(&ledger.options);
                if distance.exceeds_tolerance(prec) {
                    let ghost olderr = ledger.errors@;
                    ledger.errors.push(
                        LedgerError::AccountBalanceCheckError {
                            span: bc.span,
                            account_name: bc.account.clone(),
                            target: Amount::new(bc.amount.number, bc.amount.currency.clone()),
                            current: Amount::new(current, bc.amount.currency.clone()),
                            distance: Amount::new(distance, bc.amount.currency.clone()),
                        },
                    );
                    proof {
                        assert(ledger.errors@.map(|j: int, e: LedgerError| e@) =~= olderr.map(
                            |j: int, e: LedgerError| e@,
                        ).push(
                            LedgerErrorV::AccountBalanceCheckError {
                                span: bc.span as int,
                                account_name: bc.account@,
                                target: bc.amount@,
                                current: crate::amount::AmountV {
                                    number: current@,
                                    currency: bc.amount.currency@,
                                },
                                distance: crate::amount::AmountV {
                                    number: distance@,
                                    currency: bc.amount.currency@,
                                },
                            },
                        ));
                    }
                }
                bc.current_amount = Some(Amount::new(current, bc.amount.currency.clone()));
                bc.distance = Some(Amount::new(distance, bc.amount.currency.clone()));
            },
            crate::directive::Balance::BalancePad(bp) => {
                record_daily_snapshot(ledger, context, bp.date);
                let mut s: AccountSnapshot = match ledger.snapshot.get(&bp.account) {
                    Some(x) => x.duplicate(),
                    None => AccountSnapshot::empty(),
                };
                let source: Decimal = s.get(&bp.amount.currency);
                let distance: Decimal = bp.amount.number.sub(source);
                s.add_amount(&Amount::new(distance, bp.amount.currency.clone()));
                ledger.snapshot.set(&bp.account, s);
                let mut padsnap: AccountSnapshot = match ledger.snapshot.get(&bp.pad) {
                    Some(x) => x.duplicate(),
                    None => AccountSnapshot::empty(),
                };
                padsnap.add_amount(&Amount::new(distance.neg(), bp.amount.currency.clone()));
                ledger.snapshot.set(&bp.pad, padsnap);
            },
        }
    }
}

impl crate::directive::Directive {
    /// Processes one directive against the ledger. A balance check is
    /// annotated with what it found; every other directive comes back
    /// unchanged.
    pub fn process(&mut self, ledger: &mut Ledger, context: &mut ProcessContext)
        ensures
            final(ledger)@ == crate::semantics::step_directive(
                state_of(old(ledger)@, old(context)@),
                old(self)@,
            ).ledger,
            final(context)@ == crate::semantics::step_directive(
                state_of(old(ledger)@, old(context)@),
                old(self)@,
            ).target_day,
            final(self)@ == crate::semantics::annotate_directive(
                state_of(old(ledger)@, old(context)@),
                old(self)@,
            ),
    {
        match self {
            crate::directive::Directive::Options(o) => o.process(ledger, context),
            crate::directive::Directive::Open(o) => o.process(ledger, context),
            crate::directive::Directive::Close(c) => c.process(ledger, context),
            crate::directive::Directive::Commodity(c) => c.process(ledger, context),
            crate::directive::Directive::Price(p) => p.process(ledger, context),
            crate::directive::Directive::Document(d) => d.process(ledger, context),
            crate::directive::Directive::Transaction(t) => t.process(ledger, context),
            crate::directive::Directive::Balance(b) => b.process(ledger, context),
            crate::directive::Directive::Note { .. } => {},
            crate::directive::Directive::Event { .. } => {},
            crate::directive::Directive::Custom { .. } => {},
            crate::directive::Directive::Include { .. } => {},
        }
    }
}

/// Sorts a directive stream by its chronological key; the stable
/// insertion keeps source order among equal dates.
pub fn sort_by_date(directives: Vec<crate::directive::Directive>) -> (r: Vec<
    crate::directive::Directive,
>)
    ensures
        crate::directive::dirs_view(r@) == crate::semantics::sort_directives(
            crate::directive::dirs_view(directives@),
        ),
{
    let ghost orig = crate::directive::dirs_view(directives@);
    let mut rest = directives;
    let mut sorted: Vec<crate::directive::Directive> = Vec::new();
    let n: usize = rest.len();
    proof {
        assert(crate::directive::dirs_view(sorted@) =~= crate::semantics::sort_directives(
            orig.take(0),
        ));
        assert(crate::directive::dirs_view(rest@) =~= orig.skip(0));
    }
    let mut i: usize = 0;
    while i < n
        invariant
            n == orig.len(),
            i <= n,
            rest@.len() == n - i,
            crate::directive::dirs_view(rest@) == orig.skip(i as int),
            crate::directive::dirs_view(sorted@) == crate::semantics::sort_directives(
                orig.take(i as int),
            ),
        decreases n - i,
    {
        let ghost presorted = crate::directive::dirs_view(sorted@);
        let ghost prerest = rest@;
        let d = rest.remove(0);
        proof {
            assert(d == prerest[0]);
            assert(crate::directive::dirs_view(prerest)[0] == prerest[0]@);
            assert(d@ == orig.skip(i as int)[0]);
            assert(orig.skip(i as int)[0] == orig[i as int]);
            assert forall|x: int| 0 <= x < prerest.len() - 1 implies crate::directive::dirs_view(
                rest@,
            )[x] == orig.skip(i + 1)[x] by {
                assert(rest@[x] == prerest[x + 1]);
                assert(crate::directive::dirs_view(prerest)[x + 1] == prerest[x + 1]@);
                assert(orig.skip(i as int)[x + 1] == orig.skip(i + 1)[x]);
            }
            assert(crate::directive::dirs_view(rest@) =~= orig.skip(i + 1));
        }
        let dd: u64 = d.sort_date();
        let mut j: usize = sorted.len();
        while j > 0 && sorted[j - 1].sort_date() > dd
            invariant
                j <= sorted@.len(),
                dd as int == crate::directive::spec_sort_date(d@),
                presorted == crate::directive::dirs_view(sorted@),
                forall|k: int|
                    j <= k < sorted@.len() ==> crate::directive::spec_sort_date(
                        #[trigger] presorted[k],
                    ) > crate::directive::spec_sort_date(d@),
            decreases j,
        {
            proof {
                assert(presorted[j - 1] == sorted@[j - 1]@);
            }
            j = j - 1;
        }
        proof {
            if j > 0 {
                assert(presorted[j - 1] == sorted@[j - 1]@);
            }
            crate::semantics::lemma_insert_sorted_at(presorted, d@, j as int);
        }
        sorted.insert(j, d);
        proof {
            assert(crate::directive::dirs_view(sorted@) =~= presorted.take(j as int) + seq![d@]
                + presorted.skip(j as int));
            assert(orig.take(i + 1).drop_last() =~= orig.take(i as int));
            assert(orig.take(i + 1).last() == orig[i as int]);
        }
        i = i + 1;
    }
    proof {
        assert(orig.take(n as int) =~= orig);
    }
    sorted
}

/// Builds a ledger from a directive stream: sorts it chronologically
/// (source order breaks ties), runs every directive through the state
/// machine, and flushes the final day's snapshot. Returns the ledger
/// and the processed, annotated directives in processing order.
pub fn process_directives(directives: Vec<crate::directive::Directive>) -> (r: (
    Ledger,
    Vec<crate::directive::Directive>,
))
    ensures
        r.0@ == crate::semantics::process_spec(crate::directive::dirs_view(directives@)),
        crate::directive::dirs_view(r.1@) == crate::semantics::annotate_run(
            crate::semantics::sort_directives(crate::directive::dirs_view(directives@)),
            crate::semantics::sort_directives(
                crate::directive::dirs_view(directives@),
            ).len() as int,
        ),
{
    let ghost orig = crate::directive::dirs_view(directives@);
    let ghost sv = crate::semantics::sort_directives(orig);
    let mut sorted = sort_by_date(directives);
    let mut ledger = Ledger::new();
    let mut context = ProcessContext { target_day: None };
    let m: usize = sorted.len();
    proof {
        assert(crate::directive::dirs_view(sorted@).len() == sorted@.len());
        assert(crate::directive::dirs_view(sorted@).take(0) =~= crate::semantics::annotate_run(
            sv,
            0,
        ));
        assert(crate::directive::dirs_view(sorted@).skip(0) =~= sv.skip(0));
        assert(sv.skip(0) =~= sv);
    }
    let mut k: usize = 0;
    while k < m
        invariant
            m == sorted@.len(),
            sv.len() == m,
            k <= m,
            crate::directive::dirs_view(sorted@).take(k as int) == crate::semantics::annotate_run(
                sv,
                k as int,
            ),
            crate::directive::dirs_view(sorted@).skip(k as int) == sv.skip(k as int),
            ledger@ == crate::semantics::run_directives(sv, k as int).ledger,
            context@ == crate::semantics::run_directives(sv, k as int).target_day,
        decreases m - k,
    {
        let ghost pre = crate::directive::dirs_view(sorted@);
        proof {
            assert(pre.skip(k as int)[0] == pre[k as int]);
            assert(sv.skip(k as int)[0] == sv[k as int]);
            assert(pre[k as int] == sv[k as int]);
            assert(pre[k as int] == sorted@[k as int]@);
        }
        sorted[k].process(&mut ledger, &mut context);
        proof {
            let post = crate::directive::dirs_view(sorted@);
            assert(post.take(k + 1) =~= crate::semantics::annotate_run(sv, k + 1)) by {
                assert(forall|x: int| 0 <= x < k ==> post[x] == pre[x]);
                assert(forall|x: int|
                    0 <= x < k ==> #[trigger] post.take(k + 1)[x] == post.take(k as int)[x]);
                assert(post.take(k as int) =~= pre.take(k as int));
                assert(post[k as int] == crate::semantics::annotate_directive(
                    crate::semantics::run_directives(sv, k as int),
                    sv[k as int],
                ));
            }
            assert(post.skip(k + 1) =~= sv.skip(k + 1)) by {
                assert(forall|x: int| k < x < m ==> post[x] == pre[x]);
                assert(forall|x: int|
                    0 <= x < m - k - 1 ==> #[trigger] post.skip(k + 1)[x] == post[k + 1 + x]
                        && sv.skip(k + 1)[x] == sv[k + 1 + x] && pre.skip(k as int)[x + 1] == pre[
                        k + 1 + x]);
            }
            assert(crate::semantics::run_directives(sv, k + 1) == crate::semantics::step_directive(
                crate::semantics::run_directives(sv, k as int),
                sv[k as int],
            ));
        }
        k = k + 1;
    }
    match context.target_day {
        Some(t) => {
            let dup = ledger.snapshot.duplicate();
            ledger.daily_snapshot.insert_snapshot(t, dup);
        },
        None => {},
    }
    proof {
        assert(crate::directive::dirs_view(sorted@) =~= crate::directive::dirs_view(
            sorted@,
        ).take(m as int));
    }
    (ledger, sorted)
}

} // verus!
