use vstd::prelude::*;

verus! {

use vstd::utf8::encode_utf8;
use crate::amount::AmountV;
use crate::decimal::{dec_mul, dec_sat, exceeds_tol};
use crate::directive::{
    BalanceCheckV, BalancePadV, BalanceV, CloseV, CommodityV, DirectiveV, DocumentV, OpenV,
    OptionsV, PostingV, PriceV, TransactionV,
};
use crate::error::LedgerErrorV;
use crate::inventory::{bal0, inv_add_one, inv_has_nonzero, inv_sub_all};
use crate::ledger::{ledger_empty, AccountInfoV, AccountStatus, CurrencyInfoV, DocumentTypeV, LedgerV};
use crate::price_grip::PriceObsV;

/// The processor's running state: the ledger under construction and
/// the day whose snapshot has not been frozen yet.
pub struct StateV {
    pub ledger: LedgerV,
    pub target_day: Option<int>,
}

/// The state every run starts from.
pub open spec fn state_init() -> StateV {
    StateV { ledger: ledger_empty(), target_day: None }
}

/// Freezes the previous day's snapshot when the date moves on.
pub open spec fn step_record_daily(st: StateV, date: int) -> StateV {
    match st.target_day {
        None => StateV { ledger: st.ledger, target_day: Some(date) },
        Some(t) => if date != t {
            StateV {
                ledger: LedgerV {
                    daily_snapshot: st.ledger.daily_snapshot.insert(t, st.ledger.snapshot),
                    ..st.ledger
                },
                target_day: Some(date),
            }
        } else {
            st
        },
    }
}

/// Merges metadata entries left to right.
pub open spec fn merge_meta(
    m: Map<Seq<char>, Seq<char>>,
    metas: Seq<(Seq<char>, Seq<char>)>,
) -> Map<Seq<char>, Seq<char>>
    decreases metas.len(),
{
    if metas.len() == 0 {
        m
    } else {
        merge_meta(m, metas.drop_last()).insert(metas.last().0, metas.last().1)
    }
}

/// Unions commodity names into an allowed set, left to right.
pub open spec fn add_currencies(cs: Map<Seq<char>, ()>, l: Seq<Seq<char>>) -> Map<Seq<char>, ()>
    decreases l.len(),
{
    if l.len() == 0 {
        cs
    } else {
        add_currencies(cs, l.drop_last()).insert(l.last(), ())
    }
}

/// The account record, or a fresh open one when unknown.
pub open spec fn account_or_new(lv: LedgerV, name: Seq<char>) -> AccountInfoV {
    if lv.accounts.contains_key(name) {
        lv.accounts[name]
    } else {
        AccountInfoV {
            status: AccountStatus::Open,
            currencies: Map::empty(),
            meta: Map::empty(),
        }
    }
}

/// The account's inventory, empty when the account has none yet.
pub open spec fn snap_of(lv: LedgerV, name: Seq<char>) -> Map<Seq<char>, int> {
    if lv.snapshot.contains_key(name) {
        lv.snapshot[name]
    } else {
        Map::empty()
    }
}

/// `option key=value`.
pub open spec fn step_options(st: StateV, o: OptionsV) -> StateV {
    StateV {
        ledger: LedgerV { options: st.ledger.options.insert(o.key, o.value), ..st.ledger },
        target_day: st.target_day,
    }
}

/// `open`: (re)opens the account, merging metadata and widening the
/// allowed commodity set.
pub open spec fn step_open(st: StateV, o: OpenV) -> StateV {
    let prev = account_or_new(st.ledger, o.account);
    let updated = AccountInfoV {
        status: AccountStatus::Open,
        currencies: add_currencies(prev.currencies, o.commodities),
        meta: merge_meta(prev.meta, o.meta),
    };
    StateV {
        ledger: LedgerV { accounts: st.ledger.accounts.insert(o.account, updated), ..st.ledger },
        target_day: st.target_day,
    }
}

/// `close`: marks the account closed; a non-zero remaining balance is
/// recorded as an error.
pub open spec fn step_close(st: StateV, c: CloseV) -> StateV {
    let prev = account_or_new(st.ledger, c.account);
    let updated = AccountInfoV {
        status: AccountStatus::Close,
        currencies: prev.currencies,
        meta: merge_meta(prev.meta, c.meta),
    };
    let errors = if inv_has_nonzero(snap_of(st.ledger, c.account)) {
        st.ledger.errors.push(
            LedgerErrorV::AccountClosedWithBalance { span: c.span, account_name: c.account },
        )
    } else {
        st.ledger.errors
    };
    StateV {
        ledger: LedgerV {
            accounts: st.ledger.accounts.insert(c.account, updated),
            errors,
            ..st.ledger
        },
        target_day: st.target_day,
    }
}

/// `commodity`: declares a currency; declaring it twice keeps the
/// existing record (price history included) and records an error.
pub open spec fn step_commodity(st: StateV, c: CommodityV) -> StateV {
    if st.ledger.currencies.contains_key(c.currency) {
        StateV {
            ledger: LedgerV {
                errors: st.ledger.errors.push(
                    LedgerErrorV::CommodityRedefined { span: c.span, currency: c.currency },
                ),
                ..st.ledger
            },
            target_day: st.target_day,
        }
    } else {
        StateV {
            ledger: LedgerV {
                currencies: st.ledger.currencies.insert(
                    c.currency,
                    CurrencyInfoV { meta: merge_meta(Map::empty(), c.meta), prices: Seq::empty() },
                ),
                ..st.ledger
            },
            target_day: st.target_day,
        }
    }
}

/// `price`: appends the observation to the grip and to the base
/// commodity's own history.
pub open spec fn step_price(st: StateV, p: PriceV) -> StateV {
    let obs = PriceObsV {
        date: p.date,
        base: p.currency,
        quote: p.amount.currency,
        rate: p.amount.number,
    };
    let prev = if st.ledger.currencies.contains_key(p.currency) {
        st.ledger.currencies[p.currency]
    } else {
        CurrencyInfoV { meta: Map::empty(), prices: Seq::empty() }
    };
    let updated = CurrencyInfoV { meta: prev.meta, prices: prev.prices.push(obs) };
    StateV {
        ledger: LedgerV {
            prices: st.ledger.prices.push(obs),
            currencies: st.ledger.currencies.insert(p.currency, updated),
            ..st.ledger
        },
        target_day: st.target_day,
    }
}

/// `document`: keyed by filename; duplicates overwrite.
pub open spec fn step_document(st: StateV, d: DocumentV) -> StateV {
    StateV {
        ledger: LedgerV {
            documents: st.ledger.documents.insert(
                d.filename,
                DocumentTypeV::AccountDocument {
                    date: d.date,
                    account: d.account,
                    filename: d.filename,
                },
            ),
            ..st.ledger
        },
        target_day: st.target_day,
    }
}

/// Whether every byte is an ASCII digit.
pub open spec fn all_digits(s: Seq<u8>) -> bool {
    forall|i: int| 0 <= i < s.len() ==> 48 <= #[trigger] s[i] <= 57
}

/// The value of a digit string.
pub open spec fn digits_val(s: Seq<u8>) -> nat
    decreases s.len(),
{
    if s.len() == 0 {
        0
    } else {
        digits_val(s.drop_last()) * 10 + (s.last() - 48) as nat
    }
}

/// Parses a precision: one to nine ASCII digits.
pub open spec fn parse_precision(s: Seq<u8>) -> Option<nat> {
    if 0 < s.len() <= 9 && all_digits(s) {
        Some(digits_val(s))
    } else {
        None
    }
}

/// The balance precision the options call for; the default is two
/// fractional digits (a tolerance of one half of `10^-2`).
pub open spec fn spec_precision(options: Map<Seq<char>, Seq<char>>) -> nat {
    let key = "operating_currency_precision"@;
    if options.contains_key(key) {
        match parse_precision(encode_utf8(options[key])) {
            Some(p) => p,
            None => 2,
        }
    } else {
        2
    }
}

/// The single-commodity value a posting with explicit units weighs in
/// at when balancing: its units, or its price or cost conversion.
pub open spec fn posting_contribution(p: PostingV) -> Option<AmountV> {
    match p.units {
        None => None,
        Some(u) => Some(
            match p.price {
                Some(pr) => AmountV {
                    number: dec_mul(u.number, pr.number),
                    currency: pr.currency,
                },
                None => match p.cost {
                    Some(c) => AmountV {
                        number: dec_mul(u.number, c.number),
                        currency: c.currency,
                    },
                    None => u,
                },
            },
        ),
    }
}

/// The summed contributions of the first `n` postings, per commodity.
pub open spec fn residual_map(ps: Seq<PostingV>, n: int) -> Map<Seq<char>, int>
    decreases n,
{
    if n <= 0 {
        Map::empty()
    } else {
        let m = residual_map(ps, n - 1);
        match posting_contribution(ps[n - 1]) {
            Some(a) => inv_add_one(m, a.currency, a.number),
            None => m,
        }
    }
}

/// How many of the first `n` postings omit units.
pub open spec fn missing_count(ps: Seq<PostingV>, n: int) -> int
    decreases n,
{
    if n <= 0 {
        0
    } else {
        missing_count(ps, n - 1) + (match ps[n - 1].units {
            None => 1int,
            Some(_) => 0int,
        })
    }
}

/// Whether the transaction fails the balance rule: more than one
/// posting without units, or no residual posting and a residual beyond
/// tolerance.
pub open spec fn txn_not_balanced(t: TransactionV, precision: nat) -> bool {
    let miss = missing_count(t.postings, t.postings.len() as int);
    if miss == 1 {
        false
    } else if miss == 0 {
        crate::inventory::inv_exceeds_tolerance(
            residual_map(t.postings, t.postings.len() as int),
            precision,
        )
    } else {
        true
    }
}

/// Applies one posting: auto-creates unknown accounts (with a
/// warning), flags closed accounts and disallowed commodities, then
/// adds the posting's (possibly inferred) units to the snapshot.
pub open spec fn apply_one_posting(lv: LedgerV, t: TransactionV, p: PostingV) -> LedgerV {
    let known = lv.accounts.contains_key(p.account);
    let accounts1 = if known {
        lv.accounts
    } else {
        lv.accounts.insert(
            p.account,
            AccountInfoV {
                status: AccountStatus::Open,
                currencies: Map::empty(),
                meta: Map::empty(),
            },
        )
    };
    let errors1 = if known {
        lv.errors
    } else {
        lv.errors.push(
            LedgerErrorV::UnknownAccount { span: t.span, account_name: p.account },
        )
    };
    let errors2 = if accounts1[p.account].status == AccountStatus::Close {
        errors1.push(
            LedgerErrorV::TransactionHasAccountAlreadyClosed {
                span: t.span,
                account_name: p.account,
            },
        )
    } else {
        errors1
    };
    let errors3 = match p.units {
        Some(u) => if accounts1[p.account].currencies != Map::<Seq<char>, ()>::empty()
            && !accounts1[p.account].currencies.contains_key(u.currency) {
            errors2.push(
                LedgerErrorV::AccountCommodityNotDefined {
                    span: t.span,
                    account_name: p.account,
                    currency: u.currency,
                },
            )
        } else {
            errors2
        },
        None => errors2,
    };
    let prev = snap_of(lv, p.account);
    let snapshot1 = match p.units {
        Some(u) => lv.snapshot.insert(p.account, inv_add_one(prev, u.currency, u.number)),
        None => if missing_count(t.postings, t.postings.len() as int) == 1 {
            lv.snapshot.insert(
                p.account,
                inv_sub_all(prev, residual_map(t.postings, t.postings.len() as int)),
            )
        } else {
            lv.snapshot.insert(p.account, prev)
        },
    };
    LedgerV { accounts: accounts1, errors: errors3, snapshot: snapshot1, ..lv }
}

/// Applies the first `n` postings in order.
pub open spec fn apply_postings(lv: LedgerV, t: TransactionV, n: int) -> LedgerV
    decreases n,
{
    if n <= 0 {
        lv
    } else {
        apply_one_posting(apply_postings(lv, t, n - 1), t, t.postings[n - 1])
    }
}

/// A whole transaction: snapshot bookkeeping, the balance rule, then
/// the postings.
pub open spec fn step_transaction(st: StateV, t: TransactionV) -> StateV {
    let st1 = step_record_daily(st, t.date);
    let lv1 = st1.ledger;
    let lv2 = if txn_not_balanced(t, spec_precision(lv1.options)) {
        LedgerV {
            errors: lv1.errors.push(LedgerErrorV::TransactionNotBalanced { span: t.span }),
            ..lv1
        }
    } else {
        lv1
    };
    StateV {
        ledger: apply_postings(lv2, t, t.postings.len() as int),
        target_day: st1.target_day,
    }
}

/// A balance assertion, together with the annotation it leaves on the
/// directive.
pub open spec fn step_balance_check(st: StateV, b: BalanceCheckV) -> (StateV, BalanceCheckV) {
    let st1 = step_record_daily(st, b.date);
    let lv = st1.ledger;
    let current = bal0(snap_of(lv, b.account), b.amount.currency);
    let distance = dec_sat(b.amount.number - current);
    let annotated = BalanceCheckV {
        current_amount: Some(AmountV { number: current, currency: b.amount.currency }),
        distance: Some(AmountV { number: distance, currency: b.amount.currency }),
        ..b
    };
    let errors = if exceeds_tol(distance, spec_precision(lv.options)) {
        lv.errors.push(
            LedgerErrorV::AccountBalanceCheckError {
                span: b.span,
                account_name: b.account,
                target: b.amount,
                current: AmountV { number: current, currency: b.amount.currency },
                distance: AmountV { number: distance, currency: b.amount.currency },
            },
        )
    } else {
        lv.errors
    };
    (
        StateV { ledger: LedgerV { errors, ..lv }, target_day: st1.target_day },
        annotated,
    )
}

/// A balance pad: sets the account to the asserted amount and books
/// the opposite adjustment against the pad account.
pub open spec fn step_balance_pad(st: StateV, b: BalancePadV) -> StateV {
    let st1 = step_record_daily(st, b.date);
    let lv = st1.ledger;
    let prev = snap_of(lv, b.account);
    let distance = dec_sat(b.amount.number - bal0(prev, b.amount.currency));
    let snapshot1 = lv.snapshot.insert(
        b.account,
        inv_add_one(prev, b.amount.currency, distance),
    );
    let lv1 = LedgerV { snapshot: snapshot1, ..lv };
    let pad_prev = snap_of(lv1, b.pad);
    let snapshot2 = snapshot1.insert(
        b.pad,
        inv_add_one(pad_prev, b.amount.currency, -distance),
    );
    StateV { ledger: LedgerV { snapshot: snapshot2, ..lv }, target_day: st1.target_day }
}

/// One directive. Notes, events, custom directives and includes leave
/// the state unchanged (includes are spliced by the loader).
pub open spec fn step_directive(st: StateV, d: DirectiveV) -> StateV {
    match d {
        DirectiveV::Options(o) => step_options(st, o),
        DirectiveV::Open(o) => step_open(st, o),
        DirectiveV::Close(c) => step_close(st, c),
        DirectiveV::Commodity(c) => step_commodity(st, c),
        DirectiveV::Price(p) => step_price(st, p),
        DirectiveV::Document(x) => step_document(st, x),
        DirectiveV::Transaction(t) => step_transaction(st, t),
        DirectiveV::Balance(BalanceV::BalanceCheck(b)) => step_balance_check(st, b).0,
        DirectiveV::Balance(BalanceV::BalancePad(b)) => step_balance_pad(st, b),
        DirectiveV::Note { .. } => st,
        DirectiveV::Event { .. } => st,
        DirectiveV::Custom { .. } => st,
        DirectiveV::Include { .. } => st,
    }
}

/// The directive as processing leaves it: balance checks gain their
/// annotation, everything else is unchanged.
pub open spec fn annotate_directive(st: StateV, d: DirectiveV) -> DirectiveV {
    match d {
        DirectiveV::Balance(BalanceV::BalanceCheck(b)) => DirectiveV::Balance(
            BalanceV::BalanceCheck(step_balance_check(st, b).1),
        ),
        _ => d,
    }
}

/// The state after the first `n` directives.
pub open spec fn run_directives(ds: Seq<DirectiveV>, n: int) -> StateV
    decreases n,
{
    if n <= 0 {
        state_init()
    } else {
        step_directive(run_directives(ds, n - 1), ds[n - 1])
    }
}

/// The flush that ends a run: as if a directive dated past every seen
/// date closed the books, freezing the last open day.
pub open spec fn finalize_state(st: StateV) -> LedgerV {
    match st.target_day {
        Some(t) => LedgerV {
            daily_snapshot: st.ledger.daily_snapshot.insert(t, st.ledger.snapshot),
            ..st.ledger
        },
        None => st.ledger,
    }
}

/// Stable insertion of a directive into a date-sorted sequence.
pub open spec fn insert_sorted(s: Seq<DirectiveV>, d: DirectiveV) -> Seq<DirectiveV>
    decreases s.len(),
{
    if s.len() == 0 {
        seq![d]
    } else if crate::directive::spec_sort_date(d) < crate::directive::spec_sort_date(s.last()) {
        insert_sorted(s.drop_last(), d).push(s.last())
    } else {
        s.push(d)
    }
}

/// Stable sort of a directive stream by date; source order breaks
/// ties.
pub open spec fn sort_directives(s: Seq<DirectiveV>) -> Seq<DirectiveV>
    decreases s.len(),
{
    if s.len() == 0 {
        s
    } else {
        insert_sorted(sort_directives(s.drop_last()), s.last())
    }
}

/// The ledger a directive stream denotes: sort chronologically, run
/// every directive, flush the last day.
pub open spec fn process_spec(ds: Seq<DirectiveV>) -> LedgerV {
    let sorted = sort_directives(ds);
    finalize_state(run_directives(sorted, sorted.len() as int))
}

pub proof fn lemma_insert_sorted_at(s: Seq<DirectiveV>, d: DirectiveV, j: int)
    requires
        0 <= j <= s.len(),
        forall|k: int|
            j <= k < s.len() ==> crate::directive::spec_sort_date(#[trigger] s[k])
                > crate::directive::spec_sort_date(d),
        j > 0 ==> crate::directive::spec_sort_date(s[j - 1]) <= crate::directive::spec_sort_date(
            d,
        ),
    ensures
        insert_sorted(s, d) == s.take(j) + seq![d] + s.skip(j),
    decreases s.len(),
{
    if j == s.len() {
        if s.len() == 0 {
            assert(insert_sorted(s, d) =~= s.take(j) + seq![d] + s.skip(j));
        } else {
            assert(crate::directive::spec_sort_date(s.last())
                <= crate::directive::spec_sort_date(d));
            assert(s.push(d) =~= s.take(j) + seq![d] + s.skip(j));
        }
    } else {
        assert(crate::directive::spec_sort_date(s.last()) > crate::directive::spec_sort_date(d));
        assert(forall|k: int|
            j <= k < s.drop_last().len() ==> s.drop_last()[k] == s[k]);
        if j > 0 {
            assert(s.drop_last()[j - 1] == s[j - 1]);
        }
        lemma_insert_sorted_at(s.drop_last(), d, j);
        assert((s.drop_last().take(j) + seq![d] + s.drop_last().skip(j)).push(s.last()) =~= s.take(
            j,
        ) + seq![d] + s.skip(j));
    }
}

/// The directives as processing annotates them, in processing order.
pub open spec fn annotate_run(ds: Seq<DirectiveV>, n: int) -> Seq<DirectiveV>
    decreases n,
{
    if n <= 0 {
        Seq::empty()
    } else {
        annotate_run(ds, n - 1).push(
            annotate_directive(run_directives(ds, n - 1), ds[n - 1]),
        )
    }
}

} // verus!
