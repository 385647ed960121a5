use vstd::prelude::*;

verus! {

use crate::amount::AmountV;
use crate::decimal::{dec_sat, exceeds_tol, DEC_BOUND};
use crate::directive::{BalanceCheckV, BalancePadV, DirectiveV, TransactionV};
use crate::error::LedgerErrorV;
use crate::inventory::bal0;
use crate::ledger::LedgerV;
use crate::semantics::{
    apply_one_posting, apply_postings, missing_count, process_spec, residual_map, snap_of,
    spec_precision, step_balance_check, step_balance_pad, step_directive, step_record_daily,
    step_transaction, txn_not_balanced, StateV,
};

/// Law: processing is deterministic. Two ledgers built from the same
/// directive stream are equal in every part: accounts, currencies,
/// options, documents, prices, snapshot, daily snapshots and errors.
pub proof fn lemma_process_deterministic(ds: Seq<DirectiveV>, a: LedgerV, b: LedgerV)
    requires
        a == process_spec(ds),
        b == process_spec(ds),
    ensures
        a == b,
{
}

/// Whether a balance check finds its account within tolerance.
pub open spec fn balance_check_passes(st: StateV, b: BalanceCheckV) -> bool {
    !exceeds_tol(
        dec_sat(b.amount.number - bal0(snap_of(st.ledger, b.account), b.amount.currency)),
        spec_precision(st.ledger.options),
    )
}

/// Law: a balance check that passes does not mutate the ledger. The
/// state it leaves is exactly the state the same stream without the
/// check would have reached: only the day bookkeeping, which any
/// directive of that date performs alike, moves on.
pub proof fn lemma_balance_check_non_mutation(st: StateV, b: BalanceCheckV)
    requires
        balance_check_passes(st, b),
    ensures
        step_balance_check(st, b).0 == step_record_daily(st, b.date),
{
    let st1 = step_record_daily(st, b.date);
    assert(st1.ledger.snapshot == st.ledger.snapshot);
    assert(st1.ledger.options == st.ledger.options);
    assert(st1.ledger.errors == st.ledger.errors);
    assert(step_balance_check(st, b).0.ledger =~= st1.ledger) by {
        assert(step_balance_check(st, b).0.ledger.errors == st1.ledger.errors);
    }
    assert(step_balance_check(st, b).0.ledger == st1.ledger);
}

/// Law: a balance pad leaves the padded account exactly at the
/// asserted amount, and moves the pad account by the opposite of the
/// distance it closed. Stated for values within the representable
/// range, which every decimal held by a ledger satisfies.
pub proof fn lemma_pad_correctness(st: StateV, b: BalancePadV)
    requires
        b.account != b.pad,
        -(DEC_BOUND as int) <= b.amount.number <= DEC_BOUND as int,
        -(DEC_BOUND as int) <= bal0(snap_of(st.ledger, b.account), b.amount.currency) <= DEC_BOUND
            as int,
        -(DEC_BOUND as int) <= b.amount.number - bal0(
            snap_of(st.ledger, b.account),
            b.amount.currency,
        ) <= DEC_BOUND as int,
        -(DEC_BOUND as int) <= bal0(snap_of(st.ledger, b.pad), b.amount.currency) - (
        b.amount.number - bal0(snap_of(st.ledger, b.account), b.amount.currency)) <= DEC_BOUND
            as int,
    ensures
        ({
            let st2 = step_balance_pad(st, b);
            let pre = bal0(snap_of(st.ledger, b.account), b.amount.currency);
            let pad_pre = bal0(snap_of(st.ledger, b.pad), b.amount.currency);
            &&& st2.ledger.snapshot.contains_key(b.account)
            &&& bal0(st2.ledger.snapshot[b.account], b.amount.currency) == b.amount.number
            &&& st2.ledger.snapshot.contains_key(b.pad)
            &&& bal0(st2.ledger.snapshot[b.pad], b.amount.currency) == pad_pre - (b.amount.number
                - pre)
        }),
{
    let st1 = step_record_daily(st, b.date);
    assert(st1.ledger.snapshot == st.ledger.snapshot);
}

proof fn lemma_apply_one_posting_frame(lv: LedgerV, t: TransactionV, p: crate::directive::PostingV)
    ensures
        apply_one_posting(lv, t, p).daily_snapshot == lv.daily_snapshot,
        apply_one_posting(lv, t, p).prices == lv.prices,
        apply_one_posting(lv, t, p).options == lv.options,
        apply_one_posting(lv, t, p).documents == lv.documents,
        apply_one_posting(lv, t, p).currencies == lv.currencies,
        forall|e: LedgerErrorV|
            lv.errors.contains(e) ==> apply_one_posting(lv, t, p).errors.contains(e),
{
    assert forall|e: LedgerErrorV|
        lv.errors.contains(e) implies apply_one_posting(lv, t, p).errors.contains(e) by {
        let i = choose|i: int| 0 <= i < lv.errors.len() && lv.errors[i] == e;
        assert(apply_one_posting(lv, t, p).errors[i] == e);
    }
}

/// Everything a transaction's postings leave untouched, and that the
/// errors only grow.
pub proof fn lemma_apply_postings_frame(lv: LedgerV, t: TransactionV, n: int)
    ensures
        apply_postings(lv, t, n).daily_snapshot == lv.daily_snapshot,
        apply_postings(lv, t, n).prices == lv.prices,
        apply_postings(lv, t, n).options == lv.options,
        apply_postings(lv, t, n).documents == lv.documents,
        apply_postings(lv, t, n).currencies == lv.currencies,
        forall|e: LedgerErrorV|
            lv.errors.contains(e) ==> apply_postings(lv, t, n).errors.contains(e),
    decreases n,
{
    if n > 0 {
        lemma_apply_postings_frame(lv, t, n - 1);
        lemma_apply_one_posting_frame(apply_postings(lv, t, n - 1), t, t.postings[n - 1]);
    }
}

/// Law: transaction conservation. With exactly one residual posting,
/// the inferred units cancel the summed contributions exactly, per
/// commodity. With none, either every commodity's residual lies
/// within tolerance, or the processed ledger records the imbalance.
pub proof fn lemma_transaction_conservation(st: StateV, t: TransactionV)
    ensures
        ({
            let r = residual_map(t.postings, t.postings.len() as int);
            let miss = missing_count(t.postings, t.postings.len() as int);
            let precision = spec_precision(step_record_daily(st, t.date).ledger.options);
            &&& miss == 1 ==> forall|c: Seq<char>|
                dec_sat(bal0(r, c) + -bal0(r, c)) == 0
            &&& miss == 0 && !txn_not_balanced(t, precision) ==> forall|c: Seq<char>|
                #[trigger] r.contains_key(c) ==> !exceeds_tol(r[c], precision)
            &&& txn_not_balanced(t, precision) ==> step_transaction(st, t).ledger.errors.contains(
                LedgerErrorV::TransactionNotBalanced { span: t.span },
            )
        }),
{
    let st1 = step_record_daily(st, t.date);
    let precision = spec_precision(st1.ledger.options);
    if txn_not_balanced(t, precision) {
        let lv2 = LedgerV {
            errors: st1.ledger.errors.push(LedgerErrorV::TransactionNotBalanced { span: t.span }),
            ..st1.ledger
        };
        assert(lv2.errors.contains(LedgerErrorV::TransactionNotBalanced { span: t.span })) by {
            assert(lv2.errors[lv2.errors.len() - 1] == LedgerErrorV::TransactionNotBalanced {
                span: t.span,
            });
        }
        lemma_apply_postings_frame(lv2, t, t.postings.len() as int);
    }
}

/// Law: daily snapshots only accumulate. A day already frozen, other
/// than the still-open target day, survives any directive unchanged;
/// and any day a directive freezes carries exactly the running
/// snapshot as it stood before the directive.
pub proof fn lemma_daily_snapshot_extension(st: StateV, d: DirectiveV)
    ensures
        forall|day: int|
            st.ledger.daily_snapshot.contains_key(day) && st.target_day != Some(day)
                ==> #[trigger] step_directive(st, d).ledger.daily_snapshot.contains_key(day)
                && step_directive(st, d).ledger.daily_snapshot[day]
                == st.ledger.daily_snapshot[day],
        forall|day: int|
            #[trigger] step_directive(st, d).ledger.daily_snapshot.contains_key(day)
                ==> st.ledger.daily_snapshot.contains_key(day) || (st.target_day == Some(day)
                && step_directive(st, d).ledger.daily_snapshot[day] == st.ledger.snapshot),
{
    match d {
        DirectiveV::Transaction(t) => {
            let st1 = step_record_daily(st, t.date);
            let lv2 = if txn_not_balanced(t, spec_precision(st1.ledger.options)) {
                LedgerV {
                    errors: st1.ledger.errors.push(
                        LedgerErrorV::TransactionNotBalanced { span: t.span },
                    ),
                    ..st1.ledger
                }
            } else {
                st1.ledger
            };
            lemma_apply_postings_frame(lv2, t, t.postings.len() as int);
        },
        _ => {},
    }
}

/// Whether a directive can change the running snapshot: transactions
/// and balance directives do, nothing else does.
pub open spec fn touches_snapshot(d: DirectiveV) -> bool {
    match d {
        DirectiveV::Transaction(_) => true,
        DirectiveV::Balance(_) => true,
        _ => false,
    }
}

/// Non-decreasing dates.
pub open spec fn sorted_by_date(s: Seq<DirectiveV>) -> bool {
    forall|i: int, j: int|
        0 <= i <= j < s.len() ==> crate::directive::spec_sort_date(#[trigger] s[i])
            <= crate::directive::spec_sort_date(#[trigger] s[j])
}

/// How many directives are dated `d` or earlier; in a sorted stream
/// they are exactly the first `count_le` many.
pub open spec fn count_le(s: Seq<DirectiveV>, d: int) -> int
    decreases s.len(),
{
    if s.len() == 0 {
        0
    } else {
        count_le(s.drop_last(), d) + if crate::directive::spec_sort_date(s.last()) <= d {
            1int
        } else {
            0int
        }
    }
}

proof fn lemma_count_le_all(s: Seq<DirectiveV>, d: int)
    requires
        forall|i: int|
            0 <= i < s.len() ==> crate::directive::spec_sort_date(#[trigger] s[i]) <= d,
    ensures
        count_le(s, d) == s.len(),
    decreases s.len(),
{
    if s.len() > 0 {
        assert(forall|i: int|
            0 <= i < s.drop_last().len() ==> s.drop_last()[i] == s[i]);
        lemma_count_le_all(s.drop_last(), d);
    }
}

pub proof fn lemma_count_le_prefix(s: Seq<DirectiveV>, d: int)
    requires
        sorted_by_date(s),
    ensures
        0 <= count_le(s, d) <= s.len(),
        forall|i: int|
            0 <= i < count_le(s, d) ==> crate::directive::spec_sort_date(#[trigger] s[i]) <= d,
        forall|i: int|
            count_le(s, d) <= i < s.len() ==> crate::directive::spec_sort_date(#[trigger] s[i])
                > d,
    decreases s.len(),
{
    if s.len() > 0 {
        assert(forall|i: int|
            0 <= i < s.drop_last().len() ==> s.drop_last()[i] == s[i]);
        if crate::directive::spec_sort_date(s.last()) <= d {
            assert forall|i: int|
                0 <= i < s.len() implies crate::directive::spec_sort_date(#[trigger] s[i])
                <= d by {
                assert(crate::directive::spec_sort_date(s[i]) <= crate::directive::spec_sort_date(
                    s[s.len() - 1],
                ));
            }
            lemma_count_le_all(s, d);
        } else {
            lemma_count_le_prefix(s.drop_last(), d);
        }
    }
}

proof fn lemma_step_irrelevant(st: StateV, d: DirectiveV)
    requires
        !touches_snapshot(d),
    ensures
        step_directive(st, d).ledger.snapshot == st.ledger.snapshot,
        step_directive(st, d).ledger.daily_snapshot == st.ledger.daily_snapshot,
        step_directive(st, d).target_day == st.target_day,
{
}

proof fn lemma_run_skips_irrelevant(sv: Seq<DirectiveV>, a: int, b: int)
    requires
        0 <= a <= b <= sv.len(),
        forall|j: int| a <= j < b ==> !touches_snapshot(#[trigger] sv[j]),
    ensures
        crate::semantics::run_directives(sv, b).ledger.snapshot
            == crate::semantics::run_directives(sv, a).ledger.snapshot,
        crate::semantics::run_directives(sv, b).ledger.daily_snapshot
            == crate::semantics::run_directives(sv, a).ledger.daily_snapshot,
        crate::semantics::run_directives(sv, b).target_day == crate::semantics::run_directives(
            sv,
            a,
        ).target_day,
    decreases b - a,
{
    if b > a {
        lemma_run_skips_irrelevant(sv, a, b - 1);
        lemma_step_irrelevant(crate::semantics::run_directives(sv, b - 1), sv[b - 1]);
    }
}

proof fn lemma_touching_step(st: StateV, d: DirectiveV)
    requires
        touches_snapshot(d),
    ensures
        step_directive(st, d).ledger.daily_snapshot == step_record_daily(
            st,
            crate::directive::spec_sort_date(d),
        ).ledger.daily_snapshot,
        step_directive(st, d).target_day == step_record_daily(
            st,
            crate::directive::spec_sort_date(d),
        ).target_day,
{
    match d {
        DirectiveV::Transaction(t) => {
            let st1 = step_record_daily(st, t.date);
            let lv2 = if txn_not_balanced(t, spec_precision(st1.ledger.options)) {
                LedgerV {
                    errors: st1.ledger.errors.push(
                        LedgerErrorV::TransactionNotBalanced { span: t.span },
                    ),
                    ..st1.ledger
                }
            } else {
                st1.ledger
            };
            lemma_apply_postings_frame(lv2, t, t.postings.len() as int);
        },
        _ => {},
    }
}

/// The bundle of facts a sorted run maintains about its daily
/// snapshots: the open target day is the latest snapshot-relevant
/// date seen, and every frozen day carries the snapshot the prefix of
/// directives dated that day or earlier produced.
pub open spec fn daily_invariant(sv: Seq<DirectiveV>, n: int) -> bool {
    let st = crate::semantics::run_directives(sv, n);
    match st.target_day {
        None => st.ledger.daily_snapshot =~= Map::empty() && (forall|j: int|
            0 <= j < n ==> !touches_snapshot(#[trigger] sv[j])),
        Some(t) => {
            &&& forall|j: int|
                0 <= j < n && touches_snapshot(#[trigger] sv[j])
                    ==> crate::directive::spec_sort_date(sv[j]) <= t
            &&& exists|j: int|
                0 <= j < n && touches_snapshot(#[trigger] sv[j])
                    && crate::directive::spec_sort_date(sv[j]) == t
            &&& forall|d: int|
                #[trigger] st.ledger.daily_snapshot.contains_key(d) ==> d < t
                    && st.ledger.daily_snapshot[d] == crate::semantics::run_directives(
                    sv,
                    count_le(sv, d),
                ).ledger.snapshot
        },
    }
}

proof fn lemma_run_invariant(sv: Seq<DirectiveV>, n: int)
    requires
        sorted_by_date(sv),
        0 <= n <= sv.len(),
    ensures
        daily_invariant(sv, n),
    decreases n,
{
    if n == 0 {
        return;
    }
    lemma_run_invariant(sv, n - 1);
    let st0 = crate::semantics::run_directives(sv, n - 1);
    let x = sv[n - 1];
    let st1 = step_directive(st0, x);
    if !touches_snapshot(x) {
        lemma_step_irrelevant(st0, x);
        return;
    }
    let dx = crate::directive::spec_sort_date(x);
    lemma_touching_step(st0, x);
    match st0.target_day {
        None => {
            assert(st1.target_day == Some(dx));
            assert(st1.ledger.daily_snapshot =~= st0.ledger.daily_snapshot);
            assert(0 <= n - 1 < n && touches_snapshot(sv[n - 1])
                && crate::directive::spec_sort_date(sv[n - 1]) == dx);
        },
        Some(t0) => {
            let j0 = choose|j: int|
                0 <= j < n - 1 && touches_snapshot(sv[j]) && crate::directive::spec_sort_date(
                    sv[j],
                ) == t0;
            assert(t0 <= dx);
            if dx == t0 {
                assert(st1.ledger.daily_snapshot == st0.ledger.daily_snapshot);
                assert(0 <= j0 < n && touches_snapshot(sv[j0])
                    && crate::directive::spec_sort_date(sv[j0]) == t0);
            } else {
                assert(dx > t0);
                lemma_count_le_prefix(sv, t0);
                let c = count_le(sv, t0);
                assert(c <= n - 1) by {
                    if c > n - 1 {
                        assert(crate::directive::spec_sort_date(sv[n - 1]) <= t0);
                    }
                }
                assert forall|j: int| c <= j < n - 1 implies !touches_snapshot(
                    #[trigger] sv[j]) by {
                    assert(crate::directive::spec_sort_date(sv[j]) > t0);
                }
                lemma_run_skips_irrelevant(sv, c, n - 1);
                assert(st1.ledger.daily_snapshot == st0.ledger.daily_snapshot.insert(
                    t0,
                    st0.ledger.snapshot,
                ));
                assert(st1.target_day == Some(dx));
                assert(0 <= n - 1 < n && touches_snapshot(sv[n - 1])
                    && crate::directive::spec_sort_date(sv[n - 1]) == dx);
                assert forall|d: int|
                    #[trigger] st1.ledger.daily_snapshot.contains_key(d) implies d < dx
                    && st1.ledger.daily_snapshot[d] == crate::semantics::run_directives(
                    sv,
                    count_le(sv, d),
                ).ledger.snapshot by {
                    if d == t0 {
                        assert(st1.ledger.daily_snapshot[t0] == st0.ledger.snapshot);
                    } else {
                        assert(st0.ledger.daily_snapshot.contains_key(d));
                    }
                }
            }
        },
    }
}

/// Law: snapshot monotonicity. Every frozen day `d` in the processed
/// ledger holds exactly the running snapshot that the directives dated
/// `d` or earlier produced — the ordered accumulation of every
/// transaction and pad up to that day — and the first `count_le`
/// directives of the sorted stream are exactly those dated `d` or
/// earlier.
pub proof fn lemma_snapshot_monotonicity(ds: Seq<DirectiveV>)
    ensures
        ({
            let sv = crate::semantics::sort_directives(ds);
            let lv = process_spec(ds);
            forall|d: int|
                #[trigger] lv.daily_snapshot.contains_key(d) ==> lv.daily_snapshot[d]
                    == crate::semantics::run_directives(sv, count_le(sv, d)).ledger.snapshot
                    && (forall|i: int|
                    0 <= i < count_le(sv, d) ==> crate::directive::spec_sort_date(
                        #[trigger] sv[i],
                    ) <= d) && (forall|i: int|
                    count_le(sv, d) <= i < sv.len() ==> crate::directive::spec_sort_date(
                        #[trigger] sv[i],
                    ) > d)
        }),
{
    lemma_sort_directives_sorted(ds);
    let sv = crate::semantics::sort_directives(ds);
    let n = sv.len() as int;
    lemma_run_invariant(sv, n);
    let st = crate::semantics::run_directives(sv, n);
    let lv = process_spec(ds);
    assert forall|d: int|
        #[trigger] lv.daily_snapshot.contains_key(d) implies lv.daily_snapshot[d]
        == crate::semantics::run_directives(sv, count_le(sv, d)).ledger.snapshot && (forall|i: int|
        0 <= i < count_le(sv, d) ==> crate::directive::spec_sort_date(#[trigger] sv[i]) <= d) && (
    forall|i: int|
        count_le(sv, d) <= i < sv.len() ==> crate::directive::spec_sort_date(#[trigger] sv[i])
            > d) by {
        lemma_count_le_prefix(sv, d);
        match st.target_day {
            None => {
                assert(lv.daily_snapshot == st.ledger.daily_snapshot);
                assert(!st.ledger.daily_snapshot.contains_key(d));
            },
            Some(t) => {
                if d == t {
                    let c = count_le(sv, t);
                    assert(c <= n);
                    assert forall|j: int| c <= j < n implies !touches_snapshot(
                        #[trigger] sv[j]) by {
                        assert(crate::directive::spec_sort_date(sv[j]) > t);
                    }
                    lemma_run_skips_irrelevant(sv, c, n);
                    assert(lv.daily_snapshot[t] == st.ledger.snapshot);
                } else {
                    assert(st.ledger.daily_snapshot.contains_key(d));
                }
            },
        }
    }
}

/// The chronological sort really sorts: its result is non-decreasing
/// in the date key. Together with `lemma_snapshot_monotonicity` this
/// discharges its hypothesis for every input stream.
pub proof fn lemma_sort_directives_sorted(s: Seq<DirectiveV>)
    ensures
        sorted_by_date(crate::semantics::sort_directives(s)),
    decreases s.len(),
{
    if s.len() > 0 {
        lemma_sort_directives_sorted(s.drop_last());
        lemma_insert_sorted_keeps_order(crate::semantics::sort_directives(s.drop_last()), s.last());
    }
}

proof fn lemma_insert_sorted_member(s: Seq<DirectiveV>, d: DirectiveV)
    ensures
        forall|i: int|
            0 <= i < crate::semantics::insert_sorted(s, d).len()
                ==> (#[trigger] crate::semantics::insert_sorted(s, d)[i] == d || exists|j: int|
                0 <= j < s.len() && s[j] == crate::semantics::insert_sorted(s, d)[i]),
    decreases s.len(),
{
    let r = crate::semantics::insert_sorted(s, d);
    if s.len() == 0 {
    } else if crate::directive::spec_sort_date(d) < crate::directive::spec_sort_date(s.last()) {
        lemma_insert_sorted_member(s.drop_last(), d);
        let inner = crate::semantics::insert_sorted(s.drop_last(), d);
        assert forall|i: int|
            0 <= i < r.len() implies (#[trigger] r[i] == d || exists|j: int|
            0 <= j < s.len() && s[j] == r[i]) by {
            if i < inner.len() {
                assert(r[i] == inner[i]);
                if inner[i] != d {
                    let j = choose|j: int|
                        0 <= j < s.drop_last().len() && s.drop_last()[j] == inner[i];
                    assert(s[j] == r[i]);
                }
            } else {
                assert(r[i] == s.last());
                assert(s[s.len() - 1] == r[i]);
            }
        }
    } else {
        assert forall|i: int|
            0 <= i < r.len() implies (#[trigger] r[i] == d || exists|j: int|
            0 <= j < s.len() && s[j] == r[i]) by {
            if i < s.len() {
                assert(s[i] == r[i]);
            }
        }
    }
}

proof fn lemma_insert_sorted_keeps_order(s: Seq<DirectiveV>, d: DirectiveV)
    requires
        sorted_by_date(s),
    ensures
        sorted_by_date(crate::semantics::insert_sorted(s, d)),
    decreases s.len(),
{
    let r = crate::semantics::insert_sorted(s, d);
    if s.len() == 0 {
    } else if crate::directive::spec_sort_date(d) < crate::directive::spec_sort_date(s.last()) {
        assert(forall|i: int, j: int|
            0 <= i <= j < s.drop_last().len() ==> crate::directive::spec_sort_date(
                #[trigger] s.drop_last()[i],
            ) <= crate::directive::spec_sort_date(#[trigger] s.drop_last()[j]));
        lemma_insert_sorted_keeps_order(s.drop_last(), d);
        lemma_insert_sorted_member(s.drop_last(), d);
        let inner = crate::semantics::insert_sorted(s.drop_last(), d);
        assert forall|i: int, j: int|
            0 <= i <= j < r.len() implies crate::directive::spec_sort_date(#[trigger] r[i])
            <= crate::directive::spec_sort_date(#[trigger] r[j]) by {
            if j < inner.len() {
                assert(r[i] == inner[i] && r[j] == inner[j]);
            } else {
                assert(r[j] == s.last());
                if i < inner.len() {
                    assert(r[i] == inner[i]);
                    if inner[i] == d {
                    } else {
                        let w = choose|w: int|
                            0 <= w < s.drop_last().len() && s.drop_last()[w] == inner[i];
                        assert(crate::directive::spec_sort_date(s[w])
                            <= crate::directive::spec_sort_date(s[s.len() - 1]));
                    }
                }
            }
        }
    } else {
        assert forall|i: int, j: int|
            0 <= i <= j < r.len() implies crate::directive::spec_sort_date(#[trigger] r[i])
            <= crate::directive::spec_sort_date(#[trigger] r[j]) by {
            if j < s.len() {
                assert(r[i] == s[i] && r[j] == s[j]);
            } else {
                assert(r[j] == d);
                if i < s.len() {
                    assert(r[i] == s[i]);
                    assert(crate::directive::spec_sort_date(s[i])
                        <= crate::directive::spec_sort_date(s[s.len() - 1]));
                }
            }
        }
    }
}

/// Law: the price grip's answers are stable under later knowledge of
/// older facts only when they cannot matter — inserting an
/// observation dated after `d` never changes what `convert` yields as
/// of `d`.
pub proof fn lemma_price_insert_preserves_past(
    s: Seq<crate::price_grip::PriceObsV>,
    o: crate::price_grip::PriceObsV,
    d: int,
    a: AmountV,
    t: Seq<char>,
)
    requires
        d < o.date,
    ensures
        crate::price_grip::convert_spec(s.push(o), d, a, t) == crate::price_grip::convert_spec(
            s,
            d,
            a,
            t,
        ),
{
    lemma_grip_best_push_newer_all(s, o, d);
    let full2 = s.push(o);
    assert(full2.drop_last() =~= s);
    assert(full2.last() == o);
    lemma_hop_scan_full_swap(full2, s, s, d, a.currency, t);
    assert(crate::price_grip::hop_scan(full2, full2, d, a.currency, t)
        == crate::price_grip::hop_scan(full2, s, d, a.currency, t));
}

proof fn lemma_grip_best_push_newer_all(s: Seq<crate::price_grip::PriceObsV>, o: crate::price_grip::PriceObsV, d: int)
    requires
        d < o.date,
    ensures
        forall|b: Seq<char>, q: Seq<char>|
            #[trigger] crate::price_grip::grip_best(s.push(o), d, b, q)
                == crate::price_grip::grip_best(s, d, b, q),
{
    assert forall|b: Seq<char>, q: Seq<char>|
        #[trigger] crate::price_grip::grip_best(s.push(o), d, b, q)
            == crate::price_grip::grip_best(s, d, b, q) by {
        assert(s.push(o).drop_last() =~= s);
        assert(s.push(o).last() == o);
    }
}

proof fn lemma_hop_scan_full_swap(
    full1: Seq<crate::price_grip::PriceObsV>,
    full2: Seq<crate::price_grip::PriceObsV>,
    s: Seq<crate::price_grip::PriceObsV>,
    d: int,
    b: Seq<char>,
    q: Seq<char>,
)
    requires
        forall|m: Seq<char>|
            #[trigger] crate::price_grip::grip_best(full1, d, m, q)
                == crate::price_grip::grip_best(full2, d, m, q),
    ensures
        crate::price_grip::hop_scan(full1, s, d, b, q) == crate::price_grip::hop_scan(
            full2,
            s,
            d,
            b,
            q,
        ),
    decreases s.len(),
{
    if s.len() > 0 {
        lemma_hop_scan_full_swap(full1, full2, s.drop_last(), d, b, q);
    }
}

} // verus!
