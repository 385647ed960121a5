use vstd::prelude::*;

verus! {

use crate::amount::{Amount, AmountV, AccountName, Currency};

/// A semantic anomaly the processor records without aborting. Each
/// variant that arises from a directive carries that directive's
/// source span.
#[derive(Clone, Debug, PartialEq)]
pub enum LedgerError {
    AccountBalanceCheckError {
        span: u64,
        account_name: AccountName,
        target: Amount,
        current: Amount,
        distance: Amount,
    },
    TransactionNotBalanced { span: u64 },
    AccountCommodityNotDefined { span: u64, account_name: AccountName, currency: Currency },
    TransactionHasAccountAlreadyClosed { span: u64, account_name: AccountName },
    AccountClosedWithBalance { span: u64, account_name: AccountName },
    CommodityRedefined { span: u64, currency: Currency },
    UnknownAccount { span: u64, account_name: AccountName },
    NoPriceAvailable { currency: Currency, target: Currency },
    IncludeCycle { path: String },
}

pub enum LedgerErrorV {
    AccountBalanceCheckError {
        span: int,
        account_name: Seq<char>,
        target: AmountV,
        current: AmountV,
        distance: AmountV,
    },
    TransactionNotBalanced { span: int },
    AccountCommodityNotDefined { span: int, account_name: Seq<char>, currency: Seq<char> },
    TransactionHasAccountAlreadyClosed { span: int, account_name: Seq<char> },
    AccountClosedWithBalance { span: int, account_name: Seq<char> },
    CommodityRedefined { span: int, currency: Seq<char> },
    UnknownAccount { span: int, account_name: Seq<char> },
    NoPriceAvailable { currency: Seq<char>, target: Seq<char> },
    IncludeCycle { path: Seq<char> },
}

impl View for LedgerError {
    type V = LedgerErrorV;

    open spec fn view(&self) -> LedgerErrorV {
        match self {
            LedgerError::AccountBalanceCheckError { span, account_name, target, current, distance } => LedgerErrorV::AccountBalanceCheckError {
                span: *span as int,
                account_name: account_name@,
                target: target@,
                current: current@,
                distance: distance@,
            },
            LedgerError::TransactionNotBalanced { span } => LedgerErrorV::TransactionNotBalanced {
                span: *span as int,
            },
            LedgerError::AccountCommodityNotDefined { span, account_name, currency } => LedgerErrorV::AccountCommodityNotDefined {
                span: *span as int,
                account_name: account_name@,
                currency: currency@,
            },
            LedgerError::TransactionHasAccountAlreadyClosed { span, account_name } => LedgerErrorV::TransactionHasAccountAlreadyClosed {
                span: *span as int,
                account_name: account_name@,
            },
            LedgerError::AccountClosedWithBalance { span, account_name } => LedgerErrorV::AccountClosedWithBalance {
                span: *span as int,
                account_name: account_name@,
            },
            LedgerError::CommodityRedefined { span, currency } => LedgerErrorV::CommodityRedefined {
                span: *span as int,
                currency: currency@,
            },
            LedgerError::UnknownAccount { span, account_name } => LedgerErrorV::UnknownAccount {
                span: *span as int,
                account_name: account_name@,
            },
            LedgerError::NoPriceAvailable { currency, target } => LedgerErrorV::NoPriceAvailable {
                currency: currency@,
                target: target@,
            },
            LedgerError::IncludeCycle { path } => LedgerErrorV::IncludeCycle { path: path@ },
        }
    }
}

} // verus!
