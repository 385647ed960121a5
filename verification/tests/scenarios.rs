use zhang::amount::Amount;
use zhang::decimal::Decimal;
use zhang::directive::{
    Balance, BalanceCheck, BalancePad, Directive, Flag, Open, Posting, Price, Transaction,
};
use zhang::error::LedgerError;
use zhang::ledger::Ledger;
use zhang::process::process_directives;

fn day(y: i32, m: u32, d: u32) -> u64 {
    zhang::bridge::day_number(y, m, d).expect("valid date")
}

fn open(date: u64, span: u64, account: &str, commodities: &[&str]) -> Directive {
    Directive::Open(Open {
        date,
        span,
        account: account.to_string(),
        commodities: commodities.iter().map(|c| c.to_string()).collect(),
        meta: Vec::new(),
    })
}

fn txn(date: u64, span: u64, narration: &str, postings: Vec<Posting>) -> Directive {
    Directive::Transaction(Transaction {
        date,
        span,
        flag: Flag::Completed,
        payee: String::new(),
        narration: narration.to_string(),
        tags: Vec::new(),
        links: Vec::new(),
        postings,
        meta: Vec::new(),
    })
}

fn post(account: &str, units: Option<Amount>) -> Posting {
    Posting { account: account.to_string(), units, cost: None, price: None }
}

fn usd(mantissa: i64) -> Amount {
    Amount::new(Decimal::new(mantissa, 2), "USD".to_string())
}

fn check(date: u64, span: u64, account: &str, amount: Amount) -> Directive {
    Directive::Balance(Balance::BalanceCheck(BalanceCheck {
        date,
        span,
        account: account.to_string(),
        amount,
        current_amount: None,
        distance: None,
    }))
}

fn snapshot_of(ledger: &Ledger, account: &str, commodity: &str) -> Decimal {
    match ledger.snapshot.get(&account.to_string()) {
        Some(s) => s.get(&commodity.to_string()),
        None => Decimal::zero(),
    }
}

#[test]
fn simple_transaction_and_passing_check() {
    let d1 = day(2023, 1, 1);
    let d2 = day(2023, 1, 2);
    let d3 = day(2023, 1, 3);
    let directives = vec![
        open(d1, 1, "Assets:Cash", &["USD"]),
        open(d1, 2, "Expenses:Food", &["USD"]),
        txn(
            d2,
            3,
            "lunch",
            vec![post("Assets:Cash", Some(usd(-1000))), post("Expenses:Food", None)],
        ),
        check(d3, 4, "Assets:Cash", usd(-1000)),
    ];
    let (ledger, _processed) = process_directives(directives);
    assert!(ledger.errors.is_empty());
    assert_eq!(snapshot_of(&ledger, "Assets:Cash", "USD"), Decimal::new(-1000, 2));
    assert_eq!(snapshot_of(&ledger, "Expenses:Food", "USD"), Decimal::new(1000, 2));
    // the day of the transaction was frozen before the check's day began
    let frozen = ledger.balance_at_day(d2, &"Assets:Cash".to_string(), &"USD".to_string());
    assert_eq!(frozen, Some(Decimal::new(-1000, 2)));
}

#[test]
fn failing_check_reports_distance_and_leaves_snapshot() {
    let d1 = day(2023, 1, 1);
    let d2 = day(2023, 1, 2);
    let d3 = day(2023, 1, 3);
    let directives = vec![
        open(d1, 1, "Assets:Cash", &["USD"]),
        open(d1, 2, "Expenses:Food", &["USD"]),
        txn(
            d2,
            3,
            "lunch",
            vec![post("Assets:Cash", Some(usd(-1000))), post("Expenses:Food", None)],
        ),
        check(d3, 4, "Assets:Cash", usd(-900)),
    ];
    let (ledger, processed) = process_directives(directives);
    assert_eq!(ledger.errors.len(), 1);
    match &ledger.errors[0] {
        LedgerError::AccountBalanceCheckError { account_name, target, current, distance, .. } => {
            assert_eq!(account_name, "Assets:Cash");
            assert_eq!(target.number, Decimal::new(-900, 2));
            assert_eq!(current.number, Decimal::new(-1000, 2));
            assert_eq!(distance.number, Decimal::new(100, 2));
        },
        other => panic!("unexpected error {:?}", other),
    }
    assert_eq!(snapshot_of(&ledger, "Assets:Cash", "USD"), Decimal::new(-1000, 2));
    // the processed stream carries the annotation
    let annotated = processed
        .iter()
        .find_map(|d| match d {
            Directive::Balance(Balance::BalanceCheck(b)) => Some(b.clone()),
            _ => None,
        })
        .expect("check directive present");
    assert_eq!(annotated.current_amount.unwrap().number, Decimal::new(-1000, 2));
    assert_eq!(annotated.distance.unwrap().number, Decimal::new(100, 2));
}

#[test]
fn pad_sets_account_and_books_opposite() {
    let d1 = day(2023, 1, 1);
    let d2 = day(2023, 1, 2);
    let directives = vec![
        open(d1, 1, "Assets:Cash", &["USD"]),
        open(d1, 2, "Equity:Pad", &["USD"]),
        Directive::Balance(Balance::BalancePad(BalancePad {
            date: d2,
            span: 3,
            account: "Assets:Cash".to_string(),
            amount: usd(50000),
            pad: "Equity:Pad".to_string(),
        })),
    ];
    let (ledger, _) = process_directives(directives);
    assert!(ledger.errors.is_empty());
    assert_eq!(snapshot_of(&ledger, "Assets:Cash", "USD"), Decimal::new(50000, 2));
    assert_eq!(snapshot_of(&ledger, "Equity:Pad", "USD"), Decimal::new(-50000, 2));
}

#[test]
fn pad_moves_pad_account_by_the_closed_distance() {
    let d1 = day(2023, 1, 1);
    let d2 = day(2023, 1, 2);
    let directives = vec![
        open(d1, 1, "Assets:Cash", &["USD"]),
        open(d1, 2, "Equity:Pad", &["USD"]),
        open(d1, 3, "Income:Gift", &["USD"]),
        txn(
            d1,
            4,
            "gift",
            vec![post("Assets:Cash", Some(usd(12000))), post("Income:Gift", None)],
        ),
        Directive::Balance(Balance::BalancePad(BalancePad {
            date: d2,
            span: 5,
            account: "Assets:Cash".to_string(),
            amount: usd(50000),
            pad: "Equity:Pad".to_string(),
        })),
    ];
    let (ledger, _) = process_directives(directives);
    assert!(ledger.errors.is_empty());
    // the account lands exactly on the asserted amount...
    assert_eq!(snapshot_of(&ledger, "Assets:Cash", "USD"), Decimal::new(50000, 2));
    // ...and the pad account moves by the opposite of the 380.00 gap
    assert_eq!(snapshot_of(&ledger, "Equity:Pad", "USD"), Decimal::new(-38000, 2));
}

#[test]
fn multi_commodity_transaction_with_price() {
    let d1 = day(2023, 2, 1);
    let d2 = day(2023, 2, 2);
    let mut wallet_leg = post("Assets:Wallet", Some(Amount::new(Decimal::new(10000, 2), "USD".to_string())));
    wallet_leg.price = Some(Amount::new(Decimal::new(700, 2), "CNY".to_string()));
    let directives = vec![
        open(d1, 1, "Assets:Wallet", &[]),
        open(d1, 2, "Income:Salary", &["CNY"]),
        Directive::Price(Price {
            date: d2,
            span: 3,
            currency: "USD".to_string(),
            amount: Amount::new(Decimal::new(700, 2), "CNY".to_string()),
        }),
        txn(
            d2,
            4,
            "paid",
            vec![
                wallet_leg,
                post("Income:Salary", Some(Amount::new(Decimal::new(-70000, 2), "CNY".to_string()))),
            ],
        ),
    ];
    let (ledger, _) = process_directives(directives);
    assert!(ledger.errors.is_empty());
    assert_eq!(snapshot_of(&ledger, "Assets:Wallet", "USD"), Decimal::new(10000, 2));
    assert_eq!(snapshot_of(&ledger, "Income:Salary", "CNY"), Decimal::new(-70000, 2));
    let one_usd = Amount::new(Decimal::from_int(1), "USD".to_string());
    let got = ledger.prices.convert(d2, &one_usd, &"CNY".to_string()).expect("price known");
    assert_eq!(got.number, Decimal::new(700, 2));
    assert_eq!(got.currency, "CNY");
}

#[test]
fn unbalanced_transaction_still_applies_amounts() {
    let d1 = day(2023, 3, 1);
    let d2 = day(2023, 3, 2);
    let directives = vec![
        open(d1, 1, "Assets:A", &["USD"]),
        open(d1, 2, "Assets:B", &["USD"]),
        txn(
            d2,
            3,
            "bad",
            vec![post("Assets:A", Some(usd(1000))), post("Assets:B", Some(usd(500)))],
        ),
    ];
    let (ledger, _) = process_directives(directives);
    assert_eq!(ledger.errors.len(), 1);
    assert!(matches!(ledger.errors[0], LedgerError::TransactionNotBalanced { .. }));
    assert_eq!(snapshot_of(&ledger, "Assets:A", "USD"), Decimal::new(1000, 2));
    assert_eq!(snapshot_of(&ledger, "Assets:B", "USD"), Decimal::new(500, 2));
}

#[test]
fn close_with_remaining_balance_is_flagged() {
    let d1 = day(2023, 4, 1);
    let directives = vec![
        open(d1, 1, "Assets:A", &["USD"]),
        open(d1, 2, "Equity:Open", &["USD"]),
        txn(
            d1,
            3,
            "seed",
            vec![post("Assets:A", Some(usd(500))), post("Equity:Open", Some(usd(-500)))],
        ),
        Directive::Close(zhang::directive::Close {
            date: d1,
            span: 4,
            account: "Assets:A".to_string(),
            meta: Vec::new(),
        }),
    ];
    let (ledger, _) = process_directives(directives);
    assert!(ledger
        .errors
        .iter()
        .any(|e| matches!(e, LedgerError::AccountClosedWithBalance { account_name, .. } if account_name == "Assets:A")));
    let accounts = ledger.account_list();
    let a = accounts.iter().find(|a| a.name == "Assets:A").expect("account listed");
    assert_eq!(a.status, "Close");
}

#[test]
fn processing_is_deterministic_across_runs() {
    let d1 = day(2023, 5, 1);
    let d2 = day(2023, 5, 2);
    let build = || {
        vec![
            open(d1, 1, "Assets:Cash", &["USD"]),
            open(d1, 2, "Expenses:Food", &["USD"]),
            txn(
                d2,
                3,
                "lunch",
                vec![post("Assets:Cash", Some(usd(-1234))), post("Expenses:Food", None)],
            ),
        ]
    };
    let (first, first_processed) = process_directives(build());
    let (second, second_processed) = process_directives(build());
    assert_eq!(first.errors, second.errors);
    assert_eq!(first.account_list(), second.account_list());
    assert_eq!(first_processed, second_processed);
    assert_eq!(
        first.balance_at_day(d2, &"Assets:Cash".to_string(), &"USD".to_string()),
        second.balance_at_day(d2, &"Assets:Cash".to_string(), &"USD".to_string())
    );
}

#[test]
fn directives_are_processed_in_date_order() {
    let d1 = day(2023, 6, 1);
    let d2 = day(2023, 6, 2);
    // the check is listed first but dated later: it must still pass
    let directives = vec![
        check(d2, 1, "Assets:Cash", usd(700)),
        open(d1, 2, "Assets:Cash", &["USD"]),
        open(d1, 3, "Equity:Seed", &["USD"]),
        txn(
            d1,
            4,
            "seed",
            vec![post("Assets:Cash", Some(usd(700))), post("Equity:Seed", None)],
        ),
    ];
    let (ledger, _) = process_directives(directives);
    assert!(ledger.errors.is_empty());
}
