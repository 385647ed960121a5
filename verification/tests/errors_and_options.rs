use zhang::amount::Amount;
use zhang::decimal::Decimal;
use zhang::directive::{
    Balance, BalanceCheck, Commodity, Directive, Flag, Open, Options, Posting, Transaction,
};
use zhang::error::LedgerError;
use zhang::process::process_directives;

fn d(y: i32, m: u32, dd: u32) -> u64 {
    zhang::bridge::day_number(y, m, dd).expect("valid date")
}

fn open_usd(date: u64, span: u64, account: &str) -> Directive {
    Directive::Open(Open {
        date,
        span,
        account: account.to_string(),
        commodities: vec!["USD".to_string()],
        meta: Vec::new(),
    })
}

fn txn2(date: u64, span: u64, a: (&str, i64), b: (&str, i64)) -> Directive {
    Directive::Transaction(Transaction {
        date,
        span,
        flag: Flag::Completed,
        payee: String::new(),
        narration: String::new(),
        tags: Vec::new(),
        links: Vec::new(),
        postings: vec![
            Posting {
                account: a.0.to_string(),
                units: Some(Amount::new(Decimal::new(a.1, 2), "USD".to_string())),
                cost: None,
                price: None,
            },
            Posting {
                account: b.0.to_string(),
                units: Some(Amount::new(Decimal::new(b.1, 2), "USD".to_string())),
                cost: None,
                price: None,
            },
        ],
        meta: Vec::new(),
    })
}

#[test]
fn commodity_in_disallowed_set_is_flagged() {
    let day = d(2023, 7, 1);
    let directives = vec![
        open_usd(day, 1, "Assets:Cash"),
        open_usd(day, 2, "Equity:Seed"),
        Directive::Transaction(Transaction {
            date: day,
            span: 3,
            flag: Flag::Completed,
            payee: String::new(),
            narration: String::new(),
            tags: Vec::new(),
            links: Vec::new(),
            postings: vec![
                Posting {
                    account: "Assets:Cash".to_string(),
                    units: Some(Amount::new(Decimal::new(100, 2), "EUR".to_string())),
                    cost: None,
                    price: None,
                },
                Posting { account: "Equity:Seed".to_string(), units: None, cost: None, price: None },
            ],
            meta: Vec::new(),
        }),
    ];
    let (ledger, _) = process_directives(directives);
    assert!(ledger.errors.iter().any(|e| matches!(
        e,
        LedgerError::AccountCommodityNotDefined { account_name, currency, .. }
            if account_name == "Assets:Cash" && currency == "EUR"
    )));
}

#[test]
fn posting_to_closed_account_is_flagged() {
    let day1 = d(2023, 7, 1);
    let day2 = d(2023, 7, 2);
    let directives = vec![
        open_usd(day1, 1, "Assets:Cash"),
        open_usd(day1, 2, "Equity:Seed"),
        Directive::Close(zhang::directive::Close {
            date: day1,
            span: 3,
            account: "Assets:Cash".to_string(),
            meta: Vec::new(),
        }),
        txn2(day2, 4, ("Assets:Cash", 100), ("Equity:Seed", -100)),
    ];
    let (ledger, _) = process_directives(directives);
    assert!(ledger.errors.iter().any(|e| matches!(
        e,
        LedgerError::TransactionHasAccountAlreadyClosed { account_name, .. }
            if account_name == "Assets:Cash"
    )));
}

#[test]
fn unknown_account_is_created_open_with_warning() {
    let day = d(2023, 7, 3);
    let directives = vec![
        open_usd(day, 1, "Equity:Seed"),
        txn2(day, 2, ("Assets:Surprise", 100), ("Equity:Seed", -100)),
    ];
    let (ledger, _) = process_directives(directives);
    assert!(ledger.errors.iter().any(|e| matches!(
        e,
        LedgerError::UnknownAccount { account_name, .. } if account_name == "Assets:Surprise"
    )));
    let accounts = ledger.account_list();
    let a = accounts.iter().find(|a| a.name == "Assets:Surprise").expect("auto-created");
    assert_eq!(a.status, "Open");
}

#[test]
fn commodity_redefinition_is_flagged_and_first_declaration_kept() {
    let day = d(2023, 7, 4);
    let directives = vec![
        Directive::Commodity(Commodity {
            date: day,
            span: 1,
            currency: "USD".to_string(),
            meta: vec![("precision".to_string(), "2".to_string())],
        }),
        Directive::Commodity(Commodity {
            date: day,
            span: 2,
            currency: "USD".to_string(),
            meta: vec![("precision".to_string(), "4".to_string())],
        }),
    ];
    let (ledger, _) = process_directives(directives);
    assert!(ledger
        .errors
        .iter()
        .any(|e| matches!(e, LedgerError::CommodityRedefined { currency, .. } if currency == "USD")));
    let info = ledger.currencies.get(&"USD".to_string()).expect("declared");
    let precision = info.meta.get(&"precision".to_string()).expect("meta kept");
    assert_eq!(precision, "2");
}

#[test]
fn no_price_available_is_reported_by_convert() {
    let (ledger, _) = process_directives(Vec::new());
    let one = Amount::new(Decimal::from_int(1), "USD".to_string());
    let err = ledger.prices.convert(10, &one, &"CNY".to_string()).unwrap_err();
    assert!(matches!(
        err,
        LedgerError::NoPriceAvailable { currency, target } if currency == "USD" && target == "CNY"
    ));
}

#[test]
fn precision_option_widens_tolerance() {
    let day = d(2023, 7, 5);
    let unbalanced = |span: u64| txn2(day, span, ("Assets:A", 1030), ("Assets:B", -1000));
    // default precision 2: 0.30 beyond 0.005 tolerance
    let (strict, _) = process_directives(vec![
        open_usd(day, 1, "Assets:A"),
        open_usd(day, 2, "Assets:B"),
        unbalanced(3),
    ]);
    assert!(strict
        .errors
        .iter()
        .any(|e| matches!(e, LedgerError::TransactionNotBalanced { .. })));
    // precision 0: tolerance 0.5 covers the 0.30 residue
    let (lenient, _) = process_directives(vec![
        Directive::Options(Options { span: 1, key: "operating_currency_precision".to_string(), value: "0".to_string() }),
        open_usd(day, 2, "Assets:A"),
        open_usd(day, 3, "Assets:B"),
        unbalanced(4),
    ]);
    assert!(!lenient
        .errors
        .iter()
        .any(|e| matches!(e, LedgerError::TransactionNotBalanced { .. })));
}

#[test]
fn passing_check_leaves_no_trace_in_errors() {
    let day1 = d(2023, 7, 6);
    let day2 = d(2023, 7, 7);
    let with_check = vec![
        open_usd(day1, 1, "Assets:A"),
        open_usd(day1, 2, "Assets:B"),
        txn2(day1, 3, ("Assets:A", 1000), ("Assets:B", -1000)),
        Directive::Balance(Balance::BalanceCheck(BalanceCheck {
            date: day2,
            span: 4,
            account: "Assets:A".to_string(),
            amount: Amount::new(Decimal::new(1000, 2), "USD".to_string()),
            current_amount: None,
            distance: None,
        })),
    ];
    let without_check = vec![
        open_usd(day1, 1, "Assets:A"),
        open_usd(day1, 2, "Assets:B"),
        txn2(day1, 3, ("Assets:A", 1000), ("Assets:B", -1000)),
    ];
    let (a, _) = process_directives(with_check);
    let (b, _) = process_directives(without_check);
    assert!(a.errors.is_empty());
    assert_eq!(a.errors, b.errors);
    assert_eq!(a.account_list(), b.account_list());
}
