use zhang::amount::Amount;
use zhang::decimal::Decimal;
use zhang::directive::{Directive, Flag, Open, Posting, Transaction};
use zhang::process::process_directives;
use zhang::response::{FileDetailResponse, JournalBalanceCheckItemResponse, MetaResponse};

fn d(y: i32, m: u32, dd: u32) -> u64 {
    zhang::bridge::day_number(y, m, dd).expect("valid date")
}

fn seeded_ledger() -> zhang::ledger::Ledger {
    let day = d(2023, 8, 1);
    let open = |span: u64, account: &str| {
        Directive::Open(Open {
            date: day,
            span,
            account: account.to_string(),
            commodities: Vec::new(),
            meta: Vec::new(),
        })
    };
    let leg = |account: &str, cents: i64| Posting {
        account: account.to_string(),
        units: Some(Amount::new(Decimal::new(cents, 2), "USD".to_string())),
        cost: None,
        price: None,
    };
    let directives = vec![
        open(1, "Assets:Cash"),
        open(2, "Liabilities:Card"),
        open(3, "Income:Salary"),
        open(4, "Expenses:Food"),
        Directive::Transaction(Transaction {
            date: day,
            span: 5,
            flag: Flag::Completed,
            payee: "acme".to_string(),
            narration: "salary".to_string(),
            tags: Vec::new(),
            links: Vec::new(),
            postings: vec![leg("Assets:Cash", 200000), leg("Income:Salary", -200000)],
            meta: Vec::new(),
        }),
        Directive::Transaction(Transaction {
            date: day,
            span: 6,
            flag: Flag::Completed,
            payee: "diner".to_string(),
            narration: "lunch".to_string(),
            tags: Vec::new(),
            links: Vec::new(),
            postings: vec![leg("Expenses:Food", 3000), leg("Liabilities:Card", -3000)],
            meta: Vec::new(),
        }),
    ];
    process_directives(directives).0
}

#[test]
fn account_list_reports_every_account_with_balances() {
    let ledger = seeded_ledger();
    let accounts = ledger.account_list();
    assert_eq!(accounts.len(), 4);
    let cash = accounts.iter().find(|a| a.name == "Assets:Cash").expect("listed");
    assert_eq!(cash.status, "Open");
    assert_eq!(cash.commodities.len(), 1);
    assert_eq!(cash.commodities[0].commodity, "USD");
    assert_eq!(cash.commodities[0].number, Decimal::new(200000, 2));
}

#[test]
fn current_statistic_sums_by_account_type() {
    let ledger = seeded_ledger();
    let s = ledger.current_statistic(&"USD".to_string());
    assert_eq!(s.balance.number, Decimal::new(200000, 2));
    assert_eq!(s.liability.number, Decimal::new(-3000, 2));
    assert_eq!(s.income.number, Decimal::new(-200000, 2));
    assert_eq!(s.expense.number, Decimal::new(3000, 2));
    assert_eq!(s.balance.commodity, "USD");
}

#[test]
fn info_for_new_transaction_lists_account_names() {
    let ledger = seeded_ledger();
    let info = ledger.info_for_new_transaction();
    assert!(info.payee.is_empty());
    assert_eq!(info.account_name.len(), 4);
    assert!(info.account_name.iter().any(|n| n == "Expenses:Food"));
}

#[test]
fn price_lookup_reads_the_grip() {
    let day = d(2023, 8, 2);
    let directives = vec![Directive::Price(zhang::directive::Price {
        date: day,
        span: 1,
        currency: "USD".to_string(),
        amount: Amount::new(Decimal::new(700, 2), "CNY".to_string()),
    })];
    let (ledger, _) = process_directives(directives);
    let rate = ledger.price_lookup(day, &"USD".to_string(), &"CNY".to_string());
    assert_eq!(rate, Some(Decimal::new(700, 2)));
    assert_eq!(ledger.price_lookup(day - 1, &"USD".to_string(), &"CNY".to_string()), None);
    // the price also lands in the commodity's own history
    let info = ledger.currencies.get(&"USD".to_string()).expect("currency recorded");
    assert_eq!(info.prices.len(), 1);
    assert_eq!(info.prices[0].quote, "CNY");
}

#[test]
fn document_directive_is_stored_by_filename() {
    let day = d(2023, 8, 3);
    let directives = vec![Directive::Document(zhang::directive::Document {
        date: day,
        span: 1,
        account: "Assets:Cash".to_string(),
        filename: "receipt.pdf".to_string(),
    })];
    let (ledger, _) = process_directives(directives);
    let doc = ledger.documents.get(&"receipt.pdf".to_string()).expect("stored");
    let zhang::ledger::DocumentType::AccountDocument { account, filename, .. } = doc;
    assert_eq!(account, "Assets:Cash");
    assert_eq!(filename, "receipt.pdf");
}

#[test]
fn response_constructors_carry_their_fields() {
    let m = MetaResponse::new("key".to_string(), "value".to_string());
    assert_eq!(m.key, "key");
    assert_eq!(m.value, "value");
    let f = FileDetailResponse::new("main.ledger".to_string(), "; empty".to_string());
    assert_eq!(f.path, "main.ledger");
    assert_eq!(f.content, "; empty");
    let j = JournalBalanceCheckItemResponse::new("id-1".to_string(), 7);
    assert_eq!(j.id, "id-1");
    assert_eq!(j.sequence, 7);
}

#[test]
fn day_numbers_follow_the_calendar() {
    let a = zhang::bridge::day_number(2023, 1, 1).expect("valid");
    let b = zhang::bridge::day_number(2023, 1, 2).expect("valid");
    assert_eq!(b, a + 1);
    // leap day exists in 2024, not in 2023
    assert!(zhang::bridge::day_number(2024, 2, 29).is_some());
    assert!(zhang::bridge::day_number(2023, 2, 29).is_none());
    assert!(zhang::bridge::day_number(2023, 13, 1).is_none());
    let feb28 = zhang::bridge::day_number(2024, 2, 28).expect("valid");
    let feb29 = zhang::bridge::day_number(2024, 2, 29).expect("valid");
    let mar1 = zhang::bridge::day_number(2024, 3, 1).expect("valid");
    assert_eq!(feb29, feb28 + 1);
    assert_eq!(mar1, feb29 + 1);
}

#[test]
fn date_tokens_parse_to_day_numbers() {
    assert_eq!(
        zhang::bridge::parse_date_str("2023-01-02"),
        zhang::bridge::day_number(2023, 1, 2)
    );
    assert!(zhang::bridge::parse_date_str("2023-01-02").is_some());
    assert!(zhang::bridge::parse_date_str("2023-13-02").is_none());
    assert!(zhang::bridge::parse_date_str("2023-1-2").is_none());
    assert!(zhang::bridge::parse_date_str("2023/01/02").is_none());
    assert!(zhang::bridge::parse_date_str("20230102").is_none());
}

#[test]
fn preview_target_decodes_name_and_guesses_type() {
    // "photo.png" in base64
    let encoded = "cGhvdG8ucG5n";
    let (path, mime) = zhang::bridge::preview_target(encoded).expect("decodes");
    assert_eq!(path, "photo.png");
    assert_eq!(mime, "image/png");
    // not base64 at all
    assert!(zhang::bridge::preview_target("%%%").is_none());
    // valid base64, invalid UTF-8 (0xFF 0xFE)
    assert!(zhang::bridge::preview_target("//4=").is_none());
    // unknown extension falls back to octet-stream
    let plain = zhang::bridge::preview_target("ZmlsZS5xcXp6").expect("decodes"); // file.qqzz
    assert_eq!(plain.1, "application/octet-stream");
}
