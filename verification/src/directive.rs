use vstd::prelude::*;

verus! {

use crate::amount::{Amount, AmountV, AccountName, Currency};

/// View of a sequence of strings.
pub open spec fn strs_view(s: Seq<String>) -> Seq<Seq<char>> {
    s.map(|i: int, e: String| e@)
}

/// View of a metadata entry list.
pub open spec fn meta_view(s: Seq<(String, String)>) -> Seq<(Seq<char>, Seq<char>)> {
    s.map(|i: int, e: (String, String)| (e.0@, e.1@))
}

/// Transaction completion flag: `*` completed, `!` pending.
#[derive(Clone, Copy, Debug, PartialEq, Eq, Structural)]
pub enum Flag {
    Completed,
    Pending,
}

/// One leg of a transaction. At most one posting of a transaction may
/// omit `units`; that posting absorbs the residual.
#[derive(Clone, Debug, PartialEq)]
pub struct Posting {
    pub account: AccountName,
    pub units: Option<Amount>,
    pub cost: Option<Amount>,
    pub price: Option<Amount>,
}

pub struct PostingV {
    pub account: Seq<char>,
    pub units: Option<AmountV>,
    pub cost: Option<AmountV>,
    pub price: Option<AmountV>,
}

impl View for Posting {
    type V = PostingV;

    open spec fn view(&self) -> PostingV {
        PostingV {
            account: self.account@,
            units: match self.units {
                Some(a) => Some(a@),
                None => None,
            },
            cost: match self.cost {
                Some(a) => Some(a@),
                None => None,
            },
            price: match self.price {
                Some(a) => Some(a@),
                None => None,
            },
        }
    }
}

/// A transaction directive: ordered postings with bookkeeping fields.
/// `date` is the chronological key and `span` the source position.
#[derive(Clone, Debug, PartialEq)]
pub struct Transaction {
    pub date: u64,
    pub span: u64,
    pub flag: Flag,
    pub payee: String,
    pub narration: String,
    pub tags: Vec<String>,
    pub links: Vec<String>,
    pub postings: Vec<Posting>,
    pub meta: Vec<(String, String)>,
}

pub struct TransactionV {
    pub date: int,
    pub span: int,
    pub flag: Flag,
    pub payee: Seq<char>,
    pub narration: Seq<char>,
    pub tags: Seq<Seq<char>>,
    pub links: Seq<Seq<char>>,
    pub postings: Seq<PostingV>,
    pub meta: Seq<(Seq<char>, Seq<char>)>,
}

impl View for Transaction {
    type V = TransactionV;

    open spec fn view(&self) -> TransactionV {
        TransactionV {
            date: self.date as int,
            span: self.span as int,
            flag: self.flag,
            payee: self.payee@,
            narration: self.narration@,
            tags: strs_view(self.tags@),
            links: strs_view(self.links@),
            postings: self.postings@.map(|i: int, p: Posting| p@),
            meta: meta_view(self.meta@),
        }
    }
}

/// A balance assertion. After processing it carries the balance that
/// was current and the distance to the asserted amount.
#[derive(Clone, Debug, PartialEq)]
pub struct BalanceCheck {
    pub date: u64,
    pub span: u64,
    pub account: AccountName,
    pub amount: Amount,
    pub current_amount: Option<Amount>,
    pub distance: Option<Amount>,
}

pub struct BalanceCheckV {
    pub date: int,
    pub span: int,
    pub account: Seq<char>,
    pub amount: AmountV,
    pub current_amount: Option<AmountV>,
    pub distance: Option<AmountV>,
}

impl View for BalanceCheck {
    type V = BalanceCheckV;

    open spec fn view(&self) -> BalanceCheckV {
        BalanceCheckV {
            date: self.date as int,
            span: self.span as int,
            account: self.account@,
            amount: self.amount@,
            current_amount: match self.current_amount {
                Some(a) => Some(a@),
                None => None,
            },
            distance: match self.distance {
                Some(a) => Some(a@),
                None => None,
            },
        }
    }
}

/// A balance assertion that pads the difference from another account.
#[derive(Clone, Debug, PartialEq)]
pub struct BalancePad {
    pub date: u64,
    pub span: u64,
    pub account: AccountName,
    pub amount: Amount,
    pub pad: AccountName,
}

pub struct BalancePadV {
    pub date: int,
    pub span: int,
    pub account: Seq<char>,
    pub amount: AmountV,
    pub pad: Seq<char>,
}

impl View for BalancePad {
    type V = BalancePadV;

    open spec fn view(&self) -> BalancePadV {
        BalancePadV {
            date: self.date as int,
            span: self.span as int,
            account: self.account@,
            amount: self.amount@,
            pad: self.pad@,
        }
    }
}

/// The two balance directive variants.
#[derive(Clone, Debug, PartialEq)]
pub enum Balance {
    BalanceCheck(BalanceCheck),
    BalancePad(BalancePad),
}

pub enum BalanceV {
    BalanceCheck(BalanceCheckV),
    BalancePad(BalancePadV),
}

impl View for Balance {
    type V = BalanceV;

    open spec fn view(&self) -> BalanceV {
        match self {
            Balance::BalanceCheck(b) => BalanceV::BalanceCheck(b@),
            Balance::BalancePad(b) => BalanceV::BalancePad(b@),
        }
    }
}

/// Opens an account, optionally restricting its commodities.
#[derive(Clone, Debug, PartialEq)]
pub struct Open {
    pub date: u64,
    pub span: u64,
    pub account: AccountName,
    pub commodities: Vec<Currency>,
    pub meta: Vec<(String, String)>,
}

pub struct OpenV {
    pub date: int,
    pub span: int,
    pub account: Seq<char>,
    pub commodities: Seq<Seq<char>>,
    pub meta: Seq<(Seq<char>, Seq<char>)>,
}

impl View for Open {
    type V = OpenV;

    open spec fn view(&self) -> OpenV {
        OpenV {
            date: self.date as int,
            span: self.span as int,
            account: self.account@,
            commodities: strs_view(self.commodities@),
            meta: meta_view(self.meta@),
        }
    }
}

/// Closes an account.
#[derive(Clone, Debug, PartialEq)]
pub struct Close {
    pub date: u64,
    pub span: u64,
    pub account: AccountName,
    pub meta: Vec<(String, String)>,
}

pub struct CloseV {
    pub date: int,
    pub span: int,
    pub account: Seq<char>,
    pub meta: Seq<(Seq<char>, Seq<char>)>,
}

impl View for Close {
    type V = CloseV;

    open spec fn view(&self) -> CloseV {
        CloseV {
            date: self.date as int,
            span: self.span as int,
            account: self.account@,
            meta: meta_view(self.meta@),
        }
    }
}

/// Declares a commodity.
#[derive(Clone, Debug, PartialEq)]
pub struct Commodity {
    pub date: u64,
    pub span: u64,
    pub currency: Currency,
    pub meta: Vec<(String, String)>,
}

pub struct CommodityV {
    pub date: int,
    pub span: int,
    pub currency: Seq<char>,
    pub meta: Seq<(Seq<char>, Seq<char>)>,
}

impl View for Commodity {
    type V = CommodityV;

    open spec fn view(&self) -> CommodityV {
        CommodityV {
            date: self.date as int,
            span: self.span as int,
            currency: self.currency@,
            meta: meta_view(self.meta@),
        }
    }
}

/// A price observation: one `currency` is worth `amount` as of `date`.
#[derive(Clone, Debug, PartialEq)]
pub struct Price {
    pub date: u64,
    pub span: u64,
    pub currency: Currency,
    pub amount: Amount,
}

pub struct PriceV {
    pub date: int,
    pub span: int,
    pub currency: Seq<char>,
    pub amount: AmountV,
}

impl View for Price {
    type V = PriceV;

    open spec fn view(&self) -> PriceV {
        PriceV {
            date: self.date as int,
            span: self.span as int,
            currency: self.currency@,
            amount: self.amount@,
        }
    }
}

/// Attaches a document file to an account.
#[derive(Clone, Debug, PartialEq)]
pub struct Document {
    pub date: u64,
    pub span: u64,
    pub account: AccountName,
    pub filename: String,
}

pub struct DocumentV {
    pub date: int,
    pub span: int,
    pub account: Seq<char>,
    pub filename: Seq<char>,
}

impl View for Document {
    type V = DocumentV;

    open spec fn view(&self) -> DocumentV {
        DocumentV {
            date: self.date as int,
            span: self.span as int,
            account: self.account@,
            filename: self.filename@,
        }
    }
}

/// A ledger-wide option setting.
#[derive(Clone, Debug, PartialEq)]
pub struct Options {
    pub span: u64,
    pub key: String,
    pub value: String,
}

pub struct OptionsV {
    pub span: int,
    pub key: Seq<char>,
    pub value: Seq<char>,
}

impl View for Options {
    type V = OptionsV;

    open spec fn view(&self) -> OptionsV {
        OptionsV { span: self.span as int, key: self.key@, value: self.value@ }
    }
}

/// The tagged union of all directive kinds. `Note`, `Event`, `Custom`
/// and `Include` are carried through the model; the processor leaves
/// ledger state unchanged for them (includes are spliced by the loader
/// before processing).
#[derive(Clone, Debug, PartialEq)]
pub enum Directive {
    Open(Open),
    Close(Close),
    Commodity(Commodity),
    Transaction(Transaction),
    Balance(Balance),
    Price(Price),
    Document(Document),
    Options(Options),
    Note { date: u64, span: u64, account: AccountName, comment: String },
    Event { date: u64, span: u64, event_type: String, description: String },
    Custom { date: u64, span: u64, content: String },
    Include { span: u64, file: String },
}

pub enum DirectiveV {
    Open(OpenV),
    Close(CloseV),
    Commodity(CommodityV),
    Transaction(TransactionV),
    Balance(BalanceV),
    Price(PriceV),
    Document(DocumentV),
    Options(OptionsV),
    Note { date: int, span: int, account: Seq<char>, comment: Seq<char> },
    Event { date: int, span: int, event_type: Seq<char>, description: Seq<char> },
    Custom { date: int, span: int, content: Seq<char> },
    Include { span: int, file: Seq<char> },
}

impl View for Directive {
    type V = DirectiveV;

    open spec fn view(&self) -> DirectiveV {
        match self {
            Directive::Open(d) => DirectiveV::Open(d@),
            Directive::Close(d) => DirectiveV::Close(d@),
            Directive::Commodity(d) => DirectiveV::Commodity(d@),
            Directive::Transaction(d) => DirectiveV::Transaction(d@),
            Directive::Balance(d) => DirectiveV::Balance(d@),
            Directive::Price(d) => DirectiveV::Price(d@),
            Directive::Document(d) => DirectiveV::Document(d@),
            Directive::Options(d) => DirectiveV::Options(d@),
            Directive::Note { date, span, account, comment } => DirectiveV::Note {
                date: *date as int,
                span: *span as int,
                account: account@,
                comment: comment@,
            },
            Directive::Event { date, span, event_type, description } => DirectiveV::Event {
                date: *date as int,
                span: *span as int,
                event_type: event_type@,
                description: description@,
            },
            Directive::Custom { date, span, content } => DirectiveV::Custom {
                date: *date as int,
                span: *span as int,
                content: content@,
            },
            Directive::Include { span, file } => DirectiveV::Include {
                span: *span as int,
                file: file@,
            },
        }
    }
}

impl Directive {
    /// The chronological key the processor orders by. Directives
    /// without a date sort first.
    pub fn sort_date(&self) -> (r: u64)
        ensures
            r as int == spec_sort_date(self@),
    {
        match self {
            Directive::Open(d) => d.date,
            Directive::Close(d) => d.date,
            Directive::Commodity(d) => d.date,
            Directive::Transaction(d) => d.date,
            Directive::Balance(Balance::BalanceCheck(d)) => d.date,
            Directive::Balance(Balance::BalancePad(d)) => d.date,
            Directive::Price(d) => d.date,
            Directive::Document(d) => d.date,
            Directive::Options(_) => 0,
            Directive::Note { date, .. } => *date,
            Directive::Event { date, .. } => *date,
            Directive::Custom { date, .. } => *date,
            Directive::Include { .. } => 0,
        }
    }
}

/// The views of a directive sequence.
pub open spec fn dirs_view(s: Seq<Directive>) -> Seq<DirectiveV> {
    s.map(|i: int, d: Directive| d@)
}

/// The chronological key of a directive model.
pub open spec fn spec_sort_date(d: DirectiveV) -> int {
    match d {
        DirectiveV::Open(x) => x.date,
        DirectiveV::Close(x) => x.date,
        DirectiveV::Commodity(x) => x.date,
        DirectiveV::Transaction(x) => x.date,
        DirectiveV::Balance(BalanceV::BalanceCheck(x)) => x.date,
        DirectiveV::Balance(BalanceV::BalancePad(x)) => x.date,
        DirectiveV::Price(x) => x.date,
        DirectiveV::Document(x) => x.date,
        DirectiveV::Options(_) => 0,
        DirectiveV::Note { date, .. } => date,
        DirectiveV::Event { date, .. } => date,
        DirectiveV::Custom { date, .. } => date,
        DirectiveV::Include { .. } => 0,
    }
}

} // verus!
