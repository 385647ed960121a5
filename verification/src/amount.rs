use vstd::prelude::*;

verus! {

use crate::decimal::Decimal;

/// An account name, written `Type:Seg1:Seg2:...`.
pub type AccountName = String;

/// A commodity identifier: an interned, case-sensitive string.
pub type Currency = String;

/// The mathematical content of an `Amount`.
pub struct AmountV {
    pub number: int,
    pub currency: Seq<char>,
}

/// A number of a single commodity.
#[derive(Clone, Debug, PartialEq)]
pub struct Amount {
    pub number: Decimal,
    pub currency: Currency,
}

impl View for Amount {
    type V = AmountV;

    open spec fn view(&self) -> AmountV {
        AmountV { number: self.number@, currency: self.currency@ }
    }
}

impl Amount {
    pub fn new(number: Decimal, currency: Currency) -> (r: Amount)
        ensures
            r@.number == number@,
            r@.currency == currency@,
    {
        Amount { number, currency }
    }

    /// A deep copy with the same value.
    pub fn duplicate(&self) -> (r: Amount)
        ensures
            r@ == self@,
    {
        Amount { number: self.number, currency: self.currency.clone() }
    }
}

} // verus!
