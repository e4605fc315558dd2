//! The currencies that the notifier quotes, in the order in which it
//! fetches and prints them.

use vstd::prelude::*;

verus! {

/// A quoted currency. The set is closed.
#[derive(Clone, Copy, Debug, PartialEq, Eq, Hash, Structural)]
pub enum Currency {
    Usd,
    Eur,
    Aed,
    Cny,
}

impl Currency {
    /// The place of a currency in the fixed order.
    pub open spec fn rank(self) -> nat {
        match self {
            Currency::Usd => 0,
            Currency::Eur => 1,
            Currency::Aed => 2,
            Currency::Cny => 3,
        }
    }

    /// The currency that follows in the fixed order, if any does.
    pub open spec fn successor(self) -> Option<Currency> {
        match self {
            Currency::Usd => Some(Currency::Eur),
            Currency::Eur => Some(Currency::Aed),
            Currency::Aed => Some(Currency::Cny),
            Currency::Cny => None,
        }
    }

    /// The three-letter code.
    pub open spec fn code_text(self) -> Seq<char> {
        match self {
            Currency::Usd => "USD"@,
            Currency::Eur => "EUR"@,
            Currency::Aed => "AED"@,
            Currency::Cny => "CNY"@,
        }
    }

    /// The address of the market page that quotes the currency.
    pub open spec fn source_text(self) -> Seq<char> {
        match self {
            Currency::Usd => "https://www.tgju.org/profile/price_dollar_rl"@,
            Currency::Eur => "https://www.tgju.org/profile/price_eur"@,
            Currency::Aed => "https://www.tgju.org/profile/price_aed"@,
            Currency::Cny => "https://www.tgju.org/profile/sana_sell_cny"@,
        }
    }

    /// The currency with which every tick begins.
    pub fn first() -> (tag: Currency)
        ensures
            tag == Currency::Usd,
            tag.rank() == 0,
    {
        Currency::Usd
    }

    /// The currency that follows in the fixed order, if any does.
    pub fn next(self) -> (tag: Option<Currency>)
        ensures
            tag == self.successor(),
            tag matches Some(t) ==> t.rank() == self.rank() + 1,
            tag is None <==> self.rank() == 3,
    {
        match self {
            Currency::Usd => Some(Currency::Eur),
            Currency::Eur => Some(Currency::Aed),
            Currency::Aed => Some(Currency::Cny),
            Currency::Cny => None,
        }
    }

    /// The three-letter code.
    pub fn code(self) -> (code: &'static str)
        ensures
            code@ == self.code_text(),
    {
        match self {
            Currency::Usd => "USD",
            Currency::Eur => "EUR",
            Currency::Aed => "AED",
            Currency::Cny => "CNY",
        }
    }

    /// The address of the market page that quotes the currency.
    pub fn source_url(self) -> (url: &'static str)
        ensures
            url@ == self.source_text(),
    {
        match self {
            Currency::Usd => "https://www.tgju.org/profile/price_dollar_rl",
            Currency::Eur => "https://www.tgju.org/profile/price_eur",
            Currency::Aed => "https://www.tgju.org/profile/price_aed",
            Currency::Cny => "https://www.tgju.org/profile/sana_sell_cny",
        }
    }
}

} // verus!
