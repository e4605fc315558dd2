//! The prices gathered in one tick.

use vstd::prelude::*;
use crate::currency::Currency;

verus! {

/// Quoted prices by currency, in minor units. A currency whose page could
/// not be read has no entry; no currency has more than one.
#[derive(Clone, Copy, Debug, PartialEq, Eq, Structural)]
pub struct Snapshot {
    pub usd: Option<i64>,
    pub eur: Option<i64>,
    pub aed: Option<i64>,
    pub cny: Option<i64>,
}

impl View for Snapshot {
    type V = Map<Currency, i64>;

    open spec fn view(&self) -> Map<Currency, i64> {
        Map::new(|tag: Currency| self.slot(tag) is Some, |tag: Currency| self.slot(tag)->0)
    }
}

impl Snapshot {
    /// The place in which the price of `tag` is kept.
    pub open spec fn slot(self, tag: Currency) -> Option<i64> {
        match tag {
            Currency::Usd => self.usd,
            Currency::Eur => self.eur,
            Currency::Aed => self.aed,
            Currency::Cny => self.cny,
        }
    }

    /// The snapshot with the price of `tag` set.
    pub open spec fn with(self, tag: Currency, price: i64) -> Snapshot {
        match tag {
            Currency::Usd => Snapshot { usd: Some(price), ..self },
            Currency::Eur => Snapshot { eur: Some(price), ..self },
            Currency::Aed => Snapshot { aed: Some(price), ..self },
            Currency::Cny => Snapshot { cny: Some(price), ..self },
        }
    }

    /// A snapshot without entries.
    pub fn new() -> (snapshot: Snapshot)
        ensures
            snapshot@ == Map::<Currency, i64>::empty(),
    {
        let snapshot = Snapshot { usd: None, eur: None, aed: None, cny: None };
        assert(snapshot@ =~= Map::<Currency, i64>::empty());
        snapshot
    }

    /// Records the price of `tag`, in place of an earlier one.
    pub fn insert(&mut self, tag: Currency, price: i64)
        ensures
            *final(self) == old(self).with(tag, price),
            final(self)@ == old(self)@.insert(tag, price),
    {
        match tag {
            Currency::Usd => {
                self.usd = Some(price);
            },
            Currency::Eur => {
                self.eur = Some(price);
            },
            Currency::Aed => {
                self.aed = Some(price);
            },
            Currency::Cny => {
                self.cny = Some(price);
            },
        }
        assert(self@ =~= old(self)@.insert(tag, price));
    }

    /// The price of `tag`, if the snapshot holds one.
    pub fn get(&self, tag: Currency) -> (price: Option<i64>)
        ensures
            price == if self@.contains_key(tag) {
                Some(self@[tag])
            } else {
                None
            },
    {
        match tag {
            Currency::Usd => self.usd,
            Currency::Eur => self.eur,
            Currency::Aed => self.aed,
            Currency::Cny => self.cny,
        }
    }

    /// Tells whether the snapshot holds a price of `tag`.
    pub fn contains(&self, tag: Currency) -> (present: bool)
        ensures
            present == self@.contains_key(tag),
    {
        self.get(tag).is_some()
    }
}

} // verus!
