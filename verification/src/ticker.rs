//! The reply of the exchange ticker and the cross-rate that it carries.

use vstd::prelude::*;
use crate::double::Double;
use crate::error::ErrorKind;

verus! {

/// One entry of the ticker's data: the price of the last trade.
#[derive(Clone, Copy, Debug, PartialEq, Eq, Structural)]
pub struct TickerItem {
    pub last: Double,
}

/// A ticker reply, read from its JSON form.
#[derive(Debug)]
pub struct TickerResponse {
    pub success: bool,
    pub data: Vec<TickerItem>,
}

impl TickerResponse {
    /// The cross-rate that a reply yields: the last price of its first
    /// entry, where the reply reports success and has an entry.
    pub open spec fn rate(self) -> Result<Double, ErrorKind> {
        if self.success && self.data@.len() > 0 {
            Ok(self.data@[0].last)
        } else {
            Err(ErrorKind::UpstreamRejected)
        }
    }

    /// Takes the cross-rate out of a reply, or tells that the ticker
    /// rejected the request.
    pub fn cross_rate(&self) -> (rate: Result<Double, ErrorKind>)
        ensures
            rate == self.rate(),
    {
        if self.success && self.data.len() > 0 {
            Ok(self.data[0].last)
        } else {
            Err(ErrorKind::UpstreamRejected)
        }
    }
}

} // verus!
