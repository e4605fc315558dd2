//! The derived price of the lira.
//!
//! The dollar quote is in minor units, ten to the display unit; the
//! cross-rate is the price of a dollar token in lira. The price of the lira
//! in display units is the quote over the rate over ten, each quotient taken
//! in double precision, rounded up to an integer.

use vstd::prelude::*;
use crate::double::{round_up_to_i64, Double};
use crate::error::ErrorKind;

verus! {

/// The price of the lira for a dollar quote and a cross-rate greater than
/// zero.
#[verifier::opaque]
pub open spec fn lira_of(usd: i64, rate: Double) -> i64 {
    Double::of_int(usd as int).over(rate).over(Double::of_int(10)).rounded_up()
}

/// The price of the lira, or the refusal of a rate that is not greater than
/// zero.
pub open spec fn derived_lira(usd: i64, rate: Double) -> Result<i64, ErrorKind> {
    if rate.is_positive() {
        Ok(lira_of(usd, rate))
    } else {
        Err(ErrorKind::InvalidInput)
    }
}

/// Computes the price of the lira in display units from the dollar quote
/// and the cross-rate. A rate that is zero, negative or no number is
/// refused with `InvalidInput`.
pub fn derive_lira(usd: i64, rate: Double) -> (lira: Result<i64, ErrorKind>)
    ensures
        lira == derived_lira(usd, rate),
{
    reveal(lira_of);
    let quote = Double::from_i64(usd);
    let ten = Double::from_i64(10);
    match quote.divide(rate) {
        Ok(in_minor_units) => match in_minor_units.divide(ten) {
            Ok(in_display_units) => Ok(round_up_to_i64(in_display_units)),
            Err(kind) => Err(kind),
        },
        Err(kind) => Err(kind),
    }
}

} // verus!
