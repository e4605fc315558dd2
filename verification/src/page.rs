//! Finding the quoted price in a market page.
//!
//! The page is HTML. The price stands in the first element that the price
//! selector picks; its text is the concatenation of the text nodes below
//! that element, in document order.

use vstd::prelude::*;
use crate::error::ErrorKind;
use crate::price_text::{
    cleaned, decimal_value, is_digit, is_price_literal, price_of_text, read_price,
};

verus! {

/// The structural path to the price: an element of class `price` below one
/// of class `block-last-change-percentage` below one of class
/// `top-mobile-block`.
pub const PRICE_SELECTOR: &'static str = ".top-mobile-block .block-last-change-percentage .price";

/// `scraper::error::SelectorErrorKind`: why a selector group could not be
/// parsed. The value is carried through and never read.
#[verifier::external_type_specification]
#[verifier::external_body]
pub struct ExSelectorErrorKind(scraper::error::SelectorErrorKind);

/// What `scraper` finds in `document` under the selector group `selectors`:
/// `Err` where `selectors` is not a selector group; else `None` where no
/// element of the parsed document is selected; else the text nodes below the
/// first selected element, in the order in which the element hands them out.
pub uninterp spec fn selected_text(document: Seq<char>, selectors: Seq<char>) -> Result<
    Option<Seq<Seq<char>>>,
    (),
>;

/// The texts that a list of strings holds.
pub open spec fn texts(nodes: Seq<String>) -> Seq<Seq<char>> {
    nodes.map_values(|node: String| node@)
}

/// Calls `scraper::Selector::parse`, `scraper::Html::parse_document`,
/// `Html::select` and `ElementRef::text`. The contract claims only that the
/// outcome is the one that `selected_text` names: parsing and matching
/// depend on the two texts alone. Nothing is claimed about which element
/// comes first or what its text is.
#[verifier::external_body]
fn select_first_text(document: &str, selectors: &str) -> (found: Result<
    Option<Vec<String>>,
    scraper::error::SelectorErrorKind,
>)
    ensures
        match found {
            Ok(Some(nodes)) => selected_text(document@, selectors@) == Ok::<
                Option<Seq<Seq<char>>>,
                (),
            >(Some(texts(nodes@))),
            Ok(None) => selected_text(document@, selectors@) == Ok::<Option<Seq<Seq<char>>>, ()>(
                None,
            ),
            Err(_) => selected_text(document@, selectors@) is Err,
        },
{
    let selector = scraper::Selector::parse(selectors)?;
    let html = scraper::Html::parse_document(document);
    match html.select(&selector).next() {
        Some(element) => Ok(Some(element.text().map(String::from).collect())),
        None => Ok(None),
    }
}

/// The price that a selection yields: `SelectorNotFound` where nothing was
/// selected, else what the concatenated text reads as.
pub open spec fn price_of_selection(found: Option<Seq<Seq<char>>>) -> Result<i64, ErrorKind> {
    match found {
        Some(nodes) => price_of_text(nodes.flatten()),
        None => Err(ErrorKind::SelectorNotFound),
    }
}

/// The price that a page yields under a selector group. A selector group
/// that cannot be parsed selects nothing.
pub open spec fn price_under(document: Seq<char>, selectors: Seq<char>) -> Result<i64, ErrorKind> {
    match selected_text(document, selectors) {
        Ok(found) => price_of_selection(found),
        Err(_) => Err(ErrorKind::SelectorNotFound),
    }
}

/// The price that a market page yields.
pub open spec fn page_price(body: Seq<char>) -> Result<i64, ErrorKind> {
    price_under(body, PRICE_SELECTOR@)
}

/// Concatenates text nodes in order.
pub fn join_text(nodes: &Vec<String>) -> (text: String)
    ensures
        text@ == texts(nodes@).flatten(),
{
    let mut text = String::new();
    let mut i: usize = 0;
    assert(texts(nodes@).take(0).flatten() == Seq::<char>::empty());
    while i < nodes.len()
        invariant
            0 <= i <= nodes.len(),
            text@ == texts(nodes@).take(i as int).flatten(),
        decreases nodes.len() - i,
    {
        proof {
            let all = texts(nodes@);
            assert(all.take(i + 1) == all.take(i as int).push(nodes@[i as int]@));
            all.take(i as int).lemma_flatten_push(nodes@[i as int]@);
        }
        text.append(nodes[i].as_str());
        i = i + 1;
    }
    assert(texts(nodes@).take(i as int) == texts(nodes@));
    text
}

/// Reads the price from what was selected in a page.
pub fn price_from_selection(found: Option<Vec<String>>) -> (price: Result<i64, ErrorKind>)
    ensures
        price == price_of_selection(
            match found {
                Some(nodes) => Some(texts(nodes@)),
                None => None,
            },
        ),
        price matches Ok(p) ==> p >= 0,
{
    match found {
        Some(nodes) => {
            let text = join_text(&nodes);
            read_price(text.as_str())
        },
        None => Err(ErrorKind::SelectorNotFound),
    }
}

/// Reads the price that `document` holds under `selectors`.
pub fn extract_under(document: &str, selectors: &str) -> (price: Result<i64, ErrorKind>)
    ensures
        price == price_under(document@, selectors@),
        price matches Ok(p) ==> p >= 0,
{
    match select_first_text(document, selectors) {
        Ok(found) => price_from_selection(found),
        Err(_) => Err(ErrorKind::SelectorNotFound),
    }
}

/// Reads the quoted price from the body of a market page.
pub fn extract_price(body: &str) -> (price: Result<i64, ErrorKind>)
    ensures
        price == page_price(body@),
        price matches Ok(p) ==> p >= 0,
{
    extract_under(body, PRICE_SELECTOR)
}

/// Where the text of the selected element, with commas, spaces and
/// zero-width non-joiners removed, is a run of digits that fits 64 bits, the
/// page yields the number that the digits denote.
pub proof fn law_clean_literal_is_extracted(body: Seq<char>, nodes: Seq<Seq<char>>)
    requires
        selected_text(body, PRICE_SELECTOR@) == Ok::<Option<Seq<Seq<char>>>, ()>(Some(nodes)),
        is_price_literal(cleaned(nodes.flatten())),
    ensures
        page_price(body) == Ok::<i64, ErrorKind>(decimal_value(cleaned(nodes.flatten())) as i64),
{
}

/// Where the cleaned text of the selected element holds a character that is
/// no ASCII digit, the page yields `ParseError`.
pub proof fn law_stray_character_is_parse_error(body: Seq<char>, nodes: Seq<Seq<char>>, at: int)
    requires
        selected_text(body, PRICE_SELECTOR@) == Ok::<Option<Seq<Seq<char>>>, ()>(Some(nodes)),
        0 <= at < cleaned(nodes.flatten()).len(),
        !is_digit(cleaned(nodes.flatten())[at]),
    ensures
        page_price(body) == Err::<i64, ErrorKind>(ErrorKind::ParseError),
{
}

} // verus!
