use peybot::error::ErrorKind;
use peybot::page::{extract_price, extract_under, join_text, price_from_selection, PRICE_SELECTOR};

fn page_with(price_markup: &str) -> String {
    format!(
        "<html><body><div class=\"top-mobile-block\"><div class=\"block-last-change-percentage\">{}</div></div></body></html>",
        price_markup
    )
}

#[test]
fn price_is_read_from_the_target_element() {
    let body = page_with("<span class=\"price\">1,050,000</span>");
    assert_eq!(extract_price(&body), Ok(1_050_000));
}

#[test]
fn text_nodes_are_joined_in_document_order() {
    let body = page_with("<span class=\"price\">1,<b>05</b>0,<i>00<u>0</u></i></span>");
    assert_eq!(extract_price(&body), Ok(1_050_000));
}

#[test]
fn joiner_before_a_trailing_space_is_removed() {
    let body = page_with("<span class=\"price\">900,000\u{200c} </span>");
    assert_eq!(extract_price(&body), Ok(900_000));
}

#[test]
fn first_matching_element_wins() {
    let body = page_with("<span class=\"price\">1,000</span><span class=\"price\">2,000</span>");
    assert_eq!(extract_price(&body), Ok(1_000));
}

#[test]
fn descendants_need_not_be_children() {
    let body = "<section class=\"top-mobile-block\"><p><span class=\"block-last-change-percentage x\"><em><a class=\"y price\">42</a></em></span></p></section>";
    assert_eq!(extract_price(body), Ok(42));
}

#[test]
fn missing_element_is_selector_not_found() {
    assert_eq!(extract_price(""), Err(ErrorKind::SelectorNotFound));
    assert_eq!(extract_price("<html><body>503</body></html>"), Err(ErrorKind::SelectorNotFound));
    assert_eq!(
        extract_price("<div class=\"top-mobile-block\"><span class=\"price\">1</span></div>"),
        Err(ErrorKind::SelectorNotFound)
    );
    assert_eq!(
        extract_price("<div class=\"block-last-change-percentage\"><div class=\"top-mobile-block\"><span class=\"price\">1</span></div></div>"),
        Err(ErrorKind::SelectorNotFound)
    );
}

#[test]
fn element_with_other_text_is_parse_error() {
    assert_eq!(
        extract_price(&page_with("<span class=\"price\">n/a</span>")),
        Err(ErrorKind::ParseError)
    );
    assert_eq!(
        extract_price(&page_with("<span class=\"price\"></span>")),
        Err(ErrorKind::ParseError)
    );
    assert_eq!(
        extract_price(&page_with("<span class=\"price\">1,050,000 ریال</span>")),
        Err(ErrorKind::ParseError)
    );
}

#[test]
fn local_digit_forms_are_parse_error() {
    let body = page_with("<span class=\"price\">۱,۰۵۰\u{200c},۰۰۰</span>");
    assert_eq!(extract_price(&body), Err(ErrorKind::ParseError));
    let body = page_with("<span class=\"price\">۱٬۰۵۰٬۰۰۰</span>");
    assert_eq!(extract_price(&body), Err(ErrorKind::ParseError));
}

#[test]
fn other_selectors_can_be_used() {
    let body = "<ul><li id=\"a\">1</li><li id=\"b\">2,5</li></ul>";
    assert_eq!(extract_under(body, "#b"), Ok(25));
    assert_eq!(extract_under(body, "li"), Ok(1));
    assert_eq!(extract_under(body, "ul"), Ok(125));
    assert_eq!(extract_under(body, "ol"), Err(ErrorKind::SelectorNotFound));
}

#[test]
fn unparsable_selector_selects_nothing() {
    let body = "<ul><li>1</li></ul>";
    assert_eq!(extract_under(body, "li["), Err(ErrorKind::SelectorNotFound));
    assert_eq!(extract_under(body, ""), Err(ErrorKind::SelectorNotFound));
}

#[test]
fn the_price_selector_names_three_classes() {
    assert_eq!(PRICE_SELECTOR, ".top-mobile-block .block-last-change-percentage .price");
}

#[test]
fn joining_concatenates() {
    assert_eq!(join_text(&vec![]), "");
    assert_eq!(join_text(&vec!["1,".to_string(), "".to_string(), "050".to_string()]), "1,050");
}

#[test]
fn selection_yields_price_or_error() {
    assert_eq!(price_from_selection(None), Err(ErrorKind::SelectorNotFound));
    assert_eq!(price_from_selection(Some(vec![])), Err(ErrorKind::ParseError));
    assert_eq!(
        price_from_selection(Some(vec!["1,0".to_string(), "50".to_string()])),
        Ok(1050)
    );
    assert_eq!(
        price_from_selection(Some(vec!["1".to_string(), "x".to_string()])),
        Err(ErrorKind::ParseError)
    );
}
