//! The text of the outgoing message.

use vstd::prelude::*;
use vstd::seq_lib::lemma_flatten_concat;
use crate::currency::Currency;
use crate::snapshot::Snapshot;

verus! {

/// The line that opens the message, and the blank line after it.
pub const HEADER: &'static str = "📊 نرخ لحظه\u{200c}ای ارز (به تومان):\n\n";

/// What follows every amount: the unit, and the end of the line.
pub const UNIT: &'static str = " تومان\n";

/// What precedes the price of the lira, after a blank line.
pub const LIRA_LABEL: &'static str = "\n🇹🇷 لیر ترکیه: ";

/// The line that states how often the rates are renewed, between blank
/// lines.
pub const FOOTER: &'static str = "\n🔄 به\u{200c}روزرسانی هر ۱ دقیقه\n\n";

impl Currency {
    /// What precedes the amount on the line of a currency: its sign and its
    /// name.
    pub open spec fn label_text(self) -> Seq<char> {
        match self {
            Currency::Usd => "💵 دلار: "@,
            Currency::Eur => "💶 یورو: "@,
            Currency::Aed => "🇦🇪 درهم: "@,
            Currency::Cny => "🇨🇳 یوآن چین: "@,
        }
    }

    /// What precedes the amount on the line of a currency.
    pub fn label(self) -> (label: &'static str)
        ensures
            label@ == self.label_text(),
    {
        match self {
            Currency::Usd => "💵 دلار: ",
            Currency::Eur => "💶 یورو: ",
            Currency::Aed => "🇦🇪 درهم: ",
            Currency::Cny => "🇨🇳 یوآن چین: ",
        }
    }
}

/// The character of a decimal digit.
pub open spec fn digit_char(d: nat) -> char
    recommends
        d < 10,
{
    ((48 + d) as u8) as char
}

/// The digits of a number in base ten, without leading zeros.
pub open spec fn decimal(n: nat) -> Seq<char>
    decreases n,
{
    if n < 10 {
        seq![digit_char(n)]
    } else {
        decimal(n / 10).push(digit_char(n % 10))
    }
}

/// The digits of a number, with a comma before every group of three that
/// has digits before it.
pub open spec fn grouped(n: nat) -> Seq<char>
    decreases n,
{
    if n < 1000 {
        decimal(n)
    } else {
        grouped(n / 1000) + seq![
            ',',
            digit_char(n % 1000 / 100),
            digit_char(n % 100 / 10),
            digit_char(n % 10),
        ]
    }
}

/// An integer as the message prints it: grouped by thousands, with a minus
/// sign before a negative one.
pub open spec fn amount_text(n: int) -> Seq<char> {
    if n < 0 {
        seq!['-'] + grouped((-n) as nat)
    } else {
        grouped(n as nat)
    }
}

/// Calls `num_format::ToFormattedString::to_formatted_string` on an `i64`
/// with `num_format::Locale::en`. That locale separates groups of three
/// digits by a comma and writes `-` before a negative number; the contract
/// claims that the result is exactly that text.
#[verifier::external_body]
fn fmt_int(n: i64) -> (text: String)
    ensures
        text@ == amount_text(n as int),
{
    num_format::ToFormattedString::to_formatted_string(&n, &num_format::Locale::en)
}

/// A quoted price in display units: a tenth of it, the rest dropped.
pub open spec fn display_of(quoted: int) -> int {
    if quoted >= 0 {
        quoted / 10
    } else {
        -((-quoted) / 10)
    }
}

/// Converts a quoted price to display units. The division truncates; it
/// never rounds up.
pub fn display_value(quoted: i64) -> (shown: i64)
    ensures
        shown == display_of(quoted as int),
{
    quoted / 10
}

/// The row of a currency: its tag and its display value where the
/// snapshot quotes it, nothing where it does not.
pub open spec fn row_of(quotes: Map<Currency, i64>, tag: Currency) -> Seq<(Currency, int)> {
    if quotes.contains_key(tag) {
        seq![(tag, display_of(quotes[tag] as int))]
    } else {
        Seq::empty()
    }
}

/// The rows of the message, one for each quoted currency, in the fixed
/// order.
pub open spec fn quote_rows(quotes: Map<Currency, i64>) -> Seq<(Currency, int)> {
    row_of(quotes, Currency::Usd) + row_of(quotes, Currency::Eur) + row_of(quotes, Currency::Aed)
        + row_of(quotes, Currency::Cny)
}

/// The line that prints a row.
pub open spec fn line_of(row: (Currency, int)) -> Seq<char> {
    row.0.label_text() + amount_text(row.1) + UNIT@
}

/// The currency lines of the message, in the order of the rows.
pub open spec fn quote_lines(quotes: Map<Currency, i64>) -> Seq<Seq<char>> {
    quote_rows(quotes).map_values(|row: (Currency, int)| line_of(row))
}

/// The line that prints the price of the lira, after a blank line.
pub open spec fn lira_line(lira: int) -> Seq<char> {
    LIRA_LABEL@ + amount_text(lira) + UNIT@
}

/// The whole message: header, currency lines, lira line, footer, and the
/// channel identifier as the last line.
pub open spec fn message_text(quotes: Map<Currency, i64>, lira: int, channel: Seq<char>) -> Seq<
    char,
> {
    HEADER@ + quote_lines(quotes).flatten() + lira_line(lira) + FOOTER@ + channel
}

/// What a currency adds to the message: its line, or nothing.
pub open spec fn segment_of(quotes: Map<Currency, i64>, tag: Currency) -> Seq<char> {
    if quotes.contains_key(tag) {
        line_of((tag, display_of(quotes[tag] as int)))
    } else {
        Seq::empty()
    }
}

/// The currency lines, joined, are the segments of the four currencies in
/// the fixed order.
pub proof fn lemma_lines_are_segments(quotes: Map<Currency, i64>)
    ensures
        quote_lines(quotes).flatten() == segment_of(quotes, Currency::Usd) + segment_of(
            quotes,
            Currency::Eur,
        ) + segment_of(quotes, Currency::Aed) + segment_of(quotes, Currency::Cny),
{
    let f = |row: (Currency, int)| line_of(row);
    let a = row_of(quotes, Currency::Usd);
    let b = row_of(quotes, Currency::Eur);
    let c = row_of(quotes, Currency::Aed);
    let d = row_of(quotes, Currency::Cny);
    lemma_row_segment(quotes, Currency::Usd);
    lemma_row_segment(quotes, Currency::Eur);
    lemma_row_segment(quotes, Currency::Aed);
    lemma_row_segment(quotes, Currency::Cny);
    assert((a + b + c + d).map_values(f) == a.map_values(f) + b.map_values(f) + c.map_values(f)
        + d.map_values(f));
    lemma_flatten_concat(a.map_values(f) + b.map_values(f) + c.map_values(f), d.map_values(f));
    lemma_flatten_concat(a.map_values(f) + b.map_values(f), c.map_values(f));
    lemma_flatten_concat(a.map_values(f), b.map_values(f));
}

proof fn lemma_row_segment(quotes: Map<Currency, i64>, tag: Currency)
    ensures
        row_of(quotes, tag).map_values(|row: (Currency, int)| line_of(row)).flatten() == segment_of(
            quotes,
            tag,
        ),
{
    let lines = row_of(quotes, tag).map_values(|row: (Currency, int)| line_of(row));
    if quotes.contains_key(tag) {
        lines.lemma_flatten_one_element();
    } else {
        assert(lines.flatten() == Seq::<char>::empty());
    }
}

/// Every row belongs to a currency that the snapshot quotes, and shows a
/// tenth of its quoted price, the rest dropped. A currency without a quote
/// has no row.
pub proof fn law_rows_show_quoted_prices(quotes: Map<Currency, i64>, i: int)
    requires
        0 <= i < quote_rows(quotes).len(),
    ensures
        quotes.contains_key(quote_rows(quotes)[i].0),
        quote_rows(quotes)[i].1 == display_of(quotes[quote_rows(quotes)[i].0] as int),
{
}

/// A currency that the snapshot does not quote has no row.
pub proof fn law_unquoted_has_no_row(quotes: Map<Currency, i64>, tag: Currency)
    requires
        !quotes.contains_key(tag),
    ensures
        forall|i: int| 0 <= i < quote_rows(quotes).len() ==> (#[trigger] quote_rows(quotes)[i]).0 != tag,
{
}

/// A currency that the snapshot quotes has a row.
pub proof fn law_quoted_has_row(quotes: Map<Currency, i64>, tag: Currency)
    requires
        quotes.contains_key(tag),
    ensures
        exists|i: int| 0 <= i < quote_rows(quotes).len() && (#[trigger] quote_rows(quotes)[i]).0 == tag,
{
    let before: int = match tag {
        Currency::Usd => 0,
        Currency::Eur => row_of(quotes, Currency::Usd).len() as int,
        Currency::Aed => (row_of(quotes, Currency::Usd) + row_of(quotes, Currency::Eur)).len() as int,
        Currency::Cny => (row_of(quotes, Currency::Usd) + row_of(quotes, Currency::Eur) + row_of(
            quotes,
            Currency::Aed,
        )).len() as int,
    };
    assert(quote_rows(quotes)[before].0 == tag);
}

/// The rows stand in the fixed order: dollar, euro, dirham, yuan.
pub proof fn law_rows_in_fixed_order(quotes: Map<Currency, i64>, i: int, j: int)
    requires
        0 <= i < j < quote_rows(quotes).len(),
    ensures
        quote_rows(quotes)[i].0.rank() < quote_rows(quotes)[j].0.rank(),
{
}

/// The message prints one line for each row, in the order of the rows.
pub proof fn law_one_line_per_row(quotes: Map<Currency, i64>, i: int)
    requires
        0 <= i < quote_rows(quotes).len(),
    ensures
        quote_lines(quotes).len() == quote_rows(quotes).len(),
        quote_lines(quotes)[i] == line_of(quote_rows(quotes)[i]),
{
}

/// What separates code and price in the report of a quote.
pub const REPORT_SEPARATOR: &'static str = " = ";

/// The report of a quote as it was read: the code of the currency and the
/// quoted price in minor units, grouped by thousands.
pub open spec fn quote_report_text(tag: Currency, quoted: int) -> Seq<char> {
    tag.code_text() + REPORT_SEPARATOR@ + amount_text(quoted)
}

/// Writes the report of a quote.
pub fn quote_report(tag: Currency, quoted: i64) -> (text: String)
    ensures
        text@ == quote_report_text(tag, quoted as int),
{
    let amount = fmt_int(quoted);
    let mut text = String::from_str(tag.code());
    text.append(REPORT_SEPARATOR);
    text.append(amount.as_str());
    text
}

/// Appends the line of `tag` to `text` where the snapshot quotes it.
fn push_quote_line(text: &mut String, snapshot: &Snapshot, tag: Currency)
    ensures
        final(text)@ == old(text)@ + segment_of(snapshot@, tag),
{
    match snapshot.get(tag) {
        Some(quoted) => {
            let amount = fmt_int(display_value(quoted));
            text.append(tag.label());
            text.append(amount.as_str());
            text.append(UNIT);
            assert(text@ == old(text)@ + segment_of(snapshot@, tag));
        },
        None => {
            assert(text@ == old(text)@ + segment_of(snapshot@, tag));
        },
    }
}

/// Writes the message for a snapshot, the derived price of the lira and the
/// channel that the message goes to.
pub fn format_message(snapshot: &Snapshot, lira: i64, channel: &str) -> (text: String)
    ensures
        text@ == message_text(snapshot@, lira as int, channel@),
{
    let mut text = String::from_str(HEADER);
    push_quote_line(&mut text, snapshot, Currency::Usd);
    push_quote_line(&mut text, snapshot, Currency::Eur);
    push_quote_line(&mut text, snapshot, Currency::Aed);
    push_quote_line(&mut text, snapshot, Currency::Cny);
    proof {
        lemma_lines_are_segments(snapshot@);
        assert(text@ == HEADER@ + quote_lines(snapshot@).flatten());
    }
    let amount = fmt_int(lira);
    text.append(LIRA_LABEL);
    text.append(amount.as_str());
    text.append(UNIT);
    text.append(FOOTER);
    text.append(channel);
    assert(text@ == message_text(snapshot@, lira as int, channel@));
    text
}

} // verus!
