use peybot::currency::Currency;
use peybot::double::Double;
use peybot::error::ErrorKind;
use peybot::message::{format_message, UNIT};
use peybot::snapshot::Snapshot;
use peybot::tick::{lira_from_ticker, Action, Decision, Event, Note, Pause, Phase, Tick};
use peybot::ticker::{TickerItem, TickerResponse};

fn page(price: &str) -> Result<String, ErrorKind> {
    Ok(format!(
        "<div class=\"top-mobile-block\"><div class=\"block-last-change-percentage\"><span class=\"price\">{}</span></div></div>",
        price
    ))
}

fn ticker(success: bool, rates: &[f64]) -> Result<TickerResponse, ErrorKind> {
    Ok(TickerResponse {
        success,
        data: rates.iter().map(|r| TickerItem { last: Double::from_bits(r.to_bits()) }).collect(),
    })
}

fn is_fetch(decision: &Decision, tag: Currency) -> bool {
    matches!(decision.action, Action::FetchPage(t) if t == tag)
}

fn is_sleep(decision: &Decision, pause: Pause) -> bool {
    matches!(decision.action, Action::Sleep(p) if p == pause)
}

fn collect(tick: &mut Tick, pages: [Result<String, ErrorKind>; 4]) -> Vec<Decision> {
    let mut decisions = vec![tick.step(Event::Woke)];
    for page in pages {
        decisions.push(tick.step(Event::Page(page)));
    }
    decisions
}

#[test]
fn new_notifier_sleeps() {
    let tick = Tick::new("@rates".to_string());
    assert_eq!(tick.phase, Phase::Sleeping);
    assert_eq!(tick.snapshot, Snapshot::new());
    assert_eq!(tick.channel, "@rates");
}

#[test]
fn waking_asks_for_the_dollar_page() {
    let mut tick = Tick::new("@rates".to_string());
    let decision = tick.step(Event::Woke);
    assert!(is_fetch(&decision, Currency::Usd));
    assert_eq!(decision.note, Note::Nothing);
    assert_eq!(tick.phase, Phase::Collecting(Currency::Usd));
}

#[test]
fn waking_clears_the_snapshot_of_the_tick_before() {
    let mut tick = Tick::new("@rates".to_string());
    tick.snapshot.insert(Currency::Eur, 5);
    tick.step(Event::Woke);
    assert_eq!(tick.snapshot, Snapshot::new());
}

#[test]
fn all_sources_succeed() {
    let mut tick = Tick::new("@rates".to_string());
    let decisions =
        collect(&mut tick, [page("1,050,000"), page("1,140,500"), page("286,000"), page("147,350")]);
    assert!(is_fetch(&decisions[0], Currency::Usd));
    assert!(is_fetch(&decisions[1], Currency::Eur));
    assert!(is_fetch(&decisions[2], Currency::Aed));
    assert!(is_fetch(&decisions[3], Currency::Cny));
    assert!(matches!(decisions[4].action, Action::FetchTicker));
    assert_eq!(decisions[1].note, Note::Quoted(Currency::Usd, 1_050_000));
    assert_eq!(decisions[2].note, Note::Quoted(Currency::Eur, 1_140_500));
    assert_eq!(decisions[3].note, Note::Quoted(Currency::Aed, 286_000));
    assert_eq!(decisions[4].note, Note::Quoted(Currency::Cny, 147_350));
    assert_eq!(tick.phase, Phase::AwaitingRate);

    let sent = tick.step(Event::Ticker(ticker(true, &[34.20])));
    assert_eq!(tick.phase, Phase::Sending);
    assert_eq!(sent.note, Note::Nothing);
    let text = match sent.action {
        Action::Send(text) => text,
        other => panic!("no message: {:?}", other),
    };
    assert_eq!(text, format_message(&tick.snapshot, 3071, "@rates"));
    assert_eq!(text.matches(UNIT).count(), 5);
    assert!(text.contains("💵 دلار: 105,000 تومان\n"));
    assert!(text.contains("💶 یورو: 114,050 تومان\n"));
    assert!(text.contains("🇦🇪 درهم: 28,600 تومان\n"));
    assert!(text.contains("🇨🇳 یوآن چین: 14,735 تومان\n"));
    assert!(text.contains("🇹🇷 لیر ترکیه: 3,071 تومان\n"));

    let done = tick.step(Event::Notified(true));
    assert!(is_sleep(&done, Pause::Delivered));
    assert_eq!(tick.phase, Phase::Sleeping);
}

#[test]
fn whole_quotient_is_not_rounded_further() {
    let mut tick = Tick::new("c".to_string());
    collect(
        &mut tick,
        [
            page("900,000"),
            Err(ErrorKind::NetworkError),
            Err(ErrorKind::NetworkError),
            Err(ErrorKind::NetworkError),
        ],
    );
    let sent = tick.step(Event::Ticker(ticker(true, &[30.00])));
    match sent.action {
        Action::Send(text) => {
            assert!(text.contains("🇹🇷 لیر ترکیه: 3,000 تومان\n"));
            assert!(text.contains("💵 دلار: 90,000 تومان\n"));
        }
        other => panic!("no message: {:?}", other),
    }
}

#[test]
fn euro_page_without_the_element_is_left_out() {
    let mut tick = Tick::new("@rates".to_string());
    let decisions = collect(
        &mut tick,
        [page("1,050,000"), Ok("<html></html>".to_string()), page("286,000"), page("147,350")],
    );
    assert_eq!(decisions[2].note, Note::QuoteFailed(Currency::Eur, ErrorKind::SelectorNotFound));
    assert!(matches!(decisions[4].action, Action::FetchTicker));
    assert_eq!(tick.snapshot.get(Currency::Eur), None);
    let sent = tick.step(Event::Ticker(ticker(true, &[34.20])));
    match sent.action {
        Action::Send(text) => {
            assert!(!text.contains("یورو"));
            assert!(text.contains("💵 دلار: 105,000 تومان\n"));
            assert!(text.contains("🇦🇪 درهم: 28,600 تومان\n"));
            assert!(text.contains("🇨🇳 یوآن چین: 14,735 تومان\n"));
            assert!(text.contains("🇹🇷 لیر ترکیه: 3,071 تومان\n"));
            assert_eq!(text.matches(UNIT).count(), 4);
        }
        other => panic!("no message: {:?}", other),
    }
}

#[test]
fn failed_dollar_page_skips_the_tick() {
    for failure in [
        Err(ErrorKind::NetworkError),
        Err(ErrorKind::DecodeError),
        Ok("<html></html>".to_string()),
        page("n/a"),
    ] {
        let mut tick = Tick::new("@rates".to_string());
        let decisions = collect(&mut tick, [failure, page("1"), page("2"), page("3")]);
        assert!(matches!(decisions[1].note, Note::QuoteFailed(Currency::Usd, _)));
        assert!(is_fetch(&decisions[1], Currency::Eur));
        assert!(is_fetch(&decisions[2], Currency::Aed));
        assert!(is_fetch(&decisions[3], Currency::Cny));
        assert!(is_sleep(&decisions[4], Pause::UsdMissing));
        assert_eq!(decisions[4].note, Note::Quoted(Currency::Cny, 3));
        assert!(decisions.iter().all(|d| !matches!(d.action, Action::Send(_))));
        assert_eq!(tick.phase, Phase::Sleeping);
    }
}

#[test]
fn failure_kinds_are_reported_as_they_came() {
    let mut tick = Tick::new("@rates".to_string());
    let decisions = collect(
        &mut tick,
        [Err(ErrorKind::NetworkError), Err(ErrorKind::DecodeError), page(""), Ok(String::new())],
    );
    assert_eq!(decisions[1].note, Note::QuoteFailed(Currency::Usd, ErrorKind::NetworkError));
    assert_eq!(decisions[2].note, Note::QuoteFailed(Currency::Eur, ErrorKind::DecodeError));
    assert_eq!(decisions[3].note, Note::QuoteFailed(Currency::Aed, ErrorKind::ParseError));
    assert_eq!(decisions[4].note, Note::QuoteFailed(Currency::Cny, ErrorKind::SelectorNotFound));
}

#[test]
fn rejected_ticker_skips_the_tick() {
    let mut tick = Tick::new("@rates".to_string());
    collect(&mut tick, [page("1,050,000"), page("1"), page("2"), page("3")]);
    let decision = tick.step(Event::Ticker(ticker(false, &[])));
    assert!(is_sleep(&decision, Pause::CrossRateFailed(ErrorKind::UpstreamRejected)));
    assert_eq!(tick.phase, Phase::Sleeping);
    let again = tick.step(Event::Woke);
    assert!(is_fetch(&again, Currency::Usd));
}

#[test]
fn failed_ticker_skips_the_tick() {
    for kind in [ErrorKind::NetworkError, ErrorKind::ParseError] {
        let mut tick = Tick::new("@rates".to_string());
        collect(&mut tick, [page("1,050,000"), page("1"), page("2"), page("3")]);
        let decision = tick.step(Event::Ticker(Err(kind)));
        assert!(is_sleep(&decision, Pause::CrossRateFailed(kind)));
        assert_eq!(tick.phase, Phase::Sleeping);
    }
}

#[test]
fn rate_that_is_not_positive_is_refused() {
    for rate in [0.0, -0.0, -34.2, f64::NEG_INFINITY, f64::NAN] {
        let mut tick = Tick::new("@rates".to_string());
        collect(&mut tick, [page("1,050,000"), page("1"), page("2"), page("3")]);
        let decision = tick.step(Event::Ticker(ticker(true, &[rate])));
        assert!(is_sleep(&decision, Pause::CrossRateFailed(ErrorKind::InvalidInput)));
    }
}

#[test]
fn undelivered_message_does_not_stop_the_next_tick() {
    let mut tick = Tick::new("@rates".to_string());
    collect(&mut tick, [page("1,050,000"), page("1"), page("2"), page("3")]);
    let sent = tick.step(Event::Ticker(ticker(true, &[34.20])));
    assert!(matches!(sent.action, Action::Send(_)));
    let done = tick.step(Event::Notified(false));
    assert!(is_sleep(&done, Pause::NotifyFailed));
    let again = tick.step(Event::Woke);
    assert!(is_fetch(&again, Currency::Usd));
}

#[test]
fn answer_out_of_turn_ends_the_tick() {
    let mut tick = Tick::new("@rates".to_string());
    let decision = tick.step(Event::Notified(true));
    assert!(is_sleep(&decision, Pause::OutOfTurn));
    tick.step(Event::Woke);
    let decision = tick.step(Event::Ticker(ticker(true, &[34.20])));
    assert!(is_sleep(&decision, Pause::OutOfTurn));
    assert_eq!(tick.phase, Phase::Sleeping);
    let decision = tick.step(Event::Page(page("1")));
    assert!(is_sleep(&decision, Pause::OutOfTurn));
    tick.step(Event::Woke);
    let decision = tick.step(Event::Woke);
    assert!(is_sleep(&decision, Pause::OutOfTurn));
}

#[test]
fn awaiting_the_rate_without_a_dollar_quote_sleeps() {
    let mut tick =
        Tick { phase: Phase::AwaitingRate, snapshot: Snapshot::new(), channel: "c".to_string() };
    let decision = tick.step(Event::Ticker(ticker(true, &[34.20])));
    assert!(is_sleep(&decision, Pause::UsdMissing));
}

#[test]
fn lira_is_derived_from_the_first_entry_of_the_ticker() {
    assert_eq!(lira_from_ticker(1_050_000, ticker(true, &[34.20, 1.0])), Ok(3071));
    assert_eq!(lira_from_ticker(900_000, ticker(true, &[30.00])), Ok(3000));
    assert_eq!(
        lira_from_ticker(900_000, ticker(false, &[30.00])),
        Err(ErrorKind::UpstreamRejected)
    );
    assert_eq!(lira_from_ticker(900_000, ticker(true, &[])), Err(ErrorKind::UpstreamRejected));
    assert_eq!(lira_from_ticker(900_000, ticker(true, &[0.0])), Err(ErrorKind::InvalidInput));
    assert_eq!(lira_from_ticker(900_000, Err(ErrorKind::NetworkError)), Err(ErrorKind::NetworkError));
    assert_eq!(lira_from_ticker(900_000, Err(ErrorKind::ParseError)), Err(ErrorKind::ParseError));
}

#[test]
fn infinite_rate_gives_a_lira_price_of_zero() {
    let mut tick = Tick::new("c".to_string());
    collect(&mut tick, [page("1,050,000"), page("1"), page("2"), page("3")]);
    let sent = tick.step(Event::Ticker(ticker(true, &[f64::INFINITY])));
    match sent.action {
        Action::Send(text) => assert!(text.contains("🇹🇷 لیر ترکیه: 0 تومان\n")),
        other => panic!("no message: {:?}", other),
    }
}

#[test]
fn pauses_name_their_failure() {
    assert_eq!(Pause::Delivered.failure(), None);
    assert_eq!(Pause::UsdMissing.failure(), None);
    assert_eq!(Pause::NotifyFailed.failure(), Some(ErrorKind::NotifyFailed));
    assert_eq!(
        Pause::CrossRateFailed(ErrorKind::UpstreamRejected).failure(),
        Some(ErrorKind::UpstreamRejected)
    );
    assert_eq!(Pause::OutOfTurn.failure(), Some(ErrorKind::InvalidInput));
}
