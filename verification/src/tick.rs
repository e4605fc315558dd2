//! One tick of the notifier, as a machine that is fed what the outside
//! world answered and says what to do next.
//!
//! A tick collects the four quotes in the fixed order, needs the dollar
//! quote, asks the ticker for the cross-rate, derives the price of the lira,
//! and sends the message. Any failure on the way ends the tick without a
//! message.

use vstd::prelude::*;
use crate::currency::Currency;
use crate::convert::{derive_lira, derived_lira};
use crate::error::ErrorKind;
use crate::message::{format_message, message_text, quote_rows};
use crate::page::{extract_price, page_price};
use crate::snapshot::Snapshot;
use crate::ticker::TickerResponse;

verus! {

/// Where a tick stands.
#[derive(Clone, Copy, Debug, PartialEq, Eq, Structural)]
pub enum Phase {
    /// Between ticks.
    Sleeping,
    /// The page of this currency has been asked for.
    Collecting(Currency),
    /// The ticker has been asked for the cross-rate.
    AwaitingRate,
    /// The message has been handed over for sending.
    Sending,
}

/// Why a tick went to sleep.
#[derive(Clone, Copy, Debug, PartialEq, Eq, Structural)]
pub enum Pause {
    /// No dollar quote was collected.
    UsdMissing,
    /// No usable cross-rate was obtained.
    CrossRateFailed(ErrorKind),
    /// The message was delivered.
    Delivered,
    /// The message was not delivered.
    NotifyFailed,
    /// An answer arrived that the tick was not waiting for.
    OutOfTurn,
}

impl Pause {
    /// The failure behind a pause, where there is one: a pause after a
    /// delivered message has none, and neither has one for want of a dollar
    /// quote, whose failure the note of the page has told.
    pub open spec fn failure_kind(self) -> Option<ErrorKind> {
        match self {
            Pause::CrossRateFailed(kind) => Some(kind),
            Pause::NotifyFailed => Some(ErrorKind::NotifyFailed),
            Pause::OutOfTurn => Some(ErrorKind::InvalidInput),
            Pause::UsdMissing => None,
            Pause::Delivered => None,
        }
    }

    /// The failure behind a pause, where there is one.
    pub fn failure(&self) -> (kind: Option<ErrorKind>)
        ensures
            kind == self.failure_kind(),
    {
        match self {
            Pause::CrossRateFailed(kind) => Some(*kind),
            Pause::NotifyFailed => Some(ErrorKind::NotifyFailed),
            Pause::OutOfTurn => Some(ErrorKind::InvalidInput),
            Pause::UsdMissing => None,
            Pause::Delivered => None,
        }
    }
}

/// What the outside world answered.
#[derive(Debug)]
pub enum Event {
    /// The pause is over.
    Woke,
    /// The body of the page that was asked for, or why there is none.
    Page(Result<String, ErrorKind>),
    /// The reply of the ticker, or why there is none.
    Ticker(Result<TickerResponse, ErrorKind>),
    /// The message was sent; the flag tells whether it was delivered.
    Notified(bool),
}

/// What is to be done next.
#[derive(Debug)]
pub enum Action {
    /// Fetch the market page of a currency.
    FetchPage(Currency),
    /// Fetch the ticker reply.
    FetchTicker,
    /// Send this text to the channel.
    Send(String),
    /// Wait for the next tick.
    Sleep(Pause),
}

/// An action, with the text of a message in place of the string.
pub enum ActionView {
    FetchPage(Currency),
    FetchTicker,
    Send(Seq<char>),
    Sleep(Pause),
}

impl View for Action {
    type V = ActionView;

    open spec fn view(&self) -> ActionView {
        match *self {
            Action::FetchPage(tag) => ActionView::FetchPage(tag),
            Action::FetchTicker => ActionView::FetchTicker,
            Action::Send(text) => ActionView::Send(text@),
            Action::Sleep(pause) => ActionView::Sleep(pause),
        }
    }
}

/// What became of the page that an event brought.
#[derive(Clone, Copy, Debug, PartialEq, Eq, Structural)]
pub enum Note {
    /// The event brought no page.
    Nothing,
    /// The page quoted this price.
    Quoted(Currency, i64),
    /// The page was not fetched or held no price.
    QuoteFailed(Currency, ErrorKind),
}

/// The outcome of a step: what to report and what to do.
#[derive(Debug)]
pub struct Decision {
    pub note: Note,
    pub action: Action,
}

/// The state of the notifier between steps.
#[derive(Debug)]
pub struct Tick {
    pub phase: Phase,
    pub snapshot: Snapshot,
    /// The channel that messages go to; it closes every message.
    pub channel: String,
}

/// The price that a fetched page yields: the failure of the fetch, or what
/// the extractor reads from the body.
pub open spec fn quote_of(page: Result<String, ErrorKind>) -> Result<i64, ErrorKind> {
    match page {
        Ok(body) => page_price(body@),
        Err(kind) => Err(kind),
    }
}

/// The price of the lira that a ticker answer yields for a dollar quote:
/// the failure of the fetch, the rejection by the ticker, `InvalidInput` for
/// a rate that is not greater than zero, or the derived price.
pub open spec fn lira_from(usd: i64, ticker: Result<TickerResponse, ErrorKind>) -> Result<
    i64,
    ErrorKind,
> {
    match ticker {
        Ok(reply) => match reply.rate() {
            Ok(rate) => derived_lira(usd, rate),
            Err(kind) => Err(kind),
        },
        Err(kind) => Err(kind),
    }
}

impl Tick {
    /// The state, the note and the action that follow from a state and an
    /// event.
    pub open spec fn next(self, event: Event) -> (Tick, Note, ActionView) {
        match (self.phase, event) {
            (Phase::Sleeping, Event::Woke) => (
                Tick {
                    phase: Phase::Collecting(Currency::Usd),
                    snapshot: Snapshot { usd: None, eur: None, aed: None, cny: None },
                    channel: self.channel,
                },
                Note::Nothing,
                ActionView::FetchPage(Currency::Usd),
            ),
            (Phase::Collecting(tag), Event::Page(page)) => {
                let snapshot = match quote_of(page) {
                    Ok(price) => self.snapshot.with(tag, price),
                    Err(_) => self.snapshot,
                };
                let note = match quote_of(page) {
                    Ok(price) => Note::Quoted(tag, price),
                    Err(kind) => Note::QuoteFailed(tag, kind),
                };
                match tag.successor() {
                    Some(following) => (
                        Tick { phase: Phase::Collecting(following), snapshot, channel: self.channel },
                        note,
                        ActionView::FetchPage(following),
                    ),
                    None => if snapshot.usd is Some {
                        (
                            Tick { phase: Phase::AwaitingRate, snapshot, channel: self.channel },
                            note,
                            ActionView::FetchTicker,
                        )
                    } else {
                        (
                            Tick { phase: Phase::Sleeping, snapshot, channel: self.channel },
                            note,
                            ActionView::Sleep(Pause::UsdMissing),
                        )
                    },
                }
            },
            (Phase::AwaitingRate, Event::Ticker(ticker)) => match self.snapshot.usd {
                Some(usd) => match lira_from(usd, ticker) {
                    Ok(lira) => (
                        Tick { phase: Phase::Sending, ..self },
                        Note::Nothing,
                        ActionView::Send(message_text(self.snapshot@, lira as int, self.channel@)),
                    ),
                    Err(kind) => (
                        Tick { phase: Phase::Sleeping, ..self },
                        Note::Nothing,
                        ActionView::Sleep(Pause::CrossRateFailed(kind)),
                    ),
                },
                None => (
                    Tick { phase: Phase::Sleeping, ..self },
                    Note::Nothing,
                    ActionView::Sleep(Pause::UsdMissing),
                ),
            },
            (Phase::Sending, Event::Notified(delivered)) => (
                Tick { phase: Phase::Sleeping, ..self },
                Note::Nothing,
                ActionView::Sleep(
                    if delivered {
                        Pause::Delivered
                    } else {
                        Pause::NotifyFailed
                    },
                ),
            ),
            _ => (
                Tick { phase: Phase::Sleeping, ..self },
                Note::Nothing,
                ActionView::Sleep(Pause::OutOfTurn),
            ),
        }
    }

    /// A notifier that sleeps, with an empty snapshot.
    pub fn new(channel: String) -> (tick: Tick)
        ensures
            tick.phase == Phase::Sleeping,
            tick.snapshot@ == Map::<Currency, i64>::empty(),
            tick.channel == channel,
    {
        Tick { phase: Phase::Sleeping, snapshot: Snapshot::new(), channel }
    }

    /// Takes an event and decides what follows.
    pub fn step(&mut self, event: Event) -> (decision: Decision)
        ensures
            *final(self) == old(self).next(event).0,
            decision.note == old(self).next(event).1,
            decision.action@ == old(self).next(event).2,
    {
        let phase = self.phase;
        match (phase, event) {
            (Phase::Sleeping, Event::Woke) => {
                self.snapshot = Snapshot { usd: None, eur: None, aed: None, cny: None };
                self.phase = Phase::Collecting(Currency::Usd);
                Decision { note: Note::Nothing, action: Action::FetchPage(Currency::Usd) }
            },
            (Phase::Collecting(tag), Event::Page(page)) => {
                let quote = match page {
                    Ok(body) => extract_price(body.as_str()),
                    Err(kind) => Err(kind),
                };
                let note = match quote {
                    Ok(price) => {
                        self.snapshot.insert(tag, price);
                        Note::Quoted(tag, price)
                    },
                    Err(kind) => Note::QuoteFailed(tag, kind),
                };
                let action = match tag.next() {
                    Some(following) => {
                        self.phase = Phase::Collecting(following);
                        Action::FetchPage(following)
                    },
                    None => if self.snapshot.contains(Currency::Usd) {
                        self.phase = Phase::AwaitingRate;
                        Action::FetchTicker
                    } else {
                        self.phase = Phase::Sleeping;
                        Action::Sleep(Pause::UsdMissing)
                    },
                };
                Decision { note, action }
            },
            (Phase::AwaitingRate, Event::Ticker(ticker)) => {
                let action = match self.snapshot.get(Currency::Usd) {
                    Some(usd) => match lira_from_ticker(usd, ticker) {
                        Ok(lira) => {
                            let text = format_message(&self.snapshot, lira, self.channel.as_str());
                            self.phase = Phase::Sending;
                            Action::Send(text)
                        },
                        Err(kind) => {
                            self.phase = Phase::Sleeping;
                            Action::Sleep(Pause::CrossRateFailed(kind))
                        },
                    },
                    None => {
                        self.phase = Phase::Sleeping;
                        Action::Sleep(Pause::UsdMissing)
                    },
                };
                Decision { note: Note::Nothing, action }
            },
            (Phase::Sending, Event::Notified(delivered)) => {
                self.phase = Phase::Sleeping;
                let pause = if delivered {
                    Pause::Delivered
                } else {
                    Pause::NotifyFailed
                };
                Decision { note: Note::Nothing, action: Action::Sleep(pause) }
            },
            _ => {
                self.phase = Phase::Sleeping;
                Decision { note: Note::Nothing, action: Action::Sleep(Pause::OutOfTurn) }
            },
        }
    }
}

/// What the outside world answers in the course of one tick.
pub struct Replies {
    pub usd: Result<String, ErrorKind>,
    pub eur: Result<String, ErrorKind>,
    pub aed: Result<String, ErrorKind>,
    pub cny: Result<String, ErrorKind>,
    pub ticker: Result<TickerResponse, ErrorKind>,
    pub delivered: bool,
}

impl Replies {
    /// The answer for the page of `tag`.
    pub open spec fn page(self, tag: Currency) -> Result<String, ErrorKind> {
        match tag {
            Currency::Usd => self.usd,
            Currency::Eur => self.eur,
            Currency::Aed => self.aed,
            Currency::Cny => self.cny,
        }
    }

    /// The event that answers an action. Nothing answers a pause: the tick
    /// is over.
    pub open spec fn answer(self, action: ActionView) -> Option<Event> {
        match action {
            ActionView::FetchPage(tag) => Some(Event::Page(self.page(tag))),
            ActionView::FetchTicker => Some(Event::Ticker(self.ticker)),
            ActionView::Send(_) => Some(Event::Notified(self.delivered)),
            ActionView::Sleep(_) => None,
        }
    }

    /// The quotes of the pages that yield a price.
    pub open spec fn quotes(self) -> Map<Currency, i64> {
        Map::new(
            |tag: Currency| quote_of(self.page(tag)) is Ok,
            |tag: Currency| quote_of(self.page(tag))->Ok_0,
        )
    }

    /// The message of the tick, where it has one: the dollar page yields a
    /// price and the ticker a rate greater than zero.
    pub open spec fn message(self, channel: Seq<char>) -> Option<Seq<char>> {
        match quote_of(self.usd) {
            Ok(usd) => match lira_from(usd, self.ticker) {
                Ok(lira) => Some(message_text(self.quotes(), lira as int, channel)),
                Err(_) => None,
            },
            Err(_) => None,
        }
    }
}

/// The actions that a notifier takes from `event` on, each answered by
/// `replies`, until it pauses or `steps` more events have been taken.
pub open spec fn run(tick: Tick, event: Event, replies: Replies, steps: nat) -> Seq<ActionView>
    decreases steps,
{
    let (after, _, action) = tick.next(event);
    match replies.answer(action) {
        Some(reply) => if steps > 0 {
            seq![action] + run(after, reply, replies, (steps - 1) as nat)
        } else {
            seq![action]
        },
        None => seq![action],
    }
}

/// The actions of a whole tick, from waking to the next pause.
pub open spec fn actions_of_tick(channel: Seq<char>, replies: Replies) -> Seq<ActionView> {
    let pages = seq![
        ActionView::FetchPage(Currency::Usd),
        ActionView::FetchPage(Currency::Eur),
        ActionView::FetchPage(Currency::Aed),
        ActionView::FetchPage(Currency::Cny),
    ];
    match quote_of(replies.usd) {
        Err(_) => pages.push(ActionView::Sleep(Pause::UsdMissing)),
        Ok(usd) => match lira_from(usd, replies.ticker) {
            Err(kind) => pages.push(ActionView::FetchTicker).push(
                ActionView::Sleep(Pause::CrossRateFailed(kind)),
            ),
            Ok(lira) => pages.push(ActionView::FetchTicker).push(
                ActionView::Send(message_text(replies.quotes(), lira as int, channel)),
            ).push(
                ActionView::Sleep(
                    if replies.delivered {
                        Pause::Delivered
                    } else {
                        Pause::NotifyFailed
                    },
                ),
            ),
        },
    }
}

/// A sleeping notifier that wakes fetches the four pages in the fixed
/// order, whatever they answer; goes on to the ticker only with a dollar
/// quote; and sends one message only with a rate greater than zero. The
/// message quotes exactly the currencies whose pages yielded a price, and
/// the price of the lira derived from the dollar quote and the rate. The
/// notifier pauses after that, whether the message was delivered or not.
pub proof fn law_tick_runs_to_pause(tick: Tick, replies: Replies, steps: nat)
    requires
        tick.phase == Phase::Sleeping,
        steps >= 6,
    ensures
        run(tick, Event::Woke, replies, steps) == actions_of_tick(tick.channel@, replies),
{
    let woke = run(tick, Event::Woke, replies, steps);
    let t0 = tick.next(Event::Woke).0;
    let t1 = t0.next(Event::Page(replies.usd)).0;
    let t2 = t1.next(Event::Page(replies.eur)).0;
    let t3 = t2.next(Event::Page(replies.aed)).0;
    let t4 = t3.next(Event::Page(replies.cny)).0;
    let r1 = run(t0, Event::Page(replies.usd), replies, (steps - 1) as nat);
    let r2 = run(t1, Event::Page(replies.eur), replies, (steps - 2) as nat);
    let r3 = run(t2, Event::Page(replies.aed), replies, (steps - 3) as nat);
    let r4 = run(t3, Event::Page(replies.cny), replies, (steps - 4) as nat);
    assert(woke == seq![ActionView::FetchPage(Currency::Usd)] + r1);
    assert(r1 == seq![ActionView::FetchPage(Currency::Eur)] + r2);
    assert(r2 == seq![ActionView::FetchPage(Currency::Aed)] + r3);
    assert(r3 == seq![ActionView::FetchPage(Currency::Cny)] + r4);
    assert(t1.snapshot.usd is Some <==> quote_of(replies.usd) is Ok);
    assert(t4.snapshot.usd == t1.snapshot.usd);
    assert(t4.snapshot@ =~= replies.quotes());
    assert(t4.channel == tick.channel);
    lemma_run_after_collecting(t3, replies, (steps - 4) as nat);
    assert(woke =~= actions_of_tick(tick.channel@, replies));
}

/// The end of a tick, from the answer for the last page on.
proof fn lemma_run_after_collecting(tick: Tick, replies: Replies, steps: nat)
    requires
        tick.phase == Phase::Collecting(Currency::Cny),
        steps >= 2,
    ensures
        run(tick, Event::Page(replies.cny), replies, steps) == ({
            let after = tick.next(Event::Page(replies.cny)).0;
            match after.snapshot.usd {
                None => seq![ActionView::Sleep(Pause::UsdMissing)],
                Some(usd) => match lira_from(usd, replies.ticker) {
                    Err(kind) => seq![
                        ActionView::FetchTicker,
                        ActionView::Sleep(Pause::CrossRateFailed(kind)),
                    ],
                    Ok(lira) => seq![
                        ActionView::FetchTicker,
                        ActionView::Send(message_text(after.snapshot@, lira as int, tick.channel@)),
                        ActionView::Sleep(
                            if replies.delivered {
                                Pause::Delivered
                            } else {
                                Pause::NotifyFailed
                            },
                        ),
                    ],
                },
            }
        }),
{
    let t4 = tick.next(Event::Page(replies.cny)).0;
    let r4 = run(tick, Event::Page(replies.cny), replies, steps);
    if t4.snapshot.usd is Some {
        let t5 = t4.next(Event::Ticker(replies.ticker)).0;
        let r5 = run(t4, Event::Ticker(replies.ticker), replies, (steps - 1) as nat);
        assert(r4 == seq![ActionView::FetchTicker] + r5);
        let lira = lira_from(t4.snapshot.usd->0, replies.ticker);
        if lira is Ok {
            let r6 = run(t5, Event::Notified(replies.delivered), replies, (steps - 2) as nat);
            assert(r5 == seq![
                ActionView::Send(message_text(t4.snapshot@, lira->Ok_0 as int, tick.channel@)),
            ] + r6);
            assert(r6 == seq![
                ActionView::Sleep(
                    if replies.delivered {
                        Pause::Delivered
                    } else {
                        Pause::NotifyFailed
                    },
                ),
            ]);
        } else {
            assert(r5 == seq![ActionView::Sleep(Pause::CrossRateFailed(lira->Err_0))]);
        }
    } else {
        assert(r4 == seq![ActionView::Sleep(Pause::UsdMissing)]);
    }
}

/// A tick sends a message only if the dollar page yielded a price and the
/// ticker a rate greater than zero; it then sends exactly one.
pub proof fn law_message_needs_dollar_and_rate(tick: Tick, replies: Replies, steps: nat, i: int)
    requires
        tick.phase == Phase::Sleeping,
        steps >= 6,
        0 <= i < run(tick, Event::Woke, replies, steps).len(),
    ensures
        run(tick, Event::Woke, replies, steps)[i] is Send ==> replies.message(tick.channel@)
            == Some(run(tick, Event::Woke, replies, steps)[i]->Send_0),
        replies.message(tick.channel@) is None ==> !(run(tick, Event::Woke, replies, steps)[i]
            is Send),
{
    law_tick_runs_to_pause(tick, replies, steps);
}

/// The message of a tick has no row for a currency whose page was not
/// fetched or yielded no price.
pub proof fn law_failed_quote_has_no_row(replies: Replies, tag: Currency, i: int)
    requires
        quote_of(replies.page(tag)) is Err,
        0 <= i < quote_rows(replies.quotes()).len(),
    ensures
        quote_rows(replies.quotes())[i].0 != tag,
{
}

/// Derives the price of the lira from a dollar quote and a ticker answer.
pub fn lira_from_ticker(usd: i64, ticker: Result<TickerResponse, ErrorKind>) -> (lira: Result<
    i64,
    ErrorKind,
>)
    ensures
        lira == lira_from(usd, ticker),
{
    match ticker {
        Ok(reply) => match reply.cross_rate() {
            Ok(rate) => derive_lira(usd, rate),
            Err(kind) => Err(kind),
        },
        Err(kind) => Err(kind),
    }
}

} // verus!
