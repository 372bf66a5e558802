//! The feed ingestor's decision step.
//!
//! A long-lived task holds one streaming subscription to the upstream price
//! source. Every inbound event goes through `feed_step`: a well-formed update
//! is written into the price cache as one whole price point and is published;
//! a malformed update is skipped and changes nothing; the end of the stream
//! or a stream error asks the driving loop to reconnect after the current
//! backoff, which doubles up to a cap and resets on the next good update.
//! The ingestor never removes a price point: stale-but-present data is
//! preferred, since absence means "invalid ticker" elsewhere.

use vstd::prelude::*;

use crate::cache::{PriceCache, PricePoint};
use crate::money::{is_price_text, parse_price, price_text_cents};
use crate::text::{to_ascii_upper, upper_seq};
use crate::validate::{is_valid_ticker_format, valid_ticker};

verus! {

/// Delay before the first reconnect attempt, in seconds.
pub const INITIAL_BACKOFF_SECS: u64 = 1;

/// Longest delay between reconnect attempts, in seconds.
pub const MAX_BACKOFF_SECS: u64 = 64;

/// The ingestor's state between events: the current reconnect backoff.
pub struct FeedState {
    pub backoff_secs: u64,
}

impl FeedState {
    /// The backoff stays within its configured band.
    pub open spec fn wf(self) -> bool {
        INITIAL_BACKOFF_SECS <= self.backoff_secs <= MAX_BACKOFF_SECS
    }

    /// The state at startup: the shortest backoff.
    pub fn start() -> (r: FeedState)
        ensures
            r.wf(),
            r.backoff_secs == INITIAL_BACKOFF_SECS,
    {
        FeedState { backoff_secs: INITIAL_BACKOFF_SECS }
    }
}

/// One event from the upstream stream.
pub enum FeedEvent {
    /// An inbound price update, as the wire carries it.
    Update { ticker: String, price_text: String },
    /// The stream ended without an error.
    StreamClosed,
    /// The stream or the connection failed.
    StreamError,
}

/// What the driving loop does after a step.
pub enum FeedAction {
    /// The update was written to the cache; publish it on the ticker's channel.
    Publish { ticker: String, price: u64 },
    /// The update was malformed and skipped; log it and read on.
    Skip,
    /// Reconnect after this delay.
    Reconnect { delay_secs: u64 },
}

/// An update is well-formed: its ticker, folded to uppercase, is a valid
/// symbol, and its price text reads as a positive number of cents that fits.
pub open spec fn update_ok(ticker: Seq<char>, price_text: Seq<char>) -> bool {
    &&& valid_ticker(upper_seq(ticker))
    &&& is_price_text(price_text)
    &&& 1 <= price_text_cents(price_text) <= u64::MAX
}

/// Advances the ingestor by one event.
///
/// A well-formed update is written into the cache under its uppercased ticker
/// (one whole point, nothing else touched) and resets the backoff; a
/// malformed one changes nothing. A closed or failed stream changes no price
/// and asks for a reconnect after the current backoff, which then doubles up
/// to the cap.
pub fn feed_step(state: &mut FeedState, cache: &mut PriceCache, event: FeedEvent, now: u64) -> (a:
    FeedAction)
    requires
        old(state).wf(),
        old(cache).wf(),
    ensures
        final(state).wf(),
        final(cache).wf(),
        event matches FeedEvent::Update { ticker, price_text } ==> {
            &&& update_ok(ticker@, price_text@) ==> final(cache)@ == old(cache)@.insert(
                upper_seq(ticker@),
                PricePoint { price: price_text_cents(price_text@) as u64, updated: now },
            ) && (a matches FeedAction::Publish { ticker: t2, price } && t2@ == upper_seq(ticker@)
                && price as int == price_text_cents(price_text@)) && final(state).backoff_secs
                == INITIAL_BACKOFF_SECS
            &&& !update_ok(ticker@, price_text@) ==> final(cache)@ == old(cache)@ && a is Skip
                && *final(state) == *old(state)
        },
        (event is StreamClosed || event is StreamError) ==> final(cache)@ == old(cache)@ && (a
            matches FeedAction::Reconnect { delay_secs } && delay_secs == old(state).backoff_secs)
            && final(state).backoff_secs == if 2 * old(state).backoff_secs <= MAX_BACKOFF_SECS {
            2 * old(state).backoff_secs
        } else {
            MAX_BACKOFF_SECS as int
        },
{
    match event {
        FeedEvent::Update { ticker, price_text } => {
            let up = to_ascii_upper(ticker.as_str());
            if !is_valid_ticker_format(up.as_str()) {
                return FeedAction::Skip;
            }
            let price = match parse_price(price_text.as_str()) {
                None => {
                    return FeedAction::Skip;
                },
                Some(p) => p,
            };
            if price == 0 {
                return FeedAction::Skip;
            }
            cache.set(up.as_str(), price, now);
            state.backoff_secs = INITIAL_BACKOFF_SECS;
            FeedAction::Publish { ticker: up, price }
        },
        FeedEvent::StreamClosed => {
            let delay = state.backoff_secs;
            state.backoff_secs = if delay <= MAX_BACKOFF_SECS / 2 {
                2 * delay
            } else {
                MAX_BACKOFF_SECS
            };
            FeedAction::Reconnect { delay_secs: delay }
        },
        FeedEvent::StreamError => {
            let delay = state.backoff_secs;
            state.backoff_secs = if delay <= MAX_BACKOFF_SECS / 2 {
                2 * delay
            } else {
                MAX_BACKOFF_SECS
            };
            FeedAction::Reconnect { delay_secs: delay }
        },
    }
}

} // verus!
