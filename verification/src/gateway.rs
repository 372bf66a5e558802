//! The streaming gateway's per-connection state machine.
//!
//! A connection starts in `Connected`, where the client owes one
//! `subscribe:<TICKER>` command. A subscription to a cached ticker moves the
//! session to `Streaming`; on every tick the gateway pushes
//! `update:<TICKER>:<PRICE>` with the price re-read from the cache. A
//! subscription to an unknown ticker draws an error frame and closes the
//! session at once — it never leaves the client on a silently stuck stream.
//! A close frame or a failed send ends the session immediately; a closed
//! session does nothing ever after, so no timer outlives the connection.
//!
//! The driving loop (socket reads, the tick timer, the actual sends) lives
//! outside: it feeds one `ClientEvent` at a time into `session_step` and
//! performs the returned `GatewayAction`.

use vstd::prelude::*;

use crate::cache::PriceCache;
use crate::money::cents_text;
use crate::money::format_cents;
use crate::text::{has_prefix, to_ascii_upper, trim_spaces, trimmed, upper_seq};

verus! {

/// Where one streaming session stands.
pub enum SessionState {
    /// Greeted, awaiting a subscribe command.
    Connected,
    /// Pushing periodic updates for one ticker.
    Streaming { ticker: String },
    /// Torn down; nothing is sent any more.
    Closing,
}

/// What the connection handed the gateway.
pub enum ClientEvent {
    /// A text message from the client.
    Text { msg: String },
    /// The client sent a close frame.
    CloseFrame,
    /// The periodic push timer fired.
    Tick,
    /// The last send to the client failed.
    SendFailed,
}

/// What the gateway asks the connection to do next.
pub enum GatewayAction {
    /// Send the greeting after the connection opens.
    SendWelcome { msg: String },
    /// Tell the client how to subscribe.
    SendHint { msg: String },
    /// Send an error frame, then close the connection.
    SendErrorClose { msg: String },
    /// Push one price update frame.
    SendUpdate { frame: String },
    /// Close the connection without another frame.
    CloseSilent,
    /// Nothing to send.
    DoNothing,
}

/// The greeting sent when a connection opens.
pub open spec fn welcome_text() -> Seq<char> {
    "Welcome to Stock-Sim WebSocket!"@
}

/// The hint sent for any text that is not a subscribe command.
pub open spec fn hint_text() -> Seq<char> {
    "Send subscribe:<TICKER> to start receiving updates"@
}

/// The error frame for a ticker the cache does not know.
pub open spec fn invalid_ticker_text(t: Seq<char>) -> Seq<char> {
    "Error: Invalid ticker "@ + t
}

/// One pushed price update: `update:<TICKER>:<PRICE>`.
pub open spec fn update_frame(t: Seq<char>, price: int) -> Seq<char> {
    "update:"@ + t + ":"@ + cents_text(price)
}

/// The message is a subscribe command.
pub open spec fn is_subscribe(msg: Seq<char>) -> bool {
    "subscribe:"@.len() <= msg.len() && msg.subrange(0, "subscribe:"@.len() as int)
        == "subscribe:"@
}

/// The ticker a subscribe command names: what follows the colon, without
/// surrounding whitespace, folded to uppercase.
pub open spec fn subscribe_ticker(msg: Seq<char>) -> Seq<char> {
    upper_seq(trimmed(msg.skip("subscribe:"@.len() as int)))
}

/// Builds one `update:<TICKER>:<PRICE>` frame.
pub fn format_update_frame(ticker: &str, price: u64) -> (r: String)
    ensures
        r@ == update_frame(ticker@, price as int),
{
    let mut s = String::from_str("update:");
    s.append(ticker);
    s.append(":");
    let c = format_cents(price);
    s.append(c.as_str());
    proof {
        assert(s@ =~= update_frame(ticker@, price as int));
    }
    s
}

/// Builds the error frame for an unknown ticker.
fn format_invalid_ticker(ticker: &str) -> (r: String)
    ensures
        r@ == invalid_ticker_text(ticker@),
{
    let mut s = String::from_str("Error: Invalid ticker ");
    s.append(ticker);
    s
}

/// Opens a session: the state is `Connected` and the greeting goes out.
pub fn session_start() -> (r: (SessionState, GatewayAction))
    ensures
        r.0 is Connected,
        (r.1 matches GatewayAction::SendWelcome { msg } && msg@ == welcome_text()),
{
    (
        SessionState::Connected,
        GatewayAction::SendWelcome { msg: String::from_str("Welcome to Stock-Sim WebSocket!") },
    )
}

/// Advances one session by one event and says what to send.
///
/// A closed session stays closed and silent; a close frame or a failed send
/// closes any session at once; a subscribe command for a cached ticker starts
/// streaming it, for an unknown ticker it draws the error frame and closes;
/// any other text draws the usage hint; a tick while streaming pushes the
/// current cached price, and closes the session if the ticker has vanished
/// from the cache.
pub fn session_step(state: SessionState, cache: &PriceCache, event: ClientEvent) -> (r: (
    SessionState,
    GatewayAction,
))
    requires
        cache.wf(),
    ensures
        (state is Closing ==> r.0 is Closing && r.1 is DoNothing),
        (!(state is Closing) && (event is CloseFrame || event is SendFailed) ==> r.0 is Closing
            && r.1 is CloseSilent),
        (state is Connected && event is Tick ==> r.0 is Connected && r.1 is DoNothing),
        (state is Connected ==> (event matches ClientEvent::Text { msg } ==> {
            &&& !is_subscribe(msg@) ==> r.0 is Connected && (r.1
                matches GatewayAction::SendHint { msg: h } && h@ == hint_text())
            &&& is_subscribe(msg@) && cache@.contains_key(subscribe_ticker(msg@)) ==> (r.0
                matches SessionState::Streaming { ticker } && ticker@ == subscribe_ticker(msg@))
                && r.1 is DoNothing
            &&& is_subscribe(msg@) && !cache@.contains_key(subscribe_ticker(msg@)) ==> r.0
                is Closing && (r.1 matches GatewayAction::SendErrorClose { msg: e } && e@
                == invalid_ticker_text(subscribe_ticker(msg@)))
        })),
        (state matches SessionState::Streaming { ticker } ==> {
            &&& event is Text ==> (r.0 matches SessionState::Streaming { ticker: t2 } && t2@
                == ticker@) && r.1 is DoNothing
            &&& event is Tick && cache@.contains_key(ticker@) ==> (r.0
                matches SessionState::Streaming { ticker: t2 } && t2@ == ticker@) && (r.1
                matches GatewayAction::SendUpdate { frame } && frame@ == update_frame(
                ticker@,
                cache@[ticker@].price as int,
            ))
            &&& event is Tick && !cache@.contains_key(ticker@) ==> r.0 is Closing && (r.1
                matches GatewayAction::SendErrorClose { msg: e } && e@ == invalid_ticker_text(
                ticker@,
            ))
        }),
{
    match state {
        SessionState::Closing => (SessionState::Closing, GatewayAction::DoNothing),
        SessionState::Connected => {
            match event {
                ClientEvent::CloseFrame => (SessionState::Closing, GatewayAction::CloseSilent),
                ClientEvent::SendFailed => (SessionState::Closing, GatewayAction::CloseSilent),
                ClientEvent::Tick => (SessionState::Connected, GatewayAction::DoNothing),
                ClientEvent::Text { msg } => {
                    if has_prefix(msg.as_str(), "subscribe:") {
                        let plen = "subscribe:".unicode_len();
                        let mlen = msg.as_str().unicode_len();
                        let rest = msg.as_str().substring_char(plen, mlen);
                        proof {
                            assert(rest@ =~= msg@.skip("subscribe:"@.len() as int));
                        }
                        let t = to_ascii_upper(trim_spaces(rest));
                        if cache.contains_ticker(t.as_str()) {
                            (SessionState::Streaming { ticker: t }, GatewayAction::DoNothing)
                        } else {
                            let e = format_invalid_ticker(t.as_str());
                            (SessionState::Closing, GatewayAction::SendErrorClose { msg: e })
                        }
                    } else {
                        (
                            SessionState::Connected,
                            GatewayAction::SendHint {
                                msg: String::from_str(
                                    "Send subscribe:<TICKER> to start receiving updates",
                                ),
                            },
                        )
                    }
                },
            }
        },
        SessionState::Streaming { ticker } => {
            match event {
                ClientEvent::CloseFrame => (SessionState::Closing, GatewayAction::CloseSilent),
                ClientEvent::SendFailed => (SessionState::Closing, GatewayAction::CloseSilent),
                ClientEvent::Text { msg: _ } => (
                    SessionState::Streaming { ticker },
                    GatewayAction::DoNothing,
                ),
                ClientEvent::Tick => {
                    match cache.get(ticker.as_str()) {
                        Some(p) => {
                            let frame = format_update_frame(ticker.as_str(), p);
                            (
                                SessionState::Streaming { ticker },
                                GatewayAction::SendUpdate { frame },
                            )
                        },
                        None => {
                            let e = format_invalid_ticker(ticker.as_str());
                            (SessionState::Closing, GatewayAction::SendErrorClose { msg: e })
                        },
                    }
                },
            }
        },
    }
}

} // verus!
