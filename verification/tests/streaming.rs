use stock_sim::cache::PriceCache;
use stock_sim::errors::{sanitize_public_text, OrderError};
use stock_sim::feed::{feed_step, FeedAction, FeedEvent, FeedState};
use stock_sim::gateway::{
    session_start, session_step, ClientEvent, GatewayAction, SessionState,
};
use stock_sim::ledger::Ledger;

#[test]
fn session_greets_then_hints_until_subscribed() {
    let cache = PriceCache::new();
    let (state, action) = session_start();
    assert!(matches!(state, SessionState::Connected));
    match action {
        GatewayAction::SendWelcome { msg } => {
            assert_eq!(msg.as_str(), "Welcome to Stock-Sim WebSocket!")
        },
        _ => panic!("expected the greeting"),
    }

    let (state, action) = session_step(
        state,
        &cache,
        ClientEvent::Text { msg: "hello".to_string() },
    );
    assert!(matches!(state, SessionState::Connected));
    match action {
        GatewayAction::SendHint { msg } => {
            assert_eq!(msg.as_str(), "Send subscribe:<TICKER> to start receiving updates")
        },
        _ => panic!("expected the hint"),
    }
}

#[test]
fn subscribing_to_unknown_ticker_errors_and_closes() {
    // The cache knows nothing, so any subscription draws an error frame and
    // the connection closes - never a silently stuck stream.
    let cache = PriceCache::new();
    let (state, _) = session_start();
    let (state, action) = session_step(
        state,
        &cache,
        ClientEvent::Text { msg: "subscribe:nope".to_string() },
    );
    assert!(matches!(state, SessionState::Closing));
    match action {
        GatewayAction::SendErrorClose { msg } => {
            assert_eq!(msg.as_str(), "Error: Invalid ticker NOPE")
        },
        _ => panic!("expected an error frame"),
    }
    // A closed session stays closed and silent.
    let (state, action) = session_step(state, &cache, ClientEvent::Tick);
    assert!(matches!(state, SessionState::Closing));
    assert!(matches!(action, GatewayAction::DoNothing));
}

#[test]
fn streaming_pushes_the_current_cached_price() {
    let mut cache = PriceCache::new();
    cache.set("AAPL", 5_000, 0);

    let (state, _) = session_start();
    // The subscribe payload is trimmed and upper-cased before the lookup.
    let (state, action) = session_step(
        state,
        &cache,
        ClientEvent::Text { msg: "subscribe: aapl ".to_string() },
    );
    assert!(matches!(action, GatewayAction::DoNothing));
    match &state {
        SessionState::Streaming { ticker } => assert_eq!(ticker.as_str(), "AAPL"),
        _ => panic!("expected a streaming session"),
    }

    let (state, action) = session_step(state, &cache, ClientEvent::Tick);
    match action {
        GatewayAction::SendUpdate { frame } => assert_eq!(frame.as_str(), "update:AAPL:50.00"),
        _ => panic!("expected an update frame"),
    }

    // The price is re-read from the cache on every tick.
    cache.set("AAPL", 5_100, 1);
    let (state, action) = session_step(state, &cache, ClientEvent::Tick);
    match action {
        GatewayAction::SendUpdate { frame } => assert_eq!(frame.as_str(), "update:AAPL:51.00"),
        _ => panic!("expected an update frame"),
    }

    // A failed send ends the session at once.
    let (state, action) = session_step(state, &cache, ClientEvent::SendFailed);
    assert!(matches!(state, SessionState::Closing));
    assert!(matches!(action, GatewayAction::CloseSilent));
}

#[test]
fn feed_updates_reach_the_cache_and_malformed_ones_do_not() {
    let mut cache = PriceCache::new();
    let mut state = FeedState::start();

    let action = feed_step(
        &mut state,
        &mut cache,
        FeedEvent::Update { ticker: "aapl".to_string(), price_text: "50.00".to_string() },
        7,
    );
    match action {
        FeedAction::Publish { ticker, price } => {
            assert_eq!(ticker.as_str(), "AAPL");
            assert_eq!(price, 5_000);
        },
        _ => panic!("expected the update to be published"),
    }
    assert_eq!(cache.get("AAPL"), Some(5_000));
    assert!(cache.contains_ticker("AAPL"));
    assert!(!cache.contains_ticker("MSFT"));

    // A malformed price is skipped and changes nothing.
    let action = feed_step(
        &mut state,
        &mut cache,
        FeedEvent::Update { ticker: "AAPL".to_string(), price_text: "fifty".to_string() },
        8,
    );
    assert!(matches!(action, FeedAction::Skip));
    assert_eq!(cache.get("AAPL"), Some(5_000));

    // So is a zero price and a malformed ticker.
    let action = feed_step(
        &mut state,
        &mut cache,
        FeedEvent::Update { ticker: "AAPL".to_string(), price_text: "0.00".to_string() },
        9,
    );
    assert!(matches!(action, FeedAction::Skip));
    let action = feed_step(
        &mut state,
        &mut cache,
        FeedEvent::Update { ticker: "AA-PL".to_string(), price_text: "1.00".to_string() },
        10,
    );
    assert!(matches!(action, FeedAction::Skip));
    assert_eq!(cache.get("AAPL"), Some(5_000));
}

#[test]
fn feed_reconnects_with_doubling_capped_backoff() {
    let mut cache = PriceCache::new();
    let mut state = FeedState::start();
    let mut delays = Vec::new();
    for _ in 0..8 {
        match feed_step(&mut state, &mut cache, FeedEvent::StreamError, 0) {
            FeedAction::Reconnect { delay_secs } => delays.push(delay_secs),
            _ => panic!("expected a reconnect"),
        }
    }
    assert_eq!(delays, vec![1, 2, 4, 8, 16, 32, 64, 64]);

    // A good update resets the backoff.
    feed_step(
        &mut state,
        &mut cache,
        FeedEvent::Update { ticker: "TICK".to_string(), price_text: "1.00".to_string() },
        0,
    );
    match feed_step(&mut state, &mut cache, FeedEvent::StreamClosed, 0) {
        FeedAction::Reconnect { delay_secs } => assert_eq!(delay_secs, 1),
        _ => panic!("expected a reconnect"),
    }
}

#[test]
fn buy_observes_the_latest_feed_write() {
    // A feed update for a ticker followed immediately by a buy of it executes
    // at the freshly written price.
    let mut cache = PriceCache::new();
    let mut feed = FeedState::start();
    let mut ledger = Ledger::new();
    let id = ledger.open_account();

    feed_step(
        &mut feed,
        &mut cache,
        FeedEvent::Update { ticker: "TICK".to_string(), price_text: "50.00".to_string() },
        1,
    );
    let tx = ledger.buy(&cache, id, "TICK", 1, 2).unwrap();
    assert_eq!(tx.price, 5_000);

    feed_step(
        &mut feed,
        &mut cache,
        FeedEvent::Update { ticker: "TICK".to_string(), price_text: "49.00".to_string() },
        3,
    );
    let tx = ledger.buy(&cache, id, "TICK", 1, 4).unwrap();
    assert_eq!(tx.price, 4_900);
    assert_eq!(ledger.balance_of(id), Some(100_000 - 5_000 - 4_900));
}

#[test]
fn public_error_texts_leak_nothing() {
    assert_eq!(
        OrderError::PriceUnavailable.public_message().as_str(),
        "Invalid ticker or price not available"
    );
    assert_eq!(
        OrderError::InsufficientBalance.public_message().as_str(),
        "Insufficient balance for this transaction"
    );
    assert_eq!(OrderError::StoreUnavailable.public_message().as_str(), "Service unavailable");

    let short = "Insufficient balance";
    assert_eq!(sanitize_public_text(short).as_str(), short);
    let internal = "x".repeat(201);
    assert_eq!(sanitize_public_text(&internal).as_str(), "Invalid request parameters");
}
