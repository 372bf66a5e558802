use stock_sim::cache::PriceCache;
use stock_sim::errors::OrderError;
use stock_sim::ledger::{Ledger, Side};

#[test]
fn test_request_validation_limits() {
    let mut ledger = Ledger::new();
    let id = ledger.open_account();
    let mut cache = PriceCache::new();
    cache.set("AAPL", 100, 0);

    // Valid request
    assert!(ledger.buy(&cache, id, "AAPL", 10, 0).is_ok());

    // Invalid requests
    assert!(ledger.buy(&cache, id, "", 10, 0).is_err()); // empty ticker
    assert!(ledger.buy(&cache, id, "AAPL", 0, 0).is_err()); // zero quantity
    assert!(ledger.buy(&cache, id, "AAPL", 20000, 0).is_err()); // exceeds limit
}

#[test]
fn end_to_end_buy_then_sell() {
    // Account with balance 1000.00; buy 10 at cached 50.00, sell 4 at 60.00.
    let mut ledger = Ledger::new();
    let id = ledger.open_account();
    assert_eq!(ledger.balance_of(id), Some(100_000));

    let mut cache = PriceCache::new();
    cache.set("TICK", 5_000, 1);

    let tx = ledger.buy(&cache, id, "TICK", 10, 2).unwrap();
    assert_eq!(tx.ticker.as_str(), "TICK");
    assert_eq!(tx.quantity, 10);
    assert_eq!(tx.price, 5_000);
    assert_eq!(tx.side, Side::Buy);
    assert_eq!(ledger.balance_of(id), Some(50_000));
    let pos = ledger.holding_of(id, "TICK").unwrap();
    assert_eq!(pos.quantity, 10);
    // Average cost basis 50.00, as a reduced rational in cents.
    assert_eq!(pos.basis_num, 5_000);
    assert_eq!(pos.basis_den, 1);

    cache.set("TICK", 6_000, 3);
    let tx = ledger.sell(&cache, id, "TICK", 4, 4).unwrap();
    assert_eq!(tx.side, Side::Sell);
    assert_eq!(tx.price, 6_000);
    assert_eq!(ledger.balance_of(id), Some(74_000));
    let pos = ledger.holding_of(id, "TICK").unwrap();
    assert_eq!(pos.quantity, 6);
    // The average cost basis is unchanged by the sale.
    assert_eq!(pos.basis_num, 5_000);
    assert_eq!(pos.basis_den, 1);
}

#[test]
fn average_cost_basis_is_weighted_mean() {
    // Two buys at different prices: 10 at 1.00 and 30 at 2.00 average to
    // (10*100 + 30*200) / 40 = 175 cents.
    let mut ledger = Ledger::new();
    let id = ledger.open_account();
    let mut cache = PriceCache::new();
    cache.set("XYZ", 100, 0);
    ledger.buy(&cache, id, "XYZ", 10, 0).unwrap();
    cache.set("XYZ", 200, 1);
    ledger.buy(&cache, id, "XYZ", 30, 1).unwrap();
    let pos = ledger.holding_of(id, "XYZ").unwrap();
    assert_eq!(pos.quantity, 40);
    assert_eq!(pos.basis_num, 175);
    assert_eq!(pos.basis_den, 1);

    // A third buy keeps the mean exact: 40 at 1.75 plus 1 at 1.00 is
    // 8000/41 cents, which does not reduce.
    cache.set("XYZ", 100, 2);
    ledger.buy(&cache, id, "XYZ", 1, 2).unwrap();
    let pos = ledger.holding_of(id, "XYZ").unwrap();
    assert_eq!(pos.quantity, 41);
    assert_eq!(pos.basis_num, 7100);
    assert_eq!(pos.basis_den, 41);
}

#[test]
fn rejected_buy_leaves_state_unchanged() {
    let mut ledger = Ledger::new();
    let id = ledger.open_account();
    let mut cache = PriceCache::new();
    cache.set("TICK", 60_000, 0);

    // 2 * 600.00 = 1200.00 > 1000.00
    let r = ledger.buy(&cache, id, "TICK", 2, 1);
    assert!(matches!(r, Err(OrderError::InsufficientBalance)));
    assert_eq!(ledger.balance_of(id), Some(100_000));
    assert!(ledger.holding_of(id, "TICK").is_none());
    assert!(ledger.transactions_of(id).is_empty());
}

#[test]
fn rejected_sell_leaves_state_unchanged() {
    let mut ledger = Ledger::new();
    let id = ledger.open_account();
    let mut cache = PriceCache::new();
    cache.set("TICK", 5_000, 0);
    cache.set("OTHER", 1_000, 0);
    ledger.buy(&cache, id, "TICK", 3, 1).unwrap();

    // Selling more than held fails.
    let r = ledger.sell(&cache, id, "TICK", 4, 2);
    assert!(matches!(r, Err(OrderError::InsufficientHoldings)));
    // Selling a ticker never bought fails.
    let r = ledger.sell(&cache, id, "OTHER", 1, 3);
    assert!(matches!(r, Err(OrderError::InsufficientHoldings)));

    assert_eq!(ledger.balance_of(id), Some(85_000));
    let pos = ledger.holding_of(id, "TICK").unwrap();
    assert_eq!(pos.quantity, 3);
    assert_eq!(ledger.transactions_of(id).len(), 1);
}

#[test]
fn identical_buys_succeed_as_the_affordable_prefix() {
    // Five buys of 300.00 against 1000.00: exactly the first three succeed.
    let mut ledger = Ledger::new();
    let id = ledger.open_account();
    let mut cache = PriceCache::new();
    cache.set("TICK", 30_000, 0);

    let mut outcomes = Vec::new();
    for k in 0..5u64 {
        outcomes.push(ledger.buy(&cache, id, "TICK", 1, k).is_ok());
    }
    assert_eq!(outcomes, vec![true, true, true, false, false]);
    for k in 5..8u64 {
        let r = ledger.buy(&cache, id, "TICK", 1, k);
        assert!(matches!(r, Err(OrderError::InsufficientBalance)));
    }
    assert_eq!(ledger.balance_of(id), Some(10_000));
    assert_eq!(ledger.holding_of(id, "TICK").unwrap().quantity, 3);
}

#[test]
fn each_engine_error_has_an_input() {
    let mut ledger = Ledger::new();
    let id = ledger.open_account();
    let mut cache = PriceCache::new();
    cache.set("TICK", 5_000, 0);

    let r = ledger.buy(&cache, id, "TICK", 0, 0);
    assert!(matches!(r, Err(OrderError::InvalidQuantity)));
    let r = ledger.buy(&cache, id, "TICK", 10_001, 0);
    assert!(matches!(r, Err(OrderError::InvalidQuantity)));
    let r = ledger.buy(&cache, id, "NONE", 1, 0);
    assert!(matches!(r, Err(OrderError::PriceUnavailable)));
    let r = ledger.buy(&cache, 7, "TICK", 1, 0);
    assert!(matches!(r, Err(OrderError::AccountNotFound)));
    let r = ledger.buy(&cache, -1, "TICK", 1, 0);
    assert!(matches!(r, Err(OrderError::AccountNotFound)));
    let r = ledger.sell(&cache, id, "NONE", 1, 0);
    assert!(matches!(r, Err(OrderError::PriceUnavailable)));

    // The store error is never produced by the in-memory ledger; it still
    // maps to a service failure for callers.
    assert_eq!(OrderError::StoreUnavailable.status_code(), 503);
    assert_eq!(OrderError::InsufficientBalance.status_code(), 400);
    assert_eq!(OrderError::AccountNotFound.status_code(), 401);
}

#[test]
fn transaction_log_is_append_only_and_filtered_per_account() {
    let mut ledger = Ledger::new();
    let alice = ledger.open_account();
    let bob = ledger.open_account();
    let mut cache = PriceCache::new();
    cache.set("TICK", 1_000, 0);

    ledger.buy(&cache, alice, "TICK", 2, 1).unwrap();
    ledger.buy(&cache, bob, "TICK", 5, 2).unwrap();
    ledger.sell(&cache, alice, "TICK", 1, 3).unwrap();

    let of_alice = ledger.transactions_of(alice);
    assert_eq!(of_alice.len(), 2);
    assert_eq!(of_alice[0].id, 0);
    assert_eq!(of_alice[0].side, Side::Buy);
    assert_eq!(of_alice[0].quantity, 2);
    assert_eq!(of_alice[1].id, 2);
    assert_eq!(of_alice[1].side, Side::Sell);
    assert_eq!(of_alice[1].quantity, 1);
    assert_eq!(of_alice[1].timestamp, 3);

    let of_bob = ledger.transactions_of(bob);
    assert_eq!(of_bob.len(), 1);
    assert_eq!(of_bob[0].id, 1);
    assert_eq!(of_bob[0].quantity, 5);

    let tx = ledger.transaction_by_id(1).unwrap();
    assert_eq!(tx.account_id, bob);
    assert!(ledger.transaction_by_id(3).is_none());
}

#[test]
fn holdings_listing_follows_first_purchase_order() {
    let mut ledger = Ledger::new();
    let id = ledger.open_account();
    let mut cache = PriceCache::new();
    cache.set("AAA", 100, 0);
    cache.set("BBB", 200, 0);
    ledger.buy(&cache, id, "BBB", 1, 0).unwrap();
    ledger.buy(&cache, id, "AAA", 2, 1).unwrap();
    ledger.buy(&cache, id, "BBB", 1, 2).unwrap();

    let holdings = ledger.holdings_of(id).unwrap();
    assert_eq!(holdings.len(), 2);
    assert_eq!(holdings[0].ticker.as_str(), "BBB");
    assert_eq!(holdings[0].position.quantity, 2);
    assert_eq!(holdings[1].ticker.as_str(), "AAA");
    assert_eq!(holdings[1].position.quantity, 2);
    assert!(ledger.holdings_of(9).is_none());
}

#[test]
fn deposit_and_withdraw_move_the_balance() {
    let mut ledger = Ledger::new();
    let id = ledger.open_account();

    assert!(ledger.deposit(id, 25_000).is_ok());
    assert_eq!(ledger.balance_of(id), Some(125_000));

    assert!(ledger.withdraw(id, 100_000).is_ok());
    assert_eq!(ledger.balance_of(id), Some(25_000));

    let r = ledger.withdraw(id, 25_001);
    assert!(matches!(r, Err(OrderError::InsufficientBalance)));
    assert_eq!(ledger.balance_of(id), Some(25_000));

    let r = ledger.deposit(id, 0);
    assert!(matches!(r, Err(OrderError::InvalidQuantity)));
    let r = ledger.deposit(id, 100_000_001);
    assert!(matches!(r, Err(OrderError::InvalidQuantity)));
    let r = ledger.deposit(3, 100);
    assert!(matches!(r, Err(OrderError::AccountNotFound)));
}
