use stock_sim::auth::{parse_bearer, Claims, TOKEN_LIFETIME_SECS};

#[test]
fn bearer_header_parsing() {
    assert_eq!(parse_bearer("Bearer abc.def.ghi").unwrap().as_str(), "abc.def.ghi");
    assert_eq!(parse_bearer("Bearer ").unwrap().as_str(), "");
    assert!(parse_bearer("Basic abc").is_none());
    assert!(parse_bearer("bearer abc").is_none());
    assert!(parse_bearer("").is_none());
}

#[test]
fn claims_expire_one_lifetime_after_issue() {
    let c = Claims::issued_at(42, 1_000_000);
    assert_eq!(c.user_id, 42);
    assert_eq!(c.exp, 1_000_000 + TOKEN_LIFETIME_SECS);
    assert!(!c.is_expired(1_000_000));
    assert!(!c.is_expired(c.exp - 1));
    assert!(c.is_expired(c.exp));
    assert!(c.is_expired(c.exp + 1));
}
