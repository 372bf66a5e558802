//! The error taxonomy surfaced by the order execution engine, and the rules
//! for turning errors into client-facing responses.

use vstd::prelude::*;

verus! {

/// Why an order, deposit or withdrawal was rejected.
///
/// Domain errors name the exact business rule that failed; `StoreUnavailable`
/// stands for a ledger that could not be reached or written and carries no
/// internal detail.
#[derive(Clone, Copy, Debug, PartialEq, Eq, Structural)]
pub enum OrderError {
    /// No price is cached for the ticker, or the cached price is not positive.
    PriceUnavailable,
    /// The quantity or amount is outside the configured bounds.
    InvalidQuantity,
    /// The order costs more than the account's cash balance.
    InsufficientBalance,
    /// The account holds fewer units of the ticker than the order sells.
    InsufficientHoldings,
    /// No account with the given identifier exists.
    AccountNotFound,
    /// The ledger store could not complete the write.
    StoreUnavailable,
}

impl OrderError {
    /// The HTTP-equivalent status class of the error: validation and domain
    /// errors are client errors; a missing account is an authorization
    /// failure; an unreachable store is a service failure.
    pub fn status_code(&self) -> (r: u16)
        ensures
            r == match *self {
                OrderError::PriceUnavailable => 400u16,
                OrderError::InvalidQuantity => 400u16,
                OrderError::InsufficientBalance => 400u16,
                OrderError::InsufficientHoldings => 400u16,
                OrderError::AccountNotFound => 401u16,
                OrderError::StoreUnavailable => 503u16,
            },
    {
        match *self {
            OrderError::PriceUnavailable => 400,
            OrderError::InvalidQuantity => 400,
            OrderError::InsufficientBalance => 400,
            OrderError::InsufficientHoldings => 400,
            OrderError::AccountNotFound => 401,
            OrderError::StoreUnavailable => 503,
        }
    }

    /// The message shown to the caller. Never leaks internal detail: the
    /// store error maps to a fixed generic text.
    pub fn public_message(&self) -> (r: String)
        ensures
            r@ == self.spec_public_message(),
    {
        match *self {
            OrderError::PriceUnavailable => String::from_str(
                "Invalid ticker or price not available",
            ),
            OrderError::InvalidQuantity => String::from_str("Invalid quantity"),
            OrderError::InsufficientBalance => String::from_str(
                "Insufficient balance for this transaction",
            ),
            OrderError::InsufficientHoldings => String::from_str(
                "Insufficient holdings for this transaction",
            ),
            OrderError::AccountNotFound => String::from_str("Unauthorized"),
            OrderError::StoreUnavailable => String::from_str("Service unavailable"),
        }
    }

    /// The text of `public_message`, as a specification.
    pub open spec fn spec_public_message(&self) -> Seq<char> {
        match *self {
            OrderError::PriceUnavailable => "Invalid ticker or price not available"@,
            OrderError::InvalidQuantity => "Invalid quantity"@,
            OrderError::InsufficientBalance => "Insufficient balance for this transaction"@,
            OrderError::InsufficientHoldings => "Insufficient holdings for this transaction"@,
            OrderError::AccountNotFound => "Unauthorized"@,
            OrderError::StoreUnavailable => "Service unavailable"@,
        }
    }
}

/// Caps a client-facing error text: anything longer than 200 characters is
/// replaced by a fixed generic message, so no internal detail is disclosed.
pub fn sanitize_public_text(msg: &str) -> (r: String)
    ensures
        msg@.len() > 200 ==> r@ == "Invalid request parameters"@,
        msg@.len() <= 200 ==> r@ == msg@,
{
    if msg.unicode_len() > 200 {
        String::from_str("Invalid request parameters")
    } else {
        String::from_str(msg)
    }
}

} // verus!
