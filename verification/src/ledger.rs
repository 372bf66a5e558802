//! The ledger and order-execution engine: accounts with cash balances and
//! positions, an append-only transaction log, and the buy/sell entry points
//! that commit a balance change, a position change and a transaction record
//! as one step.
//!
//! All money amounts are exact, in cents. Calls for one account are applied
//! one at a time (the ledger is behind one mutable reference), which gives
//! the per-account serialization the engine requires; callers running
//! concurrently must route their orders through that single reference.

use vstd::prelude::*;

use vstd::arithmetic::div_mod::lemma_fundamental_div_mod;

use crate::cache::{PriceCache, PricePoint};
use crate::errors::OrderError;
use crate::position::{
    model_after_buy, model_after_sell, model_buy_fits, Position, PositionModel,
};
use crate::text::str_eq;

verus! {

/// Largest quantity one order may move.
pub const MAX_ORDER_QUANTITY: u64 = 10_000;

/// Largest single deposit or withdrawal, in cents.
pub const MAX_CASH_FLOW_CENTS: u64 = 100_000_000;

/// Smallest single deposit or withdrawal, in cents.
pub const MIN_CASH_FLOW_CENTS: u64 = 1;

/// Cash balance of a freshly opened account, in cents.
pub const INITIAL_BALANCE_CENTS: u64 = 100_000;

/// A deposit or withdrawal amount within the configured bounds.
pub open spec fn cash_flow_in_bounds(amount: int) -> bool {
    MIN_CASH_FLOW_CENTS <= amount <= MAX_CASH_FLOW_CENTS
}

/// Whether a committed transaction bought or sold.
#[derive(Clone, Copy, Debug, PartialEq, Eq, Structural)]
pub enum Side {
    Buy,
    Sell,
}

/// One committed, immutable order record.
pub struct Transaction {
    /// Position in the append-only log.
    pub id: usize,
    pub account_id: i32,
    pub ticker: String,
    pub quantity: u64,
    /// Unit price at execution, in cents.
    pub price: u64,
    pub side: Side,
    pub timestamp: u64,
}

/// Mathematical content of a transaction record.
pub struct TransactionV {
    pub id: int,
    pub account_id: int,
    pub ticker: Seq<char>,
    pub quantity: int,
    pub price: int,
    pub side: Side,
    pub timestamp: int,
}

impl View for Transaction {
    type V = TransactionV;

    open spec fn view(&self) -> TransactionV {
        TransactionV {
            id: self.id as int,
            account_id: self.account_id as int,
            ticker: self.ticker@,
            quantity: self.quantity as int,
            price: self.price as int,
            side: self.side,
            timestamp: self.timestamp as int,
        }
    }
}

/// An account's holding in one ticker.
pub struct PositionEntry {
    pub ticker: String,
    pub position: Position,
}

/// Mathematical content of a holding.
pub struct PositionEntryV {
    pub ticker: Seq<char>,
    pub position: PositionModel,
}

impl View for PositionEntry {
    type V = PositionEntryV;

    open spec fn view(&self) -> PositionEntryV {
        PositionEntryV { ticker: self.ticker@, position: self.position.model() }
    }
}

/// One account: identifier, cash balance in cents, and its positions.
pub struct Account {
    pub id: i32,
    pub balance: u64,
    pub positions: Vec<PositionEntry>,
}

/// Mathematical content of an account.
#[verifier::ext_equal]
pub struct AccountV {
    pub id: int,
    pub balance: int,
    pub positions: Seq<PositionEntryV>,
}

impl View for Account {
    type V = AccountV;

    open spec fn view(&self) -> AccountV {
        AccountV {
            id: self.id as int,
            balance: self.balance as int,
            positions: self.positions@.map_values(|e: PositionEntry| e@),
        }
    }
}

impl AccountV {
    /// The balance never goes negative; position tickers are unique and every
    /// position is well-formed (in particular, never held in a negative
    /// quantity).
    pub open spec fn wf(self) -> bool {
        &&& 0 <= self.balance
        &&& forall|p: int, q: int|
            0 <= p < q < self.positions.len() ==> (#[trigger] self.positions[p]).ticker != (
            #[trigger] self.positions[q]).ticker
        &&& forall|i: int| 0 <= i < self.positions.len() ==> (#[trigger] self.positions[i]).position.wf()
    }

    /// The account holds a position (possibly of quantity zero) in the ticker.
    pub open spec fn has_position(self, t: Seq<char>) -> bool {
        exists|i: int| 0 <= i < self.positions.len() && (#[trigger] self.positions[i]).ticker == t
    }

    /// Index of the account's position in the ticker.
    pub open spec fn position_index(self, t: Seq<char>) -> int {
        choose|i: int| 0 <= i < self.positions.len() && (#[trigger] self.positions[i]).ticker == t
    }

    /// The account's position in the ticker; an empty position when it never
    /// bought the ticker.
    pub open spec fn position_of(self, t: Seq<char>) -> PositionModel {
        if self.has_position(t) {
            self.positions[self.position_index(t)].position
        } else {
            PositionModel::empty()
        }
    }
}

/// With unique tickers, a slot holding the ticker is the position index.
pub proof fn lemma_position_index(a: AccountV, t: Seq<char>, i: int)
    requires
        a.wf(),
        0 <= i < a.positions.len(),
        a.positions[i].ticker == t,
    ensures
        a.has_position(t),
        a.position_index(t) == i,
{
    assert(a.has_position(t));
    let j = a.position_index(t);
    assert(0 <= j < a.positions.len() && a.positions[j].ticker == t);
    if i < j {
        assert(a.positions[i].ticker != a.positions[j].ticker);
    }
    if j < i {
        assert(a.positions[j].ticker != a.positions[i].ticker);
    }
}

impl Account {
    /// The slot index of this account's position in the ticker, if any.
    fn find_position(&self, ticker: &str) -> (r: Option<usize>)
        requires
            self@.wf(),
        ensures
            match r {
                Some(i) => i < self@.positions.len() && self@.positions[i as int].ticker == ticker@
                    && self@.has_position(ticker@) && self@.position_index(ticker@) == i,
                None => !self@.has_position(ticker@),
            },
    {
        let n = self.positions.len();
        let mut i: usize = 0;
        while i < n
            invariant
                0 <= i <= n,
                n == self.positions@.len(),
                self@.wf(),
                self@.positions.len() == n,
                forall|j: int| 0 <= j < i ==> (#[trigger] self@.positions[j]).ticker != ticker@,
            decreases n - i,
        {
            if str_eq(self.positions[i].ticker.as_str(), ticker) {
                proof {
                    lemma_position_index(self@, ticker@, i as int);
                }
                return Some(i);
            }
            i += 1;
        }
        None
    }
}

/// The whole ledger: all accounts and the append-only transaction log.
pub struct Ledger {
    pub accounts: Vec<Account>,
    pub log: Vec<Transaction>,
}

/// Mathematical content of the ledger.
#[verifier::ext_equal]
pub struct LedgerV {
    pub accounts: Seq<AccountV>,
    pub transactions: Seq<TransactionV>,
}

impl View for Ledger {
    type V = LedgerV;

    open spec fn view(&self) -> LedgerV {
        LedgerV {
            accounts: self.accounts@.map_values(|a: Account| a@),
            transactions: self.log@.map_values(|t: Transaction| t@),
        }
    }
}

impl LedgerV {
    /// Account identifiers equal their index; accounts are well-formed; every
    /// committed transaction has a positive quantity and price and its
    /// identifier is its position in the log.
    pub open spec fn wf(self) -> bool {
        &&& self.accounts.len() <= i32::MAX
        &&& forall|i: int| 0 <= i < self.accounts.len() ==> (#[trigger] self.accounts[i]).id == i
        &&& forall|i: int| 0 <= i < self.accounts.len() ==> (#[trigger] self.accounts[i]).wf()
        &&& forall|k: int|
            0 <= k < self.transactions.len() ==> 1 <= (#[trigger] self.transactions[k]).quantity
                && 1 <= self.transactions[k].price && self.transactions[k].id == k
    }

    /// An account with the identifier exists.
    pub open spec fn has_account(self, id: int) -> bool {
        0 <= id < self.accounts.len()
    }

    /// The account with the identifier.
    pub open spec fn account_of(self, id: int) -> AccountV {
        self.accounts[id]
    }
}

/// The transactions of one account, in commit order.
pub open spec fn transactions_for(s: Seq<TransactionV>, id: int) -> Seq<TransactionV>
    decreases s.len(),
{
    if s.len() == 0 {
        Seq::empty()
    } else {
        let rest = transactions_for(s.drop_last(), id);
        if s.last().account_id == id {
            rest.push(s.last())
        } else {
            rest
        }
    }
}

/// An order quantity within the configured bounds.
pub open spec fn quantity_in_bounds(q: int) -> bool {
    1 <= q <= MAX_ORDER_QUANTITY
}

/// The cache holds a usable (positive) price for the ticker.
pub open spec fn price_ok(c: Map<Seq<char>, PricePoint>, t: Seq<char>) -> bool {
    c.contains_key(t) && 1 <= c[t].price
}

/// A buy passes every validation: quantity in bounds, price available,
/// account present, and total cost within the balance.
pub open spec fn buy_accepted(
    m: LedgerV,
    c: Map<Seq<char>, PricePoint>,
    id: int,
    t: Seq<char>,
    q: int,
) -> bool {
    &&& quantity_in_bounds(q)
    &&& price_ok(c, t)
    &&& m.has_account(id)
    &&& c[t].price * q <= m.account_of(id).balance
}

/// A sell passes every validation: quantity in bounds, price available,
/// account present, and enough units held.
pub open spec fn sell_accepted(
    m: LedgerV,
    c: Map<Seq<char>, PricePoint>,
    id: int,
    t: Seq<char>,
    q: int,
) -> bool {
    &&& quantity_in_bounds(q)
    &&& price_ok(c, t)
    &&& m.has_account(id)
    &&& m.account_of(id).has_position(t)
    &&& q <= m.account_of(id).position_of(t).quantity
}

/// The transaction record an accepted order commits.
pub open spec fn order_tx(
    m: LedgerV,
    c: Map<Seq<char>, PricePoint>,
    id: int,
    t: Seq<char>,
    q: int,
    side: Side,
    now: int,
) -> TransactionV {
    TransactionV {
        id: m.transactions.len() as int,
        account_id: id,
        ticker: t,
        quantity: q,
        price: c[t].price as int,
        side,
        timestamp: now,
    }
}

/// The account after an accepted buy: the cost leaves the balance and the
/// position takes up the bought units at the executed price.
pub open spec fn account_after_buy(a: AccountV, t: Seq<char>, price: int, q: int) -> AccountV {
    let bought = PositionEntryV { ticker: t, position: model_after_buy(a.position_of(t), price, q) };
    AccountV {
        balance: a.balance - price * q,
        positions: if a.has_position(t) {
            a.positions.update(a.position_index(t), bought)
        } else {
            a.positions.push(bought)
        },
        ..a
    }
}

/// The account after an accepted sell: the proceeds join the balance and the
/// position gives up the sold units, its cost basis unchanged.
pub open spec fn account_after_sell(a: AccountV, t: Seq<char>, price: int, q: int) -> AccountV {
    let sold = PositionEntryV { ticker: t, position: model_after_sell(a.position_of(t), q) };
    AccountV {
        balance: a.balance + price * q,
        positions: a.positions.update(a.position_index(t), sold),
        ..a
    }
}

/// The ledger after an accepted buy.
pub open spec fn ledger_after_buy(
    m: LedgerV,
    c: Map<Seq<char>, PricePoint>,
    id: int,
    t: Seq<char>,
    q: int,
    now: int,
) -> LedgerV {
    LedgerV {
        accounts: m.accounts.update(id, account_after_buy(m.account_of(id), t, c[t].price as int, q)),
        transactions: m.transactions.push(order_tx(m, c, id, t, q, Side::Buy, now)),
    }
}

/// The ledger after an accepted sell.
pub open spec fn ledger_after_sell(
    m: LedgerV,
    c: Map<Seq<char>, PricePoint>,
    id: int,
    t: Seq<char>,
    q: int,
    now: int,
) -> LedgerV {
    LedgerV {
        accounts: m.accounts.update(
            id,
            account_after_sell(m.account_of(id), t, c[t].price as int, q),
        ),
        transactions: m.transactions.push(order_tx(m, c, id, t, q, Side::Sell, now)),
    }
}

/// An accepted buy keeps the ledger well-formed.
pub proof fn lemma_buy_preserves_wf(
    m: LedgerV,
    c: Map<Seq<char>, PricePoint>,
    id: int,
    t: Seq<char>,
    q: int,
    now: int,
)
    requires
        m.wf(),
        buy_accepted(m, c, id, t, q),
    ensures
        ledger_after_buy(m, c, id, t, q, now).wf(),
{
    let a = m.account_of(id);
    let price = c[t].price as int;
    let after = ledger_after_buy(m, c, id, t, q, now);
    let a2 = account_after_buy(a, t, price, q);
    crate::position::lemma_buy_wf(a.position_of(t), price, q);
    if a.has_position(t) {
        let pi = a.position_index(t);
        assert(0 <= pi < a.positions.len() && a.positions[pi].ticker == t);
        assert forall|p2: int, q2: int|
            0 <= p2 < q2 < a2.positions.len() implies (#[trigger] a2.positions[p2]).ticker != (
        #[trigger] a2.positions[q2]).ticker by {
            assert(a.positions[p2].ticker != a.positions[q2].ticker);
        }
    }
    assert(a2.wf());
    assert forall|i: int| 0 <= i < after.accounts.len() implies (#[trigger] after.accounts[i]).wf()
        && after.accounts[i].id == i by {
        if i != id {
            assert(after.accounts[i] == m.accounts[i]);
        }
    }
    assert forall|k: int| 0 <= k < after.transactions.len() implies 1 <= (
    #[trigger] after.transactions[k]).quantity && 1 <= after.transactions[k].price
        && after.transactions[k].id == k by {
        if k < m.transactions.len() {
            assert(after.transactions[k] == m.transactions[k]);
        }
    }
}

/// An accepted sell keeps the ledger well-formed.
pub proof fn lemma_sell_preserves_wf(
    m: LedgerV,
    c: Map<Seq<char>, PricePoint>,
    id: int,
    t: Seq<char>,
    q: int,
    now: int,
)
    requires
        m.wf(),
        sell_accepted(m, c, id, t, q),
    ensures
        ledger_after_sell(m, c, id, t, q, now).wf(),
{
    let a = m.account_of(id);
    let price = c[t].price as int;
    let after = ledger_after_sell(m, c, id, t, q, now);
    let a2 = account_after_sell(a, t, price, q);
    let pi = a.position_index(t);
    assert(0 <= pi < a.positions.len() && a.positions[pi].ticker == t);
    assert forall|p2: int, q2: int|
        0 <= p2 < q2 < a2.positions.len() implies (#[trigger] a2.positions[p2]).ticker != (
    #[trigger] a2.positions[q2]).ticker by {
        assert(a.positions[p2].ticker != a.positions[q2].ticker);
    }
    assert(a2.wf());
    assert forall|i: int| 0 <= i < after.accounts.len() implies (#[trigger] after.accounts[i]).wf()
        && after.accounts[i].id == i by {
        if i != id {
            assert(after.accounts[i] == m.accounts[i]);
        }
    }
    assert forall|k: int| 0 <= k < after.transactions.len() implies 1 <= (
    #[trigger] after.transactions[k]).quantity && 1 <= after.transactions[k].price
        && after.transactions[k].id == k by {
        if k < m.transactions.len() {
            assert(after.transactions[k] == m.transactions[k]);
        }
    }
}

/// One order intent, as the engine sees it after transport decoding.
pub struct OrderIntent {
    pub side: Side,
    pub account_id: int,
    pub ticker: Seq<char>,
    pub quantity: int,
    pub now: int,
}

/// The ledger after a sequence of order intents, applied in order against a
/// fixed price cache: an accepted order commits, a rejected one leaves the
/// ledger unchanged. This is exactly how serialized calls of `buy` and
/// `sell` move the ledger.
pub open spec fn ledger_after_orders(
    m: LedgerV,
    c: Map<Seq<char>, PricePoint>,
    ops: Seq<OrderIntent>,
) -> LedgerV
    decreases ops.len(),
{
    if ops.len() == 0 {
        m
    } else {
        let prev = ledger_after_orders(m, c, ops.drop_last());
        let op = ops.last();
        match op.side {
            Side::Buy => if buy_accepted(prev, c, op.account_id, op.ticker, op.quantity) {
                ledger_after_buy(prev, c, op.account_id, op.ticker, op.quantity, op.now)
            } else {
                prev
            },
            Side::Sell => if sell_accepted(prev, c, op.account_id, op.ticker, op.quantity) {
                ledger_after_sell(prev, c, op.account_id, op.ticker, op.quantity, op.now)
            } else {
                prev
            },
        }
    }
}

/// After any sequence of buy and sell calls the ledger stays well-formed: in
/// particular, every account balance and every position quantity is
/// non-negative, and the number of accounts does not change.
pub proof fn lemma_invariants_after_orders(
    m: LedgerV,
    c: Map<Seq<char>, PricePoint>,
    ops: Seq<OrderIntent>,
)
    requires
        m.wf(),
    ensures
        ledger_after_orders(m, c, ops).wf(),
        ledger_after_orders(m, c, ops).accounts.len() == m.accounts.len(),
        forall|a: int|
            0 <= a < ledger_after_orders(m, c, ops).accounts.len() ==> 0 <= (
            #[trigger] ledger_after_orders(m, c, ops).accounts[a]).balance,
        forall|a: int, p: int|
            0 <= a < ledger_after_orders(m, c, ops).accounts.len() && 0 <= p < ledger_after_orders(
                m,
                c,
                ops,
            ).accounts[a].positions.len() ==> 0 <= (#[trigger] ledger_after_orders(
                m,
                c,
                ops,
            ).accounts[a].positions[p]).position.quantity,
    decreases ops.len(),
{
    if ops.len() > 0 {
        lemma_invariants_after_orders(m, c, ops.drop_last());
        let prev = ledger_after_orders(m, c, ops.drop_last());
        let op = ops.last();
        match op.side {
            Side::Buy => {
                if buy_accepted(prev, c, op.account_id, op.ticker, op.quantity) {
                    lemma_buy_preserves_wf(prev, c, op.account_id, op.ticker, op.quantity, op.now);
                }
            },
            Side::Sell => {
                if sell_accepted(prev, c, op.account_id, op.ticker, op.quantity) {
                    lemma_sell_preserves_wf(prev, c, op.account_id, op.ticker, op.quantity, op.now);
                }
            },
        }
    }
}

/// Cash left after `n` serialized charges of `cost` against a starting
/// balance `b`, where a charge is applied only when it is affordable. This is
/// how a run of identical buys moves one account's balance.
pub open spec fn balance_after_charges(b: int, cost: int, n: nat) -> int
    decreases n,
{
    if n == 0 {
        b
    } else {
        let prev = balance_after_charges(b, cost, (n - 1) as nat);
        if cost <= prev {
            prev - cost
        } else {
            prev
        }
    }
}

/// The closed form of `balance_after_charges`: the first `b / cost` charges
/// go through, the rest change nothing, and the balance never goes negative.
pub proof fn lemma_charges_formula(b: int, cost: int, n: nat)
    requires
        0 <= b,
        1 <= cost,
    ensures
        0 <= balance_after_charges(b, cost, n),
        n <= b / cost ==> balance_after_charges(b, cost, n) == b - n * cost,
        n > b / cost ==> balance_after_charges(b, cost, n) == b - (b / cost) * cost,
    decreases n,
{
    let d = b / cost;
    let r = b % cost;
    lemma_fundamental_div_mod(b, cost);
    assert(0 <= r < cost);
    assert(b == cost * d + r);
    assert(0 <= d) by (nonlinear_arith)
        requires
            b == cost * d + r,
            0 <= b,
            0 <= r < cost;
    if n == 0 {
        assert(0 * cost == 0) by (nonlinear_arith);
    } else {
        lemma_charges_formula(b, cost, (n - 1) as nat);
        let prev = balance_after_charges(b, cost, (n - 1) as nat);
        if n <= d {
            // The n-th charge is still affordable.
            assert(prev == b - (n - 1) * cost);
            assert(cost <= prev && b - (n - 1) * cost - cost == b - n * cost) by (nonlinear_arith)
                requires
                    prev == b - (n - 1) * cost,
                    b == cost * d + r,
                    0 <= r,
                    n <= d,
                    1 <= cost;
        } else if n - 1 <= d {
            // n == d + 1: the remaining cash is b % cost, below one more charge.
            assert(n - 1 == d);
            assert(prev == b - d * cost);
            assert(prev == r) by (nonlinear_arith)
                requires
                    prev == b - d * cost,
                    b == cost * d + r;
            assert(!(cost <= prev));
        } else {
            assert(prev == b - d * cost);
            assert(prev == r) by (nonlinear_arith)
                requires
                    prev == b - d * cost,
                    b == cost * d + r;
            assert(!(cost <= prev));
        }
    }
}

/// The `i`-th (zero-based) of a run of identical serialized charges goes
/// through exactly when `i + 1` charges fit in the starting balance.
pub proof fn lemma_charge_succeeds_iff(b: int, cost: int, i: nat)
    requires
        0 <= b,
        1 <= cost,
    ensures
        cost <= balance_after_charges(b, cost, i) <==> (i + 1) * cost <= b,
{
    let d = b / cost;
    let r = b % cost;
    lemma_fundamental_div_mod(b, cost);
    lemma_charges_formula(b, cost, i);
    if i <= d {
        assert(balance_after_charges(b, cost, i) == b - i * cost);
        assert((cost <= b - i * cost) <==> ((i + 1) * cost <= b)) by (nonlinear_arith);
    } else {
        assert(balance_after_charges(b, cost, i) == b - d * cost == r) by (nonlinear_arith)
            requires
                balance_after_charges(b, cost, i) == b - d * cost,
                b == cost * d + r;
        assert(!((i + 1) * cost <= b)) by (nonlinear_arith)
            requires
                i > d,
                b == cost * d + r,
                0 <= r < cost,
                0 <= d;
    }
}

/// A feed write for a ticker immediately followed by a buy of that ticker
/// executes at exactly the written price: the committed record carries the
/// freshly written price point and the charged cost is computed from it.
pub proof fn lemma_buy_sees_latest_write(
    m: LedgerV,
    c: Map<Seq<char>, PricePoint>,
    t: Seq<char>,
    point: PricePoint,
    id: int,
    q: int,
    now: int,
)
    ensures
        order_tx(m, c.insert(t, point), id, t, q, Side::Buy, now).price == point.price,
        buy_accepted(m, c.insert(t, point), id, t, q) ==> ledger_after_buy(
            m,
            c.insert(t, point),
            id,
            t,
            q,
            now,
        ).account_of(id).balance == m.account_of(id).balance - point.price * q,
{
}

/// A run of `n` identical buy intents for one account.
pub open spec fn repeated_buys(id: int, t: Seq<char>, q: int, now: int, n: nat) -> Seq<
    OrderIntent,
> {
    Seq::new(n, |i: int| OrderIntent { side: Side::Buy, account_id: id, ticker: t, quantity: q, now })
}

/// Serialized identical buys succeed as exactly the affordable prefix: the
/// `i`-th call is accepted exactly when `i + 1` times its cost fits in the
/// starting balance, every later call fails on funds, and the final balance
/// follows the charge sequence — in particular it never goes negative.
pub proof fn lemma_affordable_prefix(
    m: LedgerV,
    c: Map<Seq<char>, PricePoint>,
    id: int,
    t: Seq<char>,
    q: int,
    now: int,
    n: nat,
)
    requires
        m.wf(),
        quantity_in_bounds(q),
        price_ok(c, t),
        m.has_account(id),
    ensures
        ledger_after_orders(m, c, repeated_buys(id, t, q, now, n)).has_account(id),
        ledger_after_orders(m, c, repeated_buys(id, t, q, now, n)).account_of(id).balance
            == balance_after_charges(m.account_of(id).balance, c[t].price * q, n),
        0 <= ledger_after_orders(m, c, repeated_buys(id, t, q, now, n)).account_of(id).balance,
        forall|i: nat|
            i < n ==> (buy_accepted(
                ledger_after_orders(m, c, repeated_buys(id, t, q, now, i)),
                c,
                id,
                t,
                q,
            ) <==> (i + 1) * (c[t].price * q) <= m.account_of(id).balance),
    decreases n,
{
    let cost = c[t].price * q;
    let b0 = m.account_of(id).balance;
    assert(1 <= cost) by (nonlinear_arith)
        requires
            1 <= c[t].price,
            1 <= q,
            cost == c[t].price * q;
    if n == 0 {
    } else {
        lemma_affordable_prefix(m, c, id, t, q, now, (n - 1) as nat);
        lemma_invariants_after_orders(m, c, repeated_buys(id, t, q, now, (n - 1) as nat));
        let ops = repeated_buys(id, t, q, now, n);
        let prev_ops = repeated_buys(id, t, q, now, (n - 1) as nat);
        assert(ops.drop_last() =~= prev_ops);
        let prev = ledger_after_orders(m, c, prev_ops);
        let bal = prev.account_of(id).balance;
        assert(bal == balance_after_charges(b0, cost, (n - 1) as nat));
        lemma_charges_formula(b0, cost, (n - 1) as nat);
        assert(buy_accepted(prev, c, id, t, q) <==> cost <= bal);
        lemma_charge_succeeds_iff(b0, cost, (n - 1) as nat);
        if buy_accepted(prev, c, id, t, q) {
            lemma_buy_preserves_wf(prev, c, id, t, q, now);
        }
        lemma_charges_formula(b0, cost, n);
        assert forall|i: nat| i < n implies (buy_accepted(
            ledger_after_orders(m, c, repeated_buys(id, t, q, now, i)),
            c,
            id,
            t,
            q,
        ) <==> (i + 1) * cost <= b0) by {
            if i < n - 1 {
            } else {
                assert(i == n - 1);
            }
        }
    }
}

impl Ledger {
    /// A ledger with no accounts and an empty log.
    pub fn new() -> (r: Ledger)
        ensures
            r@.wf(),
            r@.accounts.len() == 0,
            r@.transactions.len() == 0,
    {
        let r = Ledger { accounts: Vec::new(), log: Vec::new() };
        proof {
            assert(r@.accounts =~= Seq::<AccountV>::empty());
            assert(r@.transactions =~= Seq::<TransactionV>::empty());
        }
        r
    }

    /// Opens a new account with the initial cash balance and no positions,
    /// and returns its identifier.
    pub fn open_account(&mut self) -> (r: i32)
        requires
            old(self)@.wf(),
            old(self)@.accounts.len() < i32::MAX,
        ensures
            final(self)@.wf(),
            r as int == old(self)@.accounts.len(),
            final(self)@.transactions == old(self)@.transactions,
            final(self)@.accounts == old(self)@.accounts.push(
                AccountV {
                    id: old(self)@.accounts.len() as int,
                    balance: INITIAL_BALANCE_CENTS as int,
                    positions: Seq::empty(),
                },
            ),
    {
        let id = self.accounts.len() as i32;
        let account = Account { id, balance: INITIAL_BALANCE_CENTS, positions: Vec::new() };
        self.accounts.push(account);
        proof {
            assert(self@.accounts =~~= old(self)@.accounts.push(
                AccountV {
                    id: old(self)@.accounts.len() as int,
                    balance: INITIAL_BALANCE_CENTS as int,
                    positions: Seq::empty(),
                },
            ));
        }
        id
    }

    /// Executes a buy order: validates the quantity, resolves the current
    /// cached price, checks the account's funds, and commits the transaction
    /// record, the balance change and the position change as one step. On any
    /// rejection the ledger is unchanged, and success is owed exactly when
    /// every validation passes.
    pub fn buy(
        &mut self,
        cache: &PriceCache,
        account_id: i32,
        ticker: &str,
        quantity: u64,
        now: u64,
    ) -> (r: Result<Transaction, OrderError>)
        requires
            old(self)@.wf(),
            cache.wf(),
            buy_accepted(old(self)@, cache@, account_id as int, ticker@, quantity as int)
                ==> model_buy_fits(
                old(self)@.account_of(account_id as int).position_of(ticker@),
                cache@[ticker@].price as int,
                quantity as int,
            ),
        ensures
            final(self)@.wf(),
            r matches Err(e) ==> final(self)@ == old(self)@,
            (r matches Ok(tx)) <==> buy_accepted(
                old(self)@,
                cache@,
                account_id as int,
                ticker@,
                quantity as int,
            ),
            r matches Ok(tx) ==> tx@ == order_tx(
                old(self)@,
                cache@,
                account_id as int,
                ticker@,
                quantity as int,
                Side::Buy,
                now as int,
            ) && final(self)@ == ledger_after_buy(
                old(self)@,
                cache@,
                account_id as int,
                ticker@,
                quantity as int,
                now as int,
            ),
            r == Err::<Transaction, OrderError>(OrderError::InvalidQuantity) <==> !quantity_in_bounds(
                quantity as int,
            ),
            r == Err::<Transaction, OrderError>(OrderError::PriceUnavailable) <==> quantity_in_bounds(
                quantity as int,
            ) && !price_ok(cache@, ticker@),
            r == Err::<Transaction, OrderError>(OrderError::AccountNotFound) <==> quantity_in_bounds(
                quantity as int,
            ) && price_ok(cache@, ticker@) && !old(self)@.has_account(account_id as int),
            r == Err::<Transaction, OrderError>(OrderError::InsufficientBalance)
                <==> quantity_in_bounds(quantity as int) && price_ok(cache@, ticker@) && old(
                self,
            )@.has_account(account_id as int) && (cache@[ticker@].price as int) * (quantity as int)
                > old(self)@.account_of(account_id as int).balance,
    {
        if quantity < 1 || quantity > MAX_ORDER_QUANTITY {
            return Err(OrderError::InvalidQuantity);
        }
        let price = match cache.get(ticker) {
            None => {
                return Err(OrderError::PriceUnavailable);
            },
            Some(p) => p,
        };
        if price == 0 {
            return Err(OrderError::PriceUnavailable);
        }
        if account_id < 0 || account_id as usize >= self.accounts.len() {
            return Err(OrderError::AccountNotFound);
        }
        let idx = account_id as usize;
        proof {
            assert((price as int) * (quantity as int) <= u64::MAX * u64::MAX < u128::MAX) by (
            nonlinear_arith)
                requires
                    0 <= price <= u64::MAX,
                    0 <= quantity <= u64::MAX;
        }
        let total: u128 = (price as u128) * (quantity as u128);
        let bal = self.accounts[idx].balance;
        if total > bal as u128 {
            return Err(OrderError::InsufficientBalance);
        }
        let cost = total as u64;
        let ghost m0 = old(self)@;
        let ghost t = ticker@;
        assert(buy_accepted(m0, cache@, account_id as int, t, quantity as int));
        let tx_id = self.log.len();
        let record = Transaction {
            id: tx_id,
            account_id,
            ticker: String::from_str(ticker),
            quantity,
            price,
            side: Side::Buy,
            timestamp: now,
        };
        self.log.push(record);
        self.accounts[idx].balance = bal - cost;
        let found = self.accounts[idx].find_position(ticker);
        match found {
            Some(pi) => {
                let mut pos = self.accounts[idx].positions[pi].position;
                proof {
                    assert(pos.model() == m0.account_of(idx as int).position_of(t));
                }
                pos.apply_buy(price, quantity);
                self.accounts[idx].positions[pi].position = pos;
            },
            None => {
                let mut pos = Position::empty();
                proof {
                    assert(pos.model() == m0.account_of(idx as int).position_of(t));
                }
                pos.apply_buy(price, quantity);
                self.accounts[idx].positions.push(
                    PositionEntry { ticker: String::from_str(ticker), position: pos },
                );
            },
        }
        proof {
            let after = ledger_after_buy(m0, cache@, idx as int, t, quantity as int, now as int);
            assert(self@.transactions =~~= after.transactions);
            assert(self@.accounts =~~= after.accounts);
            assert(self@ =~~= after);
            lemma_buy_preserves_wf(m0, cache@, idx as int, t, quantity as int, now as int);
        }
        Ok(
            Transaction {
                id: tx_id,
                account_id,
                ticker: String::from_str(ticker),
                quantity,
                price,
                side: Side::Buy,
                timestamp: now,
            },
        )
    }

    /// Executes a sell order: validates the quantity, resolves the current
    /// cached price, checks the account's holding, and commits the
    /// transaction record, the balance change and the position change as one
    /// step. The position's average cost basis is unchanged by a sale. On any
    /// rejection the ledger is unchanged, and success is owed exactly when
    /// every validation passes.
    pub fn sell(
        &mut self,
        cache: &PriceCache,
        account_id: i32,
        ticker: &str,
        quantity: u64,
        now: u64,
    ) -> (r: Result<Transaction, OrderError>)
        requires
            old(self)@.wf(),
            cache.wf(),
            sell_accepted(old(self)@, cache@, account_id as int, ticker@, quantity as int)
                ==> old(self)@.account_of(account_id as int).balance + (
            cache@[ticker@].price as int) * (quantity as int) <= u64::MAX,
        ensures
            final(self)@.wf(),
            r matches Err(e) ==> final(self)@ == old(self)@,
            (r matches Ok(tx)) <==> sell_accepted(
                old(self)@,
                cache@,
                account_id as int,
                ticker@,
                quantity as int,
            ),
            r matches Ok(tx) ==> tx@ == order_tx(
                old(self)@,
                cache@,
                account_id as int,
                ticker@,
                quantity as int,
                Side::Sell,
                now as int,
            ) && final(self)@ == ledger_after_sell(
                old(self)@,
                cache@,
                account_id as int,
                ticker@,
                quantity as int,
                now as int,
            ),
            r == Err::<Transaction, OrderError>(OrderError::InvalidQuantity) <==> !quantity_in_bounds(
                quantity as int,
            ),
            r == Err::<Transaction, OrderError>(OrderError::PriceUnavailable) <==> quantity_in_bounds(
                quantity as int,
            ) && !price_ok(cache@, ticker@),
            r == Err::<Transaction, OrderError>(OrderError::AccountNotFound) <==> quantity_in_bounds(
                quantity as int,
            ) && price_ok(cache@, ticker@) && !old(self)@.has_account(account_id as int),
            r == Err::<Transaction, OrderError>(OrderError::InsufficientHoldings)
                <==> quantity_in_bounds(quantity as int) && price_ok(cache@, ticker@) && old(
                self,
            )@.has_account(account_id as int) && (!old(self)@.account_of(
                account_id as int,
            ).has_position(ticker@) || quantity as int > old(self)@.account_of(
                account_id as int,
            ).position_of(ticker@).quantity),
    {
        if quantity < 1 || quantity > MAX_ORDER_QUANTITY {
            return Err(OrderError::InvalidQuantity);
        }
        let price = match cache.get(ticker) {
            None => {
                return Err(OrderError::PriceUnavailable);
            },
            Some(p) => p,
        };
        if price == 0 {
            return Err(OrderError::PriceUnavailable);
        }
        if account_id < 0 || account_id as usize >= self.accounts.len() {
            return Err(OrderError::AccountNotFound);
        }
        let idx = account_id as usize;
        let ghost m0 = old(self)@;
        let ghost t = ticker@;
        let pi = match self.accounts[idx].find_position(ticker) {
            None => {
                return Err(OrderError::InsufficientHoldings);
            },
            Some(pi) => pi,
        };
        let held = self.accounts[idx].positions[pi].position.quantity;
        if held < quantity {
            return Err(OrderError::InsufficientHoldings);
        }
        assert(sell_accepted(m0, cache@, account_id as int, t, quantity as int));
        proof {
            assert((price as int) * (quantity as int) <= u64::MAX * u64::MAX < u128::MAX) by (
            nonlinear_arith)
                requires
                    0 <= price <= u64::MAX,
                    0 <= quantity <= u64::MAX;
        }
        let total: u128 = (price as u128) * (quantity as u128);
        let proceeds = total as u64;
        let bal = self.accounts[idx].balance;
        let tx_id = self.log.len();
        let record = Transaction {
            id: tx_id,
            account_id,
            ticker: String::from_str(ticker),
            quantity,
            price,
            side: Side::Sell,
            timestamp: now,
        };
        self.log.push(record);
        self.accounts[idx].balance = bal + proceeds;
        let mut pos = self.accounts[idx].positions[pi].position;
        pos.apply_sell(quantity);
        self.accounts[idx].positions[pi].position = pos;
        proof {
            let after = ledger_after_sell(m0, cache@, idx as int, t, quantity as int, now as int);
            assert(self@.transactions =~~= after.transactions);
            assert(self@.accounts =~~= after.accounts);
            assert(self@ =~~= after);
            lemma_sell_preserves_wf(m0, cache@, idx as int, t, quantity as int, now as int);
        }
        Ok(
            Transaction {
                id: tx_id,
                account_id,
                ticker: String::from_str(ticker),
                quantity,
                price,
                side: Side::Sell,
                timestamp: now,
            },
        )
    }

    /// Adds cash to an account. The amount must lie within the configured
    /// bounds; the account must exist.
    pub fn deposit(&mut self, account_id: i32, amount: u64) -> (r: Result<(), OrderError>)
        requires
            old(self)@.wf(),
            old(self)@.has_account(account_id as int) ==> old(self)@.account_of(
                account_id as int,
            ).balance + amount <= u64::MAX,
        ensures
            final(self)@.wf(),
            r matches Err(_) ==> final(self)@ == old(self)@,
            r == Err::<(), OrderError>(OrderError::InvalidQuantity) <==> !cash_flow_in_bounds(
                amount as int,
            ),
            r == Err::<(), OrderError>(OrderError::AccountNotFound) <==> cash_flow_in_bounds(
                amount as int,
            ) && !old(self)@.has_account(account_id as int),
            r matches Ok(u) <==> cash_flow_in_bounds(amount as int) && old(self)@.has_account(
                account_id as int,
            ),
            r matches Ok(u) ==> final(self)@ == (LedgerV {
                accounts: old(self)@.accounts.update(
                    account_id as int,
                    AccountV {
                        balance: old(self)@.account_of(account_id as int).balance + amount,
                        ..old(self)@.account_of(account_id as int)
                    },
                ),
                ..old(self)@
            }),
    {
        if amount < MIN_CASH_FLOW_CENTS || amount > MAX_CASH_FLOW_CENTS {
            return Err(OrderError::InvalidQuantity);
        }
        if account_id < 0 || account_id as usize >= self.accounts.len() {
            return Err(OrderError::AccountNotFound);
        }
        let idx = account_id as usize;
        let new_balance = self.accounts[idx].balance + amount;
        self.accounts[idx].balance = new_balance;
        proof {
            assert(self@.accounts =~~= old(self)@.accounts.update(
                idx as int,
                AccountV {
                    balance: new_balance as int,
                    ..old(self)@.account_of(idx as int)
                },
            ));
            assert(self@ =~~= LedgerV {
                accounts: old(self)@.accounts.update(
                    idx as int,
                    AccountV {
                        balance: new_balance as int,
                        ..old(self)@.account_of(idx as int)
                    },
                ),
                ..old(self)@
            });
        }
        Ok(())
    }

    /// Removes cash from an account. Rejected when it would overdraw the
    /// balance, so the balance never goes negative.
    pub fn withdraw(&mut self, account_id: i32, amount: u64) -> (r: Result<(), OrderError>)
        requires
            old(self)@.wf(),
        ensures
            final(self)@.wf(),
            r matches Err(_) ==> final(self)@ == old(self)@,
            r == Err::<(), OrderError>(OrderError::InvalidQuantity) <==> !cash_flow_in_bounds(
                amount as int,
            ),
            r == Err::<(), OrderError>(OrderError::AccountNotFound) <==> cash_flow_in_bounds(
                amount as int,
            ) && !old(self)@.has_account(account_id as int),
            r == Err::<(), OrderError>(OrderError::InsufficientBalance) <==> cash_flow_in_bounds(
                amount as int,
            ) && old(self)@.has_account(account_id as int) && amount > old(self)@.account_of(
                account_id as int,
            ).balance,
            r matches Ok(u) <==> cash_flow_in_bounds(amount as int) && old(self)@.has_account(
                account_id as int,
            ) && amount <= old(self)@.account_of(account_id as int).balance,
            r matches Ok(u) ==> final(self)@ == (LedgerV {
                accounts: old(self)@.accounts.update(
                    account_id as int,
                    AccountV {
                        balance: old(self)@.account_of(account_id as int).balance - amount,
                        ..old(self)@.account_of(account_id as int)
                    },
                ),
                ..old(self)@
            }),
    {
        if amount < MIN_CASH_FLOW_CENTS || amount > MAX_CASH_FLOW_CENTS {
            return Err(OrderError::InvalidQuantity);
        }
        if account_id < 0 || account_id as usize >= self.accounts.len() {
            return Err(OrderError::AccountNotFound);
        }
        let idx = account_id as usize;
        let bal = self.accounts[idx].balance;
        if amount > bal {
            return Err(OrderError::InsufficientBalance);
        }
        let new_balance = bal - amount;
        self.accounts[idx].balance = new_balance;
        proof {
            assert(self@.accounts =~~= old(self)@.accounts.update(
                idx as int,
                AccountV {
                    balance: new_balance as int,
                    ..old(self)@.account_of(idx as int)
                },
            ));
            assert(self@ =~~= LedgerV {
                accounts: old(self)@.accounts.update(
                    idx as int,
                    AccountV {
                        balance: new_balance as int,
                        ..old(self)@.account_of(idx as int)
                    },
                ),
                ..old(self)@
            });
        }
        Ok(())
    }

    /// All committed transactions of one account, in commit order.
    pub fn transactions_of(&self, account_id: i32) -> (r: Vec<Transaction>)
        requires
            self@.wf(),
        ensures
            r@.map_values(|x: Transaction| x@) == transactions_for(
                self@.transactions,
                account_id as int,
            ),
    {
        let n = self.log.len();
        let mut out: Vec<Transaction> = Vec::new();
        let mut i: usize = 0;
        proof {
            assert(self@.transactions.subrange(0, 0) =~= Seq::<TransactionV>::empty());
            assert(out@.map_values(|x: Transaction| x@) =~= Seq::<TransactionV>::empty());
        }
        while i < n
            invariant
                0 <= i <= n,
                n == self.log@.len(),
                self@.wf(),
                self@.transactions.len() == n,
                out@.map_values(|x: Transaction| x@) == transactions_for(
                    self@.transactions.subrange(0, i as int),
                    account_id as int,
                ),
            decreases n - i,
        {
            let ghost prefix = self@.transactions.subrange(0, i as int);
            let ghost extended = self@.transactions.subrange(0, i + 1);
            proof {
                assert(extended.drop_last() =~= prefix);
                assert(extended.last() == self@.transactions[i as int]);
            }
            let tx = &self.log[i];
            if tx.account_id == account_id {
                let copy = Transaction {
                    id: tx.id,
                    account_id: tx.account_id,
                    ticker: String::from_str(tx.ticker.as_str()),
                    quantity: tx.quantity,
                    price: tx.price,
                    side: tx.side,
                    timestamp: tx.timestamp,
                };
                out.push(copy);
                proof {
                    assert(out@.map_values(|x: Transaction| x@) =~= out@.drop_last().map_values(
                        |x: Transaction| x@,
                    ).push(self@.transactions[i as int]));
                }
            }
            i += 1;
        }
        proof {
            assert(self@.transactions.subrange(0, n as int) =~= self@.transactions);
        }
        out
    }

    /// The committed transaction with the given log identifier, if any.
    pub fn transaction_by_id(&self, id: usize) -> (r: Option<Transaction>)
        requires
            self@.wf(),
        ensures
            r matches Some(tx) <==> id < self@.transactions.len(),
            r matches Some(tx) ==> tx@ == self@.transactions[id as int],
    {
        if id < self.log.len() {
            let tx = &self.log[id];
            Some(
                Transaction {
                    id: tx.id,
                    account_id: tx.account_id,
                    ticker: String::from_str(tx.ticker.as_str()),
                    quantity: tx.quantity,
                    price: tx.price,
                    side: tx.side,
                    timestamp: tx.timestamp,
                },
            )
        } else {
            None
        }
    }

    /// All positions of an account, in the order they were first bought, if
    /// the account exists.
    pub fn holdings_of(&self, account_id: i32) -> (r: Option<Vec<PositionEntry>>)
        requires
            self@.wf(),
        ensures
            r matches Some(v) <==> self@.has_account(account_id as int),
            r matches Some(v) ==> v@.map_values(|e: PositionEntry| e@) == self@.account_of(
                account_id as int,
            ).positions,
    {
        if account_id < 0 || account_id as usize >= self.accounts.len() {
            return None;
        }
        let idx = account_id as usize;
        let account = &self.accounts[idx];
        let n = account.positions.len();
        let mut out: Vec<PositionEntry> = Vec::new();
        let mut i: usize = 0;
        proof {
            assert(out@.map_values(|e: PositionEntry| e@) =~= Seq::<PositionEntryV>::empty());
        }
        while i < n
            invariant
                0 <= i <= n,
                n == account.positions@.len(),
                account@.positions.len() == n,
                out@.map_values(|e: PositionEntry| e@) == account@.positions.subrange(0, i as int),
            decreases n - i,
        {
            let entry = &account.positions[i];
            let ghost pre = out@;
            out.push(
                PositionEntry {
                    ticker: String::from_str(entry.ticker.as_str()),
                    position: entry.position,
                },
            );
            proof {
                assert(pre.map_values(|e: PositionEntry| e@).len() == pre.len());
                assert(pre.len() == i);
                assert(out@[i as int]@.ticker == account@.positions[i as int].ticker);
                assert(out@[i as int]@.position == account@.positions[i as int].position);
                assert(out@[i as int]@ == account@.positions[i as int]);
                assert(out@.map_values(|e: PositionEntry| e@) =~= account@.positions.subrange(
                    0,
                    i + 1,
                ));
            }
            i += 1;
        }
        proof {
            assert(account@.positions.subrange(0, n as int) =~= account@.positions);
        }
        Some(out)
    }

    /// The account's position in one ticker, if the account exists and has
    /// ever bought the ticker.
    pub fn holding_of(&self, account_id: i32, ticker: &str) -> (r: Option<Position>)
        requires
            self@.wf(),
        ensures
            r matches Some(p) <==> self@.has_account(account_id as int) && self@.account_of(
                account_id as int,
            ).has_position(ticker@),
            r matches Some(p) ==> p.model() == self@.account_of(account_id as int).position_of(
                ticker@,
            ),
    {
        if account_id < 0 || account_id as usize >= self.accounts.len() {
            return None;
        }
        let idx = account_id as usize;
        proof {
            assert(self.accounts@[idx as int]@ == self@.accounts[idx as int]);
            assert(self@.accounts[idx as int].wf());
        }
        match self.accounts[idx].find_position(ticker) {
            Some(pi) => Some(self.accounts[idx].positions[pi].position),
            None => None,
        }
    }

    /// The cash balance of an account, if the account exists.
    pub fn balance_of(&self, account_id: i32) -> (r: Option<u64>)
        requires
            self@.wf(),
        ensures
            r matches Some(b) <==> self@.has_account(account_id as int),
            r matches Some(b) ==> b as int == self@.account_of(account_id as int).balance,
    {
        if account_id < 0 {
            return None;
        }
        let idx = account_id as usize;
        if idx < self.accounts.len() {
            Some(self.accounts[idx].balance)
        } else {
            None
        }
    }
}

} // verus!
