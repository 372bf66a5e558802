//! The last-price cache: one current price point per ticker, overwritten in
//! place on every feed tick. Viewed as a map from ticker symbols to price
//! points; writes are last-write-wins and nothing is ever deleted, so a key,
//! once present, stays present.

use vstd::prelude::*;

use crate::text::str_eq;
use crate::validate::valid_ticker;

verus! {

/// The latest known price of one ticker, in cents, and when it was written.
#[derive(Clone, Copy, Debug, PartialEq, Eq, Structural)]
pub struct PricePoint {
    pub price: u64,
    pub updated: u64,
}

/// One cache slot: a ticker and its current price point.
pub struct CacheEntry {
    pub ticker: String,
    pub point: PricePoint,
}

/// The cache contents as a map from ticker symbols to price points.
pub open spec fn entries_map(s: Seq<CacheEntry>) -> Map<Seq<char>, PricePoint>
    decreases s.len(),
{
    if s.len() == 0 {
        Map::empty()
    } else {
        entries_map(s.drop_last()).insert(s.last().ticker@, s.last().point)
    }
}

/// The key of every slot is in the map.
proof fn lemma_entries_map_index(s: Seq<CacheEntry>, i: int)
    requires
        0 <= i < s.len(),
        forall|p: int, q: int|
            0 <= p < q < s.len() ==> (#[trigger] s[p]).ticker@ != (#[trigger] s[q]).ticker@,
    ensures
        entries_map(s).contains_key(s[i].ticker@),
        entries_map(s)[s[i].ticker@] == s[i].point,
    decreases s.len(),
{
    if i == s.len() - 1 {
    } else {
        assert(s.drop_last()[i] == s[i]);
        lemma_entries_map_index(s.drop_last(), i);
        assert(s[i].ticker@ != s[s.len() - 1].ticker@);
    }
}

/// Every key of the map is the key of some slot.
proof fn lemma_entries_map_domain(s: Seq<CacheEntry>, k: Seq<char>)
    requires
        entries_map(s).contains_key(k),
    ensures
        exists|i: int| 0 <= i < s.len() && (#[trigger] s[i]).ticker@ == k,
    decreases s.len(),
{
    if s.len() > 0 {
        if s.last().ticker@ == k {
            assert(s[s.len() - 1].ticker@ == k);
        } else {
            lemma_entries_map_domain(s.drop_last(), k);
            let i = choose|i: int|
                0 <= i < s.drop_last().len() && (#[trigger] s.drop_last()[i]).ticker@ == k;
            assert(s[i].ticker@ == k);
        }
    }
}

/// The shared last-price store. Tickers are unique, well-formed symbols and
/// every cached price is positive.
pub struct PriceCache {
    pub entries: Vec<CacheEntry>,
}

impl PriceCache {
    /// The cache contents as a map.
    pub open spec fn view(self) -> Map<Seq<char>, PricePoint> {
        entries_map(self.entries@)
    }

    /// Tickers are unique and well-formed; prices are positive.
    pub open spec fn wf(self) -> bool {
        &&& forall|p: int, q: int|
            0 <= p < q < self.entries@.len() ==> (#[trigger] self.entries@[p]).ticker@ != (
            #[trigger] self.entries@[q]).ticker@
        &&& forall|i: int|
            0 <= i < self.entries@.len() ==> valid_ticker((#[trigger] self.entries@[i]).ticker@)
        &&& forall|i: int| 0 <= i < self.entries@.len() ==> 1 <= (#[trigger] self.entries@[i]).point.price
    }

    /// An empty cache.
    pub fn new() -> (r: PriceCache)
        ensures
            r.wf(),
            r.view() == Map::<Seq<char>, PricePoint>::empty(),
    {
        PriceCache { entries: Vec::new() }
    }

    /// The slot index of a ticker, if it is cached.
    fn find(&self, ticker: &str) -> (r: Option<usize>)
        requires
            self.wf(),
        ensures
            match r {
                Some(i) => i < self.entries@.len() && self.entries@[i as int].ticker@ == ticker@,
                None => !self.view().contains_key(ticker@),
            },
    {
        let n = self.entries.len();
        let mut i: usize = 0;
        while i < n
            invariant
                0 <= i <= n,
                n == self.entries@.len(),
                self.wf(),
                forall|j: int| 0 <= j < i ==> (#[trigger] self.entries@[j]).ticker@ != ticker@,
            decreases n - i,
        {
            if str_eq(self.entries[i].ticker.as_str(), ticker) {
                return Some(i);
            }
            i += 1;
        }
        proof {
            if self.view().contains_key(ticker@) {
                lemma_entries_map_domain(self.entries@, ticker@);
            }
        }
        None
    }

    /// Writes the latest price of a ticker, replacing any earlier point for
    /// it and leaving every other ticker untouched (last-write-wins, never a
    /// deletion, all-or-nothing per ticker).
    pub fn set(&mut self, ticker: &str, price: u64, now: u64)
        requires
            old(self).wf(),
            valid_ticker(ticker@),
            1 <= price,
        ensures
            final(self).wf(),
            final(self).view() == old(self).view().insert(
                ticker@,
                PricePoint { price, updated: now },
            ),
    {
        let point = PricePoint { price, updated: now };
        match self.find(ticker) {
            Some(i) => {
                self.entries[i].point = point;
                proof {
                    lemma_set_at(old(self).entries@, self.entries@, i as int, ticker@, point);
                }
            },
            None => {
                let mut owned = String::new();
                owned.append(ticker);
                proof {
                    assert(owned@ =~= ticker@);
                }
                self.entries.push(CacheEntry { ticker: owned, point });
                proof {
                    assert(self.entries@.drop_last() =~= old(self).entries@);
                    assert forall|p: int, q: int|
                        0 <= p < q < self.entries@.len() implies (#[trigger] self.entries@[p]).ticker@
                        != (#[trigger] self.entries@[q]).ticker@ by {
                        if q == self.entries@.len() - 1 {
                            if self.entries@[p].ticker@ == ticker@ {
                                lemma_entries_map_index(old(self).entries@, p);
                            }
                        }
                    }
                }
            },
        }
    }

    /// The current price of a ticker in cents, if one is cached.
    pub fn get(&self, ticker: &str) -> (r: Option<u64>)
        requires
            self.wf(),
        ensures
            r == if self.view().contains_key(ticker@) {
                Some(self.view()[ticker@].price)
            } else {
                None::<u64>
            },
    {
        match self.find(ticker) {
            Some(i) => {
                proof {
                    lemma_entries_map_index(self.entries@, i as int);
                }
                Some(self.entries[i].point.price)
            },
            None => None,
        }
    }

    /// Whether a ticker has ever been fed a price.
    pub fn contains_ticker(&self, ticker: &str) -> (r: bool)
        requires
            self.wf(),
        ensures
            r == self.view().contains_key(ticker@),
    {
        match self.find(ticker) {
            Some(i) => {
                proof {
                    lemma_entries_map_index(self.entries@, i as int);
                }
                true
            },
            None => false,
        }
    }
}

/// Updating the slot that holds a key changes the map at that key alone.
proof fn lemma_set_at(
    before: Seq<CacheEntry>,
    after: Seq<CacheEntry>,
    i: int,
    k: Seq<char>,
    point: PricePoint,
)
    requires
        0 <= i < before.len(),
        before[i].ticker@ == k,
        forall|p: int, q: int|
            0 <= p < q < before.len() ==> (#[trigger] before[p]).ticker@ != (
            #[trigger] before[q]).ticker@,
        after.len() == before.len(),
        after[i].ticker@ == k,
        after[i].point == point,
        forall|j: int| 0 <= j < before.len() && j != i ==> after[j] == before[j],
    ensures
        entries_map(after) == entries_map(before).insert(k, point),
    decreases before.len(),
{
    if i == before.len() - 1 {
        assert(after.drop_last() =~= before.drop_last());
        assert(entries_map(after) =~= entries_map(before).insert(k, point));
    } else {
        lemma_set_at(before.drop_last(), after.drop_last(), i, k, point);
        assert(after.last() == before.last());
        assert(before.last().ticker@ != k);
        assert(entries_map(after) =~= entries_map(before).insert(k, point));
    }
}

/// Read-after-write: immediately after a feed write for a ticker, any reader
/// of the cache observes exactly the written price, and every other ticker's
/// point is unchanged.
pub proof fn lemma_read_after_write(
    m: Map<Seq<char>, PricePoint>,
    ticker: Seq<char>,
    point: PricePoint,
    other: Seq<char>,
)
    ensures
        m.insert(ticker, point).contains_key(ticker),
        m.insert(ticker, point)[ticker] == point,
        other != ticker ==> (m.insert(ticker, point).contains_key(other) == m.contains_key(other)),
        other != ticker && m.contains_key(other) ==> m.insert(ticker, point)[other] == m[other],
{
}

} // verus!
