//! The order book engine: two sides of price levels kept sorted by quantized
//! key, a snapshot flag that admits deltas, and the best-price queries, each
//! verified against the transitions of the abstract book model.

use vstd::prelude::*;
use vstd::string::StrSliceExecFns;
use crate::level::{Level, Price, Size, MAX_KEY};
use crate::level::{index_of_key, levels_map, side_wf};
use crate::level::{lemma_key_at, lemma_side_len, side_insert, side_lookup, side_remove};
use crate::model::{Book, delta_book, init_book, is_best_ask, is_best_bid, is_buy_side, mid_ok,
    side_empty, snapshot_book, snapshot_side};

verus! {

/// An in-memory level-2 order book for one market and asset: bids and asks as
/// sorted vectors of price levels; deltas are ignored before the first
/// snapshot.
pub struct OrderbookEngine {
    market_id: String,
    asset_id: String,
    bids: Vec<Level>,
    asks: Vec<Level>,
    has_snapshot: bool,
}

impl View for OrderbookEngine {
    type V = Book;

    closed spec fn view(&self) -> Book {
        Book {
            market_id: self.market_id@,
            asset_id: self.asset_id@,
            bids: levels_map(self.bids@),
            asks: levels_map(self.asks@),
            has_snapshot: self.has_snapshot,
        }
    }
}

/// Whether `side` selects the buy side: exactly the word "BUY", each character
/// in either case. Every other string selects the sell side.
pub fn is_buy(side: &str) -> (r: bool)
    ensures
        r == is_buy_side(side@),
{
    if side.unicode_len() != 3 {
        return false;
    }
    let c0 = side.get_char(0);
    let c1 = side.get_char(1);
    let c2 = side.get_char(2);
    (c0 == 'B' || c0 == 'b') && ((c1 == 'U' || c1 == 'u') && (c2 == 'Y' || c2 == 'y'))
}

/// Rebuilds one cleared side from snapshot entries, in order: entries whose
/// size compares below zero or whose price lay outside the unit interval are
/// dropped, and of entries sharing a key the later one wins.
fn fill_side(v: &mut Vec<Level>, entries: &Vec<(Price, Size)>)
    requires
        old(v)@.len() == 0,
        forall|i: int| 0 <= i < entries@.len() ==> (#[trigger] entries@[i]).0.wf(),
    ensures
        side_wf(final(v)@),
        levels_map(final(v)@) == snapshot_side(entries@),
{
    proof {
        assert(levels_map(v@) =~= Map::<u64, Size>::empty());
        assert(entries@.take(0) =~= Seq::<(Price, Size)>::empty());
    }
    let mut i: usize = 0;
    while i < entries.len()
        invariant
            side_wf(v@),
            levels_map(v@) == snapshot_side(entries@.take(i as int)),
            i <= entries.len(),
            forall|j: int| 0 <= j < entries@.len() ==> (#[trigger] entries@[j]).0.wf(),
        decreases entries.len() - i,
    {
        let e = entries[i];
        if e.1.ge_zero && e.0.in_range {
            side_insert(v, e.0.key, e.1);
        }
        proof {
            assert(entries@.take(i as int + 1).drop_last() =~= entries@.take(i as int));
            assert(entries@.take(i as int + 1).last() == entries@[i as int]);
        }
        i += 1;
    }
    proof {
        assert(entries@.take(entries@.len() as int) =~= entries@);
    }
}

impl OrderbookEngine {
    /// Both sides strictly sorted by key, every key a valid quantized price.
    pub closed spec fn wf(&self) -> bool {
        side_wf(self.bids@) && side_wf(self.asks@)
    }

    /// Constructs an empty book that has seen no snapshot. Construction cannot
    /// fail; the two identifiers are opaque and immutable afterwards.
    pub fn new(market_id: String, asset_id: String) -> (r: OrderbookEngine)
        ensures
            r.wf(),
            r@ == init_book(market_id@, asset_id@),
    {
        let r = OrderbookEngine {
            market_id: market_id,
            asset_id: asset_id,
            bids: Vec::new(),
            asks: Vec::new(),
            has_snapshot: false,
        };
        proof {
            assert(levels_map(r.bids@) =~= Map::<u64, Size>::empty());
            assert(levels_map(r.asks@) =~= Map::<u64, Size>::empty());
            assert(r@ =~= init_book(r.market_id@, r.asset_id@));
        }
        r
    }

    /// The market identifier given at construction.
    pub fn market_id(&self) -> (r: &String)
        ensures
            r@ == self@.market_id,
    {
        &self.market_id
    }

    /// The asset identifier given at construction.
    pub fn asset_id(&self) -> (r: &String)
        ensures
            r@ == self@.asset_id,
    {
        &self.asset_id
    }

    /// Whether at least one snapshot has been applied; deltas are ignored
    /// until this holds.
    pub fn has_snapshot(&self) -> (r: bool)
        ensures
            r == self@.has_snapshot,
    {
        self.has_snapshot
    }

    /// Replaces the whole book from the given entries and sets the snapshot
    /// flag, even when both inputs are empty: an empty snapshot is a valid
    /// flat book, distinct from no snapshot at all. Entries whose size
    /// compares below zero or whose price lay outside the unit interval are
    /// silently dropped; of entries quantizing to one key, the later wins.
    /// This operation cannot fail.
    pub fn apply_snapshot(&mut self, bids: Vec<(Price, Size)>, asks: Vec<(Price, Size)>)
        requires
            old(self).wf(),
            forall|i: int| 0 <= i < bids@.len() ==> (#[trigger] bids@[i]).0.wf(),
            forall|i: int| 0 <= i < asks@.len() ==> (#[trigger] asks@[i]).0.wf(),
        ensures
            final(self).wf(),
            final(self)@ == snapshot_book(old(self)@, bids@, asks@),
    {
        self.bids.clear();
        self.asks.clear();
        fill_side(&mut self.bids, &bids);
        fill_side(&mut self.asks, &asks);
        self.has_snapshot = true;
        proof {
            assert(self@ =~= snapshot_book(old(self)@, bids@, asks@));
        }
    }

    /// Applies one delta. Before the first snapshot this is a silent no-op.
    /// Afterwards, a size comparing less than or equal to zero removes the
    /// level at the entry's quantized key (removing an absent level is also a
    /// no-op), and any other size replaces the level's resting size outright.
    /// An unrecognized side string is treated as the sell side, and the price
    /// is accepted as clamped, without the snapshot path's range check: both
    /// are deliberate, feed-resilient policies. This operation cannot fail.
    pub fn apply_delta(&mut self, side: &str, price: Price, size: Size)
        requires
            old(self).wf(),
            price.wf(),
        ensures
            final(self).wf(),
            final(self)@ == delta_book(old(self)@, side@, price, size),
    {
        if !self.has_snapshot {
            return;
        }
        let buy = is_buy(side);
        if buy {
            if size.le_zero {
                side_remove(&mut self.bids, price.key);
            } else {
                side_insert(&mut self.bids, price.key, size);
            }
        } else {
            if size.le_zero {
                side_remove(&mut self.asks, price.key);
            } else {
                side_insert(&mut self.asks, price.key, size);
            }
        }
        proof {
            assert(self@ =~= delta_book(old(self)@, side@, price, size));
        }
    }

    /// The quantized key of the highest resting bid, or nothing when no bid
    /// rests.
    pub fn best_bid(&self) -> (r: Option<u64>)
        requires
            self.wf(),
        ensures
            match r {
                Option::Some(k) => is_best_bid(self@, k),
                Option::None => side_empty(self@.bids),
            },
    {
        let n = self.bids.len();
        if n == 0 {
            None
        } else {
            let k = self.bids[n - 1].key;
            proof {
                lemma_key_at(self.bids@, n - 1 as int);
                assert forall|j: u64| self@.bids.dom().contains(j) implies j <= k by {
                    let idx = index_of_key(self.bids@, j);
                    assert(0 <= idx < self.bids@.len() && self.bids@[idx].key == j);
                    if idx < n - 1 {
                        assert(self.bids@[idx].key < self.bids@[n - 1 as int].key);
                    }
                }
            }
            Some(k)
        }
    }

    /// The quantized key of the lowest resting ask, or nothing when no ask
    /// rests.
    pub fn best_ask(&self) -> (r: Option<u64>)
        requires
            self.wf(),
        ensures
            match r {
                Option::Some(k) => is_best_ask(self@, k),
                Option::None => side_empty(self@.asks),
            },
    {
        let n = self.asks.len();
        if n == 0 {
            None
        } else {
            let k = self.asks[0].key;
            proof {
                lemma_key_at(self.asks@, 0);
                assert forall|j: u64| self@.asks.dom().contains(j) implies j >= k by {
                    let idx = index_of_key(self.asks@, j);
                    assert(0 <= idx < self.asks@.len() && self.asks@[idx].key == j);
                    if idx > 0 {
                        assert(self.asks@[0].key < self.asks@[idx].key);
                    }
                }
            }
            Some(k)
        }
    }

    /// The mid-price in half-key units, so that a whole book price of one is
    /// two million: the sum of the best bid and best ask keys when both sides
    /// rest, twice the single best key when only one side does, and nothing
    /// when the book is flat. The book may be crossed; no ordering between
    /// the two sides is assumed or enforced.
    pub fn mid_price(&self) -> (r: Option<u64>)
        requires
            self.wf(),
        ensures
            mid_ok(self@, r),
    {
        let bb = self.best_bid();
        let ba = self.best_ask();
        match (bb, ba) {
            (Some(b), Some(a)) => {
                proof {
                    let ib = index_of_key(self.bids@, b);
                    assert(self.bids@[ib].key <= MAX_KEY);
                    let ia = index_of_key(self.asks@, a);
                    assert(self.asks@[ia].key <= MAX_KEY);
                }
                Some(b + a)
            },
            (Some(b), None) => {
                proof {
                    let ib = index_of_key(self.bids@, b);
                    assert(self.bids@[ib].key <= MAX_KEY);
                }
                Some(2 * b)
            },
            (None, Some(a)) => {
                proof {
                    let ia = index_of_key(self.asks@, a);
                    assert(self.asks@[ia].key <= MAX_KEY);
                }
                Some(2 * a)
            },
            (None, None) => None,
        }
    }

    /// How many price levels one side holds: the size of its mapping.
    pub fn level_count(&self, buy: bool) -> (n: usize)
        requires
            self.wf(),
        ensures
            (if buy {
                self@.bids
            } else {
                self@.asks
            }).dom().finite(),
            n == (if buy {
                self@.bids
            } else {
                self@.asks
            }).dom().len(),
    {
        proof {
            lemma_side_len(self.bids@);
            lemma_side_len(self.asks@);
        }
        if buy {
            self.bids.len()
        } else {
            self.asks.len()
        }
    }

    /// The resting size at `key` on one side, or nothing when no level rests
    /// there.
    pub fn level_size(&self, buy: bool, key: u64) -> (r: Option<Size>)
        requires
            self.wf(),
        ensures
            (r == if (if buy {
                self@.bids
            } else {
                self@.asks
            }).dom().contains(key) {
                Option::Some((if buy {
                    self@.bids
                } else {
                    self@.asks
                })[key])
            } else {
                Option::<Size>::None
            }),
    {
        if buy {
            side_lookup(&self.bids, key)
        } else {
            side_lookup(&self.asks, key)
        }
    }
}

} // verus!
