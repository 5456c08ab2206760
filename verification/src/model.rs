//! The mathematical model of the order book: its abstract state and the
//! transition its constructor, snapshots and deltas perform on that state.

use vstd::prelude::*;
use crate::level::{Price, Size};

verus! {

/// Abstract state of the order book: each side as a mapping from quantized
/// price key to resting size, the snapshot flag, and the two identifiers.
#[verifier::ext_equal]
pub struct Book {
    pub market_id: Seq<char>,
    pub asset_id: Seq<char>,
    pub bids: Map<u64, Size>,
    pub asks: Map<u64, Size>,
    pub has_snapshot: bool,
}

/// The state of a freshly constructed book: both sides empty, no snapshot
/// seen yet.
pub open spec fn init_book(market_id: Seq<char>, asset_id: Seq<char>) -> Book {
    Book {
        market_id: market_id,
        asset_id: asset_id,
        bids: Map::empty(),
        asks: Map::empty(),
        has_snapshot: false,
    }
}

/// The side a snapshot builds from its entries, in order: an entry is kept
/// only when its size compares greater than or equal to zero and its price lay
/// in the unit interval; of entries sharing a key, the last one wins.
pub open spec fn snapshot_side(entries: Seq<(Price, Size)>) -> Map<u64, Size>
    decreases entries.len(),
{
    if entries.len() == 0 {
        Map::empty()
    } else {
        let rest = snapshot_side(entries.drop_last());
        let e = entries.last();
        if e.1.ge_zero && e.0.in_range {
            rest.insert(e.0.key, e.1)
        } else {
            rest
        }
    }
}

/// The state after a full snapshot: both sides rebuilt from the given entries
/// and the snapshot flag set, whatever it was before; the identifiers are
/// untouched.
/// A snapshot never fails, even when every entry is dropped.
pub open spec fn snapshot_book(b: Book, bids: Seq<(Price, Size)>, asks: Seq<(Price, Size)>) -> Book {
    Book {
        market_id: b.market_id,
        asset_id: b.asset_id,
        bids: snapshot_side(bids),
        asks: snapshot_side(asks),
        has_snapshot: true,
    }
}

/// Whether a side string selects the buy side: exactly the three characters
/// of "BUY", each in either case. Any other string selects the sell side.
pub open spec fn is_buy_side(side: Seq<char>) -> bool {
    &&& side.len() == 3
    &&& (side[0] == 'B' || side[0] == 'b')
    &&& (side[1] == 'U' || side[1] == 'u')
    &&& (side[2] == 'Y' || side[2] == 'y')
}

/// The state after a delta. Before the first snapshot a delta changes
/// nothing. Afterwards it replaces the resting size at the entry's quantized
/// key outright, or removes the key when the size compares less than or equal
/// to zero; removing an absent key changes nothing. The price key is accepted
/// as it comes, clamped rather than range-checked.
pub open spec fn delta_book(b: Book, side: Seq<char>, price: Price, size: Size) -> Book {
    if !b.has_snapshot {
        b
    } else if is_buy_side(side) {
        if size.le_zero {
            Book { bids: b.bids.remove(price.key), ..b }
        } else {
            Book { bids: b.bids.insert(price.key, size), ..b }
        }
    } else {
        if size.le_zero {
            Book { asks: b.asks.remove(price.key), ..b }
        } else {
            Book { asks: b.asks.insert(price.key, size), ..b }
        }
    }
}

/// Whether a side of the book holds no level at all.
pub open spec fn side_empty(m: Map<u64, Size>) -> bool {
    forall|k: u64| !m.dom().contains(k)
}

/// Whether `k` is the best bid: a resting bid level no other bid exceeds.
pub open spec fn is_best_bid(b: Book, k: u64) -> bool {
    &&& b.bids.dom().contains(k)
    &&& forall|j: u64| b.bids.dom().contains(j) ==> j <= k
}

/// Whether `k` is the best ask: a resting ask level no other ask undercuts.
pub open spec fn is_best_ask(b: Book, k: u64) -> bool {
    &&& b.asks.dom().contains(k)
    &&& forall|j: u64| b.asks.dom().contains(j) ==> j >= k
}

/// What the mid-price query must return, in half-key units (so a whole book
/// price of one is two million): the sum of the best bid and best ask keys
/// when both sides rest, twice the one side's best key when only one does,
/// and nothing when the book is flat. The engine accepts crossed books, so
/// nothing here relates the best bid to the best ask.
pub open spec fn mid_ok(b: Book, r: Option<u64>) -> bool {
    match r {
        Option::None => side_empty(b.bids) && side_empty(b.asks),
        Option::Some(v) => if side_empty(b.bids) && side_empty(b.asks) {
            false
        } else if side_empty(b.asks) {
            exists|kb: u64| is_best_bid(b, kb) && v == 2 * kb
        } else if side_empty(b.bids) {
            exists|ka: u64| is_best_ask(b, ka) && v == 2 * ka
        } else {
            exists|kb: u64, ka: u64| is_best_bid(b, kb) && is_best_ask(b, ka) && v == kb + ka
        },
    }
}

} // verus!
