//! Laws the book's transitions obey, stated over the abstract model that the
//! engine's contracts speak of.

use vstd::prelude::*;
use crate::level::{Price, Size};
use crate::model::{Book, delta_book, init_book, side_empty, snapshot_book, snapshot_side};

verus! {

/// Gating: a delta applied before any snapshot changes nothing at all.
pub proof fn lemma_delta_before_snapshot(b: Book, side: Seq<char>, price: Price, size: Size)
    requires
        !b.has_snapshot,
    ensures
        delta_book(b, side, price, size) == b,
{
}

/// Gating, from construction: any delta applied to a freshly constructed book
/// leaves it exactly as constructed, with both sides empty and the snapshot
/// flag still unset.
pub proof fn lemma_gating(
    market_id: Seq<char>,
    asset_id: Seq<char>,
    side: Seq<char>,
    price: Price,
    size: Size,
)
    ensures
        delta_book(init_book(market_id, asset_id), side, price, size) == init_book(
            market_id,
            asset_id,
        ),
        side_empty(init_book(market_id, asset_id).bids),
        side_empty(init_book(market_id, asset_id).asks),
        !init_book(market_id, asset_id).has_snapshot,
{
}

/// An empty snapshot sets the snapshot flag and leaves both sides empty: a
/// valid flat book, distinct from a book that has seen no snapshot.
pub proof fn lemma_empty_snapshot(b: Book)
    ensures
        snapshot_book(b, Seq::empty(), Seq::empty()).has_snapshot,
        side_empty(snapshot_book(b, Seq::empty(), Seq::empty()).bids),
        side_empty(snapshot_book(b, Seq::empty(), Seq::empty()).asks),
{
    assert(snapshot_side(Seq::<(Price, Size)>::empty()) == Map::<u64, Size>::empty());
}

/// Applying the same delta twice is the same as applying it once: a removal is
/// idempotent (removing an absent level changes nothing), and a replacement
/// overwrites with the same size again.
pub proof fn lemma_delta_idempotent(b: Book, side: Seq<char>, price: Price, size: Size)
    ensures
        delta_book(delta_book(b, side, price, size), side, price, size) == delta_book(
            b,
            side,
            price,
            size,
        ),
{
    let once = delta_book(b, side, price, size);
    let twice = delta_book(once, side, price, size);
    if b.has_snapshot {
        assert(twice.bids =~= once.bids);
        assert(twice.asks =~= once.asks);
        assert(twice =~= once);
    }
}

/// Last write wins: a snapshot entry that is kept ends up as the level at its
/// key, whatever earlier entries said about that key.
pub proof fn lemma_snapshot_last_write_wins(entries: Seq<(Price, Size)>, e: (Price, Size))
    requires
        e.1.ge_zero,
        e.0.in_range,
    ensures
        snapshot_side(entries.push(e)).dom().contains(e.0.key),
        snapshot_side(entries.push(e))[e.0.key] == e.1,
{
    assert(entries.push(e).drop_last() =~= entries);
    assert(entries.push(e).last() == e);
}

/// Filtering, in full: a key rests in a rebuilt side exactly when some kept
/// entry carries it, that is, one whose size compares greater than or equal
/// to zero and whose price lay in the unit interval.
pub proof fn lemma_snapshot_membership(entries: Seq<(Price, Size)>, k: u64)
    ensures
        snapshot_side(entries).dom().contains(k) <==> exists|i: int|
            0 <= i < entries.len() && entries[i].1.ge_zero && entries[i].0.in_range
                && entries[i].0.key == k,
    decreases entries.len(),
{
    if entries.len() > 0 {
        let s0 = entries.drop_last();
        let e = entries.last();
        lemma_snapshot_membership(s0, k);
        if snapshot_side(entries).dom().contains(k) {
            if e.1.ge_zero && e.0.in_range && e.0.key == k {
                let i = entries.len() - 1;
                assert(0 <= i < entries.len() && entries[i].1.ge_zero && entries[i].0.in_range
                    && entries[i].0.key == k);
            } else {
                let i = choose|i: int|
                    0 <= i < s0.len() && s0[i].1.ge_zero && s0[i].0.in_range && s0[i].0.key == k;
                assert(0 <= i < entries.len() && entries[i].1.ge_zero && entries[i].0.in_range
                    && entries[i].0.key == k);
            }
        }
        if exists|i: int|
            0 <= i < entries.len() && entries[i].1.ge_zero && entries[i].0.in_range
                && entries[i].0.key == k {
            let i = choose|i: int|
                0 <= i < entries.len() && entries[i].1.ge_zero && entries[i].0.in_range
                    && entries[i].0.key == k;
            if i < entries.len() - 1 {
                assert(0 <= i < s0.len() && s0[i].1.ge_zero && s0[i].0.in_range
                    && s0[i].0.key == k);
            }
        }
    }
}

/// Filtering: a snapshot entry whose size compares below zero or whose price
/// lay outside the unit interval leaves no trace in the rebuilt side.
pub proof fn lemma_snapshot_drops_invalid(entries: Seq<(Price, Size)>, e: (Price, Size))
    requires
        !e.1.ge_zero || !e.0.in_range,
    ensures
        snapshot_side(entries.push(e)) == snapshot_side(entries),
{
    assert(entries.push(e).drop_last() =~= entries);
    assert(entries.push(e).last() == e);
}

} // verus!
