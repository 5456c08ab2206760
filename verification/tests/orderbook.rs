use predexchange_core::engine::OrderbookEngine;
use predexchange_core::level::{Price, Size};

fn price_to_key(p: f64) -> u64 {
    (p.clamp(0.0, 1.0) * 1_000_000.0).round() as u64
}

fn key_to_price(k: u64) -> f64 {
    k as f64 / 1_000_000.0
}

fn price_of(p: f64) -> Price {
    Price { key: price_to_key(p), in_range: 0.0 <= p && p <= 1.0 }
}

fn size_of(s: f64) -> Size {
    Size { bits: s.to_bits(), le_zero: s <= 0.0, ge_zero: s >= 0.0 }
}

fn entry(p: f64, s: f64) -> (Price, Size) {
    (price_of(p), size_of(s))
}

fn mid_to_price(v: u64) -> f64 {
    v as f64 / 2_000_000.0
}

#[test]
fn quantization_round_trip_bound() {
    let prices = [0.0, 0.0000004, 0.1234567, 0.25, 0.3, 0.5, 0.6, 0.7654321, 0.9999994, 1.0];
    for &p in prices.iter() {
        let back = key_to_price(price_to_key(p));
        assert!((back - p).abs() <= 0.0000005);
    }
}

#[test]
fn gating_delta_ignored_before_snapshot() {
    let mut e = OrderbookEngine::new("m".to_string(), "a".to_string());
    e.apply_delta("BUY", price_of(0.5), size_of(1.0));
    e.apply_delta("SELL", price_of(0.5), size_of(1.0));
    assert!(!e.has_snapshot());
    assert_eq!(e.level_count(true), 0);
    assert_eq!(e.level_count(false), 0);
    assert_eq!(e.best_bid(), None);
    assert_eq!(e.best_ask(), None);
}

#[test]
fn empty_snapshot_opens_gate() {
    let mut e = OrderbookEngine::new("m".to_string(), "a".to_string());
    e.apply_snapshot(vec![], vec![]);
    assert!(e.has_snapshot());
    assert_eq!(e.level_count(true), 0);
    assert_eq!(e.level_count(false), 0);
    assert_eq!(e.mid_price(), None);
}

#[test]
fn snapshot_filters_invalid_entries() {
    let mut e = OrderbookEngine::new("m".to_string(), "a".to_string());
    e.apply_snapshot(vec![entry(-0.1, 1.0), entry(0.5, -1.0), entry(0.5, 2.0)], vec![]);
    assert_eq!(e.level_count(true), 1);
    assert_eq!(e.level_size(true, price_to_key(0.5)), Some(size_of(2.0)));
    assert_eq!(e.best_bid(), Some(price_to_key(0.5)));
    assert_eq!(e.level_count(false), 0);
}

#[test]
fn snapshot_drops_nan_size() {
    let mut e = OrderbookEngine::new("m".to_string(), "a".to_string());
    e.apply_snapshot(vec![entry(0.5, f64::NAN)], vec![]);
    assert_eq!(e.level_count(true), 0);
}

#[test]
fn snapshot_keeps_zero_size_entry() {
    let mut e = OrderbookEngine::new("m".to_string(), "a".to_string());
    e.apply_snapshot(vec![entry(0.5, 0.0)], vec![]);
    assert_eq!(e.level_size(true, price_to_key(0.5)), Some(size_of(0.0)));
}

#[test]
fn delta_removal_is_idempotent() {
    let mut e = OrderbookEngine::new("m".to_string(), "a".to_string());
    e.apply_snapshot(vec![entry(0.4, 1.0)], vec![]);
    e.apply_delta("BUY", price_of(0.4), size_of(0.0));
    assert_eq!(e.level_size(true, price_to_key(0.4)), None);
    assert_eq!(e.best_bid(), None);
    e.apply_delta("BUY", price_of(0.4), size_of(0.0));
    assert_eq!(e.level_size(true, price_to_key(0.4)), None);
    assert_eq!(e.best_bid(), None);
}

#[test]
fn mid_price_falls_back_to_one_side() {
    let mut e = OrderbookEngine::new("m".to_string(), "a".to_string());
    e.apply_snapshot(vec![], vec![entry(0.6, 1.0)]);
    assert_eq!(e.best_bid(), None);
    assert_eq!(mid_to_price(e.mid_price().unwrap()), 0.6);
    e.apply_snapshot(vec![entry(0.4, 1.0)], vec![]);
    assert_eq!(e.best_ask(), None);
    assert_eq!(mid_to_price(e.mid_price().unwrap()), 0.4);
}

#[test]
fn mid_price_is_the_mean_of_both_sides() {
    let mut e = OrderbookEngine::new("m".to_string(), "a".to_string());
    e.apply_snapshot(vec![entry(0.4, 1.0)], vec![entry(0.6, 1.0)]);
    assert_eq!(mid_to_price(e.mid_price().unwrap()), 0.5);
}

#[test]
fn crossed_books_are_reported_as_they_come() {
    let mut e = OrderbookEngine::new("m".to_string(), "a".to_string());
    e.apply_snapshot(vec![entry(0.7, 1.0)], vec![entry(0.3, 1.0)]);
    let bb = e.best_bid().unwrap();
    let ba = e.best_ask().unwrap();
    assert_eq!(bb, price_to_key(0.7));
    assert_eq!(ba, price_to_key(0.3));
    assert!(bb > ba);
}

#[test]
fn snapshot_collision_last_write_wins() {
    let mut e = OrderbookEngine::new("m".to_string(), "a".to_string());
    e.apply_snapshot(vec![entry(0.3, 1.0), entry(0.3, 5.0)], vec![]);
    assert_eq!(e.level_count(true), 1);
    assert_eq!(e.level_size(true, price_to_key(0.3)), Some(size_of(5.0)));
}

#[test]
fn unrecognized_side_is_treated_as_sell() {
    let mut e = OrderbookEngine::new("m".to_string(), "a".to_string());
    e.apply_snapshot(vec![], vec![]);
    e.apply_delta("HOLD", price_of(0.5), size_of(1.0));
    assert_eq!(e.level_count(true), 0);
    assert_eq!(e.level_size(false, price_to_key(0.5)), Some(size_of(1.0)));
}

#[test]
fn side_matching_ignores_ascii_case() {
    let mut e = OrderbookEngine::new("m".to_string(), "a".to_string());
    e.apply_snapshot(vec![], vec![]);
    e.apply_delta("buy", price_of(0.2), size_of(1.0));
    e.apply_delta("Buy", price_of(0.3), size_of(1.0));
    e.apply_delta("sell", price_of(0.8), size_of(1.0));
    assert_eq!(e.level_count(true), 2);
    assert_eq!(e.level_count(false), 1);
    assert_eq!(e.best_bid(), Some(price_to_key(0.3)));
    assert_eq!(e.best_ask(), Some(price_to_key(0.8)));
}

#[test]
fn delta_clamps_out_of_range_prices() {
    let mut e = OrderbookEngine::new("m".to_string(), "a".to_string());
    e.apply_snapshot(vec![], vec![]);
    e.apply_delta("BUY", price_of(-0.2), size_of(1.0));
    e.apply_delta("BUY", price_of(1.7), size_of(2.0));
    assert_eq!(e.level_size(true, 0), Some(size_of(1.0)));
    assert_eq!(e.level_size(true, 1_000_000), Some(size_of(2.0)));
}

#[test]
fn delta_replaces_size_outright() {
    let mut e = OrderbookEngine::new("m".to_string(), "a".to_string());
    e.apply_snapshot(vec![entry(0.4, 1.0)], vec![]);
    e.apply_delta("BUY", price_of(0.4), size_of(3.0));
    assert_eq!(e.level_count(true), 1);
    assert_eq!(e.level_size(true, price_to_key(0.4)), Some(size_of(3.0)));
}

#[test]
fn delta_removing_absent_level_is_a_noop() {
    let mut e = OrderbookEngine::new("m".to_string(), "a".to_string());
    e.apply_snapshot(vec![entry(0.4, 1.0)], vec![]);
    e.apply_delta("SELL", price_of(0.9), size_of(-2.0));
    assert_eq!(e.level_count(true), 1);
    assert_eq!(e.level_count(false), 0);
}

#[test]
fn snapshot_replaces_the_whole_book() {
    let mut e = OrderbookEngine::new("m".to_string(), "a".to_string());
    e.apply_snapshot(vec![entry(0.1, 1.0), entry(0.2, 1.0)], vec![entry(0.9, 1.0)]);
    e.apply_snapshot(vec![entry(0.5, 4.0)], vec![]);
    assert_eq!(e.level_count(true), 1);
    assert_eq!(e.level_count(false), 0);
    assert_eq!(e.level_size(true, price_to_key(0.5)), Some(size_of(4.0)));
    assert_eq!(e.level_size(true, price_to_key(0.1)), None);
}

#[test]
fn best_prices_pick_the_extremes() {
    let mut e = OrderbookEngine::new("m".to_string(), "a".to_string());
    e.apply_snapshot(
        vec![entry(0.2, 1.0), entry(0.45, 2.0), entry(0.31, 3.0)],
        vec![entry(0.8, 1.0), entry(0.55, 2.0), entry(0.61, 3.0)],
    );
    assert_eq!(e.best_bid(), Some(price_to_key(0.45)));
    assert_eq!(e.best_ask(), Some(price_to_key(0.55)));
}

#[test]
fn identifiers_are_kept() {
    let e = OrderbookEngine::new("market-7".to_string(), "asset-9".to_string());
    assert_eq!(e.market_id(), "market-7");
    assert_eq!(e.asset_id(), "asset-9");
}
