//! Price levels: quantized price keys, level sizes as the engine reads them,
//! and the sorted vector of levels that backs one side of the book.

use vstd::prelude::*;

verus! {

/// Largest quantized price key: a full price of one unit, in millionths.
pub const MAX_KEY: u64 = 1_000_000;

/// A price as the engine reads it: the key produced by clamping the caller's
/// numeric price into the unit interval and rounding to the nearest millionth,
/// together with whether the caller's value lay inside the unit interval at
/// all. Snapshots drop entries whose price did not; deltas accept the clamped
/// key regardless.
#[derive(Clone, Copy, PartialEq, Eq, Structural, Debug)]
pub struct Price {
    /// Quantized price key, at most `MAX_KEY`.
    pub key: u64,
    /// Whether the caller's price lay inside the unit interval.
    pub in_range: bool,
}

impl Price {
    /// A well-formed price key never exceeds one full unit.
    pub open spec fn wf(self) -> bool {
        self.key <= MAX_KEY
    }
}

/// A resting size as the engine reads it. The engine never computes with
/// sizes: it stores them and tests them against zero, so a size carries an
/// opaque encoding of the caller's numeric value plus those two comparisons.
/// Both comparisons are true exactly of zero; both may be false at once, for
/// a caller's value that does not compare with zero at all.
#[derive(Clone, Copy, PartialEq, Eq, Structural, Debug)]
pub struct Size {
    /// Opaque encoding of the caller's numeric value; the engine never reads it.
    pub bits: u64,
    /// Whether the caller's value compares less than or equal to zero.
    pub le_zero: bool,
    /// Whether the caller's value compares greater than or equal to zero.
    pub ge_zero: bool,
}

/// One price level: a quantized price key and the resting size at it.
#[derive(Clone, Copy, PartialEq, Eq, Structural, Debug)]
pub struct Level {
    pub key: u64,
    pub size: Size,
}

/// One side of the book is well formed when its levels are strictly sorted by
/// key (so keys are unique) and every key is a valid quantized price.
pub open spec fn side_wf(s: Seq<Level>) -> bool {
    &&& forall|i: int, j: int| 0 <= i < j < s.len() ==> s[i].key < s[j].key
    &&& forall|i: int| 0 <= i < s.len() ==> s[i].key <= MAX_KEY
}

/// Whether some level of `s` carries the key `k`.
pub open spec fn has_key(s: Seq<Level>, k: u64) -> bool {
    exists|i: int| 0 <= i < s.len() && s[i].key == k
}

/// The index of the level carrying key `k`; meaningful when keys are unique.
pub open spec fn index_of_key(s: Seq<Level>, k: u64) -> int {
    choose|i: int| 0 <= i < s.len() && s[i].key == k
}

/// The mapping from price key to resting size that one side represents.
pub open spec fn levels_map(s: Seq<Level>) -> Map<u64, Size> {
    Map::new(|k: u64| has_key(s, k), |k: u64| s[index_of_key(s, k)].size)
}

/// In a strictly sorted side, the index of a key is the position it occurs at.
pub proof fn lemma_key_at(s: Seq<Level>, i: int)
    requires
        side_wf(s),
        0 <= i < s.len(),
    ensures
        has_key(s, s[i].key),
        index_of_key(s, s[i].key) == i,
{
    assert(has_key(s, s[i].key)) by {
        assert(0 <= i < s.len() && s[i].key == s[i].key);
    }
    let j = index_of_key(s, s[i].key);
    assert(0 <= j < s.len() && s[j].key == s[i].key);
    if j < i {
        assert(s[j].key < s[i].key);
        assert(false);
    } else if j > i {
        assert(s[i].key < s[j].key);
        assert(false);
    }
}

/// Overwriting the size at an existing key updates the side's mapping at that
/// key alone.
pub proof fn lemma_map_update(s: Seq<Level>, i: int, size: Size)
    requires
        side_wf(s),
        0 <= i < s.len(),
    ensures
        side_wf(s.update(i, Level { key: s[i].key, size: size })),
        levels_map(s.update(i, Level { key: s[i].key, size: size }))
            == levels_map(s).insert(s[i].key, size),
{
    let k0 = s[i].key;
    let t = s.update(i, Level { key: k0, size: size });
    assert(forall|j: int| 0 <= j < s.len() ==> t[j].key == s[j].key);
    assert(side_wf(t));
    assert forall|k: u64| has_key(t, k) <==> (has_key(s, k) || k == k0) by {
        if has_key(t, k) {
            let j = choose|j: int| 0 <= j < t.len() && t[j].key == k;
            assert(0 <= j < s.len() && s[j].key == k);
        }
        if has_key(s, k) {
            let j = choose|j: int| 0 <= j < s.len() && s[j].key == k;
            assert(0 <= j < t.len() && t[j].key == k);
        }
        if k == k0 {
            assert(0 <= i < t.len() && t[i].key == k);
        }
    }
    assert forall|k: u64| has_key(t, k) implies levels_map(t)[k] == levels_map(s).insert(
        k0,
        size,
    )[k] by {
        let j = index_of_key(t, k);
        assert(0 <= j < t.len() && t[j].key == k);
        lemma_key_at(t, j);
        if k == k0 {
            lemma_key_at(t, i);
            assert(levels_map(t)[k] == t[i].size);
        } else {
            assert(j != i);
            assert(s[j] == t[j]);
            lemma_key_at(s, j);
            assert(levels_map(t)[k] == t[j].size);
            assert(levels_map(s)[k] == s[j].size);
        }
    }
    assert(levels_map(t) =~= levels_map(s).insert(k0, size));
}

/// Inserting a level at its sorted position adds exactly its key to the
/// side's mapping.
pub proof fn lemma_map_insert(s: Seq<Level>, i: int, lv: Level)
    requires
        side_wf(s),
        0 <= i <= s.len(),
        forall|j: int| 0 <= j < i ==> s[j].key < lv.key,
        forall|j: int| i <= j < s.len() ==> lv.key < s[j].key,
        lv.key <= MAX_KEY,
    ensures
        side_wf(s.insert(i, lv)),
        levels_map(s.insert(i, lv)) == levels_map(s).insert(lv.key, lv.size),
{
    let t = s.insert(i, lv);
    s.insert_ensures(i, lv);
    assert(forall|j: int| 0 <= j < i ==> t[j] == s[j]);
    assert(forall|j: int| i < j < t.len() ==> t[j] == s[j - 1]);
    assert(t[i] == lv);
    assert(side_wf(t)) by {
        assert forall|p: int, q: int| 0 <= p < q < t.len() implies t[p].key < t[q].key by {
            if p < i && q > i {
                assert(t[p].key < lv.key && lv.key < t[q].key);
            }
        }
        assert forall|p: int| 0 <= p < t.len() implies t[p].key <= MAX_KEY by {
            if p != i {
                assert(t[p] == if p < i {
                    s[p]
                } else {
                    s[p - 1]
                });
            }
        }
    }
    assert forall|k: u64| has_key(t, k) <==> (has_key(s, k) || k == lv.key) by {
        if has_key(t, k) && k != lv.key {
            let j = choose|j: int| 0 <= j < t.len() && t[j].key == k;
            assert(j != i);
            if j < i {
                assert(0 <= j < s.len() && s[j].key == k);
            } else {
                assert(0 <= j - 1 < s.len() && s[j - 1].key == k);
            }
        }
        if has_key(s, k) {
            let j = choose|j: int| 0 <= j < s.len() && s[j].key == k;
            if j < i {
                assert(0 <= j < t.len() && t[j].key == k);
            } else {
                assert(0 <= j + 1 < t.len() && t[j + 1].key == k);
            }
        }
        assert(0 <= i < t.len() && t[i].key == lv.key);
    }
    assert forall|k: u64| has_key(t, k) implies levels_map(t)[k] == levels_map(s).insert(
        lv.key,
        lv.size,
    )[k] by {
        if k == lv.key {
            lemma_key_at(t, i);
            assert(levels_map(t)[k] == t[i].size);
        } else {
            let j = choose|j: int| 0 <= j < s.len() && s[j].key == k;
            lemma_key_at(s, j);
            assert(levels_map(s)[k] == s[j].size);
            if j < i {
                lemma_key_at(t, j);
                assert(levels_map(t)[k] == t[j].size);
                assert(t[j] == s[j]);
            } else {
                lemma_key_at(t, j + 1);
                assert(levels_map(t)[k] == t[j + 1].size);
                assert(t[j + 1] == s[j]);
            }
        }
    }
    assert(levels_map(t) =~= levels_map(s).insert(lv.key, lv.size));
}

/// Removing the level at a position removes exactly its key from the side's
/// mapping.
pub proof fn lemma_map_remove(s: Seq<Level>, i: int)
    requires
        side_wf(s),
        0 <= i < s.len(),
    ensures
        side_wf(s.remove(i)),
        levels_map(s.remove(i)) == levels_map(s).remove(s[i].key),
{
    let k0 = s[i].key;
    let t = s.remove(i);
    s.remove_ensures(i);
    assert(forall|j: int| 0 <= j < i ==> t[j] == s[j]);
    assert(forall|j: int| i <= j < t.len() ==> t[j] == s[j + 1]);
    assert(side_wf(t)) by {
        assert forall|p: int, q: int| 0 <= p < q < t.len() implies t[p].key < t[q].key by {
            assert(t[p] == if p < i {
                s[p]
            } else {
                s[p + 1]
            });
            assert(t[q] == if q < i {
                s[q]
            } else {
                s[q + 1]
            });
        }
        assert forall|p: int| 0 <= p < t.len() implies t[p].key <= MAX_KEY by {
            assert(t[p] == if p < i {
                s[p]
            } else {
                s[p + 1]
            });
        }
    }
    assert forall|k: u64| has_key(t, k) <==> (has_key(s, k) && k != k0) by {
        if has_key(t, k) {
            let j = choose|j: int| 0 <= j < t.len() && t[j].key == k;
            if j < i {
                assert(0 <= j < s.len() && s[j].key == k);
                lemma_key_at(s, j);
                assert(k != k0) by {
                    if k == k0 {
                        lemma_key_at(s, i);
                    }
                }
            } else {
                assert(0 <= j + 1 < s.len() && s[j + 1].key == k);
                lemma_key_at(s, j + 1);
                assert(k != k0) by {
                    if k == k0 {
                        lemma_key_at(s, i);
                    }
                }
            }
        }
        if has_key(s, k) && k != k0 {
            let j = choose|j: int| 0 <= j < s.len() && s[j].key == k;
            assert(j != i);
            if j < i {
                assert(0 <= j < t.len() && t[j].key == k);
            } else {
                assert(0 <= j - 1 < t.len() && t[j - 1].key == k);
            }
        }
    }
    assert forall|k: u64| has_key(t, k) implies levels_map(t)[k] == levels_map(s).remove(k0)[k] by {
        let j = choose|j: int| 0 <= j < s.len() && s[j].key == k;
        lemma_key_at(s, j);
        assert(levels_map(s)[k] == s[j].size);
        assert(j != i);
        if j < i {
            lemma_key_at(t, j);
            assert(levels_map(t)[k] == t[j].size);
            assert(t[j] == s[j]);
        } else {
            lemma_key_at(t, j - 1);
            assert(levels_map(t)[k] == t[j - 1].size);
            assert(t[j - 1] == s[j]);
        }
    }
    assert(levels_map(t) =~= levels_map(s).remove(k0));
}

/// Inserts or overwrites the level at `key`, keeping the side sorted.
pub fn side_insert(v: &mut Vec<Level>, key: u64, size: Size)
    requires
        side_wf(old(v)@),
        key <= MAX_KEY,
    ensures
        side_wf(final(v)@),
        levels_map(final(v)@) == levels_map(old(v)@).insert(key, size),
{
    let mut i: usize = 0;
    while i < v.len() && v[i].key < key
        invariant
            side_wf(v@),
            v@ == old(v)@,
            i <= v.len(),
            forall|j: int| 0 <= j < i ==> v@[j].key < key,
        decreases v.len() - i,
    {
        i += 1;
    }
    if i < v.len() && v[i].key == key {
        proof {
            lemma_map_update(v@, i as int, size);
            assert(v@.update(i as int, Level { key: key, size: size }) =~= v@.remove(
                i as int,
            ).insert(i as int, Level { key: key, size: size }));
        }
        v.remove(i);
        v.insert(i, Level { key: key, size: size });
    } else {
        proof {
            lemma_map_insert(v@, i as int, Level { key: key, size: size });
        }
        v.insert(i, Level { key: key, size: size });
    }
}

/// Removes the level at `key`, if any, keeping the side sorted. Removing an
/// absent key changes nothing.
pub fn side_remove(v: &mut Vec<Level>, key: u64)
    requires
        side_wf(old(v)@),
    ensures
        side_wf(final(v)@),
        levels_map(final(v)@) == levels_map(old(v)@).remove(key),
{
    let mut i: usize = 0;
    while i < v.len() && v[i].key < key
        invariant
            side_wf(v@),
            v@ == old(v)@,
            i <= v.len(),
            forall|j: int| 0 <= j < i ==> v@[j].key < key,
        decreases v.len() - i,
    {
        i += 1;
    }
    if i < v.len() && v[i].key == key {
        proof {
            lemma_map_remove(v@, i as int);
        }
        v.remove(i);
    } else {
        proof {
            assert forall|j: int| 0 <= j < v@.len() implies v@[j].key != key by {
                if j >= i {
                    assert(v@[i as int].key <= v@[j].key);
                }
            }
            assert(!has_key(v@, key));
            lemma_map_absent(v@, key);
        }
    }
}

/// Looks the side's mapping up at `key`.
pub fn side_lookup(v: &Vec<Level>, key: u64) -> (r: Option<Size>)
    requires
        side_wf(v@),
    ensures
        r == (if levels_map(v@).dom().contains(key) {
            Option::Some(levels_map(v@)[key])
        } else {
            Option::<Size>::None
        }),
{
    let mut i: usize = 0;
    while i < v.len()
        invariant
            side_wf(v@),
            i <= v.len(),
            forall|j: int| 0 <= j < i ==> v@[j].key != key,
        decreases v.len() - i,
    {
        if v[i].key == key {
            proof {
                lemma_key_at(v@, i as int);
            }
            return Some(v[i].size);
        }
        i += 1;
    }
    proof {
        assert(!has_key(v@, key));
    }
    None
}

/// A strictly sorted side has exactly as many mapped keys as levels.
pub proof fn lemma_side_len(s: Seq<Level>)
    requires
        side_wf(s),
    ensures
        levels_map(s).dom().finite(),
        levels_map(s).dom().len() == s.len(),
    decreases s.len(),
{
    if s.len() == 0 {
        assert(levels_map(s).dom() =~= Set::<u64>::empty());
    } else {
        let s0 = s.drop_last();
        let lv = s.last();
        assert(side_wf(s0)) by {
            assert(forall|i: int| 0 <= i < s0.len() ==> s0[i] == s[i]);
        }
        lemma_side_len(s0);
        assert(forall|j: int| 0 <= j < s0.len() ==> s0[j].key < lv.key) by {
            assert(forall|j: int| 0 <= j < s0.len() ==> s0[j] == s[j]);
        }
        lemma_map_insert(s0, s0.len() as int, lv);
        assert(s0.insert(s0.len() as int, lv) =~= s);
        assert(levels_map(s) == levels_map(s0).insert(lv.key, lv.size));
        assert(!levels_map(s0).dom().contains(lv.key)) by {
            if has_key(s0, lv.key) {
                let j = choose|j: int| 0 <= j < s0.len() && s0[j].key == lv.key;
                assert(s[j].key < s[s.len() - 1].key);
            }
        }
        assert(levels_map(s).dom() =~= levels_map(s0).dom().insert(lv.key));
    }
}

/// Removing a key that no level carries leaves the side's mapping unchanged.
pub proof fn lemma_map_absent(s: Seq<Level>, key: u64)
    requires
        !has_key(s, key),
    ensures
        levels_map(s).remove(key) == levels_map(s),
{
    assert(levels_map(s).remove(key) =~= levels_map(s));
}

} // verus!
