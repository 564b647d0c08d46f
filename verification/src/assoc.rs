//! Association lists kept in strictly increasing key order: the model of a
//! map from text to values whose entries are walked in key order.

use vstd::prelude::*;
use crate::text::{lemma_text_lt_order, str_less, text_lt};

verus! {

/// The keys of an association list, in order.
pub open spec fn keys<V>(entries: Seq<(Seq<char>, V)>) -> Seq<Seq<char>> {
    entries.map_values(|e: (Seq<char>, V)| e.0)
}

/// Every key comes strictly before each later key.
pub open spec fn increasing(ks: Seq<Seq<char>>) -> bool {
    forall|i: int, j: int| 0 <= i < j < ks.len() ==> text_lt(#[trigger] ks[i], #[trigger] ks[j])
}

/// The number of leading keys that come strictly before `key`. In an
/// increasing list this is where `key` stands, or would stand.
pub open spec fn rank(ks: Seq<Seq<char>>, key: Seq<char>) -> int
    decreases ks.len(),
{
    if ks.len() == 0 || !text_lt(ks[0], key) {
        0
    } else {
        1 + rank(ks.drop_first(), key)
    }
}

/// The value stored under `key`, if any.
pub open spec fn lookup<V>(entries: Seq<(Seq<char>, V)>, key: Seq<char>) -> Option<V> {
    let r = rank(keys(entries), key);
    if r < entries.len() && entries[r].0 == key {
        Some(entries[r].1)
    } else {
        None
    }
}

/// The list with `value` stored under `key`: in place of the old value if
/// the key was present, at its place in key order otherwise.
pub open spec fn put<V>(entries: Seq<(Seq<char>, V)>, key: Seq<char>, value: V) -> Seq<
    (Seq<char>, V),
> {
    let r = rank(keys(entries), key);
    if r < entries.len() && entries[r].0 == key {
        entries.update(r, (key, value))
    } else {
        entries.insert(r, (key, value))
    }
}

/// `rank` stops at the first key that does not come before `key`.
pub proof fn lemma_rank_bounds(ks: Seq<Seq<char>>, key: Seq<char>)
    ensures
        0 <= rank(ks, key) <= ks.len(),
        forall|i: int| 0 <= i < rank(ks, key) ==> text_lt(#[trigger] ks[i], key),
        rank(ks, key) < ks.len() ==> !text_lt(ks[rank(ks, key)], key),
    decreases ks.len(),
{
    if ks.len() == 0 || !text_lt(ks[0], key) {
    } else {
        let rest = ks.drop_first();
        lemma_rank_bounds(rest, key);
        assert forall|i: int| 0 <= i < rank(ks, key) implies text_lt(#[trigger] ks[i], key) by {
            if i > 0 {
                assert(ks[i] == rest[i - 1]);
            }
        }
    }
}

/// A position with only smaller keys before it, and no smaller key at it,
/// is the rank.
pub proof fn lemma_rank_is(ks: Seq<Seq<char>>, key: Seq<char>, r: int)
    requires
        0 <= r <= ks.len(),
        forall|i: int| 0 <= i < r ==> text_lt(#[trigger] ks[i], key),
        r < ks.len() ==> !text_lt(ks[r], key),
    ensures
        rank(ks, key) == r,
    decreases ks.len(),
{
    if r > 0 {
        let rest = ks.drop_first();
        assert(text_lt(ks[0], key));
        assert forall|i: int| 0 <= i < r - 1 implies text_lt(#[trigger] rest[i], key) by {
            assert(rest[i] == ks[i + 1]);
        }
        lemma_rank_is(rest, key, r - 1);
    }
}

/// In an increasing list every key after the rank of `key` comes strictly
/// after `key`, and so does the key at the rank unless it is `key` itself.
pub proof fn lemma_rank_after(ks: Seq<Seq<char>>, key: Seq<char>)
    requires
        increasing(ks),
    ensures
        forall|j: int|
            rank(ks, key) <= j < ks.len() && #[trigger] ks[j] != key ==> text_lt(key, ks[j]),
        forall|j: int| rank(ks, key) < j < ks.len() ==> #[trigger] ks[j] != key,
{
    lemma_rank_bounds(ks, key);
    let r = rank(ks, key);
    assert forall|j: int| r <= j < ks.len() implies (#[trigger] ks[j] != key ==> text_lt(
        key,
        ks[j],
    )) && (r < j ==> ks[j] != key) by {
        lemma_text_lt_order(ks[r], key, ks[j]);
        lemma_text_lt_order(key, ks[r], ks[j]);
        lemma_text_lt_order(ks[j], ks[j], ks[j]);
        if r < j {
            assert(text_lt(ks[r], ks[j]));
        }
    }
}

/// In an increasing list each entry is found under its own key.
pub proof fn lemma_lookup_entry<V>(entries: Seq<(Seq<char>, V)>, i: int)
    requires
        increasing(keys(entries)),
        0 <= i < entries.len(),
    ensures
        rank(keys(entries), entries[i].0) == i,
        lookup(entries, entries[i].0) == Some(entries[i].1),
{
    let ks = keys(entries);
    lemma_text_lt_order(ks[i], ks[i], ks[i]);
    lemma_rank_is(ks, ks[i], i);
}

/// A key is found exactly if some entry carries it.
pub proof fn lemma_lookup_some<V>(entries: Seq<(Seq<char>, V)>, key: Seq<char>)
    requires
        increasing(keys(entries)),
    ensures
        lookup(entries, key) is Some <==> exists|i: int|
            0 <= i < entries.len() && (#[trigger] entries[i]).0 == key,
{
    lemma_rank_bounds(keys(entries), key);
    if lookup(entries, key) is Some {
        let r = rank(keys(entries), key);
        assert(entries[r].0 == key);
    }
    if exists|i: int| 0 <= i < entries.len() && (#[trigger] entries[i]).0 == key {
        let i = choose|i: int| 0 <= i < entries.len() && (#[trigger] entries[i]).0 == key;
        lemma_lookup_entry(entries, i);
    }
}

/// Storing a value keeps the list increasing, and leaves `key` at its rank.
pub proof fn lemma_put_increasing<V>(entries: Seq<(Seq<char>, V)>, key: Seq<char>, value: V)
    requires
        increasing(keys(entries)),
    ensures
        increasing(keys(put(entries, key, value))),
        rank(keys(put(entries, key, value)), key) == rank(keys(entries), key),
        put(entries, key, value)[rank(keys(entries), key)] == (key, value),
{
    let ks = keys(entries);
    let r = rank(ks, key);
    let after = put(entries, key, value);
    let ks2 = keys(after);
    lemma_rank_bounds(ks, key);
    lemma_rank_after(ks, key);
    if r < entries.len() && entries[r].0 == key {
        assert(ks2 =~= ks);
    } else {
        assert(ks2 =~= ks.insert(r, key));
        assert forall|i: int, j: int| 0 <= i < j < ks2.len() implies text_lt(
            #[trigger] ks2[i],
            #[trigger] ks2[j],
        ) by {
            if j < r {
                assert(ks2[i] == ks[i] && ks2[j] == ks[j]);
            } else if j == r {
                assert(ks2[i] == ks[i]);
            } else if i < r {
                assert(ks2[i] == ks[i] && ks2[j] == ks[j - 1]);
                if i == j - 1 {
                } else {
                    assert(text_lt(ks[i], ks[j - 1]));
                }
                lemma_text_lt_order(ks[i], key, ks[j - 1]);
                assert(ks[j - 1] != key);
            } else if i == r {
                assert(ks2[j] == ks[j - 1]);
                assert(ks[j - 1] != key);
            } else {
                assert(ks2[i] == ks[i - 1] && ks2[j] == ks[j - 1]);
            }
        }
    }
    lemma_text_lt_order(key, key, key);
    assert forall|i: int| 0 <= i < r implies text_lt(#[trigger] ks2[i], key) by {
        assert(ks2[i] == ks[i]);
    }
    lemma_rank_is(ks2, key, r);
}

/// After storing a value under `key`, that value is found under `key`.
pub proof fn lemma_lookup_put_same<V>(entries: Seq<(Seq<char>, V)>, key: Seq<char>, value: V)
    requires
        increasing(keys(entries)),
    ensures
        lookup(put(entries, key, value), key) == Some(value),
{
    lemma_rank_bounds(keys(entries), key);
    lemma_put_increasing(entries, key, value);
}

/// Storing a value under `key` changes nothing under any other key.
pub proof fn lemma_lookup_put_other<V>(
    entries: Seq<(Seq<char>, V)>,
    key: Seq<char>,
    value: V,
    other: Seq<char>,
)
    requires
        increasing(keys(entries)),
        other != key,
    ensures
        lookup(put(entries, key, value), other) == lookup(entries, other),
{
    let r = rank(keys(entries), key);
    let after = put(entries, key, value);
    let replaced = r < entries.len() && entries[r].0 == key;
    lemma_rank_bounds(keys(entries), key);
    lemma_put_increasing(entries, key, value);
    lemma_lookup_some(entries, other);
    lemma_lookup_some(after, other);
    if lookup(entries, other) is Some {
        let i = choose|i: int| 0 <= i < entries.len() && (#[trigger] entries[i]).0 == other;
        lemma_lookup_entry(entries, i);
        let i2 = if replaced || i < r {
            i
        } else {
            i + 1
        };
        assert(after[i2] == entries[i]);
        lemma_lookup_entry(after, i2);
    } else if lookup(after, other) is Some {
        let j = choose|j: int| 0 <= j < after.len() && (#[trigger] after[j]).0 == other;
        assert(j != r);
        let j0 = if replaced || j < r {
            j
        } else {
            j - 1
        };
        assert(entries[j0] == after[j]);
    }
}

/// The keys of a list of owned entries.
pub open spec fn entry_keys<V>(entries: Seq<(String, V)>) -> Seq<Seq<char>> {
    entries.map_values(|e: (String, V)| e.0@)
}

/// Where `key` stands, or would stand, among the entries.
pub fn position<V>(entries: &Vec<(String, V)>, key: &str) -> (r: usize)
    ensures
        r == rank(entry_keys(entries@), key@),
        r <= entries@.len(),
{
    let ghost ks = entry_keys(entries@);
    let mut i: usize = 0;
    proof {
        assert(ks.skip(0) =~= ks);
    }
    while i < entries.len() && str_less(entries[i].0.as_str(), key)
        invariant
            ks == entry_keys(entries@),
            i <= entries@.len(),
            rank(ks, key@) == i + rank(ks.skip(i as int), key@),
        decreases entries@.len() - i,
    {
        proof {
            assert(ks.skip(i as int)[0] == ks[i as int]);
            assert(ks.skip(i as int).drop_first() =~= ks.skip(i + 1));
        }
        i += 1;
    }
    proof {
        if i < entries.len() {
            assert(ks.skip(i as int)[0] == ks[i as int]);
        }
        lemma_rank_bounds(ks, key@);
    }
    i
}

/// Whether the keys of the entries are in strictly increasing order.
pub fn keys_increasing<V>(entries: &Vec<(String, V)>) -> (r: bool)
    ensures
        r == increasing(entry_keys(entries@)),
{
    let ghost ks = entry_keys(entries@);
    let mut i: usize = 1;
    while i < entries.len()
        invariant
            ks == entry_keys(entries@),
            1 <= i,
            forall|a: int, b: int|
                0 <= a < b < i && b < ks.len() ==> text_lt(#[trigger] ks[a], #[trigger] ks[b]),
        decreases entries@.len() - i,
    {
        if !str_less(entries[i - 1].0.as_str(), entries[i].0.as_str()) {
            proof {
                assert(!text_lt(ks[i - 1], ks[i as int]));
            }
            return false;
        }
        proof {
            assert forall|a: int, b: int| 0 <= a < b < i + 1 && b < ks.len() implies text_lt(
                #[trigger] ks[a],
                #[trigger] ks[b],
            ) by {
                if b == i && a < i - 1 {
                    assert(text_lt(ks[a], ks[i - 1]));
                    lemma_text_lt_order(ks[a], ks[i - 1], ks[b]);
                }
            }
        }
        i += 1;
    }
    true
}

} // verus!
