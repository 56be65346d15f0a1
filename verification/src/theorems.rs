use vstd::prelude::*;
use crate::hash::{spec_marf_value, spec_side_key};
use crate::hex::spec_to_hex;
use crate::lookup::{latest, lemma_latest_append, lemma_latest_is_written};
use crate::merkle::{lemma_latest_at, lemma_proof_verifies, spec_proof, spec_verify};
use crate::model::{
    MarfView, data_with, is_first_block, lemma_lookup_resolves, lemma_rolled_back_valid, lemma_written_valid,
    put_writes, values_of,
};
use crate::types::sentinel_id;

verus! {

/// Whether two values that share a side-store key are the same value,
/// throughout a batch.
pub open spec fn keys_tell_values_apart(values: Seq<Seq<char>>) -> bool {
    forall|a: int, b: int|
        #![trigger values[a], values[b]]
        0 <= a < values.len() && 0 <= b < values.len() && spec_side_key(values[a])
            == spec_side_key(values[b]) ==> values[a] == values[b]
}

/// Whether a batch leaves alone what the side store holds: a value that takes
/// a key in use is the value that is there.
pub open spec fn batch_spares(data: Map<Seq<char>, Seq<char>>, values: Seq<Seq<char>>) -> bool {
    forall|a: int|
        #![trigger values[a]]
        0 <= a < values.len() && data.contains_key(spec_side_key(values[a]))
            ==> data[spec_side_key(values[a])] == values[a]
}

/// What the index holds after a batch, for a key of the batch, is the hash of
/// the value that the batch gave the key last.
pub proof fn lemma_latest_put_writes(items: Seq<(Seq<char>, Seq<char>)>, key: Seq<char>)
    ensures
        latest(put_writes(items), key) == match latest(items, key) {
            Some(value) => Some(spec_marf_value(value)),
            None => None,
        },
    decreases items.len(),
{
    if items.len() > 0 {
        assert(put_writes(items).drop_last() =~= put_writes(items.drop_last()));
        lemma_latest_put_writes(items.drop_last(), key);
    }
}

/// Storing values keeps what was stored under other keys, and keeps every
/// key.
pub proof fn lemma_data_with_keeps(
    data: Map<Seq<char>, Seq<char>>,
    values: Seq<Seq<char>>,
    key: Seq<char>,
)
    requires
        data.contains_key(key),
    ensures
        data_with(data, values).contains_key(key),
        (forall|a: int|
            #![trigger values[a]]
            0 <= a < values.len() ==> spec_side_key(values[a]) != key) ==> data_with(
            data,
            values,
        )[key] == data[key],
        batch_spares(data, values) ==> data_with(data, values)[key] == data[key],
    decreases values.len(),
{
    if values.len() > 0 {
        let rest = values.drop_last();
        lemma_data_with_keeps(data, rest, key);
        assert forall|a: int| #![trigger rest[a]] 0 <= a < rest.len() implies rest[a]
            == values[a] by {}
        if batch_spares(data, values) {
            assert(batch_spares(data, rest)) by {
                assert forall|a: int|
                    #![trigger rest[a]]
                    0 <= a < rest.len() && data.contains_key(
                        spec_side_key(rest[a]),
                    ) implies data[spec_side_key(rest[a])] == rest[a] by {
                    assert(rest[a] == values[a]);
                }
            }
            assert(values[values.len() - 1] == values.last());
        }
        if forall|a: int|
            #![trigger values[a]]
            0 <= a < values.len() ==> spec_side_key(values[a]) != key {
            assert(spec_side_key(values[values.len() - 1]) != key);
            assert forall|a: int| #![trigger rest[a]] 0 <= a < rest.len() implies spec_side_key(
                rest[a],
            ) != key by {
                assert(rest[a] == values[a]);
            }
        }
    }
}

/// After values were stored, the side store holds each of them under its
/// key, as long as the keys tell the values of the batch apart.
pub proof fn lemma_data_with_holds(data: Map<Seq<char>, Seq<char>>, values: Seq<Seq<char>>, i: int)
    requires
        0 <= i < values.len(),
        keys_tell_values_apart(values),
    ensures
        data_with(data, values).contains_key(spec_side_key(values[i])),
        data_with(data, values)[spec_side_key(values[i])] == values[i],
    decreases values.len(),
{
    let rest = values.drop_last();
    if spec_side_key(values.last()) == spec_side_key(values[i]) {
        assert(values[values.len() - 1] == values[i]);
    } else {
        assert(keys_tell_values_apart(rest)) by {
            assert forall|a: int, b: int|
                #![trigger rest[a], rest[b]]
                0 <= a < rest.len() && 0 <= b < rest.len() && spec_side_key(rest[a])
                    == spec_side_key(rest[b]) implies rest[a] == rest[b] by {
                assert(rest[a] == values[a] && rest[b] == values[b]);
            }
        }
        assert(rest[i] == values[i]);
        lemma_data_with_holds(data, rest, i);
    }
}

/// A batch that is put keeps the index valid.
pub proof fn lemma_put_all_valid(v: MarfView, items: Seq<(Seq<char>, Seq<char>)>)
    requires
        v.valid(),
        v.open is Some,
    ensures
        v.put_all(items).valid(),
{
    let values = values_of(items);
    let stored = MarfView { data: data_with(v.data, values), ..v };
    assert(stored.valid()) by {
        assert forall|b: Seq<u8>|
            #![trigger stored.blocks[b]]
            stored.blocks.contains_key(b) implies stored.trie_ok(b, stored.blocks[b]) by {
            let t = v.blocks[b];
            assert(v.trie_ok(b, t));
            assert forall|j: int|
                #![trigger t.log[j]]
                0 <= j < t.log.len() implies stored.data.contains_key(spec_to_hex(t.log[j].1)) by {
                lemma_data_with_keeps(v.data, values, spec_to_hex(t.log[j].1));
            }
        }
        let t = v.open_trie();
        assert(v.trie_ok(v.open_id(), t));
        assert forall|j: int|
            #![trigger t.log[j]]
            0 <= j < t.log.len() implies stored.data.contains_key(spec_to_hex(t.log[j].1)) by {
            lemma_data_with_keeps(v.data, values, spec_to_hex(t.log[j].1));
        }
    }
    let writes = put_writes(items);
    assert forall|j: int|
        #![trigger writes[j]]
        0 <= j < writes.len() implies stored.data.contains_key(spec_to_hex(writes[j].1)) by {
        lemma_data_with_has(v.data, values, j);
        assert(values[j] == items[j].1);
    }
    lemma_written_valid(stored, writes);
}

/// After values were stored, the side store has a value under the key of
/// each.
pub proof fn lemma_data_with_has(data: Map<Seq<char>, Seq<char>>, values: Seq<Seq<char>>, i: int)
    requires
        0 <= i < values.len(),
    ensures
        data_with(data, values).contains_key(spec_side_key(values[i])),
    decreases values.len(),
{
    if i < values.len() - 1 {
        lemma_data_with_has(data, values.drop_last(), i);
        assert(values.drop_last()[i] == values[i]);
    }
}

/// What the view that builds a block reads for a key is what a view reads at
/// the block once it is committed, whatever became of the bookkeeping rows.
pub proof fn lemma_commit_keeps_reads(
    v: MarfView,
    metadata: Seq<(Seq<u8>, Seq<char>, Seq<char>)>,
    tip: Seq<u8>,
    key: Seq<char>,
)
    requires
        v.open is Some,
    ensures
        (MarfView { metadata, ..v }).committed(tip).value_at(tip, key) == v.value_at(
            v.open_id(),
            key,
        ),
{
}

/// What a batch gave a key last is what a view reads for the key at the block
/// that the batch was committed under, whatever became of the bookkeeping
/// rows, as long as the side-store keys tell the values of the batch apart.
pub proof fn lemma_round_trip(
    v: MarfView,
    items: Seq<(Seq<char>, Seq<char>)>,
    metadata: Seq<(Seq<u8>, Seq<char>, Seq<char>)>,
    tip: Seq<u8>,
    key: Seq<char>,
)
    requires
        v.valid(),
        v.open is Some,
        latest(items, key) is Some,
        keys_tell_values_apart(values_of(items)),
    ensures
        (MarfView { metadata, ..v.put_all(items) }).committed(tip).value_at(tip, key) == latest(
            items,
            key,
        ),
{
    let put = v.put_all(items);
    let done = (MarfView { metadata, ..put }).committed(tip);
    assert(done.trie_at(tip) == Some(put.open_trie()));
    lemma_latest_append(v.open_trie().log, put_writes(items), key);
    lemma_latest_put_writes(items, key);
    let at = lemma_latest_is_written(items, key);
    assert(values_of(items)[at] == items[at].1);
    lemma_data_with_holds(v.data, values_of(items), at);
}

/// The proof that a view gives with a value shows the hash of the value
/// under the root hash of the block; it shows no other hash.
pub proof fn lemma_proof_validity(v: MarfView, tip: Seq<u8>, key: Seq<char>, other: Seq<u8>)
    requires
        v.valid(),
        v.lookup(tip, key) is Some,
    ensures
        spec_verify(
            spec_proof(v.trie_at(tip).unwrap().log, key),
            key,
            v.lookup(tip, key).unwrap(),
            v.root_at(tip).unwrap(),
        ),
        other != v.lookup(tip, key).unwrap() ==> !spec_verify(
            spec_proof(v.trie_at(tip).unwrap().log, key),
            key,
            other,
            v.root_at(tip).unwrap(),
        ),
{
    let log = v.trie_at(tip).unwrap().log;
    lemma_proof_verifies(log, key);
    lemma_latest_at(log, key);
}

/// A block that is put and committed changes no other block: no committed
/// block descends from it, every other identifier names the trie it named
/// before the block was begun, and a view there reads what it read before,
/// as long as the batch leaves alone what the side store holds.
pub proof fn lemma_fork_isolation(
    v: MarfView,
    items: Seq<(Seq<char>, Seq<char>)>,
    metadata: Seq<(Seq<u8>, Seq<char>, Seq<char>)>,
    tip: Seq<u8>,
    other: Seq<u8>,
    key: Seq<char>,
)
    requires
        v.valid(),
        v.open is Some,
        !v.blocks.contains_key(tip),
        other != tip,
    ensures
        v.blocks.contains_key(other) ==> !v.blocks[other].chain.contains(tip),
        (MarfView { metadata, ..v.put_all(items) }).committed(tip).trie_at(other)
            == v.rolled_back().trie_at(other),
        (MarfView { metadata, ..v.put_all(items) }).committed(tip).lookup(other, key)
            == v.rolled_back().lookup(other, key),
        batch_spares(v.data, values_of(items)) ==> (MarfView {
            metadata,
            ..v.put_all(items)
        }).committed(tip).value_at(other, key) == v.rolled_back().value_at(other, key),
{
    if v.blocks.contains_key(other) {
        let t = v.blocks[other];
        assert(v.trie_ok(other, t));
        if t.chain.contains(tip) {
            let i = choose|i: int| 0 <= i < t.chain.len() && t.chain[i] == tip;
            assert(v.ancestor_ok(t.chain[i], t.chain.take(i), t.log));
        }
    }
    let before = v.rolled_back();
    if before.lookup(other, key) is Some {
        lemma_rolled_back_valid(v);
        lemma_lookup_resolves(before, other, key);
        lemma_data_with_keeps(
            v.data,
            values_of(items),
            spec_to_hex(before.lookup(other, key).unwrap()),
        );
    }
}

/// A block that is begun, put and rolled back leaves nothing behind in the
/// index: its identifier names no trie, a view there reads nothing, and every
/// committed block is as it was.
pub proof fn lemma_rollback_discards(
    v: MarfView,
    current: Seq<u8>,
    next: Seq<u8>,
    items: Seq<(Seq<char>, Seq<char>)>,
    key: Seq<char>,
)
    requires
        v.valid(),
        v.open is None,
        !v.blocks.contains_key(next),
    ensures
        v.begun(current, next, false).put_all(items).rolled_back().blocks == v.blocks,
        v.begun(current, next, false).put_all(items).rolled_back().open is None,
        v.begun(current, next, false).put_all(items).rolled_back().trie_at(next) is None,
        v.begun(current, next, false).put_all(items).rolled_back().value_at(next, key) is None,
{
}

/// A value that is stored a second time changes nothing, and what was stored
/// under other keys stays as it was.
pub proof fn lemma_repeated_store(
    data: Map<Seq<char>, Seq<char>>,
    value: Seq<char>,
    key: Seq<char>,
)
    ensures
        data_with(data_with(data, seq![value]), seq![value]) == data_with(data, seq![value]),
        data_with(data, seq![value])[spec_side_key(value)] == value,
        data.contains_key(key) && key != spec_side_key(value) ==> data_with(
            data,
            seq![value],
        ).contains_key(key) && data_with(data, seq![value])[key] == data[key],
{
    let one = seq![value];
    assert(one.drop_last() =~= Seq::empty());
    assert(one.last() == value);
    assert(data_with(data, one.drop_last()) == data);
    let once = data_with(data, one);
    assert(once == data.insert(spec_side_key(value), value));
    assert(data_with(once, one.drop_last()) == once);
    assert(data_with(once, one) =~= once);
}

/// On the way to the block a view looks at there is one block at each height
/// up to the height of the view, and none above it. No two of them are the
/// same, a view at any of them has the height it stands at, and the one at
/// the height of the view is the block the view looks at. The one at height
/// 0 is the sentinel, or the first block itself where the index does not
/// know it.
pub proof fn lemma_height_monotonicity(v: MarfView, tip: Seq<u8>, h1: nat, h2: nat)
    requires
        v.valid(),
        v.trie_at(tip) is Some || is_first_block(tip),
    ensures
        h1 <= v.current_height(tip) <==> v.seen_at_height(tip, h1) is Some,
        h1 <= v.current_height(tip) ==> {
            let b = v.seen_at_height(tip, h1).unwrap();
            &&& v.trie_at(b) is Some || is_first_block(b)
            &&& v.current_height(b) == h1
            &&& h1 == v.current_height(tip) ==> b == tip
            &&& v.trie_at(tip) is Some ==> v.block_height_of(b, tip) == Some(h1)
        },
        h1 < h2 <= v.current_height(tip) ==> v.seen_at_height(tip, h1) != v.seen_at_height(
            tip,
            h2,
        ),
        v.seen_at_height(tip, 0) == (if v.trie_at(tip) is Some {
            Some(sentinel_id())
        } else {
            Some(tip)
        }),
{
    if v.trie_at(tip) is Some {
        let t = v.trie_at(tip).unwrap();
        assert(v.trie_ok(tip, t));
        assert(v.trie_ok(sentinel_id(), v.blocks[sentinel_id()]));
        if t.chain.len() > 0 {
            assert(v.ancestor_ok(t.chain[0], t.chain.take(0), t.log));
            assert(v.trie_ok(t.chain[0], v.blocks[t.chain[0]]));
            assert(v.blocks[t.chain[0]].chain.len() == 0);
        }
        if h1 < t.chain.len() {
            let b = t.chain[h1 as int];
            assert(v.ancestor_ok(b, t.chain.take(h1 as int), t.log));
            assert(t.chain.take(h1 as int).len() == h1);
            assert(t.chain.contains(b));
            if b == tip {
                assert(v.blocks.contains_key(tip));
            }
            assert(v.trie_at(b) == Some(v.blocks[b]));
        }
        if h1 < h2 && h2 < t.chain.len() {
            assert(v.ancestor_ok(t.chain[h2 as int], t.chain.take(h2 as int), t.log));
            assert(t.chain.take(h2 as int).len() == h2);
        }
    }
}

} // verus!
