use vstd::prelude::*;
use crate::errors::{Error, InterpreterResult, RuntimeErrorType, VmError};
use crate::hash::{spec_marf_value, spec_side_key};
use crate::hex::spec_to_hex;
use crate::index::{Marf, writes_of};
use crate::merkle::{TrieMerkleProof, spec_proof};
use crate::model::{
    MarfView, data_with, is_first_block, items_view, lemma_lookup_resolves, put_writes, values_of,
};
use crate::side_store::SideStore;
use crate::types::{BlockHeaderHash, MARFValue, StacksBlockId, view_of};

verus! {

/// What the interpreter asks of a store: the values of keys at the block the
/// store looks at, and the way from block to block.
pub trait ClarityBackingStore {
    /// The block the store looks at.
    spec fn tip(&self) -> Seq<u8>;

    /// The index and side store behind it.
    spec fn index(&self) -> MarfView;

    /// Whether the store is in order.
    spec fn inv(&self) -> bool;

    /// Whether the store takes writes.
    spec fn writable(&self) -> bool;

    /// Puts a batch: every value goes to the side store under the key that
    /// its hash gives it, and the open trie is given the hashes for the keys,
    /// in the order of the batch.
    fn put_all(&mut self, items: Vec<(String, String)>)
        requires
            old(self).inv(),
            old(self).writable(),
        ensures
            final(self).inv(),
            final(self).writable(),
            final(self).tip() == old(self).tip(),
            final(self).index() == old(self).index().put_all(items_view(items@)),
    ;

    /// The value of a key at the block the store looks at.
    fn get(&mut self, key: &str) -> (r: Option<String>)
        requires
            old(self).inv(),
        ensures
            final(self).inv(),
            final(self).writable() == old(self).writable(),
            final(self).tip() == old(self).tip(),
            final(self).index() == old(self).index(),
            view_of(r) == old(self).index().value_at(old(self).tip(), key@),
    ;

    /// The value of a key with the proof that the index holds its hash under
    /// the root hash of the block.
    fn get_with_proof(&mut self, key: &str) -> (r: Option<(String, TrieMerkleProof)>)
        requires
            old(self).inv(),
        ensures
            final(self).inv(),
            final(self).writable() == old(self).writable(),
            final(self).tip() == old(self).tip(),
            final(self).index() == old(self).index(),
            match r {
                Some((value, proof)) => {
                    &&& old(self).index().value_at(old(self).tip(), key@) == Some(value@)
                    &&& proof@ == spec_proof(
                        old(self).index().trie_at(old(self).tip()).unwrap().log,
                        key@,
                    )
                },
                None => old(self).index().value_at(old(self).tip(), key@) is None,
            },
    ;

    /// Moves the store to another block and answers with the block it looked
    /// at before. A block that the index does not know, or one on another
    /// fork, is refused, and the store stays where it is.
    fn set_block_hash(&mut self, bhh: StacksBlockId) -> (r: InterpreterResult<StacksBlockId>)
        requires
            old(self).inv(),
        ensures
            final(self).inv(),
            final(self).writable() == old(self).writable(),
            final(self).index() == old(self).index(),
            match old(self).index().ancestor_refusal(old(self).tip(), bhh@) {
                None => {
                    &&& r is Ok
                    &&& r.unwrap()@ == old(self).tip()
                    &&& final(self).tip() == bhh@
                },
                Some(false) => {
                    &&& r == Err::<StacksBlockId, VmError>(
                        VmError::Runtime(
                            RuntimeErrorType::UnknownBlockHeaderHash(BlockHeaderHash(bhh.0)),
                        ),
                    )
                    &&& final(self).tip() == old(self).tip()
                },
                Some(true) => {
                    &&& r == Err::<StacksBlockId, VmError>(
                        VmError::Runtime(RuntimeErrorType::NonMatchingFork(BlockHeaderHash(bhh.0))),
                    )
                    &&& final(self).tip() == old(self).tip()
                },
            },
    ;

    /// The block at a height on the way from the sentinel to the block the
    /// store looks at. A first block that the index does not know is itself
    /// the block at height 0.
    fn get_block_at_height(&mut self, height: u32) -> (r: Option<StacksBlockId>)
        requires
            old(self).inv(),
        ensures
            final(self).inv(),
            final(self).writable() == old(self).writable(),
            final(self).tip() == old(self).tip(),
            final(self).index() == old(self).index(),
            view_of(r) == old(self).index().seen_at_height(old(self).tip(), height as nat),
    ;

    /// The height of the block the store looks at. A block that the index
    /// does not know has a height only if it is the first block: 0.
    fn get_current_block_height(&mut self) -> (r: u32)
        requires
            old(self).inv(),
            old(self).index().trie_at(old(self).tip()) is Some || is_first_block(old(self).tip()),
        ensures
            final(self).inv(),
            final(self).writable() == old(self).writable(),
            final(self).tip() == old(self).tip(),
            final(self).index() == old(self).index(),
            r == old(self).index().current_height(old(self).tip()),
    ;

    /// The height of the trie that is open for writing.
    fn get_open_chain_tip_height(&mut self) -> (r: u32)
        requires
            old(self).inv(),
            old(self).index().open is Some,
        ensures
            final(self).inv(),
            final(self).writable() == old(self).writable(),
            final(self).tip() == old(self).tip(),
            final(self).index() == old(self).index(),
            r == old(self).index().open_trie().height(),
    ;

    /// The identifier of the trie that is open for writing.
    fn get_open_chain_tip(&mut self) -> (r: StacksBlockId)
        requires
            old(self).inv(),
            old(self).index().open is Some,
        ensures
            final(self).inv(),
            final(self).writable() == old(self).writable(),
            final(self).tip() == old(self).tip(),
            final(self).index() == old(self).index(),
            r@ == old(self).index().open_id(),
    ;

    /// The side store.
    fn get_side_store(&mut self) -> (side: &SideStore)
        requires
            old(self).inv(),
        ensures
            final(self).inv(),
            final(self).writable() == old(self).writable(),
            final(self).tip() == old(self).tip(),
            final(self).index() == old(self).index(),
            side.data() == old(self).index().data,
            side.metadata() == old(self).index().metadata,
    ;
}

/// The value of a key at a block.
pub fn value_at(marf: &Marf, tip: &StacksBlockId, key: &str) -> (r: Option<String>)
    requires
        marf.wf(),
    ensures
        view_of(r) == marf@.value_at(tip@, key@),
{
    match marf.get(tip, key) {
        Some(marf_value) => {
            proof {
                lemma_lookup_resolves(marf@, tip@, key@);
            }
            let side_key = marf_value.to_hex();
            let data = marf.sqlite_conn().get(side_key.as_str()).expect(
                "ERROR: MARF contained value_hash not found in side storage",
            );
            Some(data)
        },
        None => None,
    }
}

/// The value of a key at a block with the proof that the index holds its
/// hash.
pub fn value_with_proof_at(marf: &Marf, tip: &StacksBlockId, key: &str) -> (r: Option<
    (String, TrieMerkleProof),
>)
    requires
        marf.wf(),
    ensures
        match r {
            Some((value, proof)) => {
                &&& marf@.value_at(tip@, key@) == Some(value@)
                &&& proof@ == spec_proof(marf@.trie_at(tip@).unwrap().log, key@)
            },
            None => marf@.value_at(tip@, key@) is None,
        },
{
    match marf.get_with_proof(tip, key) {
        Some((marf_value, proof)) => {
            proof {
                lemma_lookup_resolves(marf@, tip@, key@);
            }
            let side_key = marf_value.to_hex();
            let data = marf.sqlite_conn().get(side_key.as_str()).expect(
                "ERROR: MARF contained value_hash not found in side storage",
            );
            Some((data, proof))
        },
        None => None,
    }
}

/// Whether a store at `tip` may move to `bhh`, in the words of the
/// interpreter.
pub fn check_move(marf: &Marf, tip: &StacksBlockId, bhh: &StacksBlockId) -> (r: Result<
    (),
    RuntimeErrorType,
>)
    requires
        marf.wf(),
    ensures
        match marf@.ancestor_refusal(tip@, bhh@) {
            None => r is Ok,
            Some(false) => r == Err::<(), RuntimeErrorType>(
                RuntimeErrorType::UnknownBlockHeaderHash(BlockHeaderHash(bhh.0)),
            ),
            Some(true) => r == Err::<(), RuntimeErrorType>(
                RuntimeErrorType::NonMatchingFork(BlockHeaderHash(bhh.0)),
            ),
        },
{
    match marf.check_ancestor_block_hash(tip, bhh) {
        Ok(_) => Ok(()),
        Err(e) => match e {
            Error::NonMatchingForks(_, _) => Err(
                RuntimeErrorType::NonMatchingFork(BlockHeaderHash(bhh.0)),
            ),
            _ => Err(RuntimeErrorType::UnknownBlockHeaderHash(BlockHeaderHash(bhh.0))),
        },
    }
}

/// The block at a height on the way to `tip`, as a store at `tip` reports
/// it: what the index says where it knows `tip`; a first block that the index
/// does not know is itself the block at height 0.
pub fn block_at_height_from(marf: &Marf, tip: &StacksBlockId, height: u32) -> (r: Option<
    StacksBlockId,
>)
    requires
        marf.wf(),
    ensures
        view_of(r) == marf@.seen_at_height(tip@, height as nat),
{
    match marf.get_block_height_of(tip, tip) {
        Some(_) => marf.get_bhh_at_height(tip, height),
        None => {
            let first_tip = StacksBlockId::first_block();
            if height == 0 && (*tip == first_tip || *tip == StacksBlockId::zero()) {
                Some(*tip)
            } else {
                None
            }
        },
    }
}

/// The height that a store at `tip` reports, if it has one: what the index
/// says of the block, and 0 for the first block where the index says nothing.
pub fn checked_height_at(marf: &Marf, tip: &StacksBlockId) -> (r: Option<u32>)
    requires
        marf.wf(),
    ensures
        r == (if marf@.trie_at(tip@) is Some || is_first_block(tip@) {
            Some(marf@.current_height(tip@) as u32)
        } else {
            None
        }),
        r is Some ==> r.unwrap() == marf@.current_height(tip@),
{
    match marf.get_block_height_of(tip, tip) {
        Some(x) => Some(x),
        None => {
            let first_tip = StacksBlockId::first_block();
            if *tip == first_tip || *tip == StacksBlockId::zero() {
                Some(0)
            } else {
                None
            }
        },
    }
}

/// The height that a store at `tip` reports. A block that the index does not
/// know must be the first block.
pub fn height_at(marf: &Marf, tip: &StacksBlockId) -> (r: u32)
    requires
        marf.wf(),
        marf@.trie_at(tip@) is Some || is_first_block(tip@),
    ensures
        r == marf@.current_height(tip@),
{
    checked_height_at(marf, tip).expect("Failed to obtain current block height")
}

/// Puts a batch into an index whose trie is open: the values into the side
/// store, then the hashes into the trie.
pub fn put_batch(marf: &mut Marf, items: Vec<(String, String)>)
    requires
        old(marf).wf(),
        old(marf)@.open is Some,
    ensures
        final(marf).wf(),
        final(marf)@ == old(marf)@.put_all(items_view(items@)),
{
    let mut keys: Vec<String> = Vec::new();
    let mut values: Vec<MARFValue> = Vec::new();
    let ghost batch = items_view(items@);
    let mut i: usize = 0;
    while i < items.len()
        invariant
            i <= items@.len(),
            batch == items_view(items@),
            marf.wf(),
            marf@ == (MarfView {
                data: data_with(
                    old(marf)@.data,
                    values_of(batch).take(i as int),
                ),
                ..old(marf)@
            }),
            keys@.len() == i,
            values@.len() == i,
            forall|j: int| #![trigger keys@[j]] 0 <= j < i ==> keys@[j]@ == batch[j].0,
            forall|j: int|
                #![trigger values@[j]]
                0 <= j < i ==> values@[j]@ == spec_marf_value(batch[j].1),
            forall|j: int|
                #![trigger values@[j]]
                0 <= j < i ==> marf@.data.contains_key(spec_to_hex(values@[j]@)),
        decreases items@.len() - i,
    {
        let marf_value = MARFValue::from_value(items[i].1.as_str());
        let side_key = marf_value.to_hex();
        marf.put_value(side_key.as_str(), items[i].1.as_str());
        proof {
            let all = values_of(batch);
            assert(all.take(i + 1).drop_last() =~= all.take(i as int));
            assert(all.take(i + 1).last() == batch[i as int].1);
            assert(side_key@ == spec_side_key(batch[i as int].1));
        }
        let ghost keys_before = keys@;
        let ghost values_before = values@;
        keys.push(items[i].0.clone());
        values.push(marf_value);
        proof {
            assert forall|j: int| #![trigger keys@[j]] 0 <= j < i + 1 implies keys@[j]@
                == batch[j].0 by {
                if j < i {
                    assert(keys@[j] == keys_before[j]);
                }
            }
            assert forall|j: int| #![trigger values@[j]] 0 <= j < i + 1 implies values@[j]@
                == spec_marf_value(batch[j].1) && marf@.data.contains_key(
                spec_to_hex(values@[j]@),
            ) by {
                if j < i {
                    assert(values@[j] == values_before[j]);
                }
            }
        }
        i += 1;
    }
    proof {
        let all = values_of(batch);
        assert(all.take(i as int) =~= all);
        assert(writes_of(keys@, values@) =~= put_writes(batch));
    }
    marf.insert_batch(&keys, values).expect("ERROR: Unexpected MARF Failure");
}

} // verus!
