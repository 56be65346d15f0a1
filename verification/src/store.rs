use vstd::prelude::*;
use crate::backing::{
    ClarityBackingStore, block_at_height_from, check_move, height_at, put_batch, value_at,
    value_with_proof_at,
};
use crate::errors::{Error, InterpreterError, InterpreterResult, VmError};
use crate::index::Marf;
use crate::merkle::TrieMerkleProof;
use crate::model::MarfView;
use crate::side_store::{SideStore, metadata_renamed, metadata_without};
use crate::types::{StacksBlockId, TrieHash, sentinel_id, unconfirmed_id};

verus! {

/// The handle of a store: the index with its side store, and the block that
/// views look at unless they are told another.
pub struct MarfedKV {
    pub chain_tip: StacksBlockId,
    pub marf: Marf,
}

/// A view that reads the store at one block.
pub struct ReadOnlyMarfStore<'a> {
    pub chain_tip: StacksBlockId,
    pub marf: &'a mut Marf,
}

/// A view that builds one block: it writes to the open trie until it is
/// committed or rolled back.
pub struct WritableMarfStore<'a> {
    pub chain_tip: StacksBlockId,
    pub marf: &'a mut Marf,
}

/// An index with what a caller wants at hand beside it.
pub struct IndexDBConn<'a, C> {
    pub index: &'a Marf,
    pub context: C,
}

/// The block a new handle looks at: the one given, or the sentinel.
pub open spec fn tip_or_sentinel(miner_tip: Option<&StacksBlockId>) -> Seq<u8> {
    match miner_tip {
        Some(tip) => tip@,
        None => sentinel_id(),
    }
}

impl MarfedKV {
    /// The handle is in order.
    pub open spec fn wf(&self) -> bool {
        self.marf.wf()
    }

    /// A handle of a new store that takes confirmed blocks only.
    pub fn open(miner_tip: Option<&StacksBlockId>) -> (kv: MarfedKV)
        ensures
            kv.wf(),
            kv.chain_tip@ == tip_or_sentinel(miner_tip),
            kv.marf@ == MarfView::fresh(false),
    {
        let marf = Marf::new(false);
        let chain_tip = match miner_tip {
            Some(miner_tip) => *miner_tip,
            None => StacksBlockId::sentinel(),
        };
        MarfedKV { marf, chain_tip }
    }

    /// A handle of a new store that takes unconfirmed state too.
    pub fn open_unconfirmed(miner_tip: Option<&StacksBlockId>) -> (kv: MarfedKV)
        ensures
            kv.wf(),
            kv.chain_tip@ == tip_or_sentinel(miner_tip),
            kv.marf@ == MarfView::fresh(true),
    {
        let marf = Marf::new(true);
        let chain_tip = match miner_tip {
            Some(miner_tip) => *miner_tip,
            None => StacksBlockId::sentinel(),
        };
        MarfedKV { marf, chain_tip }
    }

    /// A handle of a new store for a short while, at the sentinel.
    pub fn temporary() -> (kv: MarfedKV)
        ensures
            kv.wf(),
            kv.chain_tip@ == sentinel_id(),
            kv.marf@ == MarfView::fresh(false),
    {
        let marf = Marf::new(false);
        let chain_tip = StacksBlockId::sentinel();
        MarfedKV { marf, chain_tip }
    }

    /// A view that reads at `at_block`, which must be committed, or at the
    /// block of the handle. A trie that an earlier view left open is given
    /// up.
    pub fn begin_read_only<'a>(&'a mut self, at_block: Option<&StacksBlockId>) -> (view:
        ReadOnlyMarfStore<'a>)
        requires
            old(self).wf(),
            at_block matches Some(b) ==> old(self).marf@.blocks.contains_key(b@),
        ensures
            view.inv(),
            view.chain_tip@ == (match at_block {
                Some(b) => b@,
                None => old(self).chain_tip@,
            }),
            view.marf@ == old(self).marf@.rolled_back(),
            final(self).chain_tip == old(self).chain_tip,
            final(self).marf == *final(view.marf),
    {
        let chain_tip = match at_block {
            Some(at_block) => {
                self.marf.open_block(at_block).expect("Failed to open read only connection");
                *at_block
            },
            None => self.chain_tip,
        };
        self.marf.drop_current();
        ReadOnlyMarfStore { chain_tip, marf: &mut self.marf }
    }

    /// A view that reads at `at_block` or at the block of the handle; a block
    /// that is not committed is reported, and the store stays as it is.
    pub fn begin_read_only_checked<'a>(&'a mut self, at_block: Option<&StacksBlockId>) -> (r:
        InterpreterResult<ReadOnlyMarfStore<'a>>)
        requires
            old(self).wf(),
        ensures
            match r {
                Ok(view) => {
                    &&& at_block matches Some(b) ==> old(self).marf@.blocks.contains_key(b@)
                    &&& view.inv()
                    &&& view.chain_tip@ == (match at_block {
                        Some(b) => b@,
                        None => old(self).chain_tip@,
                    })
                    &&& view.marf@ == old(self).marf@.rolled_back()
                    &&& final(self).chain_tip == old(self).chain_tip
                    &&& final(self).marf == *final(view.marf)
                },
                Err(e) => {
                    &&& at_block matches Some(b) && !old(self).marf@.blocks.contains_key(b@)
                    &&& e == VmError::Interpreter(
                        InterpreterError::MarfFailure(Error::NotFoundError),
                    )
                    &&& *final(self) == *old(self)
                },
            },
    {
        let chain_tip = match at_block {
            Some(at_block) => {
                if self.marf.open_block(at_block).is_err() {
                    return Err(
                        VmError::Interpreter(InterpreterError::MarfFailure(Error::NotFoundError)),
                    );
                }
                *at_block
            },
            None => self.chain_tip,
        };
        self.marf.drop_current();
        Ok(ReadOnlyMarfStore { chain_tip, marf: &mut self.marf })
    }

    /// A view that builds the block `next` on top of the committed block
    /// `current`. A trie that an earlier view left open is given up.
    pub fn begin<'a>(&'a mut self, current: &StacksBlockId, next: &StacksBlockId) -> (view:
        WritableMarfStore<'a>)
        requires
            old(self).wf(),
            old(self).marf@.rolled_back().begin_outcome(current@, next@) is Ok,
        ensures
            view.inv(),
            view.chain_tip@ == next@,
            view.marf@ == old(self).marf@.rolled_back().begun(current@, next@, false),
            final(self).chain_tip == old(self).chain_tip,
            final(self).marf == *final(view.marf),
    {
        self.marf.drop_current();
        self.marf.begin(current, next).expect("ERROR: Failed to begin new MARF block");
        let chain_tip = self.marf.get_open_chain_tip().expect("ERROR: Failed to get open MARF");
        WritableMarfStore { chain_tip, marf: &mut self.marf }
    }

    /// A view that builds, or goes on building, the unconfirmed trie on top
    /// of the committed block `current`.
    pub fn begin_unconfirmed<'a>(&'a mut self, current: &StacksBlockId) -> (view: WritableMarfStore<
        'a,
    >)
        requires
            old(self).wf(),
            old(self).marf@.rolled_back().begin_unconfirmed_outcome(current@) is Ok,
        ensures
            view.inv(),
            view.chain_tip@ == unconfirmed_id(current@),
            view.marf@ == old(self).marf@.rolled_back().begun_unconfirmed(current@),
            final(self).chain_tip == old(self).chain_tip,
            final(self).marf == *final(view.marf),
    {
        self.marf.drop_current();
        self.marf.begin_unconfirmed(current).expect(
            "ERROR: Failed to begin new unconfirmed MARF block",
        );
        let chain_tip = self.marf.get_open_chain_tip().expect("ERROR: Failed to get open MARF");
        WritableMarfStore { chain_tip, marf: &mut self.marf }
    }

    /// The block of the handle.
    pub fn get_chain_tip(&self) -> (tip: &StacksBlockId)
        ensures
            *tip == self.chain_tip,
    {
        &self.chain_tip
    }

    /// Gives the handle another block.
    pub fn set_chain_tip(&mut self, bhh: &StacksBlockId)
        ensures
            final(self).chain_tip == *bhh,
            final(self).marf == old(self).marf,
    {
        self.chain_tip = *bhh;
    }

    /// The root hash of the trie of the block of the handle. A trie that an
    /// earlier view left open is given up first, so that nothing is read of
    /// it.
    pub fn get_root_hash(&mut self) -> (root: TrieHash)
        requires
            old(self).wf(),
            old(self).marf@.rolled_back().root_at(old(self).chain_tip@) is Some,
        ensures
            final(self).wf(),
            final(self).chain_tip == old(self).chain_tip,
            final(self).marf@ == old(self).marf@.rolled_back(),
            Some(root@) == old(self).marf@.rolled_back().root_at(old(self).chain_tip@),
    {
        self.marf.drop_current();
        self.marf.get_root_hash_at(&self.chain_tip).expect("FATAL: Failed to read MARF root hash")
    }

    /// The index of the store.
    pub fn get_marf(&mut self) -> (marf: &mut Marf)
        ensures
            *marf == old(self).marf,
            final(self).marf == *final(marf),
            final(self).chain_tip == old(self).chain_tip,
    {
        &mut self.marf
    }

    /// The side store.
    pub fn sql_conn(&self) -> (side: &SideStore)
        ensures
            side.data() == self.marf@.data,
            side.metadata() == self.marf@.metadata,
    {
        self.marf.sqlite_conn()
    }

    /// The index with something at hand beside it.
    pub fn index_conn<'a, C>(&'a self, context: C) -> (conn: IndexDBConn<'a, C>)
        ensures
            *conn.index == self.marf,
            conn.context == context,
    {
        IndexDBConn { index: &self.marf, context }
    }
}

impl<'a> ReadOnlyMarfStore<'a> {
    /// Whether a block was committed to the index.
    pub fn trie_exists_for_block(&mut self, bhh: &StacksBlockId) -> (r: bool)
        requires
            old(self).inv(),
        ensures
            *final(self) == *old(self),
            r == old(self).marf@.blocks.contains_key(bhh@),
    {
        self.marf.has_block(bhh)
    }
}

impl<'a> ClarityBackingStore for ReadOnlyMarfStore<'a> {
    open spec fn tip(&self) -> Seq<u8> {
        self.chain_tip@
    }

    open spec fn index(&self) -> MarfView {
        self.marf@
    }

    open spec fn inv(&self) -> bool {
        self.marf.wf()
    }

    open spec fn writable(&self) -> bool {
        false
    }

    fn get_side_store(&mut self) -> (side: &SideStore)
        ensures
            *final(self) == *old(self),
    {
        self.marf.sqlite_conn()
    }

    fn set_block_hash(&mut self, bhh: StacksBlockId) -> (r: InterpreterResult<StacksBlockId>)
        ensures
            *final(self).marf == *old(self).marf,
            *final(final(self).marf) == *final(old(self).marf),
    {
        match check_move(self.marf, &self.chain_tip, &bhh) {
            Ok(_) => {},
            Err(e) => {
                return Err(VmError::Runtime(e));
            },
        }
        let result = Ok(self.chain_tip);
        self.chain_tip = bhh;
        result
    }

    fn get_current_block_height(&mut self) -> (r: u32)
        ensures
            *final(self) == *old(self),
    {
        height_at(self.marf, &self.chain_tip)
    }

    fn get_block_at_height(&mut self, height: u32) -> (r: Option<StacksBlockId>)
        ensures
            *final(self) == *old(self),
    {
        block_at_height_from(self.marf, &self.chain_tip, height)
    }

    fn get_open_chain_tip(&mut self) -> (r: StacksBlockId)
        ensures
            *final(self) == *old(self),
    {
        self.marf.get_open_chain_tip().expect(
            "Attempted to get the open chain tip from an unopened context.",
        )
    }

    fn get_open_chain_tip_height(&mut self) -> (r: u32)
        ensures
            *final(self) == *old(self),
    {
        self.marf.get_open_chain_tip_height().expect(
            "Attempted to get the open chain tip from an unopened context.",
        )
    }

    fn get_with_proof(&mut self, key: &str) -> (r: Option<(String, TrieMerkleProof)>)
        ensures
            *final(self) == *old(self),
    {
        value_with_proof_at(self.marf, &self.chain_tip, key)
    }

    fn get(&mut self, key: &str) -> (r: Option<String>)
        ensures
            *final(self) == *old(self),
    {
        value_at(self.marf, &self.chain_tip, key)
    }

    fn put_all(&mut self, _items: Vec<(String, String)>) {
        vstd::pervasive::unreached()
    }
}

impl<'a> WritableMarfStore<'a> {
    /// Gives up the block: the open trie is dropped. What was put into the
    /// side store stays there.
    pub fn rollback_block(self)
        requires
            self.inv(),
        ensures
            final(self.marf).wf(),
            final(self.marf)@ == old(self.marf)@.rolled_back(),
    {
        let marf = self.marf;
        marf.drop_current();
    }

    /// Gives up the unconfirmed trie, and with it the bookkeeping rows of the
    /// block that was being built, wherever the view looks.
    pub fn rollback_unconfirmed(self)
        requires
            self.inv(),
        ensures
            final(self.marf).wf(),
            final(self.marf)@ == (MarfView {
                metadata: metadata_without(
                    old(self.marf)@.metadata,
                    old(self.marf)@.open_id(),
                ),
                ..old(self.marf)@
            }).rolled_back(),
    {
        let marf = self.marf;
        let building = marf.get_open_chain_tip().expect(
            "Attempted to get the open chain tip from an unopened context.",
        );
        marf.drop_metadata(&building);
        marf.drop_unconfirmed();
    }

    /// Commits the block under its final identifier: the bookkeeping rows of
    /// the identifier the block was begun under go over to `final_bhh`,
    /// wherever the view looks, then the open trie is committed under it.
    pub fn commit_to(self, final_bhh: &StacksBlockId)
        requires
            self.inv(),
            self.marf@.commit_outcome(final_bhh@) is Ok,
        ensures
            final(self.marf).wf(),
            final(self.marf)@ == (MarfView {
                metadata: metadata_renamed(
                    old(self.marf)@.metadata,
                    old(self.marf)@.open_id(),
                    final_bhh@,
                ),
                ..old(self.marf)@
            }).committed(final_bhh@),
    {
        let marf = self.marf;
        let building = marf.get_open_chain_tip().expect(
            "Attempted to get the open chain tip from an unopened context.",
        );
        marf.commit_metadata_to(&building, final_bhh);
        marf.commit_to(final_bhh).expect("Failed to commit to MARF block");
    }

    /// Commits the block under the identifier the view looks at.
    pub fn test_commit(self)
        requires
            self.inv(),
            self.marf@.commit_outcome(self.chain_tip@) is Ok,
        ensures
            final(self.marf).wf(),
            final(self.marf)@ == (MarfView {
                metadata: metadata_renamed(
                    old(self.marf)@.metadata,
                    old(self.marf)@.open_id(),
                    self.chain_tip@,
                ),
                ..old(self.marf)@
            }).committed(self.chain_tip@),
    {
        let bhh = self.chain_tip;
        self.commit_to(&bhh);
    }

    /// Commits the open trie under the identifier it was begun under; the
    /// bookkeeping rows stay as they are.
    pub fn commit_unconfirmed(self)
        requires
            self.inv(),
        ensures
            final(self.marf).wf(),
            final(self.marf)@ == old(self.marf)@.committed(old(self.marf)@.open_id()),
    {
        let marf = self.marf;
        marf.commit().expect("ERROR: Failed to commit MARF block");
    }

    /// Commits a block that a miner built: the bookkeeping rows of the
    /// identifier the block was begun under are dropped, wherever the view
    /// looks, then the open trie is committed under `will_move_to`.
    pub fn commit_mined_block(self, will_move_to: &StacksBlockId)
        requires
            self.inv(),
            self.marf@.commit_outcome(will_move_to@) is Ok,
        ensures
            final(self.marf).wf(),
            final(self.marf)@ == (MarfView {
                metadata: metadata_without(
                    old(self.marf)@.metadata,
                    old(self.marf)@.open_id(),
                ),
                ..old(self.marf)@
            }).committed(will_move_to@),
    {
        let marf = self.marf;
        let building = marf.get_open_chain_tip().expect(
            "Attempted to get the open chain tip from an unopened context.",
        );
        marf.drop_metadata(&building);
        marf.commit_mined(will_move_to).expect("Failed to commit to mined MARF block");
    }

    /// The root hash of the trie of the block the view looks at.
    pub fn get_root_hash(&mut self) -> (root: TrieHash)
        requires
            old(self).inv(),
            old(self).marf@.root_at(old(self).chain_tip@) is Some,
        ensures
            *final(self) == *old(self),
            Some(root@) == old(self).marf@.root_at(old(self).chain_tip@),
    {
        self.marf.get_root_hash_at(&self.chain_tip).expect("FATAL: Failed to read MARF root hash")
    }

    /// Adds a bookkeeping row to the block that is being built.
    pub fn insert_metadata(&mut self, key: &str, value: &str)
        requires
            old(self).inv(),
        ensures
            final(self).inv(),
            final(self).chain_tip == old(self).chain_tip,
            final(self).marf@ == (MarfView {
                metadata: old(self).marf@.metadata.push(
                    (old(self).marf@.open_id(), key@, value@),
                ),
                ..old(self).marf@
            }),
            *final(final(self).marf) == *final(old(self).marf),
    {
        let bhh = self.marf.get_open_chain_tip().expect(
            "Attempted to get the open chain tip from an unopened context.",
        );
        self.marf.insert_metadata(&bhh, key, value);
    }
}

impl<'a> ClarityBackingStore for WritableMarfStore<'a> {
    open spec fn tip(&self) -> Seq<u8> {
        self.chain_tip@
    }

    open spec fn index(&self) -> MarfView {
        self.marf@
    }

    open spec fn inv(&self) -> bool {
        self.marf.wf() && self.marf@.open is Some
    }

    open spec fn writable(&self) -> bool {
        true
    }

    fn set_block_hash(&mut self, bhh: StacksBlockId) -> (r: InterpreterResult<StacksBlockId>)
        ensures
            *final(self).marf == *old(self).marf,
            *final(final(self).marf) == *final(old(self).marf),
    {
        match check_move(self.marf, &self.chain_tip, &bhh) {
            Ok(_) => {},
            Err(e) => {
                return Err(VmError::Runtime(e));
            },
        }
        let result = Ok(self.chain_tip);
        self.chain_tip = bhh;
        result
    }

    fn get(&mut self, key: &str) -> (r: Option<String>)
        ensures
            *final(self) == *old(self),
    {
        value_at(self.marf, &self.chain_tip, key)
    }

    fn get_with_proof(&mut self, key: &str) -> (r: Option<(String, TrieMerkleProof)>)
        ensures
            *final(self) == *old(self),
    {
        value_with_proof_at(self.marf, &self.chain_tip, key)
    }

    fn get_side_store(&mut self) -> (side: &SideStore)
        ensures
            *final(self) == *old(self),
    {
        self.marf.sqlite_conn()
    }

    fn get_block_at_height(&mut self, height: u32) -> (r: Option<StacksBlockId>)
        ensures
            *final(self) == *old(self),
    {
        block_at_height_from(self.marf, &self.chain_tip, height)
    }

    fn get_open_chain_tip(&mut self) -> (r: StacksBlockId)
        ensures
            *final(self) == *old(self),
    {
        self.marf.get_open_chain_tip().expect(
            "Attempted to get the open chain tip from an unopened context.",
        )
    }

    fn get_open_chain_tip_height(&mut self) -> (r: u32)
        ensures
            *final(self) == *old(self),
    {
        self.marf.get_open_chain_tip_height().expect(
            "Attempted to get the open chain tip from an unopened context.",
        )
    }

    fn get_current_block_height(&mut self) -> (r: u32)
        ensures
            *final(self) == *old(self),
    {
        height_at(self.marf, &self.chain_tip)
    }

    fn put_all(&mut self, items: Vec<(String, String)>)
        ensures
            *final(final(self).marf) == *final(old(self).marf),
    {
        put_batch(self.marf, items);
    }
}

} // verus!
