use vstd::prelude::*;
use crate::errors::Error;
use crate::hex::spec_to_hex;
use crate::lookup::latest;
use crate::merkle::{TrieMerkleProof, latest_at, spec_proof};
use crate::model::{
    MarfView, TrieView, lemma_begun_valid, lemma_committed_valid, lemma_metadata_valid,
    lemma_resumed_valid, lemma_rolled_back_valid, lemma_stored_valid, lemma_written_valid,
    spec_root,
};
use crate::side_store::{SideStore, metadata_renamed, metadata_without};
use crate::types::{MARFValue, StacksBlockId, TrieHash, sentinel_id, unconfirmed_id, view_of};

verus! {

/// One write: the key, what the index holds for it, and the root hash of the
/// trie once it was made.
struct Entry {
    key: String,
    value: MARFValue,
    root: TrieHash,
}

/// One trie: a block with its ancestors and everything written on the way to
/// it.
struct Trie {
    id: StacksBlockId,
    chain: Vec<StacksBlockId>,
    log: Vec<Entry>,
    unconfirmed: bool,
}

impl Trie {
    spec fn chain_view(&self) -> Seq<Seq<u8>> {
        Seq::new(self.chain@.len(), |i: int| self.chain@[i]@)
    }

    spec fn log_view(&self) -> Seq<(Seq<char>, Seq<u8>)> {
        Seq::new(self.log@.len(), |i: int| (self.log@[i].key@, self.log@[i].value@))
    }

    spec fn view(&self) -> TrieView {
        TrieView { chain: self.chain_view(), log: self.log_view(), unconfirmed: self.unconfirmed }
    }

    /// Every entry holds the root hash of the writes up to it.
    spec fn roots_ok(&self) -> bool {
        forall|j: int|
            #![trigger self.log@[j]]
            0 <= j < self.log@.len() ==> self.log@[j].root@ == spec_root(
                self.log_view().take(j + 1),
            )
    }

    fn root(&self) -> (h: TrieHash)
        requires
            self.roots_ok(),
        ensures
            h@ == spec_root(self.log_view()),
    {
        let n = self.log.len();
        if n == 0 {
            TrieHash::empty()
        } else {
            assert(self.log_view().take(n as int) =~= self.log_view());
            self.log[n - 1].root
        }
    }

    fn latest(&self, key: &str) -> (r: Option<MARFValue>)
        ensures
            view_of(r) == latest(self.log_view(), key@),
    {
        let wanted: String = key.to_owned();
        let mut i: usize = self.log.len();
        assert(self.log_view().take(i as int) =~= self.log_view());
        while i > 0
            invariant
                i <= self.log.len(),
                wanted@ == key@,
                latest(self.log_view(), key@) == latest(self.log_view().take(i as int), key@),
            decreases i,
        {
            i -= 1;
            proof {
                let upto = self.log_view().take(i + 1);
                assert(upto.drop_last() =~= self.log_view().take(i as int));
                assert(upto.last() == self.log_view()[i as int]);
            }
            if self.log[i].key == wanted {
                return Some(self.log[i].value);
            }
        }
        None
    }

    /// The value of a key with the proof that the trie holds it.
    fn prove(&self, key: &str) -> (r: Option<(MARFValue, TrieMerkleProof)>)
        requires
            self.roots_ok(),
        ensures
            match r {
                Some((v, p)) => latest(self.log_view(), key@) == Some(v@) && p@ == spec_proof(
                    self.log_view(),
                    key@,
                ),
                None => latest(self.log_view(), key@) is None,
            },
    {
        let wanted: String = key.to_owned();
        let n = self.log.len();
        let mut i: usize = n;
        assert(self.log_view().take(i as int) =~= self.log_view());
        while i > 0
            invariant
                i <= n,
                n == self.log.len(),
                self.roots_ok(),
                wanted@ == key@,
                latest(self.log_view(), key@) == latest(self.log_view().take(i as int), key@),
                latest_at(self.log_view(), key@) == latest_at(
                    self.log_view().take(i as int),
                    key@,
                ),
            decreases i,
        {
            i -= 1;
            proof {
                let upto = self.log_view().take(i + 1);
                assert(upto.drop_last() =~= self.log_view().take(i as int));
                assert(upto.last() == self.log_view()[i as int]);
            }
            if self.log[i].key == wanted {
                assert(latest_at(self.log_view(), key@) == i);
                assert(i > 0 ==> self.log@[i - 1].root@ == spec_root(
                    self.log_view().take(i as int),
                ));
                let before = if i == 0 {
                    TrieHash::empty()
                } else {
                    self.log[i - 1].root
                };
                let mut after: Vec<(String, MARFValue)> = Vec::new();
                let mut j: usize = i + 1;
                while j < n
                    invariant
                        i < j <= n,
                        n == self.log.len(),
                        after@.len() == j - i - 1,
                        forall|k: int|
                            #![trigger after@[k]]
                            0 <= k < after@.len() ==> (after@[k].0@, after@[k].1@)
                                == self.log_view()[i + 1 + k],
                    decreases n - j,
                {
                    after.push((self.log[j].key.clone(), self.log[j].value));
                    j += 1;
                }
                let p = TrieMerkleProof::new(before, self.log[i].value, after);
                proof {
                    assert(self.log_view().take(0) =~= Seq::empty());
                    assert(p@.after =~= self.log_view().skip(i + 1));
                    assert(p@.before == spec_root(self.log_view().take(i as int)));
                    assert(p@.value == self.log_view()[i as int].1);
                }
                return Some((self.log[i].value, p));
            }
        }
        None
    }

    fn has_ancestor(&self, id: &StacksBlockId) -> (r: bool)
        ensures
            r == self.chain_view().contains(id@),
    {
        let mut i: usize = 0;
        while i < self.chain.len()
            invariant
                i <= self.chain.len(),
                forall|j: int| 0 <= j < i ==> self.chain_view()[j] != id@,
            decreases self.chain.len() - i,
        {
            if self.chain[i] == *id {
                assert(self.chain_view()[i as int] == id@);
                return true;
            }
            i += 1;
        }
        false
    }

    /// Adds a parent to the chain.
    fn descend(&mut self, parent: StacksBlockId)
        requires
            old(self).roots_ok(),
        ensures
            final(self).id == old(self).id,
            final(self).view() == (TrieView {
                chain: old(self).view().chain.push(parent@),
                ..old(self).view()
            }),
            final(self).roots_ok(),
    {
        self.chain.push(parent);
        assert(self.chain_view() =~= old(self).chain_view().push(parent@));
        assert(self.log_view() =~= old(self).log_view());
    }

    /// Adds a write to the trie.
    fn write(&mut self, key: &str, value: MARFValue)
        requires
            old(self).roots_ok(),
        ensures
            final(self).id == old(self).id,
            final(self).view() == (TrieView {
                log: old(self).view().log.push((key@, value@)),
                ..old(self).view()
            }),
            final(self).roots_ok(),
    {
        let root = self.root().extend(key, &value);
        self.log.push(Entry { key: key.to_owned(), value, root });
        proof {
            let before = old(self).log_view();
            let after = self.log_view();
            assert(after =~= before.push((key@, value@)));
            assert(self.chain_view() =~= old(self).chain_view());
            assert forall|j: int|
                #![trigger self.log@[j]]
                0 <= j < self.log@.len() implies self.log@[j].root@ == spec_root(
                after.take(j + 1),
            ) by {
                if j < before.len() {
                    assert(after.take(j + 1) =~= before.take(j + 1));
                    assert(self.log@[j] == old(self).log@[j]);
                } else {
                    assert(after.take(j + 1) =~= after);
                    assert(after.drop_last() =~= before);
                }
            }
        }
    }

    /// A trie with the same ancestors and writes under another identifier.
    fn renamed(&self, id: StacksBlockId, unconfirmed: bool) -> (t: Trie)
        requires
            self.roots_ok(),
        ensures
            t.id == id,
            t.view() == (TrieView { unconfirmed, ..self.view() }),
            t.roots_ok(),
    {
        let mut chain: Vec<StacksBlockId> = Vec::new();
        let mut i: usize = 0;
        while i < self.chain.len()
            invariant
                i <= self.chain.len(),
                chain@ == self.chain@.take(i as int),
            decreases self.chain.len() - i,
        {
            chain.push(self.chain[i]);
            assert(chain@ =~= self.chain@.take(i + 1));
            i += 1;
        }
        assert(chain@ =~= self.chain@);
        let mut log: Vec<Entry> = Vec::new();
        let mut j: usize = 0;
        while j < self.log.len()
            invariant
                j <= self.log.len(),
                log@ == self.log@.take(j as int),
            decreases self.log.len() - j,
        {
            log.push(
                Entry {
                    key: self.log[j].key.clone(),
                    value: self.log[j].value,
                    root: self.log[j].root,
                },
            );
            assert(log@ =~= self.log@.take(j + 1));
            j += 1;
        }
        assert(log@ =~= self.log@);
        let t = Trie { id, chain, log, unconfirmed };
        assert(t.chain_view() =~= self.chain_view());
        assert(t.log_view() =~= self.log_view());
        t
    }
}

/// The writes that a batch of keys and values stands for.
pub open spec fn writes_of(keys: Seq<String>, values: Seq<MARFValue>) -> Seq<(Seq<char>, Seq<u8>)> {
    Seq::new(keys.len(), |i: int| (keys[i]@, values[i]@))
}

/// The versioned index that routes the keys of every block to content
/// hashes, together with the side store that holds the values.
pub struct Marf {
    tries: Vec<Trie>,
    open: Option<Trie>,
    unconfirmed: bool,
    side: SideStore,
    blocks: Ghost<Map<Seq<u8>, TrieView>>,
}

impl View for Marf {
    type V = MarfView;

    closed spec fn view(&self) -> MarfView {
        MarfView {
            blocks: self.blocks@,
            open: match self.open {
                Some(t) => Some((t.id@, t.view())),
                None => None,
            },
            unconfirmed: self.unconfirmed,
            data: self.side.data(),
            metadata: self.side.metadata(),
        }
    }
}

impl Marf {
    /// The tries in memory are those of the model.
    pub closed spec fn inv(&self) -> bool {
        &&& forall|i: int|
            #![trigger self.tries@[i]]
            0 <= i < self.tries@.len() ==> {
                &&& self.blocks@.contains_key(self.tries@[i].id@)
                &&& self.blocks@[self.tries@[i].id@] == self.tries@[i].view()
                &&& self.tries@[i].roots_ok()
            }
        &&& forall|id: Seq<u8>|
            self.blocks@.contains_key(id) ==> exists|i: int|
                #![trigger self.tries@[i]]
                0 <= i < self.tries@.len() && self.tries@[i].id@ == id
        &&& forall|i: int, j: int|
            #![trigger self.tries@[i], self.tries@[j]]
            0 <= i < j < self.tries@.len() ==> self.tries@[i].id@ != self.tries@[j].id@
        &&& self.open matches Some(t) ==> t.roots_ok()
    }

    /// The invariant rests on the tries alone.
    proof fn lemma_inv_frame(a: &Marf, b: &Marf)
        requires
            a.inv(),
            a.tries == b.tries,
            a.blocks == b.blocks,
            b.open matches Some(t) ==> t.roots_ok(),
        ensures
            b.inv(),
    {
    }

    /// The index is in order: what is in memory is what the model says, and
    /// the model is valid.
    pub open spec fn wf(&self) -> bool {
        self.inv() && self@.valid()
    }

    /// An index that holds the sentinel and nothing else, over an empty side
    /// store; `unconfirmed` says whether it takes unconfirmed state.
    pub fn new(unconfirmed: bool) -> (marf: Marf)
        ensures
            marf.wf(),
            marf@ == MarfView::fresh(unconfirmed),
    {
        let root = Trie {
            id: StacksBlockId::sentinel(),
            chain: Vec::new(),
            log: Vec::new(),
            unconfirmed: false,
        };
        let ghost root_view = TrieView {
            chain: Seq::empty(),
            log: Seq::empty(),
            unconfirmed: false,
        };
        assert(root.chain_view() =~= Seq::empty());
        assert(root.log_view() =~= Seq::empty());
        let mut tries: Vec<Trie> = Vec::new();
        tries.push(root);
        let marf = Marf {
            tries,
            open: None,
            unconfirmed,
            side: SideStore::new(),
            blocks: Ghost(Map::empty().insert(sentinel_id(), root_view)),
        };
        assert(marf.tries@.len() == 1 && marf.tries@[0].view() == root_view);
        assert(marf.inv());
        assert(marf@.valid());
        marf
    }

    fn find(&self, id: &StacksBlockId) -> (r: Option<usize>)
        ensures
            match r {
                Some(i) => i < self.tries@.len() && self.tries@[i as int].id@ == id@,
                None => forall|i: int|
                    #![trigger self.tries@[i]]
                    0 <= i < self.tries@.len() ==> self.tries@[i].id@ != id@,
            },
    {
        let mut i: usize = 0;
        while i < self.tries.len()
            invariant
                i <= self.tries.len(),
                forall|j: int|
                    #![trigger self.tries@[j]]
                    0 <= j < i ==> self.tries@[j].id@ != id@,
            decreases self.tries.len() - i,
        {
            if self.tries[i].id == *id {
                return Some(i);
            }
            i += 1;
        }
        None
    }

    fn trie_ref(&self, id: &StacksBlockId) -> (r: Option<&Trie>)
        requires
            self.inv(),
        ensures
            match r {
                Some(t) => self@.trie_at(id@) == Some(t.view()) && t.roots_ok(),
                None => self@.trie_at(id@) is None,
            },
    {
        match &self.open {
            Some(t) => {
                if t.id == *id {
                    return Some(t);
                }
            },
            None => {},
        }
        match self.find(id) {
            Some(i) => Some(&self.tries[i]),
            None => None,
        }
    }

    /// Whether a block was committed to the index.
    pub fn has_block(&self, id: &StacksBlockId) -> (r: bool)
        requires
            self.wf(),
        ensures
            r == self@.blocks.contains_key(id@),
    {
        self.find(id).is_some()
    }

    /// Probes for a committed block.
    pub fn open_block(&self, id: &StacksBlockId) -> (r: Result<(), Error>)
        requires
            self.wf(),
        ensures
            r == (if self@.blocks.contains_key(id@) {
                Ok::<(), Error>(())
            } else {
                Err::<(), Error>(Error::NotFoundError)
            }),
    {
        if self.has_block(id) {
            Ok(())
        } else {
            Err(Error::NotFoundError)
        }
    }

    /// What the index holds for a key at a block.
    pub fn get(&self, tip: &StacksBlockId, key: &str) -> (r: Option<MARFValue>)
        requires
            self.wf(),
        ensures
            view_of(r) == self@.lookup(tip@, key@),
    {
        match self.trie_ref(tip) {
            Some(t) => t.latest(key),
            None => None,
        }
    }

    /// What the index holds for a key at a block, with the proof that it
    /// does.
    pub fn get_with_proof(&self, tip: &StacksBlockId, key: &str) -> (r: Option<
        (MARFValue, TrieMerkleProof),
    >)
        requires
            self.wf(),
        ensures
            match r {
                Some((v, p)) => self@.lookup(tip@, key@) == Some(v@) && p@ == spec_proof(
                    self@.trie_at(tip@).unwrap().log,
                    key@,
                ),
                None => self@.lookup(tip@, key@) is None,
            },
    {
        match self.trie_ref(tip) {
            Some(t) => t.prove(key),
            None => None,
        }
    }

    /// The root hash of the trie of a block.
    pub fn get_root_hash_at(&self, tip: &StacksBlockId) -> (r: Result<TrieHash, Error>)
        requires
            self.wf(),
        ensures
            match r {
                Ok(h) => self@.root_at(tip@) == Some(h@),
                Err(e) => self@.root_at(tip@) is None && e == Error::NotFoundError,
            },
    {
        match self.trie_ref(tip) {
            Some(t) => Ok(t.root()),
            None => Err(Error::NotFoundError),
        }
    }

    /// The height of block `bhh` as seen from block `tip`.
    pub fn get_block_height_of(&self, bhh: &StacksBlockId, tip: &StacksBlockId) -> (r: Option<u32>)
        requires
            self.wf(),
        ensures
            match r {
                Some(h) => self@.block_height_of(bhh@, tip@) == Some(h as nat),
                None => self@.block_height_of(bhh@, tip@) is None,
            },
    {
        match self.trie_ref(tip) {
            Some(t) => {
                assert(self@.trie_ok(tip@, t.view()));
                if *bhh == *tip {
                    return Some(t.chain.len() as u32);
                }
                let mut i: usize = 0;
                while i < t.chain.len()
                    invariant
                        i <= t.chain.len(),
                        self@.trie_ok(tip@, t.view()),
                        self@.trie_at(tip@) == Some(t.view()),
                        bhh@ != tip@,
                        forall|j: int| 0 <= j < i ==> t.chain_view()[j] != bhh@,
                    decreases t.chain.len() - i,
                {
                    if t.chain[i] == *bhh {
                        assert(t.chain_view()[i as int] == bhh@);
                        assert(self@.ancestor_ok(
                            t.view().chain[i as int],
                            t.view().chain.take(i as int),
                            t.view().log,
                        ));
                        return Some(i as u32);
                    }
                    i += 1;
                }
                None
            },
            None => None,
        }
    }

    /// The block at a height on the way from the sentinel to `tip`.
    pub fn get_bhh_at_height(&self, tip: &StacksBlockId, height: u32) -> (r: Option<StacksBlockId>)
        requires
            self.wf(),
        ensures
            view_of(r) == self@.block_at_height(tip@, height as nat),
    {
        match self.trie_ref(tip) {
            Some(t) => {
                assert(self@.trie_ok(tip@, t.view()));
                let h: usize = height as usize;
                if h < t.chain.len() {
                    Some(t.chain[h])
                } else if h == t.chain.len() {
                    Some(*tip)
                } else {
                    None
                }
            },
            None => None,
        }
    }

    /// The identifier that the open trie was begun under.
    pub fn get_open_chain_tip(&self) -> (r: Option<StacksBlockId>)
        requires
            self.wf(),
        ensures
            match r {
                Some(id) => self@.open is Some && self@.open_id() == id@,
                None => self@.open is None,
            },
    {
        match &self.open {
            Some(t) => Some(t.id),
            None => None,
        }
    }

    /// The height of the open trie.
    pub fn get_open_chain_tip_height(&self) -> (r: Option<u32>)
        requires
            self.wf(),
        ensures
            match r {
                Some(h) => self@.open is Some && self@.open_trie().height() == h,
                None => self@.open is None,
            },
    {
        match &self.open {
            Some(t) => {
                assert(self@.trie_ok(t.id@, t.view()));
                Some(t.chain.len() as u32)
            },
            None => None,
        }
    }

    /// Whether a view at `current` may move to `bhh`: it may where `bhh` names
    /// a trie and, if `current` names one too, one of the two blocks is the
    /// other or an ancestor of it.
    pub fn check_ancestor_block_hash(&self, current: &StacksBlockId, bhh: &StacksBlockId) -> (r:
        Result<(), Error>)
        requires
            self.wf(),
        ensures
            match self@.ancestor_refusal(current@, bhh@) {
                None => r is Ok,
                Some(false) => r == Err::<(), Error>(Error::NotFoundError),
                Some(true) => r == Err::<(), Error>(Error::NonMatchingForks(bhh.0, current.0)),
            },
    {
        match self.trie_ref(bhh) {
            None => Err(Error::NotFoundError),
            Some(target) => {
                match self.trie_ref(current) {
                    None => Ok(()),
                    Some(here) => {
                        if *current == *bhh || here.has_ancestor(bhh) || target.has_ancestor(
                            current,
                        ) {
                            Ok(())
                        } else {
                            Err(Error::NonMatchingForks(bhh.0, current.0))
                        }
                    },
                }
            },
        }
    }

    /// Whether a trie can be begun under `next` on top of `current` once the
    /// open trie, if there is one, is given up.
    pub fn can_begin(&self, current: &StacksBlockId, next: &StacksBlockId) -> (r: bool)
        requires
            self.wf(),
        ensures
            r == (self@.rolled_back().begin_outcome(current@, next@) is Ok),
    {
        if self.has_block(next) {
            return false;
        }
        match self.find(current) {
            None => false,
            Some(i) => !self.tries[i].unconfirmed && self.tries[i].chain.len() < u32::MAX as usize,
        }
    }

    /// Whether the unconfirmed trie on top of `current` can be begun or taken
    /// up once the open trie, if there is one, is given up.
    pub fn can_begin_unconfirmed(&self, current: &StacksBlockId) -> (r: bool)
        requires
            self.wf(),
        ensures
            r == (self@.rolled_back().begin_unconfirmed_outcome(current@) is Ok),
    {
        if !self.unconfirmed {
            return false;
        }
        match self.find(current) {
            None => false,
            Some(i) => {
                if self.tries[i].unconfirmed {
                    return false;
                }
                let id = current.to_unconfirmed();
                match self.find(&id) {
                    Some(k) => self.tries[k].unconfirmed,
                    None => self.tries[i].chain.len() < u32::MAX as usize,
                }
            },
        }
    }

    /// Whether the open trie can be committed under `id`.
    pub fn can_commit_to(&self, id: &StacksBlockId) -> (r: bool)
        requires
            self.wf(),
        ensures
            r == (self@.commit_outcome(id@) is Ok),
    {
        match &self.open {
            None => false,
            Some(t) => !t.unconfirmed && !self.has_block(id),
        }
    }

    /// Begins a trie under `next` on top of the committed block `current`.
    pub fn begin(&mut self, current: &StacksBlockId, next: &StacksBlockId) -> (r: Result<(), Error>)
        requires
            old(self).wf(),
        ensures
            final(self).wf(),
            r == old(self)@.begin_outcome(current@, next@),
            r is Ok ==> final(self)@ == old(self)@.begun(current@, next@, false),
            r is Err ==> final(self)@ == old(self)@,
    {
        if self.open.is_some() {
            return Err(Error::InProgressError);
        }
        if self.has_block(next) {
            return Err(Error::ExistsError);
        }
        match self.find(current) {
            None => Err(Error::NotFoundError),
            Some(i) => {
                let parent = &self.tries[i];
                assert(self@.trie_ok(current@, parent.view()));
                if parent.unconfirmed {
                    return Err(Error::UnconfirmedError);
                }
                if parent.chain.len() >= u32::MAX as usize {
                    return Err(Error::CorruptionError);
                }
                let mut t = parent.renamed(*next, false);
                t.descend(*current);
                proof {
                    lemma_begun_valid(old(self)@, current@, next@, false);
                }
                self.open = Some(t);
                proof {
                    Self::lemma_inv_frame(old(self), self);
                }
                Ok(())
            },
        }
    }

    /// Begins the unconfirmed trie on top of the committed block `current`,
    /// or takes it up again where it was committed before; answers with its
    /// identifier.
    pub fn begin_unconfirmed(&mut self, current: &StacksBlockId) -> (r: Result<
        StacksBlockId,
        Error,
    >)
        requires
            old(self).wf(),
        ensures
            final(self).wf(),
            match r {
                Ok(id) => {
                    &&& old(self)@.begin_unconfirmed_outcome(current@) is Ok
                    &&& id@ == unconfirmed_id(current@)
                    &&& final(self)@ == old(self)@.begun_unconfirmed(current@)
                },
                Err(e) => {
                    &&& old(self)@.begin_unconfirmed_outcome(current@) == Err::<(), Error>(e)
                    &&& final(self)@ == old(self)@
                },
            },
    {
        if !self.unconfirmed {
            return Err(Error::UnconfirmedError);
        }
        if self.open.is_some() {
            return Err(Error::InProgressError);
        }
        match self.find(current) {
            None => Err(Error::NotFoundError),
            Some(i) => {
                let parent = &self.tries[i];
                assert(self@.trie_ok(current@, parent.view()));
                if parent.unconfirmed {
                    return Err(Error::UnconfirmedError);
                }
                let id = current.to_unconfirmed();
                match self.find(&id) {
                    Some(k) => {
                        let earlier = &self.tries[k];
                        if !earlier.unconfirmed {
                            return Err(Error::ExistsError);
                        }
                        let t = earlier.renamed(id, true);
                        proof {
                            lemma_resumed_valid(old(self)@, id@);
                        }
                        self.open = Some(t);
                        proof {
                            Self::lemma_inv_frame(old(self), self);
                        }
                        Ok(id)
                    },
                    None => {
                        if parent.chain.len() >= u32::MAX as usize {
                            return Err(Error::CorruptionError);
                        }
                        let mut t = parent.renamed(id, true);
                        t.descend(*current);
                        proof {
                            lemma_begun_valid(old(self)@, current@, id@, true);
                        }
                        self.open = Some(t);
                        proof {
                            Self::lemma_inv_frame(old(self), self);
                        }
                        Ok(id)
                    },
                }
            },
        }
    }

    /// Adds writes to the open trie, in the order given. The side store must
    /// hold a value for each hash.
    pub fn insert_batch(&mut self, keys: &Vec<String>, values: Vec<MARFValue>) -> (r: Result<
        (),
        Error,
    >)
        requires
            old(self).wf(),
            keys@.len() == values@.len(),
            forall|i: int|
                #![trigger values@[i]]
                0 <= i < values@.len() ==> old(self)@.data.contains_key(spec_to_hex(values@[i]@)),
        ensures
            final(self).wf(),
            match r {
                Ok(_) => old(self)@.open is Some && final(self)@ == old(self)@.written(
                    writes_of(keys@, values@),
                ),
                Err(e) => old(self)@.open is None && e == Error::WriteNotBegunError && final(self)@
                    == old(self)@,
            },
    {
        match self.open.take() {
            None => Err(Error::WriteNotBegunError),
            Some(mut t) => {
                let ghost start = t.view();
                let mut i: usize = 0;
                while i < keys.len()
                    invariant
                        i <= keys@.len(),
                        keys@.len() == values@.len(),
                        t.roots_ok(),
                        t.id == old(self).open->0.id,
                        t.view() == (TrieView {
                            log: start.log + writes_of(keys@, values@).take(i as int),
                            ..start
                        }),
                    decreases keys@.len() - i,
                {
                    t.write(keys[i].as_str(), values[i]);
                    assert(writes_of(keys@, values@).take(i + 1) =~= writes_of(
                        keys@,
                        values@,
                    ).take(i as int).push((keys@[i as int]@, values@[i as int]@)));
                    assert(start.log + writes_of(keys@, values@).take(i + 1) =~= (start.log
                        + writes_of(keys@, values@).take(i as int)).push(
                        (keys@[i as int]@, values@[i as int]@),
                    ));
                    i += 1;
                }
                proof {
                    let writes = writes_of(keys@, values@);
                    assert(writes.take(i as int) =~= writes);
                    assert forall|j: int| #![trigger writes[j]] 0 <= j < writes.len() implies old(
                        self,
                    )@.data.contains_key(spec_to_hex(writes[j].1)) by {
                        assert(writes[j].1 == values@[j]@);
                    }
                    lemma_written_valid(old(self)@, writes);
                }
                self.open = Some(t);
                proof {
                    Self::lemma_inv_frame(old(self), self);
                }
                Ok(())
            },
        }
    }

    /// Commits the open trie under `id` and closes it.
    pub fn commit_to(&mut self, id: &StacksBlockId) -> (r: Result<(), Error>)
        requires
            old(self).wf(),
        ensures
            final(self).wf(),
            r == old(self)@.commit_outcome(id@),
            r is Ok ==> final(self)@ == old(self)@.committed(id@),
            r is Err ==> final(self)@ == old(self)@,
    {
        match &self.open {
            None => {
                return Err(Error::WriteNotBegunError);
            },
            Some(t) => {
                if t.unconfirmed {
                    return Err(Error::UnconfirmedError);
                }
            },
        }
        if self.has_block(id) {
            return Err(Error::ExistsError);
        }
        match self.open.take() {
            None => Err(Error::WriteNotBegunError),
            Some(t) => {
                let committed = t.renamed(*id, false);
                proof {
                    lemma_committed_valid(old(self)@, id@);
                }
                self.tries.push(committed);
                self.blocks = Ghost(self.blocks@.insert(id@, t.view()));
                proof {
                    assert forall|i: int|
                        #![trigger self.tries@[i]]
                        0 <= i < self.tries@.len() implies {
                        &&& self.blocks@.contains_key(self.tries@[i].id@)
                        &&& self.blocks@[self.tries@[i].id@] == self.tries@[i].view()
                        &&& self.tries@[i].roots_ok()
                    } by {
                        if i < old(self).tries@.len() {
                            assert(self.tries@[i] == old(self).tries@[i]);
                        }
                    }
                    assert forall|b: Seq<u8>| self.blocks@.contains_key(b) implies exists|i: int|
                        #![trigger self.tries@[i]]
                        0 <= i < self.tries@.len() && self.tries@[i].id@ == b by {
                        if b == id@ {
                            assert(self.tries@[self.tries@.len() - 1].id@ == b);
                        } else {
                            let i = choose|i: int|
                                #![trigger old(self).tries@[i]]
                                0 <= i < old(self).tries@.len() && old(self).tries@[i].id@ == b;
                            assert(self.tries@[i].id@ == b);
                        }
                    }
                    assert(self.inv());
                }
                Ok(())
            },
        }
    }

    /// Commits the open trie under the identifier it was begun under and
    /// closes it. An unconfirmed trie takes the place of what was committed
    /// under its identifier before.
    pub fn commit(&mut self) -> (r: Result<(), Error>)
        requires
            old(self).wf(),
        ensures
            final(self).wf(),
            match r {
                Ok(_) => old(self)@.open is Some && final(self)@ == old(self)@.committed(
                    old(self)@.open_id(),
                ),
                Err(e) => old(self)@.open is None && e == Error::WriteNotBegunError && final(self)@
                    == old(self)@,
            },
    {
        match self.open.take() {
            None => Err(Error::WriteNotBegunError),
            Some(t) => {
                proof {
                    lemma_committed_valid(old(self)@, t.id@);
                }
                let ghost tv = t.view();
                let ghost id = t.id@;
                match self.find(&t.id) {
                    Some(k) => {
                        self.tries.set(k, t);
                    },
                    None => {
                        self.tries.push(t);
                    },
                }
                self.blocks = Ghost(self.blocks@.insert(id, tv));
                proof {
                    assert forall|i: int|
                        #![trigger self.tries@[i]]
                        0 <= i < self.tries@.len() implies {
                        &&& self.blocks@.contains_key(self.tries@[i].id@)
                        &&& self.blocks@[self.tries@[i].id@] == self.tries@[i].view()
                        &&& self.tries@[i].roots_ok()
                    } by {
                        if i < old(self).tries@.len() && self.tries@[i].id@ != id {
                            assert(self.tries@[i] == old(self).tries@[i]);
                        }
                    }
                    assert forall|b: Seq<u8>| self.blocks@.contains_key(b) implies exists|i: int|
                        #![trigger self.tries@[i]]
                        0 <= i < self.tries@.len() && self.tries@[i].id@ == b by {
                        if b == id {
                            if old(self).blocks@.contains_key(id) {
                                let k = choose|i: int|
                                    #![trigger old(self).tries@[i]]
                                    0 <= i < old(self).tries@.len() && old(self).tries@[i].id@
                                        == b;
                                assert(self.tries@[k].id@ == b);
                            } else {
                                assert(self.tries@[self.tries@.len() - 1].id@ == b);
                            }
                        } else {
                            let i = choose|i: int|
                                #![trigger old(self).tries@[i]]
                                0 <= i < old(self).tries@.len() && old(self).tries@[i].id@ == b;
                            assert(self.tries@[i].id@ == b);
                        }
                    }
                    assert forall|i: int, j: int|
                        #![trigger self.tries@[i], self.tries@[j]]
                        0 <= i < j < self.tries@.len() implies self.tries@[i].id@
                        != self.tries@[j].id@ by {
                        if i < old(self).tries@.len() {
                            assert(self.tries@[i].id@ == old(self).tries@[i].id@);
                        }
                        if j < old(self).tries@.len() {
                            assert(self.tries@[j].id@ == old(self).tries@[j].id@);
                        }
                    }
                    assert(self.inv());
                }
                Ok(())
            },
        }
    }

    /// Commits a trie that a miner built under `id` and closes it.
    pub fn commit_mined(&mut self, id: &StacksBlockId) -> (r: Result<(), Error>)
        requires
            old(self).wf(),
        ensures
            final(self).wf(),
            r == old(self)@.commit_outcome(id@),
            r is Ok ==> final(self)@ == old(self)@.committed(id@),
            r is Err ==> final(self)@ == old(self)@,
    {
        self.commit_to(id)
    }

    /// Gives up the open trie, if there is one.
    pub fn drop_current(&mut self)
        requires
            old(self).wf(),
        ensures
            final(self).wf(),
            final(self)@ == old(self)@.rolled_back(),
    {
        proof {
            lemma_rolled_back_valid(old(self)@);
        }
        self.open = None;
        proof {
            Self::lemma_inv_frame(old(self), self);
        }
    }

    /// Gives up the open unconfirmed trie, if there is one.
    pub fn drop_unconfirmed(&mut self)
        requires
            old(self).wf(),
        ensures
            final(self).wf(),
            final(self)@ == old(self)@.rolled_back(),
    {
        self.drop_current()
    }

    /// Puts a value into the side store under a key.
    pub fn put_value(&mut self, key: &str, value: &str)
        requires
            old(self).wf(),
        ensures
            final(self).wf(),
            final(self)@ == (MarfView {
                data: old(self)@.data.insert(key@, value@),
                ..old(self)@
            }),
            old(self)@.data.contains_key(key@) && old(self)@.data[key@] == value@ ==> final(self)@
                == old(self)@,
    {
        proof {
            lemma_stored_valid(old(self)@, key@, value@);
        }
        self.side.put(key, value);
        proof {
            Self::lemma_inv_frame(old(self), self);
        }
    }

    /// Adds a bookkeeping row to a block.
    pub fn insert_metadata(&mut self, tip: &StacksBlockId, key: &str, value: &str)
        requires
            old(self).wf(),
        ensures
            final(self).wf(),
            final(self)@ == (MarfView {
                metadata: old(self)@.metadata.push((tip@, key@, value@)),
                ..old(self)@
            }),
    {
        proof {
            lemma_metadata_valid(old(self)@, old(self)@.metadata.push((tip@, key@, value@)));
        }
        self.side.insert_metadata(tip, key, value);
        proof {
            Self::lemma_inv_frame(old(self), self);
        }
    }

    /// Removes the bookkeeping rows of a block.
    pub fn drop_metadata(&mut self, tip: &StacksBlockId)
        requires
            old(self).wf(),
        ensures
            final(self).wf(),
            final(self)@ == (MarfView {
                metadata: metadata_without(old(self)@.metadata, tip@),
                ..old(self)@
            }),
    {
        proof {
            lemma_metadata_valid(old(self)@, metadata_without(old(self)@.metadata, tip@));
        }
        self.side.drop_metadata(tip);
        proof {
            Self::lemma_inv_frame(old(self), self);
        }
    }

    /// Hands the bookkeeping rows of block `from` to block `to`.
    pub fn commit_metadata_to(&mut self, from: &StacksBlockId, to: &StacksBlockId)
        requires
            old(self).wf(),
        ensures
            final(self).wf(),
            final(self)@ == (MarfView {
                metadata: metadata_renamed(old(self)@.metadata, from@, to@),
                ..old(self)@
            }),
    {
        proof {
            lemma_metadata_valid(old(self)@, metadata_renamed(old(self)@.metadata, from@, to@));
        }
        self.side.commit_metadata_to(from, to);
        proof {
            Self::lemma_inv_frame(old(self), self);
        }
    }

    /// The side store of the index.
    pub fn sqlite_conn(&self) -> (side: &SideStore)
        ensures
            side.data() == self@.data,
            side.metadata() == self@.metadata,
    {
        &self.side
    }
}

} // verus!
