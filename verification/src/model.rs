use vstd::prelude::*;
use crate::errors::Error;
use crate::hash::{first_block_id, spec_extend_root, spec_marf_value, spec_side_key};
use crate::hex::spec_to_hex;
use crate::lookup::{latest, lemma_latest_is_written};
use crate::types::{empty_root, sentinel_id, unconfirmed_id, zero_id};

verus! {

/// One trie of the index as a mathematical value.
pub struct TrieView {
    /// The ancestors of the block, the sentinel first and the parent last.
    pub chain: Seq<Seq<u8>>,
    /// Every write that the block sees, the oldest first: those of its
    /// ancestors, then its own.
    pub log: Seq<(Seq<char>, Seq<u8>)>,
    /// Whether the trie belongs to the unconfirmed state.
    pub unconfirmed: bool,
}

/// The index and its side store as a mathematical value.
pub struct MarfView {
    /// The committed tries by the identifiers of their blocks.
    pub blocks: Map<Seq<u8>, TrieView>,
    /// The trie that is open for writing, with the identifier it was begun
    /// under.
    pub open: Option<(Seq<u8>, TrieView)>,
    /// Whether the index holds unconfirmed state.
    pub unconfirmed: bool,
    /// The side store's values by their keys.
    pub data: Map<Seq<char>, Seq<char>>,
    /// The side store's bookkeeping rows.
    pub metadata: Seq<(Seq<u8>, Seq<char>, Seq<char>)>,
}

/// The root hash that a start and the writes after it lead to.
pub open spec fn spec_root_from(start: Seq<u8>, log: Seq<(Seq<char>, Seq<u8>)>) -> Seq<u8>
    decreases log.len(),
{
    if log.len() == 0 {
        start
    } else {
        spec_extend_root(spec_root_from(start, log.drop_last()), log.last().0, log.last().1)
    }
}

/// The root hash of a trie with the given writes.
pub open spec fn spec_root(log: Seq<(Seq<char>, Seq<u8>)>) -> Seq<u8> {
    spec_root_from(empty_root(), log)
}

/// The texts of a batch of keys and values.
pub open spec fn items_view(items: Seq<(String, String)>) -> Seq<(Seq<char>, Seq<char>)> {
    Seq::new(items.len(), |i: int| (items[i].0@, items[i].1@))
}

/// The values of a batch, in its order.
pub open spec fn values_of(items: Seq<(Seq<char>, Seq<char>)>) -> Seq<Seq<char>> {
    Seq::new(items.len(), |i: int| items[i].1)
}

/// What the index is asked to hold for a batch: for each key the hash of its
/// value, in the order of the batch.
pub open spec fn put_writes(items: Seq<(Seq<char>, Seq<char>)>) -> Seq<(Seq<char>, Seq<u8>)> {
    Seq::new(items.len(), |i: int| (items[i].0, spec_marf_value(items[i].1)))
}

/// The side-store data after values were stored, each under the key that its
/// hash gives it, one after the other.
pub open spec fn data_with(data: Map<Seq<char>, Seq<char>>, values: Seq<Seq<char>>) -> Map<
    Seq<char>,
    Seq<char>,
>
    decreases values.len(),
{
    if values.len() == 0 {
        data
    } else {
        data_with(data, values.drop_last()).insert(spec_side_key(values.last()), values.last())
    }
}

/// Whether a block identifier is one of the two names of the first block,
/// whose height is 0 whether or not the index knows it.
pub open spec fn is_first_block(id: Seq<u8>) -> bool {
    id == first_block_id() || id == zero_id()
}

impl TrieView {
    /// The height of the block: the number of its ancestors.
    pub open spec fn height(self) -> nat {
        self.chain.len()
    }
}

impl MarfView {
    /// The index nothing was written to: it holds the sentinel alone, over an
    /// empty side store.
    pub open spec fn fresh(unconfirmed: bool) -> MarfView {
        MarfView {
            blocks: Map::<Seq<u8>, TrieView>::empty().insert(
                sentinel_id(),
                TrieView { chain: Seq::empty(), log: Seq::empty(), unconfirmed: false },
            ),
            open: None,
            unconfirmed,
            data: Map::empty(),
            metadata: Seq::empty(),
        }
    }

    /// The identifier that the open trie was begun under.
    pub open spec fn open_id(self) -> Seq<u8> {
        match self.open {
            Some((id, _)) => id,
            None => Seq::empty(),
        }
    }

    /// The trie that is open for writing.
    pub open spec fn open_trie(self) -> TrieView {
        match self.open {
            Some((_, t)) => t,
            None => TrieView { chain: Seq::empty(), log: Seq::empty(), unconfirmed: false },
        }
    }

    /// The trie that a block identifier names: the open trie under its own
    /// identifier, a committed one otherwise.
    pub open spec fn trie_at(self, id: Seq<u8>) -> Option<TrieView> {
        if self.open is Some && self.open_id() == id {
            Some(self.open_trie())
        } else if self.blocks.contains_key(id) {
            Some(self.blocks[id])
        } else {
            None
        }
    }

    /// What the index holds for a key at a block.
    pub open spec fn lookup(self, tip: Seq<u8>, key: Seq<char>) -> Option<Seq<u8>> {
        match self.trie_at(tip) {
            Some(t) => latest(t.log, key),
            None => None,
        }
    }

    /// The value of a key at a block: what the side store holds for the hash
    /// that the index routes the key to.
    pub open spec fn value_at(self, tip: Seq<u8>, key: Seq<char>) -> Option<Seq<char>> {
        match self.lookup(tip, key) {
            Some(h) => Some(self.data[spec_to_hex(h)]),
            None => None,
        }
    }

    /// The root hash of the trie of a block.
    pub open spec fn root_at(self, tip: Seq<u8>) -> Option<Seq<u8>> {
        match self.trie_at(tip) {
            Some(t) => Some(spec_root(t.log)),
            None => None,
        }
    }

    /// The height of block `bhh` as seen from block `tip`: known where `bhh`
    /// is `tip` itself or one of its ancestors.
    pub open spec fn block_height_of(self, bhh: Seq<u8>, tip: Seq<u8>) -> Option<nat> {
        match self.trie_at(tip) {
            Some(t) => if bhh == tip {
                Some(t.chain.len())
            } else if t.chain.contains(bhh) {
                Some(self.blocks[bhh].chain.len())
            } else {
                None
            },
            None => None,
        }
    }

    /// The block at a height on the way from the sentinel to `tip`.
    pub open spec fn block_at_height(self, tip: Seq<u8>, height: nat) -> Option<Seq<u8>> {
        match self.trie_at(tip) {
            Some(t) => if height < t.chain.len() {
                Some(t.chain[height as int])
            } else if height == t.chain.len() {
                Some(tip)
            } else {
                None
            },
            None => None,
        }
    }

    /// The block at a height on the way to the block a view looks at: what
    /// the index says where it knows the block; a first block that the index
    /// does not know stands alone, at height 0.
    pub open spec fn seen_at_height(self, tip: Seq<u8>, height: nat) -> Option<Seq<u8>> {
        if self.trie_at(tip) is Some {
            self.block_at_height(tip, height)
        } else if is_first_block(tip) && height == 0 {
            Some(tip)
        } else {
            None
        }
    }

    /// Whether one of two blocks is the other or an ancestor of it.
    pub open spec fn related(self, a: Seq<u8>, b: Seq<u8>) -> bool {
        ||| a == b
        ||| (self.trie_at(a) is Some && self.trie_at(a)->0.chain.contains(b))
        ||| (self.trie_at(b) is Some && self.trie_at(b)->0.chain.contains(a))
    }

    /// What holds of an ancestor: it is a committed, confirmed block whose
    /// own ancestors are those before it in the chain, and what it wrote is
    /// seen by its descendants.
    pub open spec fn ancestor_ok(
        self,
        ancestor: Seq<u8>,
        before: Seq<Seq<u8>>,
        log: Seq<(Seq<char>, Seq<u8>)>,
    ) -> bool {
        &&& self.blocks.contains_key(ancestor)
        &&& self.blocks[ancestor].chain == before
        &&& !self.blocks[ancestor].unconfirmed
        &&& self.blocks[ancestor].log.is_prefix_of(log)
    }

    /// What holds of every trie: its chain leads from the sentinel to its
    /// parent over committed blocks, and the side store has a value for every
    /// hash it holds.
    pub open spec fn trie_ok(self, id: Seq<u8>, t: TrieView) -> bool {
        &&& id.len() == 32
        &&& t.chain.len() <= u32::MAX
        &&& (t.chain.len() == 0 <==> id == sentinel_id())
        &&& forall|i: int|
            #![trigger t.chain[i]]
            0 <= i < t.chain.len() ==> self.ancestor_ok(t.chain[i], t.chain.take(i), t.log)
        &&& forall|j: int|
            #![trigger t.log[j]]
            0 <= j < t.log.len() ==> self.data.contains_key(spec_to_hex(t.log[j].1))
    }

    /// The invariant of the index.
    pub open spec fn valid(self) -> bool {
        &&& self.blocks.contains_key(sentinel_id())
        &&& !self.blocks[sentinel_id()].unconfirmed
        &&& forall|id: Seq<u8>|
            #![trigger self.blocks[id]]
            self.blocks.contains_key(id) ==> self.trie_ok(id, self.blocks[id])
        &&& self.open matches Some((id, t)) ==> {
            &&& self.trie_ok(id, t)
            &&& self.blocks.contains_key(id) ==> t.unconfirmed && self.blocks[id].unconfirmed
        }
    }

    /// What the index answers to a request to begin a trie under `next` on
    /// top of `current`.
    pub open spec fn begin_outcome(self, current: Seq<u8>, next: Seq<u8>) -> Result<(), Error> {
        if self.open is Some {
            Err(Error::InProgressError)
        } else if self.blocks.contains_key(next) {
            Err(Error::ExistsError)
        } else if !self.blocks.contains_key(current) {
            Err(Error::NotFoundError)
        } else if self.blocks[current].unconfirmed {
            Err(Error::UnconfirmedError)
        } else if self.blocks[current].chain.len() >= u32::MAX {
            Err(Error::CorruptionError)
        } else {
            Ok(())
        }
    }

    /// What the index answers to a request to begin or take up the
    /// unconfirmed trie on top of `current`.
    pub open spec fn begin_unconfirmed_outcome(self, current: Seq<u8>) -> Result<(), Error> {
        if !self.unconfirmed {
            Err(Error::UnconfirmedError)
        } else if self.open is Some {
            Err(Error::InProgressError)
        } else if !self.blocks.contains_key(current) {
            Err(Error::NotFoundError)
        } else if self.blocks[current].unconfirmed {
            Err(Error::UnconfirmedError)
        } else if self.blocks.contains_key(unconfirmed_id(current)) {
            if self.blocks[unconfirmed_id(current)].unconfirmed {
                Ok(())
            } else {
                Err(Error::ExistsError)
            }
        } else if self.blocks[current].chain.len() >= u32::MAX {
            Err(Error::CorruptionError)
        } else {
            Ok(())
        }
    }

    /// The index after the unconfirmed trie on top of `current` was begun or
    /// taken up.
    pub open spec fn begun_unconfirmed(self, current: Seq<u8>) -> MarfView {
        if self.blocks.contains_key(unconfirmed_id(current)) {
            self.resumed(unconfirmed_id(current))
        } else {
            self.begun(current, unconfirmed_id(current), true)
        }
    }

    /// What the index answers to a request to commit the open trie under
    /// `id`.
    pub open spec fn commit_outcome(self, id: Seq<u8>) -> Result<(), Error> {
        if self.open is None {
            Err(Error::WriteNotBegunError)
        } else if self.open_trie().unconfirmed {
            Err(Error::UnconfirmedError)
        } else if self.blocks.contains_key(id) {
            Err(Error::ExistsError)
        } else {
            Ok(())
        }
    }

    /// What the index answers to the question whether a view at `current`
    /// may move to `bhh`: `None` where it may, else whether the two blocks
    /// lie on different forks (`true`) or `bhh` is unknown (`false`).
    pub open spec fn ancestor_refusal(self, current: Seq<u8>, bhh: Seq<u8>) -> Option<bool> {
        if self.trie_at(bhh) is None {
            Some(false)
        } else if self.trie_at(current) is Some && !self.related(current, bhh) {
            Some(true)
        } else {
            None
        }
    }

    /// The index after a trie was begun under `next` on top of `current`.
    pub open spec fn begun(self, current: Seq<u8>, next: Seq<u8>, unconfirmed: bool) -> MarfView {
        MarfView {
            open: Some(
                (
                    next,
                    TrieView {
                        chain: self.blocks[current].chain.push(current),
                        log: self.blocks[current].log,
                        unconfirmed,
                    },
                ),
            ),
            ..self
        }
    }

    /// The index after the open trie was taken up again from its committed
    /// state.
    pub open spec fn resumed(self, id: Seq<u8>) -> MarfView {
        MarfView { open: Some((id, self.blocks[id])), ..self }
    }

    /// The index after writes were added to the open trie.
    pub open spec fn written(self, writes: Seq<(Seq<char>, Seq<u8>)>) -> MarfView {
        MarfView {
            open: Some(
                (
                    self.open_id(),
                    TrieView { log: self.open_trie().log + writes, ..self.open_trie() },
                ),
            ),
            ..self
        }
    }

    /// The index after a batch was put: every value is in the side store, and
    /// the open trie holds the hash of its value for every key.
    pub open spec fn put_all(self, items: Seq<(Seq<char>, Seq<char>)>) -> MarfView {
        (MarfView { data: data_with(self.data, values_of(items)), ..self }).written(
            put_writes(items),
        )
    }

    /// The height of a block: what the index knows of it, and 0 where it
    /// knows nothing.
    pub open spec fn current_height(self, tip: Seq<u8>) -> nat {
        match self.block_height_of(tip, tip) {
            Some(h) => h,
            None => 0,
        }
    }

    /// The index after the open trie was committed under `id`.
    pub open spec fn committed(self, id: Seq<u8>) -> MarfView {
        MarfView { blocks: self.blocks.insert(id, self.open_trie()), open: None, ..self }
    }

    /// The index after the open trie was given up.
    pub open spec fn rolled_back(self) -> MarfView {
        MarfView { open: None, ..self }
    }
}

/// A trie begun on a committed, confirmed block under a fresh identifier
/// keeps the index valid.
pub proof fn lemma_begun_valid(v: MarfView, current: Seq<u8>, next: Seq<u8>, unconfirmed: bool)
    requires
        v.valid(),
        v.open is None,
        next.len() == 32,
        !v.blocks.contains_key(next),
        v.blocks.contains_key(current),
        !v.blocks[current].unconfirmed,
        v.blocks[current].chain.len() < u32::MAX,
    ensures
        v.begun(current, next, unconfirmed).valid(),
{
    let w = v.begun(current, next, unconfirmed);
    let parent = v.blocks[current];
    let t = w.open_trie();
    assert(v.trie_ok(current, parent));
    assert forall|i: int| #![trigger t.chain[i]] 0 <= i < t.chain.len() implies w.ancestor_ok(
        t.chain[i],
        t.chain.take(i),
        t.log,
    ) by {
        if i < parent.chain.len() {
            assert(t.chain[i] == parent.chain[i]);
            assert(v.ancestor_ok(parent.chain[i], parent.chain.take(i), parent.log));
            assert(t.chain.take(i) =~= parent.chain.take(i));
        } else {
            assert(t.chain.take(i) =~= parent.chain);
            assert(parent.log.is_prefix_of(t.log));
        }
    }
    assert forall|j: int| #![trigger t.log[j]] 0 <= j < t.log.len() implies w.data.contains_key(
        spec_to_hex(t.log[j].1),
    ) by {
        assert(t.log[j] == parent.log[j]);
    }
    assert(w.trie_ok(next, t));
    assert forall|id: Seq<u8>| #![trigger w.blocks[id]] w.blocks.contains_key(id) implies w.trie_ok(
        id,
        w.blocks[id],
    ) by {
        assert(v.trie_ok(id, v.blocks[id]));
    }
}

/// An unconfirmed trie that is taken up again keeps the index valid.
pub proof fn lemma_resumed_valid(v: MarfView, id: Seq<u8>)
    requires
        v.valid(),
        v.open is None,
        v.blocks.contains_key(id),
        v.blocks[id].unconfirmed,
    ensures
        v.resumed(id).valid(),
{
    let w = v.resumed(id);
    assert(v.trie_ok(id, v.blocks[id]));
    assert forall|b: Seq<u8>| #![trigger w.blocks[b]] w.blocks.contains_key(b) implies w.trie_ok(
        b,
        w.blocks[b],
    ) by {
        assert(v.trie_ok(b, v.blocks[b]));
    }
}

/// Writes whose hashes the side store resolves keep the index valid.
pub proof fn lemma_written_valid(v: MarfView, writes: Seq<(Seq<char>, Seq<u8>)>)
    requires
        v.valid(),
        v.open is Some,
        forall|j: int|
            #![trigger writes[j]]
            0 <= j < writes.len() ==> v.data.contains_key(spec_to_hex(writes[j].1)),
    ensures
        v.written(writes).valid(),
{
    let w = v.written(writes);
    let t0 = v.open_trie();
    let t = w.open_trie();
    let id = v.open_id();
    assert(v.trie_ok(id, t0));
    assert forall|i: int| #![trigger t.chain[i]] 0 <= i < t.chain.len() implies w.ancestor_ok(
        t.chain[i],
        t.chain.take(i),
        t.log,
    ) by {
        assert(v.ancestor_ok(t0.chain[i], t0.chain.take(i), t0.log));
        let a = v.blocks[t0.chain[i]].log;
        assert(a =~= t0.log.subrange(0, a.len() as int));
        assert(a =~= t.log.subrange(0, a.len() as int));
    }
    assert forall|j: int| #![trigger t.log[j]] 0 <= j < t.log.len() implies w.data.contains_key(
        spec_to_hex(t.log[j].1),
    ) by {
        if j < t0.log.len() {
            assert(t.log[j] == t0.log[j]);
        } else {
            assert(t.log[j] == writes[j - t0.log.len()]);
        }
    }
    assert(w.trie_ok(id, t));
    assert forall|b: Seq<u8>| #![trigger w.blocks[b]] w.blocks.contains_key(b) implies w.trie_ok(
        b,
        w.blocks[b],
    ) by {
        assert(v.trie_ok(b, v.blocks[b]));
    }
}

/// The open trie committed under a fresh identifier, or under its own, keeps
/// the index valid.
pub proof fn lemma_committed_valid(v: MarfView, id: Seq<u8>)
    requires
        v.valid(),
        v.open is Some,
        id.len() == 32,
        !v.blocks.contains_key(id) || id == v.open_id(),
    ensures
        v.committed(id).valid(),
{
    let w = v.committed(id);
    let t = v.open_trie();
    assert(v.trie_ok(v.open_id(), t));
    assert(v.trie_ok(sentinel_id(), v.blocks[sentinel_id()]));
    assert(id != sentinel_id());
    assert(t.chain.len() > 0);
    assert forall|b: Seq<u8>| #![trigger w.blocks[b]] w.blocks.contains_key(b) implies w.trie_ok(
        b,
        w.blocks[b],
    ) by {
        let tb = w.blocks[b];
        if b != id {
            assert(v.trie_ok(b, v.blocks[b]));
        }
        assert forall|i: int| #![trigger tb.chain[i]] 0 <= i < tb.chain.len() implies w.ancestor_ok(
            tb.chain[i],
            tb.chain.take(i),
            tb.log,
        ) by {
            assert(v.ancestor_ok(tb.chain[i], tb.chain.take(i), tb.log));
            assert(tb.chain[i] != id);
        }
    }
}

/// The side store has a value for whatever a lookup finds.
pub proof fn lemma_lookup_resolves(v: MarfView, tip: Seq<u8>, key: Seq<char>)
    requires
        v.valid(),
        v.lookup(tip, key) is Some,
    ensures
        v.data.contains_key(spec_to_hex(v.lookup(tip, key)->0)),
{
    let t = v.trie_at(tip)->0;
    assert(v.trie_ok(tip, t));
    let at = lemma_latest_is_written(t.log, key);
    assert(v.data.contains_key(spec_to_hex(t.log[at].1)));
}

/// A value put into the side store keeps the index valid.
pub proof fn lemma_stored_valid(v: MarfView, key: Seq<char>, value: Seq<char>)
    requires
        v.valid(),
    ensures
        (MarfView { data: v.data.insert(key, value), ..v }).valid(),
{
    let w = MarfView { data: v.data.insert(key, value), ..v };
    assert forall|b: Seq<u8>| #![trigger w.blocks[b]] w.blocks.contains_key(b) implies w.trie_ok(
        b,
        w.blocks[b],
    ) by {
        assert(v.trie_ok(b, v.blocks[b]));
    }
    if v.open is Some {
        assert(v.trie_ok(v.open_id(), v.open_trie()));
        assert(w.trie_ok(w.open_id(), w.open_trie()));
    }
}

/// A change of the bookkeeping rows keeps the index valid.
pub proof fn lemma_metadata_valid(v: MarfView, metadata: Seq<(Seq<u8>, Seq<char>, Seq<char>)>)
    requires
        v.valid(),
    ensures
        (MarfView { metadata, ..v }).valid(),
{
    let w = MarfView { metadata, ..v };
    assert forall|b: Seq<u8>| #![trigger w.blocks[b]] w.blocks.contains_key(b) implies w.trie_ok(
        b,
        w.blocks[b],
    ) by {
        assert(v.trie_ok(b, v.blocks[b]));
    }
    if v.open is Some {
        assert(v.trie_ok(v.open_id(), v.open_trie()));
        assert(w.trie_ok(w.open_id(), w.open_trie()));
    }
}

/// Giving up the open trie keeps the index valid.
pub proof fn lemma_rolled_back_valid(v: MarfView)
    requires
        v.valid(),
    ensures
        v.rolled_back().valid(),
{
    let w = v.rolled_back();
    assert forall|b: Seq<u8>| #![trigger w.blocks[b]] w.blocks.contains_key(b) implies w.trie_ok(
        b,
        w.blocks[b],
    ) by {
        assert(v.trie_ok(b, v.blocks[b]));
    }
}

} // verus!
