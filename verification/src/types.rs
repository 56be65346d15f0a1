use vstd::prelude::*;
use vstd::std_specs::cmp::PartialEqSpecImpl;

verus! {

/// Compares two byte slices element by element.
pub fn bytes_equal(a: &[u8], b: &[u8]) -> (r: bool)
    ensures
        r == (a@ == b@),
{
    if a.len() != b.len() {
        return false;
    }
    let mut i: usize = 0;
    while i < a.len()
        invariant
            i <= a.len(),
            a.len() == b.len(),
            forall|j: int| 0 <= j < i ==> a@[j] == b@[j],
        decreases a.len() - i,
    {
        if a[i] != b[i] {
            return false;
        }
        i += 1;
    }
    assert(a@ =~= b@);
    true
}

/// The mathematical value of an optional item.
pub open spec fn view_of<T: View>(o: Option<T>) -> Option<T::V> {
    match o {
        Some(x) => Some(x@),
        None => None,
    }
}

/// The identifier every chain starts from: 32 bytes of 255.
pub open spec fn sentinel_id() -> Seq<u8> {
    Seq::new(32, |i: int| 255u8)
}

/// The all-zero identifier, one of the two names of the first block.
pub open spec fn zero_id() -> Seq<u8> {
    Seq::new(32, |i: int| 0u8)
}

/// Every byte of an identifier inverted: the name of the unconfirmed trie
/// that is built on top of a confirmed block.
pub open spec fn unconfirmed_id(id: Seq<u8>) -> Seq<u8> {
    Seq::new(id.len(), |i: int| id[i] ^ 0xffu8)
}

/// Identifier of a committed or in-progress block: the version key of the index.
#[derive(Clone, Copy, Debug, Eq, Hash)]
pub struct StacksBlockId(pub [u8; 32]);

impl View for StacksBlockId {
    type V = Seq<u8>;

    open spec fn view(&self) -> Seq<u8> {
        self.0@
    }
}

impl PartialEq for StacksBlockId {
    fn eq(&self, other: &StacksBlockId) -> (r: bool) {
        bytes_equal(self.0.as_slice(), other.0.as_slice())
    }
}

impl PartialEqSpecImpl for StacksBlockId {
    open spec fn obeys_eq_spec() -> bool {
        true
    }

    open spec fn eq_spec(&self, other: &StacksBlockId) -> bool {
        self@ == other@
    }
}

impl StacksBlockId {
    /// The parent of every first block.
    pub fn sentinel() -> (id: StacksBlockId)
        ensures
            id@ == sentinel_id(),
    {
        let id = StacksBlockId([255u8; 32]);
        assert(id@ =~= sentinel_id());
        id
    }

    /// The all-zero identifier.
    pub fn zero() -> (id: StacksBlockId)
        ensures
            id@ == zero_id(),
    {
        let id = StacksBlockId([0u8; 32]);
        assert(id@ =~= zero_id());
        id
    }

    /// The identifier of the unconfirmed trie on top of this block.
    pub fn to_unconfirmed(&self) -> (id: StacksBlockId)
        ensures
            id@ == unconfirmed_id(self@),
    {
        let mut bytes: [u8; 32] = [0u8; 32];
        let mut i: usize = 0;
        while i < 32
            invariant
                i <= 32,
                forall|j: int| 0 <= j < i ==> bytes@[j] == (self.0@[j] ^ 0xffu8),
            decreases 32 - i,
        {
            bytes[i] = self.0[i] ^ 0xff;
            i += 1;
        }
        let id = StacksBlockId(bytes);
        assert(id@ =~= unconfirmed_id(self@));
        id
    }
}

/// The header hash under which a block is reported as unknown.
#[derive(Clone, Copy, Debug, PartialEq, Eq, Hash)]
pub struct BlockHeaderHash(pub [u8; 32]);

impl View for BlockHeaderHash {
    type V = Seq<u8>;

    open spec fn view(&self) -> Seq<u8> {
        self.0@
    }
}

/// Root hash of a trie: the digest that commits to everything written on the
/// way to a block.
#[derive(Clone, Copy, Debug, Eq, Hash)]
pub struct TrieHash(pub [u8; 32]);

impl View for TrieHash {
    type V = Seq<u8>;

    open spec fn view(&self) -> Seq<u8> {
        self.0@
    }
}

impl PartialEq for TrieHash {
    fn eq(&self, other: &TrieHash) -> (r: bool) {
        bytes_equal(self.0.as_slice(), other.0.as_slice())
    }
}

impl PartialEqSpecImpl for TrieHash {
    open spec fn obeys_eq_spec() -> bool {
        true
    }

    open spec fn eq_spec(&self, other: &TrieHash) -> bool {
        self@ == other@
    }
}

/// The root hash of a trie nothing was written to: 32 zero bytes.
pub open spec fn empty_root() -> Seq<u8> {
    Seq::new(32, |i: int| 0u8)
}

impl TrieHash {
    /// The root hash of a trie nothing was written to.
    pub fn empty() -> (h: TrieHash)
        ensures
            h@ == empty_root(),
    {
        let h = TrieHash([0u8; 32]);
        assert(h@ =~= empty_root());
        h
    }
}

/// What the index stores for a key: the content hash of the value, followed
/// by eight reserved zero bytes.
#[derive(Clone, Copy, Debug, Eq, Hash)]
pub struct MARFValue(pub [u8; 40]);

impl View for MARFValue {
    type V = Seq<u8>;

    open spec fn view(&self) -> Seq<u8> {
        self.0@
    }
}

impl PartialEq for MARFValue {
    fn eq(&self, other: &MARFValue) -> (r: bool) {
        bytes_equal(self.0.as_slice(), other.0.as_slice())
    }
}

impl PartialEqSpecImpl for MARFValue {
    open spec fn obeys_eq_spec() -> bool {
        true
    }

    open spec fn eq_spec(&self, other: &MARFValue) -> bool {
        self@ == other@
    }
}

/// A content hash widened to the 40 bytes of an index value.
pub open spec fn value_of_hash(hash: Seq<u8>) -> Seq<u8> {
    Seq::new(40, |i: int| if i < 32 { hash[i] } else { 0u8 })
}

impl MARFValue {
    /// Widens a content hash to what the index stores.
    pub fn from_value_hash_bytes(h: &[u8; 32]) -> (v: MARFValue)
        ensures
            v@ == value_of_hash(h@),
    {
        let mut d: [u8; 40] = [0u8; 40];
        let mut i: usize = 0;
        while i < 32
            invariant
                i <= 32,
                forall|j: int| 0 <= j < i ==> d@[j] == h@[j],
                forall|j: int| i <= j < 40 ==> d@[j] == 0u8,
            decreases 32 - i,
        {
            d[i] = h[i];
            i += 1;
        }
        let v = MARFValue(d);
        assert(v@ =~= value_of_hash(h@));
        v
    }
}

} // verus!
