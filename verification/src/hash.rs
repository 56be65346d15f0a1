use vstd::prelude::*;
use vstd::utf8::encode_utf8;
use sha2::Digest;
use crate::hex::{spec_to_hex, to_hex};
use crate::types::{MARFValue, StacksBlockId, TrieHash, value_of_hash};

verus! {

/// The SHA-512/256 digest of a byte string.
pub uninterp spec fn spec_sha512_256(data: Seq<u8>) -> Seq<u8>;

/// `sha2::Sha512_256::digest`: the 32-byte SHA-512/256 digest of `data`, a
/// function of the bytes alone.
#[verifier::external_body]
fn sha512_256(data: &[u8]) -> (out: [u8; 32])
    ensures
        out@ == spec_sha512_256(data@),
{
    sha2::Sha512_256::digest(data).into()
}

/// What the index stores for a value: its digest, widened to 40 bytes.
pub open spec fn spec_marf_value(value: Seq<char>) -> Seq<u8> {
    value_of_hash(spec_sha512_256(encode_utf8(value)))
}

/// The key under which the side store holds a value.
pub open spec fn spec_side_key(value: Seq<char>) -> Seq<char> {
    spec_to_hex(spec_marf_value(value))
}

/// The root hash after one more write: the digest of the root before it, the
/// digest of the key and the 40 bytes of the value, in this order.
pub open spec fn spec_extend_root(root: Seq<u8>, key: Seq<char>, value: Seq<u8>) -> Seq<u8> {
    spec_sha512_256(root + spec_sha512_256(encode_utf8(key)) + value)
}

/// The identifier of a block: the digest of its header hash followed by the
/// consensus hash it was accepted under.
pub open spec fn spec_index_block_hash(consensus_hash: Seq<u8>, block_hash: Seq<u8>) -> Seq<u8> {
    spec_sha512_256(block_hash + consensus_hash)
}

/// The identifier of the first block: both of its hashes are zero.
pub open spec fn first_block_id() -> Seq<u8> {
    spec_index_block_hash(Seq::new(20, |i: int| 0u8), Seq::new(32, |i: int| 0u8))
}

fn append_bytes(out: &mut Vec<u8>, bytes: &[u8])
    ensures
        final(out)@ == old(out)@ + bytes@,
{
    let mut i: usize = 0;
    while i < bytes.len()
        invariant
            i <= bytes.len(),
            out@ == old(out)@ + bytes@.take(i as int),
        decreases bytes.len() - i,
    {
        out.push(bytes[i]);
        assert(bytes@.take(i + 1) =~= bytes@.take(i as int).push(bytes@[i as int]));
        i += 1;
    }
    assert(bytes@.take(bytes.len() as int) =~= bytes@);
}

impl MARFValue {
    /// Hashes a value into what the index stores for it.
    pub fn from_value(s: &str) -> (v: MARFValue)
        ensures
            v@ == spec_marf_value(s@),
    {
        let digest = sha512_256(s.as_bytes());
        MARFValue::from_value_hash_bytes(&digest)
    }

    /// The side-store key of the value this stands for.
    pub fn to_hex(&self) -> (s: String)
        ensures
            s@ == spec_to_hex(self@),
    {
        to_hex(self.0.as_slice())
    }
}

impl TrieHash {
    /// The root hash after `key` was given `value`.
    pub fn extend(&self, key: &str, value: &MARFValue) -> (h: TrieHash)
        ensures
            h@ == spec_extend_root(self@, key@, value@),
    {
        let key_digest = sha512_256(key.as_bytes());
        let mut buf: Vec<u8> = Vec::new();
        append_bytes(&mut buf, self.0.as_slice());
        append_bytes(&mut buf, key_digest.as_slice());
        append_bytes(&mut buf, value.0.as_slice());
        assert(buf@ =~= self@ + spec_sha512_256(encode_utf8(key@)) + value@);
        TrieHash(sha512_256(buf.as_slice()))
    }
}

impl StacksBlockId {
    /// Names a block by its header hash and the consensus hash it was
    /// accepted under.
    pub fn make_index_block_hash(consensus_hash: &[u8; 20], block_hash: &[u8; 32]) -> (id:
        StacksBlockId)
        ensures
            id@ == spec_index_block_hash(consensus_hash@, block_hash@),
    {
        let mut buf: Vec<u8> = Vec::new();
        append_bytes(&mut buf, block_hash.as_slice());
        append_bytes(&mut buf, consensus_hash.as_slice());
        assert(buf@ =~= block_hash@ + consensus_hash@);
        StacksBlockId(sha512_256(buf.as_slice()))
    }

    /// The identifier of the first block of the chain.
    pub fn first_block() -> (id: StacksBlockId)
        ensures
            id@ == first_block_id(),
    {
        let consensus_hash: [u8; 20] = [0u8; 20];
        let block_hash: [u8; 32] = [0u8; 32];
        assert(consensus_hash@ =~= Seq::new(20, |i: int| 0u8));
        assert(block_hash@ =~= Seq::new(32, |i: int| 0u8));
        StacksBlockId::make_index_block_hash(&consensus_hash, &block_hash)
    }

    /// The identifier as hexadecimal text.
    pub fn to_hex(&self) -> (s: String)
        ensures
            s@ == spec_to_hex(self@),
    {
        to_hex(self.0.as_slice())
    }
}

} // verus!
