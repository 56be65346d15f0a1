use vstd::prelude::*;
use crate::hash::spec_extend_root;
use crate::lookup::latest;
use crate::model::{spec_root, spec_root_from};
use crate::types::{MARFValue, TrieHash, empty_root};

verus! {

/// A membership proof as a mathematical value.
pub struct ProofView {
    /// The root hash before the write that the proof is about.
    pub before: Seq<u8>,
    /// What the write gave the key.
    pub value: Seq<u8>,
    /// Every write after it, the oldest first.
    pub after: Seq<(Seq<char>, Seq<u8>)>,
}

/// Evidence that a trie with a given root hash holds a value for a key: the
/// root hash before the key was last written, and every write since.
pub struct TrieMerkleProof {
    before: TrieHash,
    value: MARFValue,
    after: Vec<(String, MARFValue)>,
}

impl View for TrieMerkleProof {
    type V = ProofView;

    closed spec fn view(&self) -> ProofView {
        ProofView {
            before: self.before@,
            value: self.value@,
            after: Seq::new(self.after@.len(), |i: int| (self.after@[i].0@, self.after@[i].1@)),
        }
    }
}

/// The place of the most recent write to `key` in a log, or -1.
pub open spec fn latest_at<V>(log: Seq<(Seq<char>, V)>, key: Seq<char>) -> int
    decreases log.len(),
{
    if log.len() == 0 {
        -1
    } else if log.last().0 == key {
        log.len() - 1
    } else {
        latest_at(log.drop_last(), key)
    }
}

/// The proof that a trie with the given writes gives for a key it holds.
pub open spec fn spec_proof(log: Seq<(Seq<char>, Seq<u8>)>, key: Seq<char>) -> ProofView {
    let at = latest_at(log, key);
    ProofView { before: spec_root(log.take(at)), value: log[at].1, after: log.skip(at + 1) }
}

/// Whether a proof shows that a trie with root hash `root` holds `value` for
/// `key`: the proof is about this value, nothing after it writes to the key,
/// and the writes lead from the root hash before it to `root`.
pub open spec fn spec_verify(p: ProofView, key: Seq<char>, value: Seq<u8>, root: Seq<u8>) -> bool {
    &&& p.value == value
    &&& forall|j: int| #![trigger p.after[j]] 0 <= j < p.after.len() ==> p.after[j].0 != key
    &&& spec_root_from(spec_extend_root(p.before, key, value), p.after) == root
}

/// The most recent write to a key stands at its place, and nothing after it
/// writes to the key.
pub proof fn lemma_latest_at<V>(log: Seq<(Seq<char>, V)>, key: Seq<char>)
    ensures
        -1 <= latest_at(log, key) < log.len(),
        latest_at(log, key) >= 0 <==> latest(log, key) is Some,
        latest_at(log, key) >= 0 ==> log[latest_at(log, key)].0 == key && latest(log, key) == Some(
            log[latest_at(log, key)].1,
        ),
        forall|j: int| latest_at(log, key) < j < log.len() ==> log[j].0 != key,
    decreases log.len(),
{
    if log.len() > 0 && log.last().0 != key {
        lemma_latest_at(log.drop_last(), key);
        assert forall|j: int| latest_at(log, key) < j < log.len() implies log[j].0 != key by {
            if j < log.len() - 1 {
                assert(log[j] == log.drop_last()[j]);
            }
        }
    }
}

/// Writes in two parts lead to the root hash that the second part leads to
/// from where the first part ends.
pub proof fn lemma_root_from_append(
    start: Seq<u8>,
    first: Seq<(Seq<char>, Seq<u8>)>,
    second: Seq<(Seq<char>, Seq<u8>)>,
)
    ensures
        spec_root_from(start, first + second) == spec_root_from(
            spec_root_from(start, first),
            second,
        ),
    decreases second.len(),
{
    if second.len() == 0 {
        assert(first + second =~= first);
    } else {
        assert((first + second).drop_last() =~= first + second.drop_last());
        assert((first + second).last() == second.last());
        lemma_root_from_append(start, first, second.drop_last());
    }
}

/// The proof that a trie gives for a key it holds shows the value it holds
/// under the root hash it has.
pub proof fn lemma_proof_verifies(log: Seq<(Seq<char>, Seq<u8>)>, key: Seq<char>)
    requires
        latest(log, key) is Some,
    ensures
        spec_verify(spec_proof(log, key), key, latest(log, key)->0, spec_root(log)),
{
    lemma_latest_at(log, key);
    let at = latest_at(log, key);
    let p = spec_proof(log, key);
    let head = log.take(at);
    let one = seq![log[at]];
    assert(log =~= head + one + p.after);
    lemma_root_from_append(empty_root(), head + one, p.after);
    lemma_root_from_append(empty_root(), head, one);
    assert(one.drop_last() =~= Seq::empty());
    assert(spec_root_from(spec_root(head), one.drop_last()) == spec_root(head));
    assert(one.last() == log[at]);
    assert(spec_root_from(spec_root(head), one) == spec_extend_root(
        spec_root(head),
        key,
        log[at].1,
    ));
    assert forall|j: int| #![trigger p.after[j]] 0 <= j < p.after.len() implies p.after[j].0
        != key by {
        assert(p.after[j] == log[at + 1 + j]);
    }
}

impl TrieMerkleProof {
    /// Puts a proof together from its parts.
    pub fn new(before: TrieHash, value: MARFValue, after: Vec<(String, MARFValue)>) -> (p:
        TrieMerkleProof)
        ensures
            p@ == (ProofView {
                before: before@,
                value: value@,
                after: Seq::new(after@.len(), |i: int| (after@[i].0@, after@[i].1@)),
            }),
    {
        TrieMerkleProof { before, value, after }
    }

    /// Checks the proof: whether it shows that a trie with root hash `root`
    /// holds `value` for `key`.
    pub fn verify(&self, key: &str, value: &MARFValue, root: &TrieHash) -> (ok: bool)
        ensures
            ok == spec_verify(self@, key@, value@, root@),
    {
        if !(self.value == *value) {
            return false;
        }
        let wanted: String = key.to_owned();
        let mut at: TrieHash = self.before.extend(key, value);
        let mut i: usize = 0;
        while i < self.after.len()
            invariant
                i <= self.after.len(),
                wanted@ == key@,
                at@ == spec_root_from(
                    spec_extend_root(self@.before, key@, value@),
                    self@.after.take(i as int),
                ),
                forall|j: int| #![trigger self@.after[j]] 0 <= j < i ==> self@.after[j].0 != key@,
            decreases self.after.len() - i,
        {
            if self.after[i].0 == wanted {
                assert(self@.after[i as int].0 == key@);
                return false;
            }
            at = at.extend(self.after[i].0.as_str(), &self.after[i].1);
            proof {
                let upto = self@.after.take(i + 1);
                assert(upto.drop_last() =~= self@.after.take(i as int));
                assert(upto.last() == self@.after[i as int]);
            }
            i += 1;
        }
        assert(self@.after.take(i as int) =~= self@.after);
        at == *root
    }
}

} // verus!
