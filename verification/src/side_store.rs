use vstd::prelude::*;
use crate::lookup::latest;
use crate::types::{StacksBlockId, view_of};

verus! {

/// One row of block bookkeeping: the block it belongs to, its key and its
/// value.
pub struct MetadataRow {
    pub blockhash: StacksBlockId,
    pub key: String,
    pub value: String,
}

impl View for MetadataRow {
    type V = (Seq<u8>, Seq<char>, Seq<char>);

    open spec fn view(&self) -> (Seq<u8>, Seq<char>, Seq<char>) {
        (self.blockhash@, self.key@, self.value@)
    }
}

/// The bookkeeping rows that are left when those of one block are removed.
pub open spec fn metadata_without(
    rows: Seq<(Seq<u8>, Seq<char>, Seq<char>)>,
    tip: Seq<u8>,
) -> Seq<(Seq<u8>, Seq<char>, Seq<char>)>
    decreases rows.len(),
{
    if rows.len() == 0 {
        rows
    } else if rows.last().0 == tip {
        metadata_without(rows.drop_last(), tip)
    } else {
        metadata_without(rows.drop_last(), tip).push(rows.last())
    }
}

/// The bookkeeping rows after the rows of block `from` were handed to block
/// `to`.
pub open spec fn metadata_renamed(
    rows: Seq<(Seq<u8>, Seq<char>, Seq<char>)>,
    from: Seq<u8>,
    to: Seq<u8>,
) -> Seq<(Seq<u8>, Seq<char>, Seq<char>)> {
    Seq::new(
        rows.len(),
        |i: int|
            if rows[i].0 == from {
                (to, rows[i].1, rows[i].2)
            } else {
                rows[i]
            },
    )
}

/// The value of the most recent bookkeeping row of a block under a key.
pub open spec fn metadata_latest(
    rows: Seq<(Seq<u8>, Seq<char>, Seq<char>)>,
    tip: Seq<u8>,
    key: Seq<char>,
) -> Option<Seq<char>>
    decreases rows.len(),
{
    if rows.len() == 0 {
        None
    } else if rows.last().0 == tip && rows.last().1 == key {
        Some(rows.last().2)
    } else {
        metadata_latest(rows.drop_last(), tip, key)
    }
}

/// The content-addressed store of values, with the bookkeeping rows of the
/// blocks beside it.
pub struct SideStore {
    rows: Vec<(String, String)>,
    metadata: Vec<MetadataRow>,
}

impl SideStore {
    /// The rows of values in the order they were stored, as texts.
    pub closed spec fn row_log(&self) -> Seq<(Seq<char>, Seq<char>)> {
        Seq::new(self.rows@.len(), |i: int| (self.rows@[i].0@, self.rows@[i].1@))
    }

    /// The values by their keys.
    pub closed spec fn data(&self) -> Map<Seq<char>, Seq<char>> {
        Map::new(
            |k: Seq<char>| latest(self.row_log(), k) is Some,
            |k: Seq<char>| latest(self.row_log(), k)->0,
        )
    }

    /// The bookkeeping rows, the oldest first.
    pub closed spec fn metadata(&self) -> Seq<(Seq<u8>, Seq<char>, Seq<char>)> {
        Seq::new(self.metadata@.len(), |i: int| self.metadata@[i]@)
    }

    /// An empty side store.
    pub fn new() -> (s: SideStore)
        ensures
            s.data() == Map::<Seq<char>, Seq<char>>::empty(),
            s.metadata() == Seq::<(Seq<u8>, Seq<char>, Seq<char>)>::empty(),
    {
        let s = SideStore { rows: Vec::new(), metadata: Vec::new() };
        assert(s.row_log() =~= Seq::empty());
        assert(s.data() =~= Map::empty());
        assert(s.metadata() =~= Seq::empty());
        s
    }

    /// The value stored under a key, if there is one.
    pub fn get(&self, key: &str) -> (r: Option<String>)
        ensures
            view_of(r) == (if self.data().contains_key(key@) {
                Some(self.data()[key@])
            } else {
                None
            }),
    {
        let wanted: String = key.to_owned();
        let mut i: usize = self.rows.len();
        assert(self.row_log().take(i as int) =~= self.row_log());
        while i > 0
            invariant
                i <= self.rows.len(),
                wanted@ == key@,
                latest(self.row_log(), key@) == latest(self.row_log().take(i as int), key@),
            decreases i,
        {
            i -= 1;
            proof {
                let upto = self.row_log().take(i + 1);
                assert(upto.drop_last() =~= self.row_log().take(i as int));
                assert(upto.last() == self.row_log()[i as int]);
            }
            if self.rows[i].0 == wanted {
                return Some(self.rows[i].1.clone());
            }
        }
        None
    }

    /// Stores a value under a key. Storing what is there already changes
    /// nothing.
    pub fn put(&mut self, key: &str, value: &str)
        ensures
            final(self).data() == old(self).data().insert(key@, value@),
            final(self).metadata() == old(self).metadata(),
            old(self).data().contains_key(key@) && old(self).data()[key@] == value@
                ==> final(self).data() == old(self).data(),
    {
        let new_value: String = value.to_owned();
        match self.get(key) {
            Some(present) => {
                if present == new_value {
                    assert(self.data() =~= old(self).data().insert(key@, value@));
                    return ;
                }
            },
            None => {},
        }
        self.rows.push((key.to_owned(), new_value));
        proof {
            assert(self.row_log().drop_last() =~= old(self).row_log());
            assert(self.row_log().last() == (key@, value@));
            assert(self.data() =~= old(self).data().insert(key@, value@));
            assert(self.metadata() =~= old(self).metadata());
        }
    }

    /// Adds a bookkeeping row to a block.
    pub fn insert_metadata(&mut self, tip: &StacksBlockId, key: &str, value: &str)
        ensures
            final(self).metadata() == old(self).metadata().push((tip@, key@, value@)),
            final(self).data() == old(self).data(),
    {
        self.metadata.push(
            MetadataRow { blockhash: *tip, key: key.to_owned(), value: value.to_owned() },
        );
        proof {
            assert(self.metadata() =~= old(self).metadata().push((tip@, key@, value@)));
            assert(self.row_log() =~= old(self).row_log());
        }
    }

    /// The value of the most recent bookkeeping row of a block under a key.
    pub fn get_metadata(&self, tip: &StacksBlockId, key: &str) -> (r: Option<String>)
        ensures
            view_of(r) == metadata_latest(self.metadata(), tip@, key@),
    {
        let wanted: String = key.to_owned();
        let mut i: usize = self.metadata.len();
        assert(self.metadata().take(i as int) =~= self.metadata());
        while i > 0
            invariant
                i <= self.metadata.len(),
                wanted@ == key@,
                metadata_latest(self.metadata(), tip@, key@) == metadata_latest(
                    self.metadata().take(i as int),
                    tip@,
                    key@,
                ),
            decreases i,
        {
            i -= 1;
            proof {
                let upto = self.metadata().take(i + 1);
                assert(upto.drop_last() =~= self.metadata().take(i as int));
                assert(upto.last() == self.metadata()[i as int]);
            }
            if self.metadata[i].blockhash == *tip && self.metadata[i].key == wanted {
                return Some(self.metadata[i].value.clone());
            }
        }
        None
    }

    /// Removes the bookkeeping rows of a block.
    pub fn drop_metadata(&mut self, tip: &StacksBlockId)
        ensures
            final(self).metadata() == metadata_without(old(self).metadata(), tip@),
            final(self).data() == old(self).data(),
    {
        let mut kept: Vec<MetadataRow> = Vec::new();
        let mut i: usize = 0;
        while i < self.metadata.len()
            invariant
                i <= self.metadata.len(),
                *self == *old(self),
                Seq::new(kept@.len(), |j: int| kept@[j]@) == metadata_without(
                    self.metadata().take(i as int),
                    tip@,
                ),
            decreases self.metadata.len() - i,
        {
            let ghost before = Seq::new(kept@.len(), |j: int| kept@[j]@);
            proof {
                let upto = self.metadata().take(i + 1);
                assert(upto.drop_last() =~= self.metadata().take(i as int));
                assert(upto.last() == self.metadata()[i as int]);
            }
            if !(self.metadata[i].blockhash == *tip) {
                let row = MetadataRow {
                    blockhash: self.metadata[i].blockhash,
                    key: self.metadata[i].key.clone(),
                    value: self.metadata[i].value.clone(),
                };
                kept.push(row);
                assert(Seq::new(kept@.len(), |j: int| kept@[j]@) =~= before.push(
                    self.metadata()[i as int],
                ));
            }
            i += 1;
        }
        proof {
            assert(self.metadata().take(i as int) =~= self.metadata());
        }
        self.metadata = kept;
        proof {
            assert(self.metadata() =~= metadata_without(old(self).metadata(), tip@));
            assert(self.row_log() =~= old(self).row_log());
        }
    }

    /// Hands the bookkeeping rows of block `from` to block `to`.
    pub fn commit_metadata_to(&mut self, from: &StacksBlockId, to: &StacksBlockId)
        ensures
            final(self).metadata() == metadata_renamed(old(self).metadata(), from@, to@),
            final(self).data() == old(self).data(),
    {
        let mut moved: Vec<MetadataRow> = Vec::new();
        let mut i: usize = 0;
        while i < self.metadata.len()
            invariant
                i <= self.metadata.len(),
                *self == *old(self),
                moved@.len() == i,
                forall|j: int|
                    0 <= j < i ==> (#[trigger] moved@[j])@ == metadata_renamed(
                        self.metadata(),
                        from@,
                        to@,
                    )[j],
            decreases self.metadata.len() - i,
        {
            let blockhash = if self.metadata[i].blockhash == *from {
                *to
            } else {
                self.metadata[i].blockhash
            };
            moved.push(
                MetadataRow {
                    blockhash,
                    key: self.metadata[i].key.clone(),
                    value: self.metadata[i].value.clone(),
                },
            );
            i += 1;
        }
        self.metadata = moved;
        proof {
            assert(self.metadata() =~= metadata_renamed(old(self).metadata(), from@, to@));
            assert(self.row_log() =~= old(self).row_log());
        }
    }
}

} // verus!
