use vstd::prelude::*;

verus! {

/// The value that the most recent write to `key` gave it, in a log of writes
/// with the oldest first.
pub open spec fn latest<V>(log: Seq<(Seq<char>, V)>, key: Seq<char>) -> Option<V>
    decreases log.len(),
{
    if log.len() == 0 {
        None
    } else if log.last().0 == key {
        Some(log.last().1)
    } else {
        latest(log.drop_last(), key)
    }
}

/// Writes that follow a log decide a lookup wherever they mention the key;
/// elsewhere the log itself decides.
pub proof fn lemma_latest_append<V>(
    log: Seq<(Seq<char>, V)>,
    more: Seq<(Seq<char>, V)>,
    key: Seq<char>,
)
    ensures
        latest(log + more, key) == match latest(more, key) {
            Some(v) => Some(v),
            None => latest(log, key),
        },
    decreases more.len(),
{
    if more.len() == 0 {
        assert(log + more =~= log);
    } else {
        assert((log + more).drop_last() =~= log + more.drop_last());
        assert((log + more).last() == more.last());
        lemma_latest_append(log, more.drop_last(), key);
    }
}

/// A value that a lookup finds was written at some place of the log.
pub proof fn lemma_latest_is_written<V>(log: Seq<(Seq<char>, V)>, key: Seq<char>) -> (at: int)
    requires
        latest(log, key) is Some,
    ensures
        0 <= at < log.len(),
        log[at].0 == key,
        latest(log, key) == Some(log[at].1),
        forall|j: int| at < j < log.len() ==> log[j].0 != key,
    decreases log.len(),
{
    if log.last().0 == key {
        log.len() - 1
    } else {
        let at = lemma_latest_is_written(log.drop_last(), key);
        assert forall|j: int| at < j < log.len() implies log[j].0 != key by {
            if j < log.len() - 1 {
                assert(log[j] == log.drop_last()[j]);
            }
        }
        at
    }
}

} // verus!
