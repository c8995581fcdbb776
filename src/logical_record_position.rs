//! Dense positional index: logical record number to byte offset.
use vstd::prelude::*;

verus! {

/// What a sequence of `(record number, offset)` pairs says about one
/// record number: the offset of the last pair naming it, if any does.
pub open spec fn last_write(pairs: Seq<(u64, u64)>, n: nat) -> Option<u64>
    decreases pairs.len(),
{
    if pairs.len() == 0 {
        None
    } else if pairs.last().0 as nat == n {
        Some(pairs.last().1)
    } else {
        last_write(pairs.drop_last(), n)
    }
}

/// The mapping `m` after all of `pairs` were written into it as one batch.
pub open spec fn extended(m: Map<nat, u64>, pairs: Seq<(u64, u64)>) -> Map<nat, u64> {
    Map::new(
        |n: nat| m.contains_key(n) || last_write(pairs, n) is Some,
        |n: nat|
            match last_write(pairs, n) {
                Some(offset) => offset,
                None => m[n],
            },
    )
}

/// The mapping `m` after each of `pairs` was inserted on its own, in order.
pub open spec fn inserted_in_turn(m: Map<nat, u64>, pairs: Seq<(u64, u64)>) -> Map<nat, u64>
    decreases pairs.len(),
{
    if pairs.len() == 0 {
        m
    } else {
        inserted_in_turn(m, pairs.drop_last()).insert(pairs.last().0 as nat, pairs.last().1)
    }
}

/// Dense, array-backed mapping from logical record number to the byte offset
/// at which that record starts in one physical file.
///
/// A slot that was never written reads as absent, so an offset of zero (the
/// first record of a file) is a value like any other.
pub struct LogicalRecordPositionIndex {
    inner: Vec<Option<u64>>,
}

impl View for LogicalRecordPositionIndex {
    type V = Map<nat, u64>;

    closed spec fn view(&self) -> Map<nat, u64> {
        Map::new(
            |n: nat| n < self.inner@.len() && self.inner@[n as int] is Some,
            |n: nat| self.inner@[n as int]->Some_0,
        )
    }
}

impl LogicalRecordPositionIndex {
    /// The number of slots currently allocated.
    pub closed spec fn slots(&self) -> nat {
        self.inner@.len()
    }

    /// An empty index with `size` slots allocated up front.
    pub fn new_with_size(size: usize) -> (r: Self)
        ensures
            r@ == Map::<nat, u64>::empty(),
            r.slots() == size,
    {
        let mut inner: Vec<Option<u64>> = Vec::with_capacity(size);
        let mut i: usize = 0;
        while i < size
            invariant
                i <= size,
                inner@.len() == i,
                forall|k: int| 0 <= k < i ==> inner@[k] is None,
            decreases size - i,
        {
            inner.push(None);
            i = i + 1;
        }
        let r = Self { inner };
        assert(r@ =~= Map::<nat, u64>::empty());
        r
    }

    /// Records that `logrecno` starts at byte `offset`, growing the storage
    /// when the record number lies past the allocated slots.
    pub fn insert(&mut self, logrecno: u64, offset: u64)
        requires
            logrecno < usize::MAX,
        ensures
            final(self)@ == old(self)@.insert(logrecno as nat, offset),
    {
        let idx: usize = logrecno as usize;
        if idx >= self.inner.len() {
            while self.inner.len() <= idx
                invariant
                    idx < usize::MAX,
                    self.inner@.len() >= old(self).inner@.len(),
                    self.inner@.len() <= idx + 1,
                    forall|k: int|
                        0 <= k < old(self).inner@.len() ==> self.inner@[k] == old(self).inner@[k],
                    forall|k: int|
                        old(self).inner@.len() <= k < self.inner@.len() ==> self.inner@[k] is None,
                decreases idx + 1 - self.inner@.len(),
            {
                self.inner.push(None);
            }
        }
        proof {
            assert(self@ =~= old(self)@);
        }
        self.inner.set(idx, Some(offset));
        proof {
            assert(self@ =~= old(self)@.insert(logrecno as nat, offset));
        }
    }

    /// Writes a batch of `(record number, offset)` pairs; where a record
    /// number occurs more than once, its last pair wins.
    pub fn extend(&mut self, pairs: Vec<(u64, u64)>)
        requires
            forall|i: int| 0 <= i < pairs@.len() ==> #[trigger] pairs@[i].0 < usize::MAX,
        ensures
            final(self)@ == extended(old(self)@, pairs@),
    {
        let mut i: usize = 0;
        while i < pairs.len()
            invariant
                i <= pairs@.len(),
                forall|k: int| 0 <= k < pairs@.len() ==> #[trigger] pairs@[k].0 < usize::MAX,
                self@ == extended(old(self)@, pairs@.take(i as int)),
            decreases pairs@.len() - i,
        {
            let (logrecno, offset) = pairs[i];
            self.insert(logrecno, offset);
            proof {
                let before = pairs@.take(i as int);
                let after = pairs@.take(i + 1);
                assert(after.drop_last() =~= before);
                assert(self@ =~= extended(old(self)@, after));
            }
            i = i + 1;
        }
        proof {
            assert(pairs@.take(i as int) =~= pairs@);
        }
    }

    /// The byte offset of record `logrecno`, or `None` where it was never
    /// written.
    pub fn get(&self, logrecno: u64) -> (r: Option<u64>)
        ensures
            r == (if self@.contains_key(logrecno as nat) {
                Some(self@[logrecno as nat])
            } else {
                None
            }),
    {
        if logrecno >= self.inner.len() as u64 {
            None
        } else {
            self.inner[logrecno as usize]
        }
    }
}

/// A batch write agrees, record number by record number, with the same pairs
/// inserted one at a time in order.
pub proof fn lemma_extend_is_inserts_in_turn(m: Map<nat, u64>, pairs: Seq<(u64, u64)>)
    ensures
        extended(m, pairs) == inserted_in_turn(m, pairs),
    decreases pairs.len(),
{
    if pairs.len() == 0 {
        assert(extended(m, pairs) =~= m);
    } else {
        lemma_extend_is_inserts_in_turn(m, pairs.drop_last());
        assert(extended(m, pairs) =~= extended(m, pairs.drop_last()).insert(
            pairs.last().0 as nat,
            pairs.last().1,
        ));
    }
}

/// After a batch of pairs is written into an empty index, each record number
/// whose pair is not overwritten later in the batch maps to exactly that
/// pair's offset, and a record number named by no pair is absent.
pub proof fn lemma_written_offsets_are_found(pairs: Seq<(u64, u64)>)
    ensures
        forall|i: int|
            0 <= i < pairs.len() && (forall|j: int| i < j < pairs.len() ==> pairs[j].0 != pairs[i].0)
                ==> extended(Map::empty(), pairs).contains_key(pairs[i].0 as nat)
                && extended(Map::empty(), pairs)[pairs[i].0 as nat] == pairs[i].1,
        forall|n: nat|
            (forall|i: int| 0 <= i < pairs.len() ==> pairs[i].0 as nat != n) ==> !extended(
                Map::empty(),
                pairs,
            ).contains_key(n),
    decreases pairs.len(),
{
    if pairs.len() > 0 {
        let init = pairs.drop_last();
        lemma_written_offsets_are_found(init);
        assert forall|i: int|
            0 <= i < pairs.len() && (forall|j: int| i < j < pairs.len() ==> pairs[j].0 != pairs[i].0)
                implies last_write(pairs, pairs[i].0 as nat) == Some(pairs[i].1) by {
            if i < pairs.len() - 1 {
                assert(pairs.last() == pairs[pairs.len() - 1]);
                assert(init[i] == pairs[i]);
                assert forall|j: int| i < j < init.len() implies init[j].0 != init[i].0 by {
                    assert(init[j] == pairs[j]);
                }
                assert(extended(Map::empty(), init)[pairs[i].0 as nat] == pairs[i].1);
            }
        }
        assert forall|n: nat|
            (forall|i: int| 0 <= i < pairs.len() ==> pairs[i].0 as nat != n) implies last_write(
                pairs,
                n,
            ) is None by {
            assert forall|i: int| 0 <= i < init.len() implies init[i].0 as nat != n by {
                assert(init[i] == pairs[i]);
            }
            assert(pairs.last() == pairs[pairs.len() - 1]);
            assert(!extended(Map::empty(), init).contains_key(n));
        }
    }
}

} // verus!
