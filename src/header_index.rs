//! The header index: geographic identifier to (logical record number, byte
//! offset of the line in the header file).
//!
//! Identifiers are bucketed by their FNV-1a digest in an ordered map, and
//! compared byte for byte within a bucket.
use vstd::prelude::*;

use std::collections::BTreeMap;

use crate::error::DatasetError;
use crate::text::bytes_eq;

verus! {

broadcast use {vstd::std_specs::btree::group_btree_axioms, vstd::laws_cmp::group_laws_cmp};

/// The 64-bit FNV-1a digest of a byte string.
pub uninterp spec fn fnv_digest(bytes: Seq<u8>) -> u64;

/// Relies on `fnv::FnvHasher` (default key): after `write(bytes)`, `finish`
/// returns the FNV-1a digest of `bytes`, which depends on those bytes alone.
#[verifier::external_body]
fn digest(bytes: &[u8]) -> (r: u64)
    ensures
        r == fnv_digest(bytes@),
{
    let mut hasher = fnv::FnvHasher::default();
    std::hash::Hasher::write(&mut hasher, bytes);
    std::hash::Hasher::finish(&hasher)
}

/// One indexed header line.
pub struct HeaderEntry {
    pub geoid: Vec<u8>,
    pub logrecno: u64,
    pub offset: u64,
}

/// Mapping from geographic identifier to (logical record number, byte offset
/// of its line in the header file). Identifiers are unique.
pub struct HeaderIndex {
    buckets: BTreeMap<u64, Vec<HeaderEntry>>,
    model: Ghost<Map<Seq<u8>, (u64, u64)>>,
}

impl View for HeaderIndex {
    type V = Map<Seq<u8>, (u64, u64)>;

    closed spec fn view(&self) -> Map<Seq<u8>, (u64, u64)> {
        self.model@
    }
}

impl HeaderIndex {
    /// Every entry sits in the bucket of its digest, once, and the buckets
    /// hold exactly the mapping.
    pub closed spec fn wf(&self) -> bool {
        &&& forall|h: u64, i: int|
            #![trigger self.buckets@[h]@[i]]
            self.buckets@.contains_key(h) && 0 <= i < self.buckets@[h]@.len() ==> {
                let e = self.buckets@[h]@[i];
                &&& fnv_digest(e.geoid@) == h
                &&& self.model@.contains_key(e.geoid@)
                &&& self.model@[e.geoid@] == (e.logrecno, e.offset)
            }
        &&& forall|h: u64, i: int, j: int|
            #![trigger self.buckets@[h]@[i], self.buckets@[h]@[j]]
            self.buckets@.contains_key(h) && 0 <= i < j < self.buckets@[h]@.len()
                ==> self.buckets@[h]@[i].geoid@ != self.buckets@[h]@[j].geoid@
        &&& forall|k: Seq<u8>|
            #[trigger] self.model@.contains_key(k) ==> self.buckets@.contains_key(fnv_digest(k))
                && exists|i: int|
                0 <= i < self.buckets@[fnv_digest(k)]@.len()
                    && #[trigger] self.buckets@[fnv_digest(k)]@[i].geoid@ == k
    }

    /// An empty index.
    pub fn new() -> (r: Self)
        ensures
            r.wf(),
            r@ == Map::<Seq<u8>, (u64, u64)>::empty(),
    {
        HeaderIndex { buckets: BTreeMap::new(), model: Ghost(Map::empty()) }
    }

    /// The position of `geoid` in the bucket of digest `h`.
    fn find(&self, h: u64, geoid: &[u8]) -> (r: Option<usize>)
        requires
            self.wf(),
            h == fnv_digest(geoid@),
        ensures
            match r {
                Some(i) => self.buckets@.contains_key(h) && i < self.buckets@[h]@.len()
                    && self.buckets@[h]@[i as int].geoid@ == geoid@,
                None => !self@.contains_key(geoid@),
            },
    {
        match self.buckets.get(&h) {
            None => None,
            Some(bucket) => {
                let mut i: usize = 0;
                while i < bucket.len()
                    invariant
                        self.wf(),
                        h == fnv_digest(geoid@),
                        self.buckets@.contains_key(h),
                        *bucket == self.buckets@[h],
                        i <= bucket@.len(),
                        forall|k: int| 0 <= k < i ==> bucket@[k].geoid@ != geoid@,
                    decreases bucket@.len() - i,
                {
                    if bytes_eq(bucket[i].geoid.as_slice(), geoid) {
                        return Some(i);
                    }
                    i = i + 1;
                }
                None
            },
        }
    }

    /// The logical record number and line offset of `geoid`.
    pub fn get(&self, geoid: &[u8]) -> (r: Option<(u64, u64)>)
        requires
            self.wf(),
        ensures
            r == (if self@.contains_key(geoid@) {
                Some(self@[geoid@])
            } else {
                None
            }),
    {
        let h = digest(geoid);
        match self.find(h, geoid) {
            None => None,
            Some(i) => {
                let bucket = self.buckets.get(&h).unwrap();
                let e = &bucket[i];
                assert(self.buckets@[h]@[i as int] == *e);
                Some((e.logrecno, e.offset))
            },
        }
    }

    /// Adds `geoid`, unless it is there already.
    pub fn insert(&mut self, geoid: Vec<u8>, logrecno: u64, offset: u64) -> (r: Result<
        (),
        DatasetError,
    >)
        requires
            old(self).wf(),
        ensures
            final(self).wf(),
            old(self)@.contains_key(geoid@) ==> r == Err::<(), DatasetError>(
                DatasetError::DuplicateGeoId,
            ) && final(self)@ == old(self)@,
            !old(self)@.contains_key(geoid@) ==> r is Ok && final(self)@ == old(self)@.insert(
                geoid@,
                (logrecno, offset),
            ),
    {
        let h = digest(geoid.as_slice());
        if let Some(i) = self.find(h, geoid.as_slice()) {
            proof {
                let e = self.buckets@[h]@[i as int];
                assert(self@.contains_key(e.geoid@));
            }
            return Err(DatasetError::DuplicateGeoId);
        }
        let ghost old_buckets = self.buckets@;
        let ghost key = geoid@;
        let mut bucket = match self.buckets.remove(&h) {
            Some(b) => b,
            None => Vec::new(),
        };
        let ghost old_bucket = bucket@;
        assert(old_buckets.contains_key(h) ==> old_bucket == old_buckets[h]@);
        assert(!old_buckets.contains_key(h) ==> old_bucket.len() == 0);
        bucket.push(HeaderEntry { geoid, logrecno, offset });
        self.buckets.insert(h, bucket);
        self.model = Ghost(self.model@.insert(key, (logrecno, offset)));
        proof {
            let nb = self.buckets@;
            assert forall|g: u64, i: int|
                #![trigger nb[g]@[i]]
                nb.contains_key(g) && 0 <= i < nb[g]@.len() implies {
                let e = nb[g]@[i];
                &&& fnv_digest(e.geoid@) == g
                &&& self.model@.contains_key(e.geoid@)
                &&& self.model@[e.geoid@] == (e.logrecno, e.offset)
            } by {
                if g == h {
                    if i < old_bucket.len() {
                        assert(nb[g]@[i] == old_buckets[h]@[i]);
                    }
                } else {
                    assert(nb[g] == old_buckets[g]);
                }
            }
            assert forall|g: u64, i: int, j: int|
                #![trigger nb[g]@[i], nb[g]@[j]]
                nb.contains_key(g) && 0 <= i < j < nb[g]@.len() implies nb[g]@[i].geoid@
                != nb[g]@[j].geoid@ by {
                if g == h {
                    if j < old_bucket.len() {
                        assert(nb[g]@[i] == old_buckets[h]@[i]);
                        assert(nb[g]@[j] == old_buckets[h]@[j]);
                    } else {
                        assert(nb[g]@[i] == old_buckets[h]@[i]);
                        assert(old_buckets[h]@[i].geoid@ != key);
                    }
                } else {
                    assert(nb[g] == old_buckets[g]);
                }
            }
            assert forall|k: Seq<u8>| #[trigger] self.model@.contains_key(k) implies nb.contains_key(
                fnv_digest(k),
            ) && exists|i: int|
                0 <= i < nb[fnv_digest(k)]@.len() && #[trigger] nb[fnv_digest(k)]@[i].geoid@
                    == k by {
                if k == key {
                    assert(nb[h]@[old_bucket.len() as int].geoid@ == k);
                } else {
                    let g = fnv_digest(k);
                    let i = choose|i: int|
                        0 <= i < old_buckets[g]@.len() && #[trigger] old_buckets[g]@[i].geoid@
                            == k;
                    if g == h {
                        assert(nb[g]@[i] == old_buckets[g]@[i]);
                    } else {
                        assert(nb[g] == old_buckets[g]);
                    }
                }
            }
        }
        Ok(())
    }
}

} // verus!
