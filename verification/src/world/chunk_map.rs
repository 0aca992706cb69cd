use vstd::prelude::*;
use std::collections::HashMap;
use vstd::std_specs::iter::IteratorSpec;
use crate::util::int_vec::IVec2;

verus! {

broadcast use vstd::std_specs::hash::group_hash_axioms;

/// The key of a chunk position: both coordinates shifted to be non-negative,
/// `x` in the high 32 bits and `y` in the low 32 bits.
pub open spec fn chunk_key(p: IVec2) -> u64 {
    ((p.x + 2147483648) * 4294967296 + (p.y + 2147483648)) as u64
}

/// The chunk position whose key is `k`.
pub open spec fn key_pos(k: u64) -> IVec2 {
    IVec2 { x: (k / 4294967296 - 2147483648) as i32, y: (k % 4294967296 - 2147483648) as i32 }
}

/// Keys and positions correspond one to one.
pub proof fn lemma_chunk_key_bijective(p: IVec2, k: u64)
    ensures
        key_pos(chunk_key(p)) == p,
        chunk_key(key_pos(k)) == k,
{
}

fn key_of(p: IVec2) -> (k: u64)
    ensures
        k == chunk_key(p),
{
    let hi = (p.x as i64 + 2147483648) as u64;
    let lo = (p.y as i64 + 2147483648) as u64;
    hi * 4294967296 + lo
}

fn pos_of(k: u64) -> (p: IVec2)
    ensures
        p == key_pos(k),
{
    IVec2 { x: ((k / 4294967296) as i64 - 2147483648) as i32, y: ((k % 4294967296) as i64 - 2147483648) as i32 }
}

/// Chunks by position.
pub struct ChunkMap<V> {
    inner: HashMap<u64, V>,
}

impl<V> ChunkMap<V> {
    /// The chunks by position.
    pub closed spec fn view(&self) -> Map<IVec2, V> {
        Map::new(
            |p: IVec2| self.inner@.contains_key(chunk_key(p)),
            |p: IVec2| self.inner@[chunk_key(p)],
        )
    }

    pub fn new() -> (r: Self)
        ensures
            r@ == Map::<IVec2, V>::empty(),
    {
        let r = Self { inner: HashMap::new() };
        proof {
            assert(r@ =~= Map::<IVec2, V>::empty());
        }
        r
    }

    pub fn contains(&self, pos: IVec2) -> (r: bool)
        ensures
            r == self@.contains_key(pos),
    {
        let k = key_of(pos);
        self.inner.contains_key(&k)
    }

    pub fn get(&self, pos: IVec2) -> (r: Option<&V>)
        ensures
            r == (if self@.contains_key(pos) {
                Some(&self@[pos])
            } else {
                None
            }),
    {
        let k = key_of(pos);
        self.inner.get(&k)
    }

    pub fn insert(&mut self, pos: IVec2, v: V)
        ensures
            final(self)@ == old(self)@.insert(pos, v),
    {
        let k = key_of(pos);
        self.inner.insert(k, v);
        proof {
            assert forall|p: IVec2| chunk_key(p) == k implies p == pos by {
                lemma_chunk_key_bijective(p, k);
                lemma_chunk_key_bijective(pos, k);
            }
            assert(self@ =~= old(self)@.insert(pos, v));
        }
    }

    pub fn remove(&mut self, pos: IVec2) -> (r: Option<V>)
        ensures
            final(self)@ == old(self)@.remove(pos),
            r == (if old(self)@.contains_key(pos) {
                Some(old(self)@[pos])
            } else {
                None
            }),
    {
        let k = key_of(pos);
        let r = self.inner.remove(&k);
        proof {
            assert forall|p: IVec2| chunk_key(p) == k implies p == pos by {
                lemma_chunk_key_bijective(p, k);
                lemma_chunk_key_bijective(pos, k);
            }
            assert(self@ =~= old(self)@.remove(pos));
        }
        r
    }

    /// The positions held, each once, in the order the map is walked.
    pub fn positions(&self) -> (r: Vec<IVec2>)
        ensures
            r@.no_duplicates(),
            forall|p: IVec2| #[trigger] r@.contains(p) <==> self@.contains_key(p),
    {
        let mut r: Vec<IVec2> = Vec::new();
        for k in it: self.inner.keys()
            invariant
                it.seq() == vstd::std_specs::hash::spec_keys_iter(&self.inner).remaining(),
                r@.len() == it.index(),
                forall|j: int| 0 <= j < it.index() ==> r@[j] == key_pos(*it.seq()[j]),
        {
            r.push(pos_of(*k));
        }
        proof {
            let ks = vstd::std_specs::hash::spec_keys_iter(&self.inner).remaining();
            assert(ks.unref().to_set() == self.inner@.dom());
            assert forall|p: IVec2| #[trigger] r@.contains(p) <==> self@.contains_key(p) by {
                lemma_chunk_key_bijective(p, 0);
                if r@.contains(p) {
                    let j = choose|j: int| 0 <= j < r@.len() && r@[j] == p;
                    lemma_chunk_key_bijective(p, *ks[j]);
                    assert(ks.unref()[j] == *ks[j]);
                    assert(ks.unref().to_set().contains(*ks[j]));
                }
                if self@.contains_key(p) {
                    let k = chunk_key(p);
                    assert(ks.unref().to_set().contains(k));
                    assert(ks.unref().contains(k));
                    let j = choose|j: int| 0 <= j < ks.unref().len() && ks.unref()[j] == k;
                    assert(r@[j] == key_pos(k));
                }
            }
            assert forall|i: int, j: int| 0 <= i < j < r@.len() implies r@[i] != r@[j] by {
                assert(ks.unref()[i] == *ks[i]);
                assert(ks.unref()[j] == *ks[j]);
                lemma_chunk_key_bijective(r@[i], *ks[i]);
                lemma_chunk_key_bijective(r@[j], *ks[j]);
            }
        }
        r
    }
}

} // verus!
