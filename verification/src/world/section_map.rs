use vstd::prelude::*;
use std::collections::HashMap;
use vstd::std_specs::iter::IteratorSpec;
use crate::util::int_vec::IVec3;
use vstd::arithmetic::div_mod::{lemma_div_denominator, lemma_div_is_ordered, lemma_fundamental_div_mod, lemma_fundamental_div_mod_converse};

verus! {

broadcast use vstd::std_specs::hash::group_hash_axioms;

/// The key of a section position: the coordinates shifted to be
/// non-negative, `x` in bits 64 to 96, `y` in bits 32 to 64 and `z` below.
pub open spec fn section_key(p: IVec3) -> u128 {
    ((p.x + 2147483648) * 18446744073709551616 + (p.y + 2147483648) * 4294967296 + (p.z
        + 2147483648)) as u128
}

/// The section position whose key is `k`; keys of 96 bits or fewer are the
/// keys of positions.
pub open spec fn key_section(k: u128) -> IVec3 {
    IVec3 {
        x: (k / 18446744073709551616 - 2147483648) as i32,
        y: ((k / 4294967296) % 4294967296 - 2147483648) as i32,
        z: (k % 4294967296 - 2147483648) as i32,
    }
}

/// Positions and their keys correspond one to one.
pub proof fn lemma_section_key_bijective(p: IVec3, k: u128)
    ensures
        key_section(section_key(p)) == p,
        k < 0x1_0000_0000_0000_0000_0000_0000 ==> section_key(key_section(k)) == k,
        section_key(p) < 0x1_0000_0000_0000_0000_0000_0000,
{
    let a = p.x + 2147483648;
    let b = p.y + 2147483648;
    let c = p.z + 2147483648;
    let key = a * 18446744073709551616 + b * 4294967296 + c;
    lemma_fundamental_div_mod_converse(key, 4294967296, a * 4294967296 + b, c);
    lemma_fundamental_div_mod_converse(a * 4294967296 + b, 4294967296, a, b);
    lemma_fundamental_div_mod_converse(key, 18446744073709551616, a, b * 4294967296 + c);
    if k < 0x1_0000_0000_0000_0000_0000_0000 {
        lemma_fundamental_div_mod(k as int, 4294967296);
        lemma_fundamental_div_mod(k as int / 4294967296, 4294967296);
        lemma_div_denominator(k as int, 4294967296, 4294967296);
        lemma_div_is_ordered(k as int, 0x1_0000_0000_0000_0000_0000_0000 - 1, 18446744073709551616);
    }
}

fn key_of(p: IVec3) -> (k: u128)
    ensures
        k == section_key(p),
{
    proof {
        lemma_section_key_bijective(p, 0);
    }
    let a = (p.x as i64 + 2147483648) as u128;
    let b = (p.y as i64 + 2147483648) as u128;
    let c = (p.z as i64 + 2147483648) as u128;
    a * 18446744073709551616 + b * 4294967296 + c
}

fn pos_of(k: u128) -> (p: IVec3)
    requires
        k < 0x1_0000_0000_0000_0000_0000_0000,
    ensures
        p == key_section(k),
{
    IVec3 {
        x: ((k / 18446744073709551616) as i64 - 2147483648) as i32,
        y: (((k / 4294967296) % 4294967296) as i64 - 2147483648) as i32,
        z: ((k % 4294967296) as i64 - 2147483648) as i32,
    }
}

/// Values by section position.
pub struct SectionMap<V> {
    inner: HashMap<u128, V>,
}

impl<V> SectionMap<V> {
    /// Every key is the key of a position.
    #[verifier::type_invariant]
    closed spec fn keys_are_positions(self) -> bool {
        forall|k: u128| #[trigger] self.inner@.contains_key(k) ==> k < 0x1_0000_0000_0000_0000_0000_0000
    }

    /// The values by position.
    pub closed spec fn view(&self) -> Map<IVec3, V> {
        Map::new(
            |p: IVec3| self.inner@.contains_key(section_key(p)),
            |p: IVec3| self.inner@[section_key(p)],
        )
    }

    pub fn new() -> (r: Self)
        ensures
            r@ == Map::<IVec3, V>::empty(),
    {
        let r = Self { inner: HashMap::new() };
        proof {
            assert(r@ =~= Map::<IVec3, V>::empty());
        }
        r
    }

    pub fn contains(&self, pos: IVec3) -> (r: bool)
        ensures
            r == self@.contains_key(pos),
    {
        let k = key_of(pos);
        self.inner.contains_key(&k)
    }

    pub fn get(&self, pos: IVec3) -> (r: Option<&V>)
        ensures
            r == (if self@.contains_key(pos) {
                Some(&self@[pos])
            } else {
                None
            }),
    {
        let k = key_of(pos);
        self.inner.get(&k)
    }

    pub fn insert(&mut self, pos: IVec3, v: V)
        ensures
            final(self)@ == old(self)@.insert(pos, v),
    {
        let k = key_of(pos);
        proof {
            use_type_invariant(&*self);
            lemma_section_key_bijective(pos, k);
        }
        let mut inner = HashMap::new();
        std::mem::swap(&mut inner, &mut self.inner);
        inner.insert(k, v);
        self.inner = inner;
        proof {
            assert forall|p: IVec3| section_key(p) == k implies p == pos by {
                lemma_section_key_bijective(p, k);
                lemma_section_key_bijective(pos, k);
            }
            assert(self@ =~= old(self)@.insert(pos, v));
        }
    }

    pub fn remove(&mut self, pos: IVec3) -> (r: Option<V>)
        ensures
            final(self)@ == old(self)@.remove(pos),
            r == (if old(self)@.contains_key(pos) {
                Some(old(self)@[pos])
            } else {
                None
            }),
    {
        let k = key_of(pos);
        proof {
            use_type_invariant(&*self);
        }
        let mut inner = HashMap::new();
        std::mem::swap(&mut inner, &mut self.inner);
        let r = inner.remove(&k);
        self.inner = inner;
        proof {
            assert forall|p: IVec3| section_key(p) == k implies p == pos by {
                lemma_section_key_bijective(p, k);
                lemma_section_key_bijective(pos, k);
            }
            assert(self@ =~= old(self)@.remove(pos));
        }
        r
    }

    /// The positions held, each once, in the order the map is walked.
    pub fn positions(&self) -> (r: Vec<IVec3>)
        ensures
            r@.no_duplicates(),
            forall|p: IVec3| #[trigger] r@.contains(p) <==> self@.contains_key(p),
    {
        proof {
            use_type_invariant(self);
        }
        let mut r: Vec<IVec3> = Vec::new();
        for k in it: self.inner.keys()
            invariant
                forall|k: u128| #[trigger] self.inner@.contains_key(k) ==> k < 0x1_0000_0000_0000_0000_0000_0000,
                it.seq() == vstd::std_specs::hash::spec_keys_iter(&self.inner).remaining(),
                r@.len() == it.index(),
                forall|j: int| 0 <= j < it.index() ==> r@[j] == key_section(*it.seq()[j]),
        {
            proof {
                let ks = vstd::std_specs::hash::spec_keys_iter(&self.inner).remaining();
                assert(ks.unref().to_set() == self.inner@.dom());
                assert(ks.unref()[it.index() as int] == *k);
                assert(ks.unref().to_set().contains(*k));
            }
            r.push(pos_of(*k));
        }
        proof {
            let ks = vstd::std_specs::hash::spec_keys_iter(&self.inner).remaining();
            assert(ks.unref().to_set() == self.inner@.dom());
            assert forall|p: IVec3| #[trigger] r@.contains(p) <==> self@.contains_key(p) by {
                lemma_section_key_bijective(p, 0);
                if r@.contains(p) {
                    let j = choose|j: int| 0 <= j < r@.len() && r@[j] == p;
                    lemma_section_key_bijective(p, *ks[j]);
                    assert(ks.unref()[j] == *ks[j]);
                    assert(ks.unref().to_set().contains(*ks[j]));
                }
                if self@.contains_key(p) {
                    let k = section_key(p);
                    assert(ks.unref().to_set().contains(k));
                    assert(ks.unref().contains(k));
                    let j = choose|j: int| 0 <= j < ks.unref().len() && ks.unref()[j] == k;
                    assert(r@[j] == key_section(k));
                }
            }
            assert forall|i: int, j: int| 0 <= i < j < r@.len() implies r@[i] != r@[j] by {
                assert(ks.unref()[i] == *ks[i]);
                assert(ks.unref()[j] == *ks[j]);
                assert(ks.unref().to_set().contains(*ks[i]));
                assert(ks.unref().to_set().contains(*ks[j]));
                lemma_section_key_bijective(r@[i], *ks[i]);
                lemma_section_key_bijective(r@[j], *ks[j]);
            }
        }
        r
    }
}

} // verus!
