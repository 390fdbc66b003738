//! An insertion-ordered map from byte-string keys to values: the backbone of
//! the category index, the sparse modifier table and the output table.
//! Iteration follows insertion order; updating an existing key keeps its
//! position.
use vstd::prelude::*;

use crate::bytes::bytes_eq;

verus! {

/// What a lookup finds: the value beside the first matching key.
pub open spec fn om_get<V>(s: Seq<(Seq<u8>, V)>, k: Seq<u8>) -> Option<V>
    decreases s.len(),
{
    if s.len() == 0 {
        None
    } else if s[0].0 == k {
        Some(s[0].1)
    } else {
        om_get(s.drop_first(), k)
    }
}

/// What an insert produces: the value is replaced in place if the key is
/// already present, else the pair goes to the end.
pub open spec fn om_upsert<V>(s: Seq<(Seq<u8>, V)>, k: Seq<u8>, v: V) -> Seq<(Seq<u8>, V)>
    decreases s.len(),
{
    if s.len() == 0 {
        seq![(k, v)]
    } else if s[0].0 == k {
        seq![(k, v)] + s.drop_first()
    } else {
        seq![s[0]] + om_upsert(s.drop_first(), k, v)
    }
}

pub struct OMap<V> {
    pairs: Vec<(Vec<u8>, V)>,
}

impl<V> View for OMap<V> {
    type V = Seq<(Seq<u8>, V)>;

    closed spec fn view(&self) -> Seq<(Seq<u8>, V)> {
        Seq::new(self.pairs@.len(), |i: int| (self.pairs@[i].0@, self.pairs@[i].1))
    }
}

impl<V> OMap<V> {
    pub fn new() -> (r: Self)
        ensures
            r@ == Seq::<(Seq<u8>, V)>::empty(),
    {
        let r = OMap { pairs: Vec::new() };
        proof {
            assert(r@ =~= Seq::<(Seq<u8>, V)>::empty());
        }
        r
    }

    pub fn len(&self) -> (r: usize)
        ensures
            r == self@.len(),
    {
        self.pairs.len()
    }

    pub fn key_at(&self, i: usize) -> (r: &Vec<u8>)
        requires
            i < self@.len(),
        ensures
            r@ == self@[i as int].0,
    {
        &self.pairs[i].0
    }

    pub fn val_at(&self, i: usize) -> (r: &V)
        requires
            i < self@.len(),
        ensures
            *r == self@[i as int].1,
    {
        &self.pairs[i].1
    }

    pub fn val_mut(&mut self, i: usize) -> (r: &mut V)
        requires
            i < old(self)@.len(),
        ensures
            *r == old(self)@[i as int].1,
            final(self)@.len() == old(self)@.len(),
            forall|j: int| 0 <= j < old(self)@.len() && j != i ==> final(self)@[j] == old(
                self,
            )@[j],
            final(self)@[i as int].0 == old(self)@[i as int].0,
            final(self)@[i as int].1 == *final(r),
    {
        &mut self.pairs[i].1
    }

    /// The index of the first pair whose key is `k`, if one is there.
    fn find(&self, k: &[u8]) -> (r: Option<usize>)
        ensures
            match r {
                Some(i) => i < self@.len() && self@[i as int].0 == k@ && forall|j: int|
                    0 <= j < i ==> self@[j].0 != k@,
                None => forall|j: int| 0 <= j < self@.len() ==> self@[j].0 != k@,
            },
    {
        let mut i: usize = 0;
        while i < self.pairs.len()
            invariant
                i <= self@.len(),
                self@.len() == self.pairs@.len(),
                forall|j: int| 0 <= j < i ==> self@[j].0 != k@,
            decreases self@.len() - i,
        {
            if bytes_eq(self.pairs[i].0.as_slice(), k) {
                return Some(i);
            }
            i += 1;
        }
        None
    }

    pub fn get<'a>(&'a self, k: &[u8]) -> (r: Option<&'a V>)
        ensures
            match r {
                Some(v) => om_get(self@, k@) == Some(*v),
                None => om_get(self@, k@) is None,
            },
    {
        let found = self.find(k);
        proof {
            match found {
                Some(i) => lemma_om_get_found(self@, k@, i as int),
                None => lemma_om_get_absent(self@, k@),
            }
        }
        match found {
            Some(i) => Some(&self.pairs[i].1),
            None => None,
        }
    }

    pub fn upsert(&mut self, k: Vec<u8>, v: V)
        ensures
            final(self)@ == om_upsert(old(self)@, k@, v),
    {
        let found = self.find(k.as_slice());
        proof {
            match found {
                Some(i) => lemma_om_upsert_found(self@, k@, v, i as int),
                None => lemma_om_upsert_absent(self@, k@, v),
            }
        }
        match found {
            Some(i) => {
                self.pairs[i] = (k, v);
                proof {
                    assert(self@ =~= old(self)@.update(i as int, (k@, v)));
                }
            },
            None => {
                self.pairs.push((k, v));
                proof {
                    assert(self@ =~= old(self)@.push((k@, v)));
                }
            },
        }
    }
}

/// The fully mathematical shape of a map whose values are themselves viewed.
pub open spec fn om_deep<V: View>(s: Seq<(Seq<u8>, V)>) -> Seq<(Seq<u8>, V::V)> {
    Seq::new(s.len(), |i: int| (s[i].0, s[i].1@))
}

/// Inserting, seen through the deep view.
pub proof fn lemma_om_deep_upsert<V: View>(s: Seq<(Seq<u8>, V)>, k: Seq<u8>, v: V)
    ensures
        om_deep(om_upsert(s, k, v)) =~= om_upsert(om_deep(s), k, v@),
    decreases s.len(),
{
    if s.len() == 0 {
    } else if s[0].0 == k {
        assert(om_deep(om_upsert(s, k, v)) =~= om_upsert(om_deep(s), k, v@));
    } else {
        lemma_om_deep_upsert(s.drop_first(), k, v);
        assert(om_deep(s.drop_first()) =~= om_deep(s).drop_first());
        assert(om_deep(om_upsert(s, k, v)) =~= seq![om_deep(s)[0]] + om_deep(
            om_upsert(s.drop_first(), k, v),
        ));
    }
}

/// Lookup, seen through the deep view.
pub proof fn lemma_om_deep_get<V: View>(s: Seq<(Seq<u8>, V)>, k: Seq<u8>)
    ensures
        om_get(om_deep(s), k) == match om_get(s, k) {
            None => None::<V::V>,
            Some(v) => Some(v@),
        },
    decreases s.len(),
{
    if s.len() == 0 {
    } else if s[0].0 == k {
    } else {
        lemma_om_deep_get(s.drop_first(), k);
        assert(om_deep(s.drop_first()) =~= om_deep(s).drop_first());
    }
}

/// Unique keys: what every built map satisfies.
pub open spec fn om_wf<V>(s: Seq<(Seq<u8>, V)>) -> bool {
    forall|i: int, j: int| 0 <= i < j < s.len() ==> s[i].0 != s[j].0
}

/// Every key of an insert's result is the inserted key or one of the old keys.
pub proof fn lemma_om_upsert_keys<V>(s: Seq<(Seq<u8>, V)>, k: Seq<u8>, v: V)
    ensures
        forall|i: int|
            0 <= i < om_upsert(s, k, v).len() ==> (#[trigger] om_upsert(s, k, v)[i].0) == k
                || exists|j: int| 0 <= j < s.len() && #[trigger] s[j].0 == om_upsert(s, k, v)[i].0,
    decreases s.len(),
{
    if s.len() == 0 {
    } else if s[0].0 == k {
        assert forall|i: int| 0 <= i < om_upsert(s, k, v).len() implies (#[trigger] om_upsert(
            s,
            k,
            v,
        )[i].0) == k || exists|j: int|
            0 <= j < s.len() && #[trigger] s[j].0 == om_upsert(s, k, v)[i].0 by {
            if i > 0 {
                assert(s[i].0 == om_upsert(s, k, v)[i].0);
            }
        }
    } else {
        lemma_om_upsert_keys(s.drop_first(), k, v);
        let res = om_upsert(s, k, v);
        let sub = om_upsert(s.drop_first(), k, v);
        assert forall|i: int| 0 <= i < res.len() implies (#[trigger] res[i].0) == k || exists|j: int|
            0 <= j < s.len() && #[trigger] s[j].0 == res[i].0 by {
            if i == 0 {
                assert(s[0].0 == res[0].0);
            } else {
                assert(res[i] == sub[i - 1]);
                if sub[i - 1].0 != k {
                    let j = choose|j: int|
                        0 <= j < s.drop_first().len() && #[trigger] s.drop_first()[j].0 == sub[i
                            - 1].0;
                    assert(s[j + 1].0 == res[i].0);
                }
            }
        }
    }
}

/// An insert keeps the keys unique.
pub proof fn lemma_om_upsert_keeps_wf<V>(s: Seq<(Seq<u8>, V)>, k: Seq<u8>, v: V)
    requires
        om_wf(s),
    ensures
        om_wf(om_upsert(s, k, v)),
    decreases s.len(),
{
    if s.len() == 0 {
    } else if s[0].0 == k {
        let res = om_upsert(s, k, v);
        assert forall|i: int, j: int| 0 <= i < j < res.len() implies res[i].0 != res[j].0 by {
            assert(j >= 1 && res[j] == s[j]);
            if i >= 1 {
                assert(res[i] == s[i]);
            }
        }
    } else {
        assert(om_wf(s.drop_first()));
        lemma_om_upsert_keeps_wf(s.drop_first(), k, v);
        lemma_om_upsert_keys(s.drop_first(), k, v);
        let res = om_upsert(s, k, v);
        let sub = om_upsert(s.drop_first(), k, v);
        assert forall|i: int, j: int| 0 <= i < j < res.len() implies res[i].0 != res[j].0 by {
            if i == 0 {
                assert(res[j] == sub[j - 1]);
                if sub[j - 1].0 != k {
                    let m = choose|m: int|
                        0 <= m < s.drop_first().len() && #[trigger] s.drop_first()[m].0 == sub[j
                            - 1].0;
                    assert(s[m + 1].0 == sub[j - 1].0);
                    assert(s[0].0 != s[m + 1].0);
                }
            } else {
                assert(res[i] == sub[i - 1] && res[j] == sub[j - 1]);
            }
        }
    }
}

/// What a lookup finds after an insert.
pub proof fn lemma_om_get_upsert<V>(s: Seq<(Seq<u8>, V)>, k: Seq<u8>, v: V, k2: Seq<u8>)
    ensures
        om_get(om_upsert(s, k, v), k2) == if k2 == k {
            Some(v)
        } else {
            om_get(s, k2)
        },
    decreases s.len(),
{
    reveal_with_fuel(om_get, 3);
    if s.len() == 0 {
        let res = om_upsert(s, k, v);
        assert(res[0] == (k, v));
        assert(res.drop_first() =~= Seq::<(Seq<u8>, V)>::empty());
    } else if s[0].0 == k {
        let res = om_upsert(s, k, v);
        assert(res[0] == (k, v));
        assert(res.drop_first() =~= s.drop_first());
    } else {
        lemma_om_get_upsert(s.drop_first(), k, v, k2);
        let res = om_upsert(s, k, v);
        assert(res[0] == s[0]);
        assert(res.drop_first() =~= om_upsert(s.drop_first(), k, v));
    }
}

/// A lookup that finds nothing means the key is nowhere.
pub proof fn lemma_om_get_none<V>(s: Seq<(Seq<u8>, V)>, k: Seq<u8>)
    requires
        om_get(s, k) is None,
    ensures
        forall|i: int| 0 <= i < s.len() ==> s[i].0 != k,
    decreases s.len(),
{
    if s.len() > 0 {
        lemma_om_get_none(s.drop_first(), k);
        assert forall|i: int| 0 <= i < s.len() implies s[i].0 != k by {
            if i > 0 {
                assert(s.drop_first()[i - 1] == s[i]);
            }
        }
    }
}

/// A found value is one of the values the map holds.
pub proof fn lemma_om_get_member<V>(s: Seq<(Seq<u8>, V)>, k: Seq<u8>)
    requires
        om_get(s, k) is Some,
    ensures
        exists|i: int| 0 <= i < s.len() && #[trigger] s[i].1 == om_get(s, k)->0,
    decreases s.len(),
{
    if s.len() > 0 && s[0].0 != k {
        lemma_om_get_member(s.drop_first(), k);
        let i = choose|i: int|
            0 <= i < s.drop_first().len() && #[trigger] s.drop_first()[i].1 == om_get(
                s.drop_first(),
                k,
            )->0;
        assert(s[i + 1].1 == om_get(s, k)->0);
    }
}

/// A property of every value survives an insert of a value that has it.
pub proof fn lemma_om_upsert_vals<V>(s: Seq<(Seq<u8>, V)>, k: Seq<u8>, v: V, p: spec_fn(V) -> bool)
    requires
        forall|i: int| 0 <= i < s.len() ==> p(#[trigger] s[i].1),
        p(v),
    ensures
        forall|i: int|
            0 <= i < om_upsert(s, k, v).len() ==> p(#[trigger] om_upsert(s, k, v)[i].1),
    decreases s.len(),
{
    if s.len() == 0 {
    } else if s[0].0 == k {
        let res = om_upsert(s, k, v);
        assert forall|i: int| 0 <= i < res.len() implies p(res[i].1) by {
            if i == 0 {
            } else {
                assert(res[i] == s.drop_first()[i - 1]);
                assert(res[i].1 == s[i].1);
            }
        }
    } else {
        assert(forall|i: int|
            0 <= i < s.drop_first().len() ==> p(#[trigger] s.drop_first()[i].1));
        lemma_om_upsert_vals(s.drop_first(), k, v, p);
        let res = om_upsert(s, k, v);
        let sub = om_upsert(s.drop_first(), k, v);
        assert forall|i: int| 0 <= i < res.len() implies p(res[i].1) by {
            if i == 0 {
                assert(res[i].1 == s[0].1);
            } else {
                assert(res[i] == sub[i - 1]);
            }
        }
    }
}

/// A key at position `i`, with no earlier occurrence, is what `om_get` finds.
proof fn lemma_om_get_found<V>(s: Seq<(Seq<u8>, V)>, k: Seq<u8>, i: int)
    requires
        0 <= i < s.len(),
        s[i].0 == k,
        forall|j: int| 0 <= j < i ==> s[j].0 != k,
    ensures
        om_get(s, k) == Some(s[i].1),
    decreases i,
{
    if i == 0 {
    } else {
        lemma_om_get_found(s.drop_first(), k, i - 1);
    }
}

/// A key that no pair carries is not found.
proof fn lemma_om_get_absent<V>(s: Seq<(Seq<u8>, V)>, k: Seq<u8>)
    requires
        forall|j: int| 0 <= j < s.len() ==> s[j].0 != k,
    ensures
        om_get(s, k) is None,
    decreases s.len(),
{
    if s.len() > 0 {
        lemma_om_get_absent(s.drop_first(), k);
    }
}

/// Replacing the value at the first occurrence of `k` is `om_upsert`.
proof fn lemma_om_upsert_found<V>(s: Seq<(Seq<u8>, V)>, k: Seq<u8>, v: V, i: int)
    requires
        0 <= i < s.len(),
        s[i].0 == k,
        forall|j: int| 0 <= j < i ==> s[j].0 != k,
    ensures
        om_upsert(s, k, v) =~= s.update(i, (k, v)),
    decreases i,
{
    if i == 0 {
        assert(om_upsert(s, k, v) =~= s.update(0, (k, v)));
    } else {
        lemma_om_upsert_found(s.drop_first(), k, v, i - 1);
        assert(om_upsert(s, k, v) =~= s.update(i, (k, v)));
    }
}

/// Appending a pair whose key is absent is `om_upsert`.
proof fn lemma_om_upsert_absent<V>(s: Seq<(Seq<u8>, V)>, k: Seq<u8>, v: V)
    requires
        forall|j: int| 0 <= j < s.len() ==> s[j].0 != k,
    ensures
        om_upsert(s, k, v) =~= s.push((k, v)),
    decreases s.len(),
{
    if s.len() == 0 {
        assert(om_upsert(s, k, v) =~= s.push((k, v)));
    } else {
        lemma_om_upsert_absent(s.drop_first(), k, v);
        assert(om_upsert(s, k, v) =~= s.push((k, v)));
    }
}

} // verus!
