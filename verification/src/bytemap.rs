//! A small verified map from byte-string keys to values.
//!
//! The map is kept as a list of `(key, value)` pairs with pairwise distinct
//! keys and is viewed as a `Map<Seq<u8>, V::V>`. The tree uses it for its
//! overlay, its death row, its null-node ladder, its recorder and its backing
//! store; performance is linear in the number of entries, which stays small
//! between commits.

use vstd::prelude::*;

verus! {

/// Compares two byte slices for equality.
pub fn bytes_eq(a: &[u8], b: &[u8]) -> (r: bool)
    ensures
        r == (a@ == b@),
{
    if a.len() != b.len() {
        return false;
    }
    for i in 0..a.len()
        invariant
            a@.len() == b@.len(),
            forall|j: int| 0 <= j < i ==> a@[j] == b@[j],
    {
        if a[i] != b[i] {
            return false;
        }
    }
    proof {
        assert(a@ =~= b@);
    }
    true
}

/// The map described by an association list: later entries shadow earlier
/// ones, though with distinct keys no shadowing occurs.
pub open spec fn alist_view<V: View>(s: Seq<(Vec<u8>, V)>) -> Map<Seq<u8>, V::V>
    decreases s.len(),
{
    if s.len() == 0 {
        Map::empty()
    } else {
        alist_view(s.drop_last()).insert(s.last().0@, s.last().1@)
    }
}

/// Pairwise distinctness of the keys of an association list.
pub open spec fn alist_keys_distinct<V>(s: Seq<(Vec<u8>, V)>) -> bool {
    forall|i: int, j: int| 0 <= i < j < s.len() ==> s[i].0@ != s[j].0@
}

/// A key is in the view exactly when some entry holds it.
pub proof fn lemma_alist_contains<V: View>(s: Seq<(Vec<u8>, V)>, k: Seq<u8>)
    ensures
        alist_view(s).contains_key(k) <==> exists|i: int| 0 <= i < s.len() && s[i].0@ == k,
    decreases s.len(),
{
    if s.len() > 0 {
        lemma_alist_contains(s.drop_last(), k);
        if s.last().0@ == k {
            assert(s[s.len() - 1].0@ == k);
        } else {
            if exists|i: int| 0 <= i < s.len() && s[i].0@ == k {
                let i = choose|i: int| 0 <= i < s.len() && s[i].0@ == k;
                assert(s.drop_last()[i].0@ == k);
            }
        }
    }
}

/// With distinct keys, the view at an entry's key is that entry's value.
pub proof fn lemma_alist_at<V: View>(s: Seq<(Vec<u8>, V)>, i: int)
    requires
        alist_keys_distinct(s),
        0 <= i < s.len(),
    ensures
        alist_view(s).contains_key(s[i].0@),
        alist_view(s)[s[i].0@] == s[i].1@,
    decreases s.len(),
{
    if i < s.len() - 1 {
        assert(alist_keys_distinct(s.drop_last()));
        lemma_alist_at(s.drop_last(), i);
        assert(s.drop_last()[i] == s[i]);
        assert(s.last().0@ != s[i].0@);
    }
}

/// Replacing the entry at an index with one of the same key updates the view
/// at that key alone.
proof fn lemma_alist_update<V: View>(s: Seq<(Vec<u8>, V)>, i: int, e: (Vec<u8>, V))
    requires
        alist_keys_distinct(s),
        0 <= i < s.len(),
        e.0@ == s[i].0@,
    ensures
        alist_view(s.update(i, e)) == alist_view(s).insert(e.0@, e.1@),
        alist_keys_distinct(s.update(i, e)),
    decreases s.len(),
{
    let s2 = s.update(i, e);
    if i == s.len() - 1 {
        assert(s2.drop_last() =~= s.drop_last());
        assert(s2.last() == e);
        assert(alist_view(s).insert(e.0@, e.1@) =~= alist_view(s.drop_last()).insert(
            e.0@,
            e.1@,
        ));
        assert(alist_view(s2) == alist_view(s.drop_last()).insert(e.0@, e.1@));
    } else {
        assert(alist_keys_distinct(s.drop_last()));
        lemma_alist_update(s.drop_last(), i, e);
        assert(s2.drop_last() =~= s.drop_last().update(i, e));
        assert(s2.last() == s.last());
        assert(s.last().0@ != e.0@);
        assert(alist_view(s2) =~= alist_view(s).insert(e.0@, e.1@));
    }
}

/// Removing the entry at an index removes its key from the view.
proof fn lemma_alist_remove<V: View>(s: Seq<(Vec<u8>, V)>, i: int)
    requires
        alist_keys_distinct(s),
        0 <= i < s.len(),
    ensures
        alist_view(s.remove(i)) == alist_view(s).remove(s[i].0@),
        alist_keys_distinct(s.remove(i)),
    decreases s.len(),
{
    let k = s[i].0@;
    if i == s.len() - 1 {
        assert(s.remove(i) =~= s.drop_last());
        lemma_alist_contains(s.drop_last(), k);
        assert(forall|j: int| 0 <= j < s.len() - 1 ==> s.drop_last()[j].0@ != k);
        assert(!alist_view(s.drop_last()).contains_key(k));
        assert(alist_view(s.drop_last()) =~= alist_view(s).remove(k));
    } else {
        assert(alist_keys_distinct(s.drop_last()));
        lemma_alist_remove(s.drop_last(), i);
        let s2 = s.remove(i);
        assert(s2.drop_last() =~= s.drop_last().remove(i));
        assert(s2.last() == s.last());
        assert(s.last().0@ != k);
        assert(alist_view(s2) =~= alist_view(s).remove(k));
        assert(alist_keys_distinct(s2)) by {
            assert(forall|p: int, q: int|
                0 <= p < q < s2.len() ==> s2[p].0@ != s2[q].0@) by {
                assert(forall|p: int| 0 <= p < s2.len() ==> s2[p] == (if p < i {
                    s[p]
                } else {
                    s[p + 1]
                }));
            }
        }
    }
}

/// Appending an entry with a fresh key inserts it into the view.
proof fn lemma_alist_push<V: View>(s: Seq<(Vec<u8>, V)>, e: (Vec<u8>, V))
    requires
        alist_keys_distinct(s),
        forall|i: int| 0 <= i < s.len() ==> s[i].0@ != e.0@,
    ensures
        alist_view(s.push(e)) == alist_view(s).insert(e.0@, e.1@),
        alist_keys_distinct(s.push(e)),
{
    assert(s.push(e).drop_last() =~= s);
    assert(s.push(e).last() == e);
}

/// The index of the entry of an association list holding the given key, if
/// any.
fn find_key<V>(es: &Vec<(Vec<u8>, V)>, key: &[u8]) -> (r: Option<usize>)
    ensures
        match r {
            Some(i) => i < es@.len() && es@[i as int].0@ == key@,
            None => forall|i: int| 0 <= i < es@.len() ==> es@[i].0@ != key@,
        },
{
    for i in 0..es.len()
        invariant
            forall|j: int| 0 <= j < i ==> es@[j].0@ != key@,
    {
        if bytes_eq(es[i].0.as_slice(), key) {
            return Some(i);
        }
    }
    None
}

/// A map from byte-string keys to values, kept as a list of pairs with
/// distinct keys.
pub struct ByteMap<V> {
    entries: Vec<(Vec<u8>, V)>,
}

impl<V: Clone> Clone for ByteMap<V> {
    /// Clones the map entry by entry; the clone's keys are the same byte
    /// strings, so its keys stay distinct.
    fn clone(&self) -> (r: Self) {
        proof {
            use_type_invariant(self);
        }
        let mut entries: Vec<(Vec<u8>, V)> = Vec::new();
        let src = &self.entries;
        for i in 0..src.len()
            invariant
                entries@.len() == i,
                forall|j: int| 0 <= j < i ==> entries@[j].0@ == src@[j].0@,
                alist_keys_distinct(src@),
        {
            entries.push((vstd::slice::slice_to_vec(src[i].0.as_slice()), src[i].1.clone()));
        }
        proof {
            assert(alist_keys_distinct(entries@));
        }
        ByteMap { entries }
    }
}

impl<V: View> View for ByteMap<V> {
    type V = Map<Seq<u8>, V::V>;

    closed spec fn view(&self) -> Map<Seq<u8>, V::V> {
        alist_view(self.entries@)
    }
}

impl<V> ByteMap<V> {
    /// The invariant every `ByteMap` maintains: its keys are distinct.
    #[verifier::type_invariant]
    spec fn inv(&self) -> bool {
        alist_keys_distinct(self.entries@)
    }
}

impl<V: View> ByteMap<V> {
    /// Creates an empty map.
    pub fn new() -> (r: ByteMap<V>)
        ensures
            r@ == Map::<Seq<u8>, V::V>::empty(),
    {
        ByteMap { entries: Vec::new() }
    }

    /// Looks a key up.
    pub fn get(&self, key: &[u8]) -> (r: Option<&V>)
        ensures
            match r {
                Some(v) => self@.contains_key(key@) && v@ == self@[key@],
                None => !self@.contains_key(key@),
            },
    {
        proof {
            use_type_invariant(self);
            lemma_alist_contains(self.entries@, key@);
        }
        match find_key(&self.entries, key) {
            Some(i) => {
                proof {
                    lemma_alist_at(self.entries@, i as int);
                }
                Some(&self.entries[i].1)
            },
            None => None,
        }
    }

    /// Inserts a value for a key, replacing any value the key held.
    pub fn insert(&mut self, key: Vec<u8>, value: V)
        ensures
            final(self)@ == old(self)@.insert(key@, value@),
    {
        proof {
            use_type_invariant(&*self);
        }
        let ghost s0 = self.entries@;
        let mut es: Vec<(Vec<u8>, V)> = Vec::new();
        core::mem::swap(&mut es, &mut self.entries);
        match find_key(&es, key.as_slice()) {
            Some(i) => {
                proof {
                    lemma_alist_update(s0, i as int, (key, value));
                }
                es.set(i, (key, value));
            },
            None => {
                proof {
                    lemma_alist_push(s0, (key, value));
                }
                es.push((key, value));
            },
        }
        self.entries = es;
    }

    /// Removes a key, returning the value it held.
    pub fn remove(&mut self, key: &[u8]) -> (r: Option<V>)
        ensures
            match r {
                Some(v) => old(self)@.contains_key(key@) && v@ == old(self)@[key@]
                    && final(self)@ == old(self)@.remove(key@),
                None => !old(self)@.contains_key(key@) && final(self)@ == old(self)@,
            },
    {
        proof {
            use_type_invariant(&*self);
            lemma_alist_contains(self.entries@, key@);
        }
        let ghost s0 = self.entries@;
        let mut es: Vec<(Vec<u8>, V)> = Vec::new();
        core::mem::swap(&mut es, &mut self.entries);
        let r = match find_key(&es, key) {
            Some(i) => {
                proof {
                    lemma_alist_at(s0, i as int);
                    lemma_alist_remove(s0, i as int);
                }
                let (_, v) = es.remove(i);
                Some(v)
            },
            None => None,
        };
        self.entries = es;
        r
    }

    /// True when the map holds nothing.
    pub fn is_empty(&self) -> (r: bool)
        ensures
            r == (self@ == Map::<Seq<u8>, V::V>::empty()),
    {
        proof {
            use_type_invariant(self);
            if self.entries@.len() > 0 {
                lemma_alist_at(self.entries@, 0);
            }
        }
        self.entries.len() == 0
    }

    /// Empties the map and hands its entries out.
    pub fn drain(&mut self) -> (r: Vec<(Vec<u8>, V)>)
        ensures
            final(self)@ == Map::<Seq<u8>, V::V>::empty(),
            alist_keys_distinct(r@),
            alist_view(r@) == old(self)@,
    {
        proof {
            use_type_invariant(&*self);
        }
        let mut out: Vec<(Vec<u8>, V)> = Vec::new();
        core::mem::swap(&mut out, &mut self.entries);
        out
    }

    /// The list of entries, whose keys are distinct and which together
    /// describe the map.
    pub fn entry_list(&self) -> (r: &Vec<(Vec<u8>, V)>)
        ensures
            alist_keys_distinct(r@),
            alist_view(r@) == self@,
    {
        proof {
            use_type_invariant(self);
        }
        &self.entries
    }
}

} // verus!
