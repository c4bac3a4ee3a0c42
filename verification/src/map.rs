//! Association maps and key sets with insertion-ordered entries.
use vstd::prelude::*;

use crate::keys::KeyCode;
use crate::text::same_chars;

verus! {

/// The mathematical value of an executable value.
pub trait Model {
    type M;

    spec fn model(&self) -> Self::M;
}

/// Keys of an [`AssocMap`]: values whose models can be compared and copied.
pub trait MapKey: Model + Sized {
    fn key_eq(&self, other: &Self) -> (b: bool)
        ensures
            b == (self.model() == other.model()),
    ;

    fn key_copy(&self) -> (r: Self)
        ensures
            r.model() == self.model(),
    ;
}

impl Model for KeyCode {
    type M = KeyCode;

    open spec fn model(&self) -> KeyCode {
        *self
    }
}

impl MapKey for KeyCode {
    fn key_eq(&self, other: &Self) -> (b: bool) {
        *self == *other
    }

    fn key_copy(&self) -> (r: Self) {
        *self
    }
}

impl Model for Vec<KeyCode> {
    type M = Seq<KeyCode>;

    open spec fn model(&self) -> Seq<KeyCode> {
        self@
    }
}

impl MapKey for Vec<KeyCode> {
    fn key_eq(&self, other: &Self) -> (b: bool) {
        if self.len() != other.len() {
            return false;
        }
        let mut i: usize = 0;
        while i < self.len()
            invariant
                self.len() == other.len(),
                i <= self.len(),
                forall|j: int| 0 <= j < i ==> self@[j] == other@[j],
            decreases self.len() - i,
        {
            if self[i] != other[i] {
                return false;
            }
            i = i + 1;
        }
        assert(self@ =~= other@);
        true
    }

    fn key_copy(&self) -> (r: Self) {
        let mut out: Vec<KeyCode> = Vec::new();
        let mut i: usize = 0;
        while i < self.len()
            invariant
                i <= self.len(),
                out@ == self@.take(i as int),
            decreases self.len() - i,
        {
            out.push(self[i]);
            i = i + 1;
            assert(out@ =~= self@.take(i as int));
        }
        assert(self@.take(self.len() as int) =~= self@);
        out
    }
}

impl Model for Vec<char> {
    type M = Seq<char>;

    open spec fn model(&self) -> Seq<char> {
        self@
    }
}

impl MapKey for Vec<char> {
    fn key_eq(&self, other: &Self) -> (b: bool) {
        same_chars(self.as_slice(), other.as_slice())
    }

    fn key_copy(&self) -> (r: Self) {
        crate::text::to_vec(self.as_slice())
    }
}

impl Model for String {
    type M = Seq<char>;

    open spec fn model(&self) -> Seq<char> {
        self@
    }
}

impl MapKey for String {
    fn key_eq(&self, other: &Self) -> (b: bool) {
        *self == *other
    }

    fn key_copy(&self) -> (r: Self) {
        self.clone()
    }
}

impl Model for () {
    type M = ();

    open spec fn model(&self) -> () {
        ()
    }
}

/// Values that can be copied with an equal model.
pub trait Duplicate: Model + Sized {
    fn duplicate(&self) -> (r: Self)
        ensures
            r.model() == self.model(),
    ;
}

/// Whether the first components of the pairs are pairwise distinct.
pub open spec fn distinct_keys<A, B>(p: Seq<(A, B)>) -> bool {
    forall|i: int, j: int| 0 <= i < p.len() && 0 <= j < p.len() && i != j ==> #[trigger] p[i].0 != #[trigger] p[j].0
}

/// Whether `k` is the first component of some pair.
pub open spec fn has_key<A, B>(p: Seq<(A, B)>, k: A) -> bool {
    exists|i: int| 0 <= i < p.len() && #[trigger] p[i].0 == k
}

/// The index of a pair with first component `k`.
pub open spec fn key_index<A, B>(p: Seq<(A, B)>, k: A) -> int {
    choose|i: int| 0 <= i < p.len() && #[trigger] p[i].0 == k
}

/// The map that a list of pairs with distinct keys denotes.
pub open spec fn pairs_map<A, B>(p: Seq<(A, B)>) -> Map<A, B> {
    Map::new(|k: A| has_key(p, k), |k: A| p[key_index(p, k)].1)
}

/// Insertion into a list of pairs: a pair with the same key is replaced in place,
/// otherwise the pair is appended.
pub open spec fn assoc_insert<A, B>(p: Seq<(A, B)>, k: A, v: B) -> Seq<(A, B)> {
    if has_key(p, k) {
        p.update(key_index(p, k), (k, v))
    } else {
        p.push((k, v))
    }
}

/// Insertion that keeps an existing pair with the same key.
pub open spec fn assoc_insert_absent<A, B>(p: Seq<(A, B)>, k: A, v: B) -> Seq<(A, B)> {
    if has_key(p, k) {
        p
    } else {
        p.push((k, v))
    }
}

/// `Map::insert` unless the key is present.
pub open spec fn map_insert_absent<A, B>(m: Map<A, B>, k: A, v: B) -> Map<A, B> {
    if m.contains_key(k) {
        m
    } else {
        m.insert(k, v)
    }
}

pub proof fn lemma_key_index<A, B>(p: Seq<(A, B)>, k: A, i: int)
    requires
        distinct_keys(p),
        0 <= i < p.len(),
        p[i].0 == k,
    ensures
        has_key(p, k),
        key_index(p, k) == i,
        pairs_map(p).contains_key(k),
        pairs_map(p)[k] == p[i].1,
{
}

pub proof fn lemma_assoc_insert<A, B>(p: Seq<(A, B)>, k: A, v: B)
    requires
        distinct_keys(p),
    ensures
        distinct_keys(assoc_insert(p, k, v)),
        pairs_map(assoc_insert(p, k, v)) == pairs_map(p).insert(k, v),
        distinct_keys(assoc_insert_absent(p, k, v)),
        pairs_map(assoc_insert_absent(p, k, v)) == map_insert_absent(pairs_map(p), k, v),
{
    let q = assoc_insert(p, k, v);
    if has_key(p, k) {
        let i = key_index(p, k);
        assert forall|a: A| #[trigger] pairs_map(q).contains_key(a) == pairs_map(p).insert(k, v).contains_key(a) by {
            if has_key(q, a) {
                let j = key_index(q, a);
                if j != i {
                    assert(p[j].0 == a);
                }
            }
            if has_key(p, a) {
                let j = key_index(p, a);
                assert(q[j].0 == a);
            }
        }
        assert forall|a: A| #[trigger] pairs_map(q).contains_key(a) implies pairs_map(q)[a] == pairs_map(p).insert(k, v)[a] by {
            let j = key_index(q, a);
            if a == k {
                lemma_key_index(q, a, i);
            } else {
                assert(p[j].0 == a);
                lemma_key_index(p, a, j);
            }
        }
        assert(pairs_map(q) =~= pairs_map(p).insert(k, v));
        assert(pairs_map(p).contains_key(k));
        assert(pairs_map(p) =~= map_insert_absent(pairs_map(p), k, v));
    } else {
        let n = p.len() as int;
        assert forall|a: A| #[trigger] pairs_map(q).contains_key(a) == pairs_map(p).insert(k, v).contains_key(a) by {
            if has_key(q, a) {
                let j = key_index(q, a);
                if j != n {
                    assert(p[j].0 == a);
                }
            }
            if has_key(p, a) {
                let j = key_index(p, a);
                assert(q[j].0 == a);
            }
            if a == k {
                assert(q[n].0 == a);
            }
        }
        assert forall|a: A| #[trigger] pairs_map(q).contains_key(a) implies pairs_map(q)[a] == pairs_map(p).insert(k, v)[a] by {
            let j = key_index(q, a);
            if a == k {
                lemma_key_index(q, a, n);
            } else {
                assert(p[j].0 == a);
                lemma_key_index(p, a, j);
            }
        }
        assert(pairs_map(q) =~= pairs_map(p).insert(k, v));
    }
}

/// A map whose entries keep the order in which their keys were first inserted.
#[derive(Debug)]
pub struct AssocMap<K: MapKey, V: Model> {
    entries: Vec<(K, V)>,
}

impl<K: MapKey, V: Model> AssocMap<K, V> {
    /// The entries, as models, in order.
    pub closed spec fn pairs(&self) -> Seq<(K::M, V::M)> {
        Seq::new(self.entries@.len(), |i: int| (self.entries@[i].0.model(), self.entries@[i].1.model()))
    }

    #[verifier::type_invariant]
    closed spec fn inv(&self) -> bool {
        distinct_keys(self.pairs())
    }

    /// An empty map.
    pub fn new() -> (m: Self)
        ensures
            m.pairs() == Seq::<(K::M, V::M)>::empty(),
            m.model() == Map::<K::M, V::M>::empty(),
    {
        let m = AssocMap { entries: Vec::new() };
        assert(m.pairs() =~= Seq::<(K::M, V::M)>::empty());
        assert(m.model() =~= Map::<K::M, V::M>::empty());
        m
    }

    /// Number of entries.
    pub fn len(&self) -> (n: usize)
        ensures
            n == self.pairs().len(),
    {
        self.entries.len()
    }

    /// The entry at position `i`.
    pub fn entry_at(&self, i: usize) -> (r: (&K, &V))
        requires
            i < self.pairs().len(),
        ensures
            (r.0.model(), r.1.model()) == self.pairs()[i as int],
    {
        let e = &self.entries[i];
        (&e.0, &e.1)
    }

    fn position(&self, k: &K) -> (r: Option<usize>)
        ensures
            match r {
                Some(i) => i < self.pairs().len() && self.pairs()[i as int].0 == k.model(),
                None => !has_key(self.pairs(), k.model()),
            },
    {
        let mut i: usize = 0;
        while i < self.entries.len()
            invariant
                i <= self.entries@.len(),
                forall|j: int| 0 <= j < i ==> self.pairs()[j].0 != k.model(),
            decreases self.entries@.len() - i,
        {
            if self.entries[i].0.key_eq(k) {
                return Some(i);
            }
            i = i + 1;
        }
        None
    }

    /// The value stored under `k`.
    pub fn get(&self, k: &K) -> (r: Option<&V>)
        ensures
            match r {
                Some(v) => self.model().contains_key(k.model()) && v.model() == self.model()[k.model()],
                None => !self.model().contains_key(k.model()),
            },
    {
        proof {
            use_type_invariant(self);
        }
        match self.position(k) {
            Some(i) => {
                proof {
                    lemma_key_index(self.pairs(), k.model(), i as int);
                }
                Some(&self.entries[i].1)
            },
            None => None,
        }
    }

    /// Whether `k` has an entry.
    pub fn contains_key(&self, k: &K) -> (b: bool)
        ensures
            b == self.model().contains_key(k.model()),
    {
        match self.get(k) {
            Some(_) => true,
            None => false,
        }
    }

    /// Stores `v` under `k`, replacing any value stored there.
    pub fn insert(&mut self, k: K, v: V)
        ensures
            final(self).pairs() == assoc_insert(old(self).pairs(), k.model(), v.model()),
            final(self).model() == old(self).model().insert(k.model(), v.model()),
    {
        proof {
            use_type_invariant(&*self);
            lemma_assoc_insert(self.pairs(), k.model(), v.model());
        }
        let ghost p = self.pairs();
        let ghost km = k.model();
        let ghost vm = v.model();
        let found = self.position(&k);
        let ghost old_entries = self.entries@;
        let mut entries: Vec<(K, V)> = Vec::new();
        std::mem::swap(&mut entries, &mut self.entries);
        assert(entries@ == old_entries);
        match found {
            Some(j) => {
                proof {
                    lemma_key_index(p, km, j as int);
                }
                entries.set(j, (k, v));
            },
            None => {
                entries.push((k, v));
            },
        }
        assert(Seq::new(entries@.len(), |i: int| (entries@[i].0.model(), entries@[i].1.model()))
            =~= assoc_insert(p, km, vm));
        self.entries = entries;
        assert(self.pairs() =~= assoc_insert(p, km, vm));
    }

    /// Stores `v` under `k` unless `k` already has an entry.
    pub fn insert_if_absent(&mut self, k: K, v: V)
        ensures
            final(self).pairs() == assoc_insert_absent(old(self).pairs(), k.model(), v.model()),
            final(self).model() == map_insert_absent(old(self).model(), k.model(), v.model()),
    {
        proof {
            use_type_invariant(&*self);
            lemma_assoc_insert(self.pairs(), k.model(), v.model());
        }
        if !self.contains_key(&k) {
            let ghost p = self.pairs();
            let ghost km = k.model();
            let ghost vm = v.model();
            proof {
                if has_key(p, km) {
                    lemma_key_index(p, km, key_index(p, km));
                }
            }
            let ghost old_entries = self.entries@;
            let mut entries: Vec<(K, V)> = Vec::new();
            std::mem::swap(&mut entries, &mut self.entries);
            assert(entries@ == old_entries);
            entries.push((k, v));
            assert(Seq::new(entries@.len(), |i: int| (entries@[i].0.model(), entries@[i].1.model()))
                =~= assoc_insert_absent(p, km, vm));
            self.entries = entries;
            assert(self.pairs() =~= assoc_insert_absent(p, km, vm));
        } else {
            proof {
                if !has_key(self.pairs(), k.model()) {
                    assert(!pairs_map(self.pairs()).contains_key(k.model()));
                }
            }
        }
    }
}

impl<K: MapKey, V: Duplicate> Duplicate for AssocMap<K, V> {
    fn duplicate(&self) -> (r: Self) {
        proof {
            use_type_invariant(self);
        }
        let mut entries: Vec<(K, V)> = Vec::new();
        let mut i: usize = 0;
        while i < self.entries.len()
            invariant
                i <= self.entries@.len(),
                entries@.len() == i,
                forall|j: int| 0 <= j < i ==> (#[trigger] entries@[j]).0.model() == self.entries@[j].0.model()
                    && entries@[j].1.model() == self.entries@[j].1.model(),
            decreases self.entries@.len() - i,
        {
            let e = &self.entries[i];
            entries.push((e.0.key_copy(), e.1.duplicate()));
            i = i + 1;
        }
        assert(Seq::new(entries@.len(), |j: int| (entries@[j].0.model(), entries@[j].1.model())) =~= self.pairs());
        let r = AssocMap { entries };
        assert(r.pairs() =~= self.pairs());
        r
    }
}

impl<K: MapKey, V: Duplicate> Clone for AssocMap<K, V> {
    fn clone(&self) -> (r: Self)
        ensures
            r.model() == self.model(),
    {
        self.duplicate()
    }
}

impl Duplicate for String {
    fn duplicate(&self) -> (r: Self) {
        self.clone()
    }
}

impl<K: MapKey, V: Model> Model for AssocMap<K, V> {
    type M = Map<K::M, V::M>;

    open spec fn model(&self) -> Map<K::M, V::M> {
        pairs_map(self.pairs())
    }
}

/// A set of keys.
#[derive(Debug)]
pub struct KeySet {
    keys: Vec<KeyCode>,
}

impl KeySet {
    /// The keys, in order of first insertion.
    pub closed spec fn elems(&self) -> Seq<KeyCode> {
        self.keys@
    }

    #[verifier::type_invariant]
    closed spec fn inv(&self) -> bool {
        self.keys@.no_duplicates()
    }

    /// An empty set.
    pub fn new() -> (s: KeySet)
        ensures
            s.model() == Set::<KeyCode>::empty(),
    {
        let s = KeySet { keys: Vec::new() };
        assert(s.model() =~= Set::<KeyCode>::empty());
        s
    }

    /// Number of keys.
    pub fn len(&self) -> (n: usize)
        ensures
            n == self.model().len(),
    {
        proof {
            use_type_invariant(self);
            self.keys@.unique_seq_to_set();
        }
        self.keys.len()
    }

    /// Whether `k` is in the set.
    pub fn contains(&self, k: KeyCode) -> (b: bool)
        ensures
            b == self.model().contains(k),
    {
        let mut i: usize = 0;
        while i < self.keys.len()
            invariant
                i <= self.keys@.len(),
                forall|j: int| 0 <= j < i ==> self.keys@[j] != k,
            decreases self.keys@.len() - i,
        {
            if self.keys[i] == k {
                return true;
            }
            i = i + 1;
        }
        false
    }

    /// Adds `k`.
    pub fn insert(&mut self, k: KeyCode)
        ensures
            final(self).model() == old(self).model().insert(k),
    {
        proof {
            use_type_invariant(&*self);
        }
        if !self.contains(k) {
            let ghost old_keys = self.keys@;
            let mut keys: Vec<KeyCode> = Vec::new();
            std::mem::swap(&mut keys, &mut self.keys);
            keys.push(k);
            assert(keys@ == old_keys.push(k));
            proof {
                old_keys.lemma_push_to_set_commute(k);
            }
            self.keys = keys;
        } else {
            assert(self.model() =~= self.model().insert(k));
        }
    }

    /// The keys, in order of first insertion.
    pub fn to_vec(&self) -> (v: Vec<KeyCode>)
        ensures
            v@.to_set() == self.model(),
            v@.no_duplicates(),
    {
        proof {
            use_type_invariant(self);
        }
        self.keys.key_copy()
    }
}

impl Clone for KeySet {
    fn clone(&self) -> (r: Self)
        ensures
            r.model() == self.model(),
    {
        proof {
            use_type_invariant(self);
        }
        KeySet { keys: self.keys.key_copy() }
    }
}

impl Model for KeySet {
    type M = Set<KeyCode>;

    open spec fn model(&self) -> Set<KeyCode> {
        self.elems().to_set()
    }
}

} // verus!
