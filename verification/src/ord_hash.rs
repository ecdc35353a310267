//! An insertion-ordered hash map: a unique-key map whose iteration follows
//! the order in which the keys were first inserted.

use std::collections::HashMap;
use std::fmt::Display;
use std::hash::Hash;
use vstd::prelude::*;
use vstd::std_specs::cmp::PartialEqSpec;
use vstd::std_specs::hash::*;
use vstd::std_specs::iter::IteratorSpec;
use vstd::string::to_string_from_display_ensures;

verus! {

broadcast use vstd::std_specs::hash::group_hash_axioms;

/// True when some entry of `s` carries the key `k`.
pub open spec fn has_key<K, V>(s: Seq<(K, V)>, k: K) -> bool {
    exists|i: int| 0 <= i < s.len() && (#[trigger] s[i]).0 == k
}

/// No key occurs in two entries of `s`.
pub open spec fn distinct_keys<K, V>(s: Seq<(K, V)>) -> bool {
    forall|i: int, j: int|
        0 <= i < j < s.len() ==> (#[trigger] s[i]).0 != (#[trigger] s[j]).0
}

/// An index at which `s` carries the key `k`; the only one where the keys of
/// `s` are distinct. Arbitrary where `k` does not occur.
pub open spec fn position<K, V>(s: Seq<(K, V)>, k: K) -> int {
    choose|i: int| 0 <= i < s.len() && (#[trigger] s[i]).0 == k
}

/// The value that `s` holds under `k`, if any.
pub open spec fn lookup<K, V>(s: Seq<(K, V)>, k: K) -> Option<V> {
    if has_key(s, k) {
        Some(s[position(s, k)].1)
    } else {
        None
    }
}

/// What one insertion makes of `s`: a new key goes to the end, a key that is
/// already there changes nothing.
pub open spec fn inserted<K, V>(s: Seq<(K, V)>, k: K, v: V) -> Seq<(K, V)> {
    if has_key(s, k) {
        s
    } else {
        s.push((k, v))
    }
}

/// The entries of a map that started empty and was offered `pairs` one by
/// one, in order.
pub open spec fn built_from<K, V>(pairs: Seq<(K, V)>) -> Seq<(K, V)>
    decreases pairs.len(),
{
    if pairs.len() == 0 {
        Seq::empty()
    } else {
        inserted(built_from(pairs.drop_last()), pairs.last().0, pairs.last().1)
    }
}

/// The keys of `s`, in order.
pub open spec fn keys_of<K, V>(s: Seq<(K, V)>) -> Seq<K> {
    Seq::new(s.len(), |i: int| s[i].0)
}

/// Where the keys are distinct, a key is found at the one index that holds it.
pub proof fn lemma_position_unique<K, V>(s: Seq<(K, V)>, k: K, i: int)
    requires
        distinct_keys(s),
        0 <= i < s.len(),
        s[i].0 == k,
    ensures
        has_key(s, k),
        position(s, k) == i,
        lookup(s, k) == Some(s[i].1),
{
    let p = position(s, k);
    assert(0 <= p < s.len() && s[p].0 == k);
    if p < i {
        assert(s[p].0 != s[i].0);
    } else if i < p {
        assert(s[i].0 != s[p].0);
    }
}

/// One insertion keeps the keys distinct.
pub proof fn lemma_inserted_distinct<K, V>(s: Seq<(K, V)>, k: K, v: V)
    requires
        distinct_keys(s),
    ensures
        distinct_keys(inserted(s, k, v)),
{
    if !has_key(s, k) {
        let t = s.push((k, v));
        assert forall|i: int, j: int| 0 <= i < j < t.len() implies (#[trigger] t[i]).0 != (
        #[trigger] t[j]).0 by {
            if j == s.len() {
                assert(s[i].0 != k);
            } else {
                assert(s[i].0 != s[j].0);
            }
        }
    }
}

/// How one entry reads: a space, the key, a colon and a space, the value.
pub open spec fn entry_text(k: Seq<char>, v: Seq<char>) -> Seq<char> {
    seq![' '] + k + seq![':', ' '] + v
}

/// The entries' texts in order, with a comma and a space between neighbours.
pub open spec fn joined_text(texts: Seq<(Seq<char>, Seq<char>)>) -> Seq<char>
    decreases texts.len(),
{
    if texts.len() == 0 {
        Seq::empty()
    } else if texts.len() == 1 {
        entry_text(texts[0].0, texts[0].1)
    } else {
        joined_text(texts.drop_last()) + seq![',', ' '] + entry_text(
            texts.last().0,
            texts.last().1,
        )
    }
}

/// How a map reads whose keys and values read as `texts`: the joined entries
/// between braces, so `{}` for no entry and `{ a: 1,  b: 2}` for two.
pub open spec fn rendered(texts: Seq<(Seq<char>, Seq<char>)>) -> Seq<char> {
    seq!['{'] + joined_text(texts) + seq!['}']
}

/// The characters of each key and value of `entries`.
pub open spec fn texts_of(entries: Seq<(String, String)>) -> Seq<(Seq<char>, Seq<char>)> {
    Seq::new(entries.len(), |i: int| (entries[i].0@, entries[i].1@))
}

/// `text` is what `to_string` may return for `t`.
pub open spec fn shows<T: Display>(t: T, text: Seq<char>) -> bool {
    exists|r: String| r@ == text && #[trigger] to_string_from_display_ensures::<T>(&t, r)
}

/// Writes out a map whose keys and values have been turned into strings
/// already: the entries in the order given, between braces.
pub fn render(entries: &Vec<(String, String)>) -> (s: String)
    ensures
        s@ == rendered(texts_of(entries@)),
{
    let ghost texts = texts_of(entries@);
    let mut s = String::from_str("{");
    let n: usize = entries.len();
    let mut i: usize = 0;
    proof {
        reveal_strlit("{");
        reveal_strlit("}");
        reveal_strlit(", ");
        reveal_strlit(" ");
        reveal_strlit(": ");
        assert(s@ =~= seq!['{'] + joined_text(texts.take(0)));
    }
    while i < n
        invariant
            i <= n,
            n == entries@.len(),
            texts == texts_of(entries@),
            s@ == seq!['{'] + joined_text(texts.take(i as int)),
            ", "@ == seq![',', ' '],
            " "@ == seq![' '],
            ": "@ == seq![':', ' '],
        decreases n - i,
    {
        if i > 0 {
            s.append(", ");
        }
        s.append(" ");
        s.append(entries[i].0.as_str());
        s.append(": ");
        s.append(entries[i].1.as_str());
        proof {
            let now = texts.take(i + 1);
            assert(now.drop_last() =~= texts.take(i as int));
            assert(now.last() == texts[i as int]);
            assert(s@ =~= seq!['{'] + joined_text(now));
        }
        i += 1;
    }
    proof {
        assert(texts.take(n as int) =~= texts);
    }
    s.append("}");
    s
}

/// A hash map that remembers the order in which its keys were inserted.
///
/// Each entry is stored once, in the order log; the hash index maps a key to
/// its place in the log. A value changed through `find_mut` is therefore the
/// value that iteration shows afterwards.
pub struct OrderedHashmap<K, V> {
    index: HashMap<K, usize>,
    order: Vec<(K, V)>,
}

impl<K, V> View for OrderedHashmap<K, V> {
    type V = Seq<(K, V)>;

    /// The entries, in insertion order.
    closed spec fn view(&self) -> Seq<(K, V)> {
        self.order@
    }
}

impl<K: Hash + Eq + Copy, V: Copy> OrderedHashmap<K, V> {
    /// The index and the order log agree: the index holds exactly the keys of
    /// the log, each with its place there.
    pub closed spec fn wf(&self) -> bool {
        &&& obeys_key_model::<K>()
        &&& forall|i: int|
            0 <= i < self.order@.len() ==> {
                &&& self.index@.contains_key((#[trigger] self.order@[i]).0)
                &&& self.index@[self.order@[i].0] == i
            }
        &&& forall|k: K| #[trigger]
            self.index@.contains_key(k) ==> {
                &&& self.index@[k] < self.order@.len()
                &&& self.order@[self.index@[k] as int].0 == k
            }
    }

    /// A well-formed map holds no key twice.
    pub proof fn lemma_wf_distinct(&self)
        requires
            self.wf(),
        ensures
            distinct_keys(self@),
    {
        assert forall|i: int, j: int| 0 <= i < j < self@.len() implies (#[trigger] self@[i]).0 != (
        #[trigger] self@[j]).0 by {
            assert(self.index@[self.order@[i].0] == i);
            assert(self.index@[self.order@[j].0] == j);
        }
    }

    proof fn lemma_index_has_key(&self, k: K)
        requires
            self.wf(),
        ensures
            self.index@.contains_key(k) <==> has_key(self@, k),
            self.index@.contains_key(k) ==> position(self@, k) == self.index@[k],
    {
        self.lemma_wf_distinct();
        if self.index@.contains_key(k) {
            let i = self.index@[k] as int;
            assert(self.order@[i].0 == k);
            lemma_position_unique(self@, k, i);
        }
        if has_key(self@, k) {
            let i = position(self@, k);
            assert(self.index@.contains_key(self.order@[i].0));
        }
    }

    /// An empty map.
    pub fn new() -> (m: Self)
        requires
            obeys_key_model::<K>(),
        ensures
            m.wf(),
            m@ == Seq::<(K, V)>::empty(),
    {
        OrderedHashmap { index: HashMap::new(), order: Vec::new() }
    }

    /// The number of keys.
    pub fn len(&self) -> (n: usize)
        ensures
            n == self@.len(),
    {
        self.order.len()
    }

    /// True when the map holds no key.
    pub fn is_empty(&self) -> (b: bool)
        ensures
            b == (self@.len() == 0),
    {
        self.order.len() == 0
    }

    /// Forgets every entry.
    pub fn clear(&mut self)
        requires
            old(self).wf(),
        ensures
            final(self).wf(),
            final(self)@ == Seq::<(K, V)>::empty(),
    {
        self.index = HashMap::new();
        self.order = Vec::new();
    }

    /// Whether `k` is a key of the map; one probe of the hash index.
    pub fn contains_key(&self, k: &K) -> (b: bool)
        requires
            self.wf(),
        ensures
            b == has_key(self@, *k),
    {
        proof {
            self.lemma_index_has_key(*k);
        }
        self.index.contains_key(k)
    }

    /// The value stored under `k`.
    pub fn find(&self, k: &K) -> (r: Option<&V>)
        requires
            self.wf(),
        ensures
            match r {
                Some(v) => lookup(self@, *k) == Some(*v),
                None => lookup(self@, *k).is_none(),
            },
    {
        proof {
            self.lemma_index_has_key(*k);
        }
        match self.index.get(k) {
            Some(p) => {
                let i: usize = *p;
                Some(&self.order[i].1)
            },
            None => None,
        }
    }

    /// The value stored under `k`, to be changed in place. The key keeps its
    /// place in the order, and no other entry changes.
    pub fn find_mut(&mut self, k: &K) -> (r: Option<&mut V>)
        requires
            old(self).wf(),
        ensures
            final(self).wf(),
            match r {
                Some(v) => {
                    &&& lookup(old(self)@, *k) == Some(*v)
                    &&& final(self)@ == old(self)@.update(
                        position(old(self)@, *k),
                        (*k, *final(v)),
                    )
                },
                None => lookup(old(self)@, *k).is_none() && final(self)@ == old(self)@,
            },
    {
        proof {
            self.lemma_index_has_key(*k);
        }
        match self.index.get(k) {
            Some(p) => {
                let i: usize = *p;
                Some(&mut self.order[i].1)
            },
            None => None,
        }
    }

    /// Adds `k` with `v` at the end if `k` is new, and says whether it did.
    /// A key that is already there keeps its value and its place.
    pub fn insert(&mut self, k: K, v: V) -> (success: bool)
        requires
            old(self).wf(),
        ensures
            final(self).wf(),
            success == !has_key(old(self)@, k),
            final(self)@ == inserted(old(self)@, k, v),
    {
        proof {
            self.lemma_index_has_key(k);
        }
        if self.index.contains_key(&k) {
            false
        } else {
            let n: usize = self.order.len();
            self.index.insert(k, n);
            self.order.push((k, v));
            true
        }
    }

    /// A fresh traversal of the entries in insertion order.
    pub fn iter<'a>(&'a self) -> (it: std::slice::Iter<'a, (K, V)>)
        ensures
            it.obeys_prophetic_iter_laws(),
            it.remaining() == self@.as_ref(),
            it.decrease() is Some,
            it.initial_value_relation(&it),
    {
        self.order.iter()
    }

    /// A fresh traversal of the entries, last inserted first.
    pub fn rev_iter<'a>(&'a self) -> (it: std::iter::Rev<std::slice::Iter<'a, (K, V)>>)
        ensures
            it.obeys_prophetic_iter_laws(),
            it.remaining() == self@.as_ref().reverse(),
            it.decrease() is Some,
            it.initial_value_relation(&it),
    {
        self.order.iter().rev()
    }

    /// The map written out: each key and value as its own `to_string` gives
    /// it, in insertion order, between braces. An empty map reads `{}`.
    pub fn to_string(&self) -> (s: String) where K: Display, V: Display
        ensures
            exists|texts: Seq<(Seq<char>, Seq<char>)>|
                {
                    &&& texts.len() == self@.len()
                    &&& forall|i: int|
                        0 <= i < self@.len() ==> shows(self@[i].0, (#[trigger] texts[i]).0)
                            && shows(self@[i].1, texts[i].1)
                    &&& s@ == rendered(texts)
                },
            self@.len() == 0 ==> s@ == seq!['{', '}'],
    {
        let mut entries: Vec<(String, String)> = Vec::new();
        for e in it: self.iter()
            invariant
                it.seq() == self@.as_ref(),
                entries@.len() == it.index(),
                forall|i: int|
                    0 <= i < entries@.len() ==> to_string_from_display_ensures::<K>(
                        &self@[i].0,
                        (#[trigger] entries@[i]).0,
                    ) && to_string_from_display_ensures::<V>(&self@[i].1, entries@[i].1),
        {
            entries.push((e.0.to_string(), e.1.to_string()));
        }
        let s = render(&entries);
        proof {
            let texts = texts_of(entries@);
            assert forall|i: int| 0 <= i < self@.len() implies shows(
                self@[i].0,
                (#[trigger] texts[i]).0,
            ) && shows(self@[i].1, texts[i].1) by {
                assert(to_string_from_display_ensures::<K>(&self@[i].0, entries@[i].0));
                assert(to_string_from_display_ensures::<V>(&self@[i].1, entries@[i].1));
            }
            if self@.len() == 0 {
                assert(s@ =~= seq!['{', '}']);
            }
        }
        s
    }
}

impl<K: Hash + Eq + Copy, V: Copy> Clone for OrderedHashmap<K, V> {
    /// An independent copy: the same entries in the same order, with an
    /// index of its own, rebuilt entry by entry.
    fn clone(&self) -> (res: Self)
        ensures
            self.wf() ==> res.wf() && res@ == self@,
    {
        let mut index: HashMap<K, usize> = HashMap::new();
        let mut order: Vec<(K, V)> = Vec::new();
        for e in it: self.iter()
            invariant
                it.seq() == self@.as_ref(),
                order@ == self@.take(it.index()),
                self.wf() ==> forall|k: K| #[trigger]
                    index@.contains_key(k) <==> self.index@.contains_key(k) && self.index@[k]
                        < it.index(),
                self.wf() ==> forall|k: K| #[trigger]
                    index@.contains_key(k) ==> index@[k] == self.index@[k],
        {
            let n: usize = order.len();
            index.insert(e.0, n);
            order.push((e.0, e.1));
            proof {
                assert(*e == self@[n as int]);
                assert(order@ =~= self@.take(n + 1));
            }
        }
        proof {
            assert(order@ =~= self@);
        }
        OrderedHashmap { index, order }
    }
}

impl<K: Hash + Eq + Copy, V: Copy + PartialEq> PartialEq for OrderedHashmap<K, V> {
    /// Two maps are equal when they hold equal entries in the same order.
    fn eq(&self, other: &Self) -> (b: bool) {
        self.order == other.order
    }
}

impl<K: Hash + Eq + Copy, V: Copy + PartialEq> vstd::std_specs::cmp::PartialEqSpecImpl for OrderedHashmap<K, V> {
    open spec fn obeys_eq_spec() -> bool {
        K::obeys_eq_spec() && V::obeys_eq_spec()
    }

    open spec fn eq_spec(&self, other: &Self) -> bool {
        &&& self@.len() == other@.len()
        &&& forall|i: int| #![auto] 0 <= i < self@.len() ==> PartialEqSpec::eq_spec(
            &self@[i],
            &other@[i],
        )
    }
}

} // verus!
