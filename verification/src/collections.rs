//! Sets and maps whose elements are compared by what they stand for.
//!
//! Both keep their elements in the order in which they came and hold no
//! element, respectively no key, twice.
use vstd::prelude::*;
use vstd::std_specs::cmp::PartialEqSpec;

use crate::text::same;

verus! {

/// The views of the elements.
pub open spec fn views<T: View>(s: Seq<T>) -> Seq<T::V> {
    Seq::new(s.len(), |i: int| s[i]@)
}

/// An optional text as a mathematical value.
pub open spec fn option_view(o: Option<String>) -> Option<Seq<char>> {
    match o {
        Some(s) => Some(s@),
        None => None,
    }
}

/// A copy of an optional text.
pub fn copy_option(o: &Option<String>) -> (r: Option<String>)
    ensures
        option_view(r) == option_view(*o),
{
    match o {
        Some(s) => Some(s.clone()),
        None => None,
    }
}

/// A value that can be told apart and copied.
pub trait Key: View + Sized {
    /// Whether two values stand for the same thing.
    fn is_same(&self, other: &Self) -> (r: bool)
        ensures
            r == (self@ == other@),
    ;

    /// A value that stands for the same thing.
    fn copy(&self) -> (r: Self)
        ensures
            r@ == self@,
    ;
}

impl Key for String {
    fn is_same(&self, other: &String) -> (r: bool) {
        same(self.as_str(), other.as_str())
    }

    fn copy(&self) -> (r: String) {
        self.clone()
    }
}

// ─── Sets ──────────────────────────────────────────────────────────────────

/// A finite set.
#[derive(Debug)]
#[verifier::reject_recursive_types(T)]
pub struct KeySet<T: Key> {
    items: Vec<T>,
}

impl<T: Key> View for KeySet<T> {
    type V = Set<T::V>;

    closed spec fn view(&self) -> Set<T::V> {
        views(self.items@).to_set()
    }
}

impl<T: Key> KeySet<T> {
    #[verifier::type_invariant]
    spec fn wf(&self) -> bool {
        views(self.items@).no_duplicates()
    }

    /// The elements in the order in which they came.
    pub closed spec fn order(&self) -> Seq<T> {
        self.items@
    }

    /// The empty set.
    pub fn new() -> (r: KeySet<T>)
        ensures
            r@ == Set::<T::V>::empty(),
            r.order() == Seq::<T>::empty(),
    {
        let r = KeySet { items: Vec::new() };
        assert(r@ =~= Set::<T::V>::empty());
        assert(r.order() =~= Seq::<T>::empty());
        r
    }

    /// Whether the set holds an element.
    pub fn contains(&self, x: &T) -> (r: bool)
        ensures
            r == self@.contains(x@),
    {
        let mut i: usize = 0;
        while i < self.items.len()
            invariant
                i <= self.items@.len(),
                forall|j: int| 0 <= j < i ==> (#[trigger] self.items@[j])@ != x@,
            decreases self.items@.len() - i,
        {
            if self.items[i].is_same(x) {
                assert(views(self.items@)[i as int] == x@);
                assert(self@.contains(x@));
                return true;
            }
            i = i + 1;
        }
        assert(!self@.contains(x@)) by {
            if views(self.items@).contains(x@) {
                let j = choose|j: int|
                    0 <= j < views(self.items@).len() && views(self.items@)[j] == x@;
                assert(self.items@[j]@ == x@);
            }
        }
        false
    }

    /// Adds an element; gives whether it was new.
    pub fn insert(&mut self, x: T) -> (r: bool)
        ensures
            final(self)@ == old(self)@.insert(x@),
            r == !old(self)@.contains(x@),
    {
        if self.contains(&x) {
            assert(self@.insert(x@) =~= self@);
            false
        } else {
            proof {
                use_type_invariant(&*self);
                let before = views(self.items@);
                let after = views(self.items@.push(x));
                assert(after =~= before.push(x@));
                assert(!before.contains(x@));
                assert(after.no_duplicates());
                assert(after.to_set() =~= before.to_set().insert(x@)) by {
                    assert forall|v: T::V| after.contains(v) == (before.contains(v) || v == x@) by {
                        if before.contains(v) {
                            let j = choose|j: int| 0 <= j < before.len() && before[j] == v;
                            assert(after[j] == v);
                        }
                        if v == x@ {
                            assert(after[before.len() as int] == v);
                        }
                    }
                }
            }
            let mut taken: KeySet<T> = KeySet::new();
            core::mem::swap(self, &mut taken);
            let mut items = taken.items;
            items.push(x);
            *self = KeySet { items };
            true
        }
    }

    /// Adds every element of another set; gives whether any was new.
    pub fn extend(&mut self, other: &KeySet<T>) -> (r: bool)
        ensures
            final(self)@ == old(self)@.union(other@),
            r == !other@.subset_of(old(self)@),
    {
        let ghost start = self@;
        let ghost theirs = views(other.items@);
        let mut changed = false;
        let mut i: usize = 0;
        assert(theirs.take(0).to_set() =~= Set::<T::V>::empty());
        assert(start.union(Set::<T::V>::empty()) =~= start);
        while i < other.items.len()
            invariant
                i <= other.items@.len(),
                theirs == views(other.items@),
                self@ == start.union(theirs.take(i as int).to_set()),
                changed == !theirs.take(i as int).to_set().subset_of(start),
            decreases other.items@.len() - i,
        {
            let x = other.items[i].copy();
            let ghost before = self@;
            let ghost part = theirs.take(i as int);
            if self.insert(x) {
                changed = true;
            }
            proof {
                let next = theirs.take(i as int + 1);
                assert(next =~= part.push(x@));
                assert(next.to_set() =~= part.to_set().insert(x@)) by {
                    assert forall|v: T::V| next.contains(v) == (part.contains(v) || v == x@) by {
                        if part.contains(v) {
                            let j = choose|j: int| 0 <= j < part.len() && part[j] == v;
                            assert(next[j] == v);
                        }
                        if v == x@ {
                            assert(next[i as int] == v);
                        }
                    }
                }
                assert(self@ =~= start.union(next.to_set()));
                assert(next.to_set().contains(x@));
                if !part.to_set().subset_of(start) {
                    let w = choose|w: T::V| part.to_set().contains(w) && !start.contains(w);
                    assert(next.to_set().contains(w));
                }
            }
            i = i + 1;
        }
        assert(theirs.take(i as int) =~= theirs);
        changed
    }

    /// How many elements the set has.
    pub fn len(&self) -> (r: usize)
        ensures
            r == self@.len(),
    {
        proof {
            use_type_invariant(self);
            views(self.items@).unique_seq_to_set();
        }
        self.items.len()
    }

    /// Whether the set is empty.
    pub fn is_empty(&self) -> (r: bool)
        ensures
            r == (self@ == Set::<T::V>::empty()),
    {
        proof {
            if self.items@.len() == 0 {
                assert(self@ =~= Set::<T::V>::empty());
            } else {
                assert(views(self.items@)[0] == self.items@[0]@);
                assert(self@.contains(self.items@[0]@));
            }
        }
        self.items.len() == 0
    }

    /// The elements in the order in which they came.
    pub fn items(&self) -> (r: &Vec<T>)
        ensures
            r@ == self.order(),
            views(r@).to_set() == self@,
            views(r@).no_duplicates(),
            self@.finite(),
            self@.len() == r@.len(),
    {
        proof {
            use_type_invariant(self);
            views(self.items@).unique_seq_to_set();
            vstd::seq_lib::seq_to_set_is_finite(views(self.items@));
        }
        &self.items
    }

    /// A set of the same elements.
    pub fn copy_set(&self) -> (r: KeySet<T>)
        ensures
            r@ == self@,
    {
        let mut r: KeySet<T> = KeySet::new();
        let _ = r.extend(self);
        assert(r@ =~= self@);
        r
    }
}

impl<T: Key> KeySet<T> {
    /// Whether every element is one of the other set too.
    pub fn is_subset(&self, other: &KeySet<T>) -> (r: bool)
        ensures
            r == self@.subset_of(other@),
    {
        let ghost ours = views(self.items@);
        let mut i: usize = 0;
        while i < self.items.len()
            invariant
                i <= self.items@.len(),
                ours == views(self.items@),
                forall|j: int| 0 <= j < i ==> other@.contains(#[trigger] ours[j]),
            decreases self.items@.len() - i,
        {
            if !other.contains(&self.items[i]) {
                assert(ours[i as int] == self.items@[i as int]@);
                assert(self@.contains(self.items@[i as int]@));
                return false;
            }
            assert(ours[i as int] == self.items@[i as int]@);
            i = i + 1;
        }
        true
    }
}

impl<T: Key> PartialEq for KeySet<T> {
    fn eq(&self, other: &KeySet<T>) -> (r: bool) {
        let r = self.is_subset(other) && other.is_subset(self);
        assert(r ==> self@ =~= other@);
        r
    }
}

impl<T: Key> vstd::std_specs::cmp::PartialEqSpecImpl for KeySet<T> {
    open spec fn obeys_eq_spec() -> bool {
        true
    }

    open spec fn eq_spec(&self, other: &KeySet<T>) -> bool {
        self@ == other@
    }
}

impl<T: Key> Eq for KeySet<T> {

}

impl KeySet<String> {
    /// Whether the set holds a name.
    pub fn contains_name(&self, name: &str) -> (r: bool)
        ensures
            r == self@.contains(name@),
    {
        let n = name.to_owned();
        self.contains(&n)
    }
}

impl<T: Key> Default for KeySet<T> {
    fn default() -> (r: KeySet<T>)
        ensures
            r@ == Set::<T::V>::empty(),
    {
        KeySet::new()
    }
}

// ─── Maps ──────────────────────────────────────────────────────────────────

/// The map that a sequence of entries makes.
pub open spec fn entries_map<K: View, X: View>(entries: Seq<(K, X)>) -> Map<K::V, X::V>
    decreases entries.len(),
{
    if entries.len() == 0 {
        Map::empty()
    } else {
        entries_map(entries.drop_last()).insert(entries.last().0@, entries.last().1@)
    }
}

/// The keys of a sequence of entries.
pub open spec fn entry_keys<K: View, X>(entries: Seq<(K, X)>) -> Seq<K::V> {
    Seq::new(entries.len(), |i: int| entries[i].0@)
}

/// With distinct keys, the map holds exactly the entries.
pub proof fn entries_map_lookup<K: View, X: View>(entries: Seq<(K, X)>)
    requires
        entry_keys(entries).no_duplicates(),
    ensures
        entries_map(entries).dom() == entry_keys(entries).to_set(),
        forall|i: int|
            0 <= i < entries.len() ==> entries_map(entries)[(#[trigger] entries[i]).0@]
                == entries[i].1@,
    decreases entries.len(),
{
    let keys = entry_keys(entries);
    if entries.len() == 0 {
        assert(entries_map(entries).dom() =~= keys.to_set());
    } else {
        let front = entries.drop_last();
        assert(entry_keys(front) =~= keys.drop_last());
        assert(entry_keys(front).no_duplicates());
        entries_map_lookup(front);
        assert forall|k: K::V| entries_map(entries).dom().contains(k) == keys.to_set().contains(
            k,
        ) by {
            if entry_keys(front).contains(k) {
                let j = choose|j: int| 0 <= j < front.len() && entry_keys(front)[j] == k;
                assert(keys[j] == k);
            }
            if k == entries.last().0@ {
                assert(keys[entries.len() - 1] == k);
            }
            if keys.contains(k) {
                let j = choose|j: int| 0 <= j < keys.len() && keys[j] == k;
                if j < front.len() {
                    assert(entry_keys(front)[j] == k);
                }
            }
        }
        assert(entries_map(entries).dom() =~= keys.to_set());
        assert forall|i: int| 0 <= i < entries.len() implies entries_map(entries)[(
        #[trigger] entries[i]).0@] == entries[i].1@ by {
            if i < front.len() {
                assert(front[i] == entries[i]);
                assert(keys[i] != keys[entries.len() - 1]);
            }
        }
    }
}

/// A finite map.
#[derive(Debug)]
#[verifier::reject_recursive_types(K)]
#[verifier::reject_recursive_types(X)]
pub struct KeyMap<K: Key, X: View> {
    entries: Vec<(K, X)>,
}

impl<K: Key, X: View> View for KeyMap<K, X> {
    type V = Map<K::V, X::V>;

    closed spec fn view(&self) -> Map<K::V, X::V> {
        entries_map(self.entries@)
    }
}

impl<K: Key, X: View> KeyMap<K, X> {
    #[verifier::type_invariant]
    spec fn wf(&self) -> bool {
        entry_keys(self.entries@).no_duplicates()
    }

    /// The empty map.
    pub fn new() -> (r: KeyMap<K, X>)
        ensures
            r@ == Map::<K::V, X::V>::empty(),
    {
        KeyMap { entries: Vec::new() }
    }

    fn position(&self, k: &K) -> (r: Option<usize>)
        ensures
            match r {
                Some(i) => i < self.entries@.len() && self.entries@[i as int].0@ == k@,
                None => forall|j: int|
                    0 <= j < self.entries@.len() ==> (#[trigger] self.entries@[j]).0@ != k@,
            },
    {
        let mut i: usize = 0;
        while i < self.entries.len()
            invariant
                i <= self.entries@.len(),
                forall|j: int| 0 <= j < i ==> (#[trigger] self.entries@[j]).0@ != k@,
            decreases self.entries@.len() - i,
        {
            if self.entries[i].0.is_same(k) {
                return Some(i);
            }
            i = i + 1;
        }
        None
    }

    /// The value of a key.
    pub fn get(&self, k: &K) -> (r: Option<&X>)
        ensures
            match r {
                Some(x) => self@.dom().contains(k@) && self@[k@] == x@,
                None => !self@.dom().contains(k@),
            },
    {
        proof {
            use_type_invariant(self);
            entries_map_lookup(self.entries@);
        }
        match self.position(k) {
            Some(i) => {
                assert(entry_keys(self.entries@)[i as int] == k@);
                Some(&self.entries[i].1)
            },
            None => {
                assert(!entry_keys(self.entries@).contains(k@)) by {
                    if entry_keys(self.entries@).contains(k@) {
                        let j = choose|j: int|
                            0 <= j < self.entries@.len() && entry_keys(self.entries@)[j] == k@;
                        assert(self.entries@[j].0@ == k@);
                    }
                }
                None
            },
        }
    }

    /// Gives a key a value, in place of an earlier one.
    pub fn insert(&mut self, k: K, x: X)
        ensures
            final(self)@ == old(self)@.insert(k@, x@),
    {
        proof {
            use_type_invariant(&*self);
        }
        let ghost before = self.entries@;
        let at = self.position(&k);
        let mut taken: KeyMap<K, X> = KeyMap::new();
        core::mem::swap(self, &mut taken);
        let mut entries = taken.entries;
        match at {
            None => {},
            Some(i) => {
                let _ = entries.remove(i);
            },
        }
        proof {
            let kept = entries@;
            let keys = entry_keys(kept);
            let all = entry_keys(before);
            if let Some(i) = at {
                assert(kept =~= before.remove(i as int));
                assert forall|a: int, b: int| 0 <= a < keys.len() && 0 <= b < keys.len() && a
                    != b implies keys[a] != keys[b] by {
                    let a2 = if a < i {
                        a
                    } else {
                        a + 1
                    };
                    let b2 = if b < i {
                        b
                    } else {
                        b + 1
                    };
                    assert(keys[a] == all[a2] && keys[b] == all[b2]);
                }
                assert forall|a: int| 0 <= a < keys.len() implies keys[a] != k@ by {
                    let a2 = if a < i {
                        a
                    } else {
                        a + 1
                    };
                    assert(keys[a] == all[a2]);
                    assert(all[i as int] == k@);
                }
            } else {
                assert forall|a: int| 0 <= a < keys.len() implies keys[a] != k@ by {
                    assert(before[a].0@ != k@);
                }
            }
            let after = kept.push((k, x));
            assert(entry_keys(after) =~= keys.push(k@));
            assert(entry_keys(after).no_duplicates());
            assert(after.drop_last() =~= kept);
            entries_map_lookup(before);
            entries_map_lookup(kept);
            assert(entries_map(after) =~= entries_map(before).insert(k@, x@)) by {
                assert forall|c: K::V| entries_map(after).dom().contains(c) == (entries_map(
                    before,
                ).dom().contains(c) || c == k@) by {
                    if all.contains(c) && c != k@ {
                        let j = choose|j: int| 0 <= j < all.len() && all[j] == c;
                        if let Some(i) = at {
                            let j2 = if j < i {
                                j
                            } else {
                                j - 1
                            };
                            assert(keys[j2] == c);
                        }
                    }
                    if keys.contains(c) {
                        let j = choose|j: int| 0 <= j < keys.len() && keys[j] == c;
                        if let Some(i) = at {
                            let j2 = if j < i {
                                j
                            } else {
                                j + 1
                            };
                            assert(all[j2] == c);
                        }
                    }
                }
                assert forall|c: K::V| #[trigger] entries_map(after).dom().contains(c) implies entries_map(
                    after,
                )[c] == entries_map(before).insert(k@, x@)[c] by {
                    if c != k@ {
                        let j = choose|j: int| 0 <= j < keys.len() && keys[j] == c;
                        assert(keys.contains(c));
                        assert(kept[j].0@ == c);
                        if let Some(i) = at {
                            let j2 = if j < i {
                                j
                            } else {
                                j + 1
                            };
                            assert(before[j2] == kept[j]);
                        } else {
                            assert(before[j] == kept[j]);
                        }
                    }
                }
            }
        }
        entries.push((k, x));
        *self = KeyMap { entries };
    }

    /// How many keys the map has.
    pub fn len(&self) -> (r: usize)
        ensures
            r == self@.dom().len(),
    {
        proof {
            use_type_invariant(self);
            entries_map_lookup(self.entries@);
            entry_keys(self.entries@).unique_seq_to_set();
        }
        self.entries.len()
    }

    /// Whether the map has no keys.
    pub fn is_empty(&self) -> (r: bool)
        ensures
            r == (self@.dom() == Set::<K::V>::empty()),
    {
        proof {
            use_type_invariant(self);
            entries_map_lookup(self.entries@);
            if self.entries@.len() == 0 {
                assert(self@.dom() =~= Set::<K::V>::empty());
            } else {
                assert(entry_keys(self.entries@)[0] == self.entries@[0].0@);
                assert(self@.dom().contains(self.entries@[0].0@));
            }
        }
        self.entries.len() == 0
    }

    /// The entries: every key once, with its value.
    pub fn all(&self) -> (r: &Vec<(K, X)>)
        ensures
            entries_map(r@) == self@,
            entry_keys(r@).no_duplicates(),
            entry_keys(r@).to_set() == self@.dom(),
            forall|i: int|
                0 <= i < r@.len() ==> self@[(#[trigger] r@[i]).0@] == r@[i].1@,
    {
        proof {
            use_type_invariant(self);
            entries_map_lookup(self.entries@);
        }
        &self.entries
    }
}

/// Values of the type are equal exactly where they stand for the same thing.
pub open spec fn equal_by_view<X: View + PartialEq>() -> bool {
    &&& X::obeys_eq_spec()
    &&& forall|a: X, b: X| #[trigger] a.eq_spec(&b) == (a@ == b@)
}

impl<K: Key, X: View + PartialEq> PartialEq for KeyMap<K, X> {
    fn eq(&self, other: &KeyMap<K, X>) -> (r: bool) {
        proof {
            use_type_invariant(self);
            use_type_invariant(other);
            entries_map_lookup(self.entries@);
            entries_map_lookup(other.entries@);
            entry_keys(self.entries@).unique_seq_to_set();
            entry_keys(other.entries@).unique_seq_to_set();
        }
        if self.entries.len() != other.entries.len() {
            return false;
        }
        let ghost keys = entry_keys(self.entries@);
        let mut i: usize = 0;
        while i < self.entries.len()
            invariant
                i <= self.entries@.len(),
                keys == entry_keys(self.entries@),
                self@.dom() == keys.to_set(),
                forall|j: int|
                    0 <= j < self.entries@.len() ==> self@[(#[trigger] self.entries@[j]).0@]
                        == self.entries@[j].1@,
                equal_by_view::<X>() ==> forall|j: int|
                    0 <= j < i ==> other@.dom().contains(#[trigger] keys[j]) && other@[keys[j]]
                        == self@[keys[j]],
            decreases self.entries@.len() - i,
        {
            let entry = &self.entries[i];
            assert(keys[i as int] == entry.0@);
            assert(keys.to_set().contains(entry.0@));
            match other.get(&entry.0) {
                None => {
                    return false;
                },
                Some(x) => {
                    if *x != entry.1 {
                        return false;
                    }
                },
            }
            i = i + 1;
        }
        proof {
            if equal_by_view::<X>() {
                assert(self@.dom().subset_of(other@.dom()));
                vstd::set_lib::lemma_subset_equality(self@.dom(), other@.dom());
                assert(self@ =~= other@);
            }
        }
        true
    }
}

impl<K: Key, X: View + PartialEq> vstd::std_specs::cmp::PartialEqSpecImpl for KeyMap<K, X> {
    open spec fn obeys_eq_spec() -> bool {
        equal_by_view::<X>()
    }

    open spec fn eq_spec(&self, other: &KeyMap<K, X>) -> bool {
        self@ == other@
    }
}

impl<K: Key, X: View + Eq> Eq for KeyMap<K, X> {

}

impl<K: Key, X: View> Default for KeyMap<K, X> {
    fn default() -> (r: KeyMap<K, X>)
        ensures
            r@ == Map::<K::V, X::V>::empty(),
    {
        KeyMap::new()
    }
}

} // verus!
