//! A map from text to values that keeps its keys in text order.

use crate::text::{same_text, text_before, text_less, text_order_irreflexive, text_order_total,
    text_order_transitive};
use crate::views::views;
use vstd::prelude::*;

verus! {

/// The keys of `list` stand in strictly increasing text order.
pub open spec fn increasing(list: Seq<Seq<char>>) -> bool {
    forall|i: int, j: int| 0 <= i < j < list.len() ==> text_less(#[trigger] list[i], #[trigger] list[j])
}

/// An ordered map keyed by text.
pub struct TextMap<V> {
    entries: Vec<(String, V)>,
}

impl<V> TextMap<V> {
    spec fn keys_of(entries: Seq<(String, V)>) -> Seq<Seq<char>> {
        entries.map_values(|e: (String, V)| e.0@)
    }

    #[verifier::type_invariant]
    spec fn ordered(self) -> bool {
        increasing(Self::keys_of(self.entries@))
    }

    spec fn find(entries: Seq<(String, V)>, key: Seq<char>) -> int {
        choose|i: int| 0 <= i < entries.len() && #[trigger] entries[i].0@ == key
    }

    spec fn holds(entries: Seq<(String, V)>, key: Seq<char>) -> bool {
        exists|i: int| 0 <= i < entries.len() && #[trigger] entries[i].0@ == key
    }

    spec fn map_of(entries: Seq<(String, V)>) -> Map<Seq<char>, V> {
        Map::new(|key: Seq<char>| Self::holds(entries, key), |key: Seq<char>| entries[Self::find(entries, key)].1)
    }

    pub closed spec fn contents(self) -> Map<Seq<char>, V> {
        Self::map_of(self.entries@)
    }

    proof fn entry_is_unique(entries: Seq<(String, V)>, i: int)
        requires
            increasing(Self::keys_of(entries)),
            0 <= i < entries.len(),
        ensures
            Self::map_of(entries).dom().contains(entries[i].0@),
            Self::map_of(entries)[entries[i].0@] == entries[i].1,
            Self::find(entries, entries[i].0@) == i,
    {
        let key = entries[i].0@;
        let found = Self::find(entries, key);
        assert(Self::holds(entries, key));
        assert(entries[found].0@ == key);
        if found != i {
            let keys = Self::keys_of(entries);
            assert(keys[found] == key && keys[i] == key);
            text_order_irreflexive(key);
            if found < i {
                assert(text_less(keys[found], keys[i]));
            } else {
                assert(text_less(keys[i], keys[found]));
            }
        }
    }
}

impl<V> View for TextMap<V> {
    type V = Map<Seq<char>, V>;

    open spec fn view(&self) -> Map<Seq<char>, V> {
        self.contents()
    }
}

impl<V> TextMap<V> {
    /// The empty map.
    pub fn new() -> (map: Self)
        ensures
            map@ == Map::<Seq<char>, V>::empty(),
    {
        let map = TextMap { entries: Vec::new() };
        assert(map@ =~= Map::<Seq<char>, V>::empty());
        map
    }

    /// The number of keys strictly before `key`, and whether `key` itself follows.
    fn position(&self, key: &str) -> (r: (usize, bool))
        ensures
            r.0 <= self.entries@.len(),
            forall|i: int| 0 <= i < r.0 ==> text_less(#[trigger] self.entries@[i].0@, key@),
            r.1 ==> r.0 < self.entries@.len() && self.entries@[r.0 as int].0@ == key@,
            !r.1 ==> forall|i: int| r.0 <= i < self.entries@.len() ==> text_less(key@, #[trigger] self.entries@[i].0@),
            r.1 == self@.dom().contains(key@),
            r.1 ==> self@[key@] == self.entries@[r.0 as int].1,
    {
        proof { use_type_invariant(self); }
        let ghost keys = Self::keys_of(self.entries@);
        let mut at: usize = 0;
        while at < self.entries.len() && text_before(self.entries[at].0.as_str(), key)
            invariant
                at <= self.entries@.len(),
                forall|i: int| 0 <= i < at ==> text_less(#[trigger] self.entries@[i].0@, key@),
            decreases self.entries@.len() - at,
        {
            at += 1;
        }
        if at < self.entries.len() {
            proof { text_order_total(self.entries@[at as int].0@, key@); }
            if same_text(self.entries[at].0.as_str(), key) {
                proof { Self::entry_is_unique(self.entries@, at as int); }
                (at, true)
            } else {
                proof {
                    assert forall|i: int| at <= i < self.entries@.len() implies text_less(key@, #[trigger] self.entries@[i].0@) by {
                        if i > at {
                            assert(text_less(keys[at as int], keys[i]));
                            text_order_transitive(key@, keys[at as int], keys[i]);
                        }
                    }
                    self.absent(key@, at as int);
                }
                (at, false)
            }
        } else {
            proof { self.absent(key@, at as int); }
            (at, false)
        }
    }

    proof fn absent(self, key: Seq<char>, at: int)
        requires
            forall|i: int| 0 <= i < at ==> text_less(#[trigger] self.entries@[i].0@, key),
            forall|i: int| at <= i < self.entries@.len() ==> text_less(key, #[trigger] self.entries@[i].0@),
        ensures
            !self@.dom().contains(key),
    {
        text_order_irreflexive(key);
        if Self::holds(self.entries@, key) {
            let i = Self::find(self.entries@, key);
            assert(self.entries@[i].0@ == key);
        }
    }

    /// The value under `key`.
    pub fn get(&self, key: &str) -> (value: Option<&V>)
        ensures
            value == if self@.dom().contains(key@) { Some(&self@[key@]) } else { None::<&V> },
    {
        let (at, found) = self.position(key);
        if found {
            Some(&self.entries[at].1)
        } else {
            None
        }
    }

    /// Whether there is a value under `key`.
    pub fn contains(&self, key: &str) -> (found: bool)
        ensures
            found == self@.dom().contains(key@),
    {
        self.position(key).1
    }

    /// Puts `value` under `key`, in place of any value that was there.
    pub fn insert(&mut self, key: String, value: V)
        ensures
            final(self)@ == old(self)@.insert(key@, value),
    {
        let ghost before = *self;
        proof { use_type_invariant(&*self); }
        let (at, found) = self.position(key.as_str());
        let mut entries: Vec<(String, V)> = Vec::new();
        std::mem::swap(&mut entries, &mut self.entries);
        let ghost keys = Self::keys_of(entries@);
        let ghost text = key@;
        let ghost start = entries@;
        if found {
            entries.set(at, (key, value));
            proof {
                assert(Self::keys_of(entries@) =~= keys);
            }
        } else {
            entries.insert(at, (key, value));
            proof {
                assert(Self::keys_of(entries@) =~= keys.insert(at as int, text));
                assert(increasing(Self::keys_of(entries@)));
            }
        }
        proof {
            let after = Self::map_of(entries@);
            assert forall|k: Seq<char>| #[trigger] after.dom().contains(k)
                == before@.insert(text, value).dom().contains(k) by {
                if Self::holds(start, k) {
                    let i = Self::find(start, k);
                    assert(start[i].0@ == k);
                    if found {
                        assert(entries@[i].0@ == k);
                    } else if i < at {
                        assert(entries@[i].0@ == k);
                    } else {
                        assert(entries@[i + 1].0@ == k);
                    }
                }
                if k == text {
                    assert(entries@[at as int].0@ == text);
                }
                if Self::holds(entries@, k) {
                    let i = Self::find(entries@, k);
                    assert(entries@[i].0@ == k);
                    if i != at {
                        if found || i < at {
                            assert(start[i].0@ == k);
                        } else {
                            assert(start[i - 1].0@ == k);
                        }
                    }
                }
            }
            assert forall|k: Seq<char>| #[trigger] after.dom().contains(k) implies after[k]
                == before@.insert(text, value)[k] by {
                let i = Self::find(entries@, k);
                assert(entries@[i].0@ == k);
                if i == at {
                    Self::entry_is_unique(entries@, i);
                } else if found || i < at {
                    Self::entry_is_unique(entries@, i);
                    Self::entry_is_unique(entries@, at as int);
                    Self::entry_is_unique(start, i);
                } else {
                    Self::entry_is_unique(entries@, i);
                    Self::entry_is_unique(entries@, at as int);
                    Self::entry_is_unique(start, i - 1);
                }
            }
            assert(after =~= before@.insert(text, value));
        }
        self.entries = entries;
    }

    /// Takes the value under `key` out of the map.
    pub fn remove(&mut self, key: &str) -> (value: Option<V>)
        ensures
            final(self)@ == old(self)@.remove(key@),
            value == if old(self)@.dom().contains(key@) { Some(old(self)@[key@]) } else { None::<V> },
    {
        let ghost before = *self;
        proof { use_type_invariant(&*self); }
        let (at, found) = self.position(key);
        if !found {
            assert(before@.remove(key@) =~= before@);
            return None;
        }
        let mut entries: Vec<(String, V)> = Vec::new();
        std::mem::swap(&mut entries, &mut self.entries);
        let ghost keys = Self::keys_of(entries@);
        let ghost start = entries@;
        let (_, value) = entries.remove(at);
        proof {
            assert(Self::keys_of(entries@) =~= keys.remove(at as int));
            assert(increasing(Self::keys_of(entries@)));
            let after = Self::map_of(entries@);
            assert forall|k: Seq<char>| #[trigger] after.dom().contains(k)
                == before@.remove(key@).dom().contains(k) by {
                if Self::holds(start, k) {
                    let i = Self::find(start, k);
                    assert(start[i].0@ == k);
                    if i < at {
                        assert(entries@[i].0@ == k);
                    } else if i > at {
                        assert(entries@[i - 1].0@ == k);
                    }
                }
                if Self::holds(entries@, k) {
                    let i = Self::find(entries@, k);
                    assert(entries@[i].0@ == k);
                    if i < at {
                        assert(start[i].0@ == k);
                        Self::entry_is_unique(start, i);
                    } else {
                        assert(start[i + 1].0@ == k);
                        Self::entry_is_unique(start, i + 1);
                    }
                    Self::entry_is_unique(start, at as int);
                }
            }
            assert forall|k: Seq<char>| #[trigger] after.dom().contains(k) implies after[k]
                == before@.remove(key@)[k] by {
                let i = Self::find(entries@, k);
                assert(entries@[i].0@ == k);
                Self::entry_is_unique(entries@, i);
                if i < at {
                    Self::entry_is_unique(start, i);
                } else {
                    Self::entry_is_unique(start, i + 1);
                }
            }
            assert(after =~= before@.remove(key@));
        }
        self.entries = entries;
        Some(value)
    }

    /// The keys, in order.
    pub fn keys(&self) -> (list: Vec<String>)
        ensures
            increasing(views(list@)),
            forall|key: Seq<char>| #[trigger] views(list@).contains(key) <==> self@.dom().contains(key),
    {
        proof { use_type_invariant(self); }
        let mut list: Vec<String> = Vec::new();
        let mut i: usize = 0;
        while i < self.entries.len()
            invariant
                i <= self.entries@.len(),
                list@.len() == i,
                forall|j: int| 0 <= j < i ==> list@[j]@ == self.entries@[j].0@,
            decreases self.entries@.len() - i,
        {
            list.push(self.entries[i].0.clone());
            i += 1;
        }
        proof {
            let keys = Self::keys_of(self.entries@);
            assert(views(list@) =~= keys);
            assert forall|key: Seq<char>| #[trigger] views(list@).contains(key) <==> self@.dom().contains(key) by {
                if views(list@).contains(key) {
                    let j = choose|j: int| 0 <= j < keys.len() && keys[j] == key;
                    Self::entry_is_unique(self.entries@, j);
                }
                if self@.dom().contains(key) {
                    let j = Self::find(self.entries@, key);
                    assert(keys[j] == key);
                }
            }
        }
        list
    }
}

} // verus!
