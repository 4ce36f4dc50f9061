//! Small collections of strings.

use vstd::prelude::*;

use crate::text;

verus! {

/// A set of strings.
#[derive(Debug)]
pub struct StrSet {
    items: Vec<String>,
}

impl View for StrSet {
    type V = Set<Seq<char>>;

    closed spec fn view(&self) -> Set<Seq<char>> {
        Set::new(|s: Seq<char>| text::texts(self.items@).contains(s))
    }
}

impl StrSet {
    /// The empty set.
    pub fn new() -> (r: StrSet)
        ensures
            r@ == Set::<Seq<char>>::empty(),
    {
        let r: StrSet = StrSet { items: Vec::new() };
        assert(r@ =~= Set::<Seq<char>>::empty());
        r
    }

    /// No string is in the set.
    pub fn is_empty(&self) -> (r: bool)
        ensures
            r == (self@ == Set::<Seq<char>>::empty()),
    {
        if self.items.len() == 0 {
            assert(self@ =~= Set::<Seq<char>>::empty());
            true
        } else {
            assert(text::texts(self.items@)[0] == self.items@[0]@);
            assert(self@.contains(self.items@[0]@));
            false
        }
    }

    /// The string is in the set.
    pub fn contains(&self, s: &str) -> (r: bool)
        ensures
            r == self@.contains(s@),
    {
        text::texts_contain(&self.items, s)
    }

    /// Every string of the set is in the other one.
    pub fn is_subset(&self, other: &StrSet) -> (r: bool)
        ensures
            r == self@.subset_of(other@),
    {
        let ghost all = text::texts(self.items@);
        let mut i: usize = 0;
        while i < self.items.len()
            invariant
                i <= self.items@.len(),
                all == text::texts(self.items@),
                forall|j: int| 0 <= j < i ==> other@.contains(#[trigger] all[j]),
            decreases self.items@.len() - i,
        {
            assert(all[i as int] == self.items@[i as int]@);
            if !other.contains(self.items[i].as_str()) {
                assert(self@.contains(all[i as int]));
                return false;
            }
            i += 1;
        }
        assert forall|s: Seq<char>| self@.contains(s) implies other@.contains(s) by {
            let j = choose|j: int| 0 <= j < all.len() && all[j] == s;
            assert(other@.contains(all[j]));
        }
        true
    }

    /// Add a string; the result says whether it was new.
    pub fn insert(&mut self, s: &str) -> (r: bool)
        ensures
            final(self)@ == old(self)@.insert(s@),
            r == !old(self)@.contains(s@),
    {
        if self.contains(s) {
            assert(self@.insert(s@) =~= self@);
            false
        } else {
            let ghost before = text::texts(self.items@);
            self.items.push(s.to_owned());
            assert(text::texts(self.items@) =~= before.push(s@));
            assert forall|x: Seq<char>| before.push(s@).contains(x) == (before.contains(x) || x
                == s@) by {
                if before.contains(x) {
                    let i = choose|i: int| 0 <= i < before.len() && before[i] == x;
                    assert(before.push(s@)[i] == x);
                }
                if x == s@ {
                    assert(before.push(s@)[before.len() as int] == x);
                }
                if before.push(s@).contains(x) && x != s@ {
                    let i = choose|i: int|
                        0 <= i < before.push(s@).len() && before.push(s@)[i] == x;
                    assert(before[i] == x);
                }
            }
            assert(self@ =~= old(self)@.insert(s@));
            true
        }
    }
}

/// The texts of a sequence of pairs of strings.
pub open spec fn pair_texts(v: Seq<(String, String)>) -> Seq<(Seq<char>, Seq<char>)> {
    Seq::new(v.len(), |i: int| (v[i].0@, v[i].1@))
}

/// What a key is bound to in a list of pairs.
pub open spec fn lookup(pairs: Seq<(Seq<char>, Seq<char>)>, key: Seq<char>) -> Option<Seq<char>>
    decreases pairs.len(),
{
    if pairs.len() == 0 {
        None
    } else if pairs.last().0 == key {
        Some(pairs.last().1)
    } else {
        lookup(pairs.drop_last(), key)
    }
}

/// The pairs with `key` bound to `value`, in its old place or at the end.
pub open spec fn put(
    pairs: Seq<(Seq<char>, Seq<char>)>,
    key: Seq<char>,
    value: Seq<char>,
) -> Seq<(Seq<char>, Seq<char>)>
    decreases pairs.len(),
{
    if pairs.len() == 0 {
        seq![(key, value)]
    } else if lookup(pairs, key) is None {
        pairs.push((key, value))
    } else if pairs.last().0 == key {
        pairs.drop_last().push((key, value))
    } else {
        put(pairs.drop_last(), key, value).push(pairs.last())
    }
}

/// No key occurs twice.
pub open spec fn distinct_keys(pairs: Seq<(Seq<char>, Seq<char>)>) -> bool {
    forall|i: int, j: int|
        0 <= i < j < pairs.len() ==> (#[trigger] pairs[i]).0 != (#[trigger] pairs[j]).0
}

/// The pairs bind some key to this value.
pub open spec fn has_value(pairs: Seq<(Seq<char>, Seq<char>)>, value: Seq<char>) -> bool {
    exists|i: int| 0 <= i < pairs.len() && (#[trigger] pairs[i]).1 == value
}

/// A map from strings to strings that remembers in which order its keys came.
#[derive(Debug)]
pub struct StrMap {
    entries: Vec<(String, String)>,
}

impl View for StrMap {
    type V = Seq<(Seq<char>, Seq<char>)>;

    closed spec fn view(&self) -> Seq<(Seq<char>, Seq<char>)> {
        pair_texts(self.entries@)
    }
}

impl StrMap {
    /// The map without entries.
    pub fn new() -> (r: StrMap)
        ensures
            r@ == Seq::<(Seq<char>, Seq<char>)>::empty(),
    {
        let r: StrMap = StrMap { entries: Vec::new() };
        assert(r@ =~= Seq::empty());
        r
    }

    /// The number of entries.
    pub fn len(&self) -> (r: usize)
        ensures
            r == self@.len(),
    {
        self.entries.len()
    }

    /// The key of an entry.
    pub fn key(&self, i: usize) -> (r: &str)
        requires
            i < self@.len(),
        ensures
            r@ == self@[i as int].0,
    {
        self.entries[i].0.as_str()
    }

    /// The value of an entry.
    pub fn value(&self, i: usize) -> (r: &str)
        requires
            i < self@.len(),
        ensures
            r@ == self@[i as int].1,
    {
        self.entries[i].1.as_str()
    }

    /// The position of a key, or the number of entries.
    fn position(&self, key: &str) -> (r: usize)
        ensures
            r <= self@.len(),
            r < self@.len() ==> self@[r as int].0 == key@ && lookup(self@, key@) == Some(
                self@[r as int].1,
            ) && forall|j: int| r < j < self@.len() ==> (#[trigger] self@[j]).0 != key@,
            r == self@.len() ==> lookup(self@, key@) is None,
    {
        let mut i: usize = self.entries.len();
        let ghost all = self@;
        assert(all.take(i as int) =~= all);
        while i > 0
            invariant
                i <= all.len(),
                all == self@,
                lookup(all, key@) == lookup(all.take(i as int), key@),
                forall|j: int| i <= j < all.len() ==> (#[trigger] all[j]).0 != key@,
            decreases i,
        {
            assert(all.take(i as int).last() == all[i - 1]);
            if text::str_eq(self.entries[i - 1].0.as_str(), key) {
                return i - 1;
            }
            assert(all.take(i as int).drop_last() =~= all.take(i - 1));
            i -= 1;
        }
        self.entries.len()
    }

    /// What the key is bound to.
    pub fn get(&self, key: &str) -> (r: Option<&str>)
        ensures
            text::opt_str(r) == lookup(self@, key@),
    {
        let i: usize = self.position(key);
        if i < self.entries.len() {
            Some(self.entries[i].1.as_str())
        } else {
            None
        }
    }

    /// Some key is bound to this value.
    pub fn contains_value(&self, value: &str) -> (r: bool)
        ensures
            r == has_value(self@, value@),
    {
        let mut i: usize = 0;
        while i < self.entries.len()
            invariant
                i <= self@.len(),
                self@.len() == self.entries@.len(),
                forall|j: int| 0 <= j < i ==> (#[trigger] self@[j]).1 != value@,
            decreases self@.len() - i,
        {
            if text::str_eq(self.entries[i].1.as_str(), value) {
                assert(self@[i as int].1 == value@);
                return true;
            }
            i += 1;
        }
        false
    }

    /// Bind a key.
    pub fn insert(&mut self, key: &str, value: &str)
        ensures
            final(self)@ == put(old(self)@, key@, value@),
    {
        let i: usize = self.position(key);
        let ghost all = self@;
        if i < self.entries.len() {
            let entry: (String, String) = (key.to_owned(), value.to_owned());
            self.entries.set(i, entry);
            proof {
                lemma_put_at(all, key@, value@, i as int);
                assert(self@ =~= all.update(i as int, (key@, value@)));
            }
        } else {
            let entry: (String, String) = (key.to_owned(), value.to_owned());
            self.entries.push(entry);
            assert(self@ =~= all.push((key@, value@)));
            assert(all.len() == 0 ==> all.push((key@, value@)) =~= seq![(key@, value@)]);
        }
    }
}

proof fn lemma_put_at(
    pairs: Seq<(Seq<char>, Seq<char>)>,
    key: Seq<char>,
    value: Seq<char>,
    i: int,
)
    requires
        0 <= i < pairs.len(),
        pairs[i].0 == key,
        forall|j: int| i < j < pairs.len() ==> (#[trigger] pairs[j]).0 != key,
    ensures
        put(pairs, key, value) == pairs.update(i, (key, value)),
        lookup(pairs, key) == Some(pairs[i].1),
    decreases pairs.len(),
{
    if i == pairs.len() - 1 {
        assert(pairs.drop_last().push((key, value)) =~= pairs.update(i, (key, value)));
    } else {
        let init = pairs.drop_last();
        assert forall|j: int| i < j < init.len() implies (#[trigger] init[j]).0 != key by {
            assert(init[j] == pairs[j]);
        }
        lemma_put_at(init, key, value, i);
        assert(pairs.last().0 != key) by {
            assert(pairs[pairs.len() - 1].0 != key);
        }
        assert(init.update(i, (key, value)).push(pairs.last()) =~= pairs.update(i, (key, value)));
    }
}

/// What was bound last is what a key is bound to; other keys keep theirs.
pub proof fn lookup_after_put(
    pairs: Seq<(Seq<char>, Seq<char>)>,
    key: Seq<char>,
    value: Seq<char>,
    other: Seq<char>,
)
    ensures
        lookup(put(pairs, key, value), key) == Some(value),
        other != key ==> lookup(put(pairs, key, value), other) == lookup(pairs, other),
    decreases pairs.len(),
{
    reveal_with_fuel(lookup, 2);
    let after = put(pairs, key, value);
    if pairs.len() == 0 {
        assert(after.drop_last() =~= Seq::empty());
    } else if lookup(pairs, key) is None {
        assert(after.drop_last() =~= pairs);
    } else if pairs.last().0 == key {
        assert(after.drop_last() =~= pairs.drop_last());
    } else {
        lookup_after_put(pairs.drop_last(), key, value, other);
        assert(after.drop_last() =~= put(pairs.drop_last(), key, value));
    }
}

/// Binding a key never makes a key occur twice.
pub proof fn put_keeps_keys_distinct(
    pairs: Seq<(Seq<char>, Seq<char>)>,
    key: Seq<char>,
    value: Seq<char>,
)
    requires
        distinct_keys(pairs),
    ensures
        distinct_keys(put(pairs, key, value)),
    decreases pairs.len(),
{
    if lookup(pairs, key) is Some {
        lemma_lookup_found(pairs, key);
        let i = choose|i: int|
            0 <= i < pairs.len() && (#[trigger] pairs[i]).0 == key && forall|j: int|
                i < j < pairs.len() ==> (#[trigger] pairs[j]).0 != key;
        lemma_put_at(pairs, key, value, i);
    } else {
        lemma_lookup_missing(pairs, key);
        if pairs.len() > 0 {
            assert(put(pairs, key, value) == pairs.push((key, value)));
        }
    }
}

proof fn lemma_lookup_found(pairs: Seq<(Seq<char>, Seq<char>)>, key: Seq<char>)
    requires
        lookup(pairs, key) is Some,
    ensures
        exists|i: int|
            0 <= i < pairs.len() && (#[trigger] pairs[i]).0 == key && forall|j: int|
                i < j < pairs.len() ==> (#[trigger] pairs[j]).0 != key,
    decreases pairs.len(),
{
    if pairs.last().0 == key {
        assert(pairs[pairs.len() - 1].0 == key);
    } else {
        let init = pairs.drop_last();
        lemma_lookup_found(init, key);
        let i = choose|i: int|
            0 <= i < init.len() && (#[trigger] init[i]).0 == key && forall|j: int|
                i < j < init.len() ==> (#[trigger] init[j]).0 != key;
        assert(pairs[i].0 == key);
        assert forall|j: int| i < j < pairs.len() implies (#[trigger] pairs[j]).0 != key by {
            if j < init.len() {
                assert(init[j] == pairs[j]);
            }
        }
    }
}

/// A key without a binding occurs nowhere.
pub proof fn lemma_lookup_missing(pairs: Seq<(Seq<char>, Seq<char>)>, key: Seq<char>)
    requires
        lookup(pairs, key) is None,
    ensures
        forall|i: int| 0 <= i < pairs.len() ==> (#[trigger] pairs[i]).0 != key,
    decreases pairs.len(),
{
    if pairs.len() > 0 {
        lemma_lookup_missing(pairs.drop_last(), key);
        assert forall|i: int| 0 <= i < pairs.len() implies (#[trigger] pairs[i]).0 != key by {
            if i < pairs.len() - 1 {
                assert(pairs.drop_last()[i] == pairs[i]);
            }
        }
    }
}

} // verus!
