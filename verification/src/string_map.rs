//! An insertion-ordered map keyed by strings.

use vstd::prelude::*;

verus! {

/// The pairs folded into a map from the keys' characters to the values' views.
spec fn pairs_map<V: View>(pairs: Seq<(String, V)>) -> Map<Seq<char>, V::V>
    decreases pairs.len(),
{
    if pairs.len() == 0 {
        Map::empty()
    } else {
        pairs_map(pairs.drop_last()).insert(pairs.last().0@, pairs.last().1@)
    }
}

/// No two pairs carry the same key.
spec fn distinct_keys<V>(pairs: Seq<(String, V)>) -> bool {
    forall|i: int, j: int|
        0 <= i < pairs.len() && 0 <= j < pairs.len() && i != j ==> (#[trigger] pairs[i]).0@
            != (#[trigger] pairs[j]).0@
}

/// The keys of the pairs, in order.
spec fn pair_keys<V>(pairs: Seq<(String, V)>) -> Seq<Seq<char>> {
    Seq::new(pairs.len(), |i: int| pairs[i].0@)
}

/// The keys without `key`, the others in their order.
pub open spec fn without_key(keys: Seq<Seq<char>>, key: Seq<char>) -> Seq<Seq<char>>
    decreases keys.len(),
{
    if keys.len() == 0 {
        keys
    } else if keys.last() == key {
        without_key(keys.drop_last(), key)
    } else {
        without_key(keys.drop_last(), key).push(keys.last())
    }
}

/// With distinct keys, the folded map holds exactly the pairs.
proof fn lemma_pairs_map<V: View>(pairs: Seq<(String, V)>)
    requires
        distinct_keys(pairs),
    ensures
        forall|i: int|
            0 <= i < pairs.len() ==> pairs_map(pairs).contains_key((#[trigger] pairs[i]).0@)
                && pairs_map(pairs)[pairs[i].0@] == pairs[i].1@,
        forall|k: Seq<char>| #[trigger]
            pairs_map(pairs).contains_key(k) ==> exists|i: int|
                0 <= i < pairs.len() && (#[trigger] pairs[i]).0@ == k,
    decreases pairs.len(),
{
    if pairs.len() > 0 {
        let front = pairs.drop_last();
        assert forall|i: int, j: int|
            0 <= i < front.len() && 0 <= j < front.len() && i != j implies (#[trigger] front[i]).0@
            != (#[trigger] front[j]).0@ by {
            assert(front[i] == pairs[i]);
            assert(front[j] == pairs[j]);
        }
        lemma_pairs_map(front);
        let last = pairs.len() - 1;
        assert forall|i: int| 0 <= i < pairs.len() implies pairs_map(pairs).contains_key(
            (#[trigger] pairs[i]).0@,
        ) && pairs_map(pairs)[pairs[i].0@] == pairs[i].1@ by {
            if i < last {
                assert(front[i] == pairs[i]);
                assert(pairs[i].0@ != pairs[last].0@);
            }
        }
        assert forall|k: Seq<char>| #[trigger] pairs_map(pairs).contains_key(k) implies exists|
            i: int,
        |
            0 <= i < pairs.len() && (#[trigger] pairs[i]).0@ == k by {
            if k == pairs[last].0@ {
            } else {
                assert(pairs_map(front).contains_key(k));
                let i = choose|i: int| 0 <= i < front.len() && (#[trigger] front[i]).0@ == k;
                assert(front[i] == pairs[i]);
            }
        }
    }
}


/// A map keyed by strings that remembers the order in which keys arrived.
///
/// No key occurs twice.  The view is the map from each key's characters to
/// the view of its value.
#[derive(Debug)]
pub struct StringMap<V> {
    pairs: Vec<(String, V)>,
}

impl<V: View> View for StringMap<V> {
    type V = Map<Seq<char>, V::V>;

    closed spec fn view(&self) -> Map<Seq<char>, V::V> {
        pairs_map(self.pairs@)
    }
}

impl<V> StringMap<V> {
    #[verifier::type_invariant]
    spec fn well_formed(self) -> bool {
        distinct_keys(self.pairs@)
    }

    /// The keys in the order in which they were first inserted.
    pub closed spec fn key_order(&self) -> Seq<Seq<char>> {
        pair_keys(self.pairs@)
    }
}

impl<V: Clone> Clone for StringMap<V> {
    /// A copy with the same keys in the same order, each with a clone of
    /// its value.
    fn clone(&self) -> (copy: Self)
        ensures
            copy.key_order() == self.key_order(),
    {
        proof {
            use_type_invariant(self);
        }
        let mut pairs: Vec<(String, V)> = Vec::new();
        let mut i: usize = 0;
        while i < self.pairs.len()
            invariant
                i <= self.pairs@.len(),
                pairs@.len() == i,
                forall|j: int| 0 <= j < i ==> (#[trigger] pairs@[j]).0@ == self.pairs@[j].0@,
            decreases self.pairs@.len() - i,
        {
            pairs.push((self.pairs[i].0.clone(), self.pairs[i].1.clone()));
            i += 1;
        }
        assert(pair_keys(pairs@) =~= pair_keys(self.pairs@));
        assert forall|a: int, b: int|
            0 <= a < pairs@.len() && 0 <= b < pairs@.len() && a != b implies (#[trigger] pairs@[a]).0@
            != (#[trigger] pairs@[b]).0@ by {
            assert(self.pairs@[a].0@ != self.pairs@[b].0@);
        }
        StringMap { pairs }
    }
}

impl<V: View> StringMap<V> {
    /// An empty map.
    pub fn new() -> (m: Self)
        ensures
            m@ == Map::<Seq<char>, V::V>::empty(),
            m.key_order() == Seq::<Seq<char>>::empty(),
    {
        let m = StringMap { pairs: Vec::new() };
        assert(m.key_order() =~= Seq::<Seq<char>>::empty());
        m
    }

    /// The number of keys.
    pub fn len(&self) -> (n: usize)
        ensures
            n == self.key_order().len(),
            n == self@.dom().len(),
            self@.dom().finite(),
            self.key_order().no_duplicates(),
            self.key_order().to_set() == self@.dom(),
    {
        proof {
            use_type_invariant(self);
            lemma_key_order_matches(self.pairs@);
        }
        self.pairs.len()
    }

    /// The position of `key` among the pairs, if it is there.
    fn position(&self, key: &String) -> (r: Option<usize>)
        ensures
            match r {
                Some(i) => i < self.pairs@.len() && self.pairs@[i as int].0@ == key@,
                None => forall|i: int| 0 <= i < self.pairs@.len() ==> (#[trigger] self.pairs@[i]).0@
                    != key@,
            },
    {
        let mut i: usize = 0;
        while i < self.pairs.len()
            invariant
                i <= self.pairs@.len(),
                forall|j: int| 0 <= j < i ==> (#[trigger] self.pairs@[j]).0@ != key@,
            decreases self.pairs@.len() - i,
        {
            if self.pairs[i].0 == *key {
                return Some(i);
            }
            i += 1;
        }
        None
    }

    /// Whether `key` is in the map.
    pub fn contains_key(&self, key: &String) -> (b: bool)
        ensures
            b == self@.contains_key(key@),
    {
        proof {
            use_type_invariant(self);
            lemma_pairs_map(self.pairs@);
        }
        self.position(key).is_some()
    }

    /// The value stored under `key`.
    pub fn get(&self, key: &String) -> (r: Option<&V>)
        ensures
            r.is_some() == self@.contains_key(key@),
            r.is_some() ==> r.unwrap()@ == self@[key@],
    {
        proof {
            use_type_invariant(self);
            lemma_pairs_map(self.pairs@);
        }
        match self.position(key) {
            Some(i) => Some(&self.pairs[i].1),
            None => None,
        }
    }
}

impl<V: View> StringMap<V> {
    /// Stores `value` under `key`.  A key that is already there keeps its
    /// place in the order and gets the new value; a new key goes last.
    pub fn insert(&mut self, key: String, value: V)
        ensures
            final(self)@ == old(self)@.insert(key@, value@),
            final(self).key_order() == if old(self)@.contains_key(key@) {
                old(self).key_order()
            } else {
                old(self).key_order().push(key@)
            },
    {
        proof {
            use_type_invariant(&*self);
            lemma_pairs_map(self.pairs@);
        }
        let found = self.position(&key);
        let mut pairs: Vec<(String, V)> = Vec::new();
        core::mem::swap(&mut self.pairs, &mut pairs);
        match found {
            Some(i) => {
                proof {
                    lemma_replace_pair(pairs@, i as int, (key, value));
                }
                pairs.set(i, (key, value));
            },
            None => {
                proof {
                    lemma_push_pair(pairs@, (key, value));
                }
                pairs.push((key, value));
            },
        }
        self.pairs = pairs;
    }

    /// Takes `key` and its value out of the map, if it is there.  The other
    /// keys keep their order.
    pub fn remove(&mut self, key: &String) -> (found: bool)
        ensures
            found == old(self)@.contains_key(key@),
            final(self)@ == old(self)@.remove(key@),
            final(self).key_order() == without_key(old(self).key_order(), key@),
    {
        proof {
            use_type_invariant(&*self);
            lemma_pairs_map(self.pairs@);
        }
        match self.position(key) {
            Some(i) => {
                let mut pairs: Vec<(String, V)> = Vec::new();
                core::mem::swap(&mut self.pairs, &mut pairs);
                proof {
                    lemma_remove_pair(pairs@, i as int);
                }
                pairs.remove(i);
                self.pairs = pairs;
                true
            },
            None => {
                proof {
                    lemma_absent_key(self.pairs@, key@);
                }
                false
            },
        }
    }

    /// The keys, in order.
    pub fn keys(&self) -> (names: Vec<String>)
        ensures
            names@.len() == self.key_order().len(),
            forall|i: int| 0 <= i < names@.len() ==> (#[trigger] names@[i])@ == self.key_order()[i],
            self.key_order().no_duplicates(),
            self.key_order().to_set() == self@.dom(),
    {
        proof {
            use_type_invariant(self);
            lemma_key_order_matches(self.pairs@);
        }
        let mut names: Vec<String> = Vec::new();
        let mut i: usize = 0;
        while i < self.pairs.len()
            invariant
                i <= self.pairs@.len(),
                names@.len() == i,
                forall|j: int| 0 <= j < i ==> (#[trigger] names@[j])@ == self.pairs@[j].0@,
            decreases self.pairs@.len() - i,
        {
            names.push(self.pairs[i].0.clone());
            i += 1;
        }
        names
    }

    /// The key at position `i` of the order.
    pub fn key_at(&self, i: usize) -> (key: &String)
        requires
            i < self.key_order().len(),
        ensures
            key@ == self.key_order()[i as int],
            self@.contains_key(key@),
    {
        proof {
            use_type_invariant(self);
            lemma_pairs_map(self.pairs@);
        }
        &self.pairs[i].0
    }

    /// The value stored under the key at position `i` of the order.
    pub fn value_at(&self, i: usize) -> (value: &V)
        requires
            i < self.key_order().len(),
        ensures
            self@.contains_key(self.key_order()[i as int]),
            value@ == self@[self.key_order()[i as int]],
    {
        proof {
            use_type_invariant(self);
            lemma_pairs_map(self.pairs@);
        }
        &self.pairs[i].1
    }
}

/// Replacing the pair at `i` by one with the same key stores the new value.
proof fn lemma_replace_pair<V: View>(pairs: Seq<(String, V)>, i: int, pair: (String, V))
    requires
        distinct_keys(pairs),
        0 <= i < pairs.len(),
        pairs[i].0@ == pair.0@,
    ensures
        distinct_keys(pairs.update(i, pair)),
        pairs_map(pairs.update(i, pair)) == pairs_map(pairs).insert(pair.0@, pair.1@),
        pair_keys(pairs.update(i, pair)) == pair_keys(pairs),
{
    let after = pairs.update(i, pair);
    assert forall|a: int, b: int|
        0 <= a < after.len() && 0 <= b < after.len() && a != b implies (#[trigger] after[a]).0@
        != (#[trigger] after[b]).0@ by {
        assert(after[a].0@ == pairs[a].0@);
        assert(after[b].0@ == pairs[b].0@);
    }
    lemma_pairs_map(pairs);
    lemma_pairs_map(after);
    let want = pairs_map(pairs).insert(pair.0@, pair.1@);
    assert forall|k: Seq<char>| pairs_map(after).contains_key(k) == want.contains_key(k) by {
        if pairs_map(after).contains_key(k) {
            let a = choose|a: int| 0 <= a < after.len() && (#[trigger] after[a]).0@ == k;
            assert(pairs[a].0@ == k);
        }
        if want.contains_key(k) && k != pair.0@ {
            let a = choose|a: int| 0 <= a < pairs.len() && (#[trigger] pairs[a]).0@ == k;
            assert(after[a].0@ == k);
        }
        if k == pair.0@ {
            assert(after[i].0@ == k);
        }
    }
    assert forall|k: Seq<char>| pairs_map(after).contains_key(k) implies pairs_map(after)[k]
        == want[k] by {
        let a = choose|a: int| 0 <= a < after.len() && (#[trigger] after[a]).0@ == k;
        if a != i {
            assert(after[a] == pairs[a]);
        }
    }
    assert(pairs_map(after) =~= want);
    assert(pair_keys(after) =~= pair_keys(pairs));
}

/// Appending a pair with a new key stores its value and puts the key last.
proof fn lemma_push_pair<V: View>(pairs: Seq<(String, V)>, pair: (String, V))
    requires
        distinct_keys(pairs),
        forall|i: int| 0 <= i < pairs.len() ==> (#[trigger] pairs[i]).0@ != pair.0@,
    ensures
        distinct_keys(pairs.push(pair)),
        pairs_map(pairs.push(pair)) == pairs_map(pairs).insert(pair.0@, pair.1@),
        pair_keys(pairs.push(pair)) == pair_keys(pairs).push(pair.0@),
        !pairs_map(pairs).contains_key(pair.0@),
{
    let after = pairs.push(pair);
    assert(after.drop_last() =~= pairs);
    assert(after.last() == pair);
    assert forall|a: int, b: int|
        0 <= a < after.len() && 0 <= b < after.len() && a != b implies (#[trigger] after[a]).0@
        != (#[trigger] after[b]).0@ by {
        if a < pairs.len() {
            assert(after[a] == pairs[a]);
        }
        if b < pairs.len() {
            assert(after[b] == pairs[b]);
        }
    }
    assert(pair_keys(after) =~= pair_keys(pairs).push(pair.0@));
    lemma_absent_key(pairs, pair.0@);
}

/// A key that no pair carries is not in the map, and filtering it out of
/// the keys changes nothing.
proof fn lemma_absent_key<V: View>(pairs: Seq<(String, V)>, key: Seq<char>)
    requires
        distinct_keys(pairs),
        forall|i: int| 0 <= i < pairs.len() ==> (#[trigger] pairs[i]).0@ != key,
    ensures
        !pairs_map(pairs).contains_key(key),
        pairs_map(pairs).remove(key) == pairs_map(pairs),
        without_key(pair_keys(pairs), key) == pair_keys(pairs),
    decreases pairs.len(),
{
    lemma_pairs_map(pairs);
    assert(pairs_map(pairs).remove(key) =~= pairs_map(pairs));
    let keys = pair_keys(pairs);
    assert forall|i: int| 0 <= i < keys.len() implies #[trigger] keys[i] != key by {
        assert(pairs[i].0@ != key);
    }
    lemma_without_absent(keys, key);
}

/// Taking out a key that does not occur changes nothing.
proof fn lemma_without_absent(keys: Seq<Seq<char>>, key: Seq<char>)
    requires
        forall|i: int| 0 <= i < keys.len() ==> #[trigger] keys[i] != key,
    ensures
        without_key(keys, key) == keys,
    decreases keys.len(),
{
    if keys.len() > 0 {
        let front = keys.drop_last();
        assert forall|i: int| 0 <= i < front.len() implies #[trigger] front[i] != key by {
            assert(front[i] == keys[i]);
        }
        lemma_without_absent(front, key);
        assert(keys.last() == keys[keys.len() - 1]);
        assert(front.push(keys.last()) =~= keys);
    }
}

/// Taking out the pair at `i` takes its key out of the map and of the keys.
proof fn lemma_remove_pair<V: View>(pairs: Seq<(String, V)>, i: int)
    requires
        distinct_keys(pairs),
        0 <= i < pairs.len(),
    ensures
        distinct_keys(pairs.remove(i)),
        pairs_map(pairs.remove(i)) == pairs_map(pairs).remove(pairs[i].0@),
        pair_keys(pairs.remove(i)) == without_key(pair_keys(pairs), pairs[i].0@),
{
    let after = pairs.remove(i);
    let key = pairs[i].0@;
    assert forall|a: int| 0 <= a < after.len() implies #[trigger] after[a] == pairs[if a < i {
        a
    } else {
        a + 1
    }] by {}
    assert forall|a: int, b: int|
        0 <= a < after.len() && 0 <= b < after.len() && a != b implies (#[trigger] after[a]).0@
        != (#[trigger] after[b]).0@ by {
        assert(after[a] == pairs[if a < i { a } else { a + 1 }]);
        assert(after[b] == pairs[if b < i { b } else { b + 1 }]);
    }
    lemma_pairs_map(pairs);
    lemma_pairs_map(after);
    let want = pairs_map(pairs).remove(key);
    assert forall|k: Seq<char>| pairs_map(after).contains_key(k) == want.contains_key(k) by {
        if pairs_map(after).contains_key(k) {
            let a = choose|a: int| 0 <= a < after.len() && (#[trigger] after[a]).0@ == k;
            let b = if a < i { a } else { a + 1 };
            assert(after[a] == pairs[b]);
            assert(pairs[b].0@ != pairs[i].0@);
        }
        if want.contains_key(k) {
            let b = choose|b: int| 0 <= b < pairs.len() && (#[trigger] pairs[b]).0@ == k;
            let a = if b < i { b } else { b - 1 };
            assert(after[a] == pairs[b]);
        }
    }
    assert forall|k: Seq<char>| pairs_map(after).contains_key(k) implies pairs_map(after)[k]
        == want[k] by {
        let a = choose|a: int| 0 <= a < after.len() && (#[trigger] after[a]).0@ == k;
        let b = if a < i { a } else { a + 1 };
        assert(after[a] == pairs[b]);
    }
    assert(pairs_map(after) =~= want);
    let keys = pair_keys(pairs);
    assert forall|j: int| 0 <= j < keys.len() && j != i implies #[trigger] keys[j] != keys[i] by {
        assert(pairs[j].0@ != pairs[i].0@);
    }
    lemma_without_one(keys, i);
    assert(pair_keys(after) =~= keys.remove(i));
}

/// Taking out the key at `i`, which occurs nowhere else, removes that one
/// position.
proof fn lemma_without_one(keys: Seq<Seq<char>>, i: int)
    requires
        0 <= i < keys.len(),
        forall|j: int| 0 <= j < keys.len() && j != i ==> #[trigger] keys[j] != keys[i],
    ensures
        without_key(keys, keys[i]) == keys.remove(i),
    decreases keys.len(),
{
    let key = keys[i];
    let front = keys.drop_last();
    if i == keys.len() - 1 {
        assert forall|j: int| 0 <= j < front.len() implies #[trigger] front[j] != key by {
            assert(front[j] == keys[j]);
        }
        lemma_without_absent(front, key);
        assert(keys.remove(i) =~= front);
    } else {
        assert(front[i] == keys[i]);
        assert forall|j: int| 0 <= j < front.len() && j != i implies #[trigger] front[j]
            != front[i] by {
            assert(front[j] == keys[j]);
        }
        lemma_without_one(front, i);
        assert(keys.last() == keys[keys.len() - 1]);
        assert(keys.remove(i) =~= front.remove(i).push(keys.last()));
    }
}

/// With distinct keys, the keys in order are the map's domain, each once.
proof fn lemma_key_order_matches<V: View>(pairs: Seq<(String, V)>)
    requires
        distinct_keys(pairs),
    ensures
        pair_keys(pairs).no_duplicates(),
        pair_keys(pairs).to_set() == pairs_map(pairs).dom(),
        pairs_map(pairs).dom().finite(),
        pairs_map(pairs).dom().len() == pairs.len(),
{
    lemma_pairs_map(pairs);
    let keys = pair_keys(pairs);
    assert forall|k: Seq<char>| keys.to_set().contains(k) <==> pairs_map(pairs).dom().contains(
        k,
    ) by {
        if keys.to_set().contains(k) {
            let i = choose|i: int| 0 <= i < keys.len() && keys[i] == k;
            assert(pairs[i].0@ == k);
        }
        if pairs_map(pairs).contains_key(k) {
            let i = choose|i: int| 0 <= i < pairs.len() && (#[trigger] pairs[i]).0@ == k;
            assert(keys[i] == k);
        }
    }
    assert(keys.to_set() =~= pairs_map(pairs).dom());
    keys.unique_seq_to_set();
}

} // verus!
