//! A map with text keys that keeps its entries in insertion order.

use vstd::prelude::*;

use crate::text::owned;

verus! {

/// A map from texts to values, held as a vector in which no key occurs twice.
#[derive(Debug)]
pub struct TextMap<V> {
    entries: Vec<(String, V)>,
}

/// The position of a key in a sequence of entries.
spec fn position<V>(entries: Seq<(String, V)>, key: Seq<char>) -> int {
    choose|i: int| 0 <= i < entries.len() && (#[trigger] entries[i]).0@ == key
}

/// A key occurs in a sequence of entries.
spec fn occurs<V>(entries: Seq<(String, V)>, key: Seq<char>) -> bool {
    exists|i: int| 0 <= i < entries.len() && (#[trigger] entries[i]).0@ == key
}

/// No key occurs twice.
spec fn distinct<V>(entries: Seq<(String, V)>) -> bool {
    forall|i: int, j: int|
        #![trigger entries[i], entries[j]]
        0 <= i < entries.len() && 0 <= j < entries.len() && entries[i].0@ == entries[j].0@ ==> i
            == j
}

spec fn map_of<V>(entries: Seq<(String, V)>) -> Map<Seq<char>, V> {
    Map::new(
        |k: Seq<char>| occurs(entries, k),
        |k: Seq<char>| entries[position(entries, k)].1,
    )
}

impl<V> View for TextMap<V> {
    type V = Map<Seq<char>, V>;

    closed spec fn view(&self) -> Map<Seq<char>, V> {
        map_of(self.entries@)
    }
}

proof fn position_is<V>(entries: Seq<(String, V)>, i: int)
    requires
        distinct(entries),
        0 <= i < entries.len(),
    ensures
        occurs(entries, entries[i].0@),
        position(entries, entries[i].0@) == i,
        map_of(entries).contains_key(entries[i].0@),
        map_of(entries)[entries[i].0@] == entries[i].1,
{
    assert(entries[i].0@ == entries[i].0@);
}

impl<V> TextMap<V> {
    #[verifier::type_invariant]
    spec fn keys_distinct(self) -> bool {
        distinct(self.entries@)
    }

    /// The keys in insertion order.
    pub closed spec fn order(&self) -> Seq<Seq<char>> {
        self.entries@.map_values(|e: (String, V)| e.0@)
    }

    /// An empty map.
    pub fn new() -> (m: Self)
        ensures
            m@ == Map::<Seq<char>, V>::empty(),
            m.order() == Seq::<Seq<char>>::empty(),
    {
        let m = TextMap { entries: Vec::new() };
        assert(m@ =~= Map::empty());
        assert(m.order() =~= Seq::empty());
        m
    }

    /// The number of entries. The order lists every key once.
    pub fn len(&self) -> (n: usize)
        ensures
            n == self.order().len(),
            n == self@.dom().len(),
            self@.dom().finite(),
            self.order().no_duplicates(),
            forall|k: Seq<char>| #[trigger] self@.contains_key(k) <==> self.order().contains(k),
    {
        proof {
            use_type_invariant(self);
            self.sizes();
        }
        self.entries.len()
    }

    /// The order lists every key once.
    proof fn sizes(&self)
        requires
            distinct(self.entries@),
        ensures
            self@.dom().finite(),
            self@.dom().len() == self.order().len(),
            self.order().no_duplicates(),
            forall|k: Seq<char>| #[trigger] self@.contains_key(k) <==> self.order().contains(k),
    {
        let entries = self.entries@;
        let order = self.order();
        assert forall|k: Seq<char>| #[trigger] self@.contains_key(k) <==> order.contains(k) by {
            if order.contains(k) {
                let i = choose|i: int| 0 <= i < order.len() && order[i] == k;
                assert(entries[i].0@ == k);
            }
            if self@.contains_key(k) {
                let i = position(entries, k);
                assert(order[i] == k);
            }
        }
        assert forall|i: int, j: int|
            0 <= i < order.len() && 0 <= j < order.len() && i != j implies order[i] != order[j] by {
            assert(entries[i].0@ == order[i] && entries[j].0@ == order[j]);
        }
        order.unique_seq_to_set();
        assert(order.to_set() =~= self@.dom());
    }

    /// The position of a key, if it is present.
    fn find(&self, key: &str) -> (r: Option<usize>)
        ensures
            match r {
                Some(i) => i < self.entries.len() && self.entries[i as int].0@ == key@,
                None => !self@.contains_key(key@),
            },
    {
        let wanted = owned(key);
        let mut i: usize = 0;
        while i < self.entries.len()
            invariant
                i <= self.entries.len(),
                wanted@ == key@,
                forall|k: int| 0 <= k < i ==> (#[trigger] self.entries[k]).0@ != key@,
            decreases self.entries.len() - i,
        {
            if self.entries[i].0 == wanted {
                return Some(i);
            }
            i += 1;
        }
        None
    }

    /// Whether a key is present.
    pub fn contains_key(&self, key: &str) -> (b: bool)
        ensures
            b == self@.contains_key(key@),
    {
        match self.find(key) {
            Some(i) => {
                proof {
                    use_type_invariant(self);
                    position_is(self.entries@, i as int);
                }
                true
            },
            None => false,
        }
    }

    /// The value of a key.
    pub fn get(&self, key: &str) -> (r: Option<&V>)
        ensures
            match r {
                Some(v) => self@.contains_key(key@) && *v == self@[key@],
                None => !self@.contains_key(key@),
            },
    {
        match self.find(key) {
            Some(i) => {
                proof {
                    use_type_invariant(self);
                    position_is(self.entries@, i as int);
                }
                Some(&self.entries[i].1)
            },
            None => None,
        }
    }

    /// The key and value at a position in insertion order.
    pub fn entry(&self, i: usize) -> (r: (&String, &V))
        requires
            i < self.order().len(),
        ensures
            r.0@ == self.order()[i as int],
            self@.contains_key(r.0@),
            self@[r.0@] == *r.1,
    {
        proof {
            use_type_invariant(self);
            position_is(self.entries@, i as int);
        }
        (&self.entries[i].0, &self.entries[i].1)
    }

    /// Insert a value, replacing the value of a present key in place.
    pub fn insert(&mut self, key: String, value: V)
        ensures
            final(self)@ == old(self)@.insert(key@, value),
            final(self).order() == (if old(self)@.contains_key(key@) {
                old(self).order()
            } else {
                old(self).order().push(key@)
            }),
    {
        let found = self.find(key.as_str());
        proof {
            use_type_invariant(&*self);
        }
        let ghost before = self.entries@;
        let mut entries: Vec<(String, V)> = Vec::new();
        std::mem::swap(&mut entries, &mut self.entries);
        match found {
            Some(i) => {
                proof {
                    position_is(before, i as int);
                }
                entries.set(i, (key, value));
                proof {
                    inserted_in_place(before, entries@, i as int);
                    assert(entries@.map_values(|e: (String, V)| e.0@) =~= before.map_values(
                        |e: (String, V)| e.0@,
                    ));
                }
            },
            None => {
                entries.push((key, value));
                proof {
                    pushed(before, entries@);
                    assert(entries@.map_values(|e: (String, V)| e.0@) =~= before.map_values(
                        |e: (String, V)| e.0@,
                    ).push(key@));
                }
            },
        }
        *self = TextMap { entries };
    }

    /// Remove a key. The order of the others stays.
    pub fn remove(&mut self, key: &str) -> (r: Option<V>)
        ensures
            final(self)@ == old(self)@.remove(key@),
            match r {
                Some(v) => old(self)@.contains_key(key@) && v == old(self)@[key@],
                None => !old(self)@.contains_key(key@),
            },
            match r {
                Some(_) => exists|i: int|
                    0 <= i < old(self).order().len() && #[trigger] old(self).order()[i] == key@
                        && final(self).order() == old(self).order().remove(i),
                None => final(self).order() == old(self).order(),
            },
    {
        let found = self.find(key);
        proof {
            use_type_invariant(&*self);
        }
        let ghost before = self.entries@;
        match found {
            Some(i) => {
                let mut entries: Vec<(String, V)> = Vec::new();
                std::mem::swap(&mut entries, &mut self.entries);
                let (_, value) = entries.remove(i);
                proof {
                    position_is(before, i as int);
                    removed(before, entries@, i as int);
                }
                *self = TextMap { entries };
                assert(old(self).order()[i as int] == key@);
                assert(self.order() =~= old(self).order().remove(i as int));
                Some(value)
            },
            None => {
                assert(self@.remove(key@) =~= self@);
                None
            },
        }
    }
}

proof fn inserted_in_place<V>(before: Seq<(String, V)>, after: Seq<(String, V)>, i: int)
    requires
        distinct(before),
        0 <= i < before.len(),
        after == before.update(i, after[i]),
        after[i].0@ == before[i].0@,
    ensures
        distinct(after),
        map_of(after) == map_of(before).insert(after[i].0@, after[i].1),
{
    assert forall|a: int| 0 <= a < before.len() implies (#[trigger] after[a]).0@
        == before[a].0@ by {
    }
    assert(distinct(after)) by {
        assert forall|a: int, b: int|
            #![trigger after[a], after[b]]
            0 <= a < after.len() && 0 <= b < after.len() && after[a].0@ == after[b].0@ implies a
            == b by {
            assert(before[a].0@ == before[b].0@);
        }
    }
    let want = map_of(before).insert(after[i].0@, after[i].1);
    assert forall|k: Seq<char>| #[trigger] map_of(after).contains_key(k) <==> want.contains_key(
        k,
    ) by {
        if occurs(after, k) {
            let a = position(after, k);
            assert(before[a].0@ == k);
        }
        if occurs(before, k) {
            let a = position(before, k);
            assert(after[a].0@ == k);
        }
        assert(after[i].0@ == after[i].0@);
    }
    assert forall|k: Seq<char>| #[trigger] map_of(after).contains_key(k) implies map_of(after)[k]
        == want[k] by {
        let a = position(after, k);
        position_is(after, a);
        position_is(before, a);
    }
    assert(map_of(after) =~= want);
}

proof fn pushed<V>(before: Seq<(String, V)>, after: Seq<(String, V)>)
    requires
        distinct(before),
        after.len() == before.len() + 1,
        after == before.push(after.last()),
        !map_of(before).contains_key(after.last().0@),
    ensures
        distinct(after),
        map_of(after) == map_of(before).insert(after.last().0@, after.last().1),
{
    let n = before.len() as int;
    let key = after[n].0@;
    assert(distinct(after)) by {
        assert forall|a: int, b: int|
            #![trigger after[a], after[b]]
            0 <= a < after.len() && 0 <= b < after.len() && after[a].0@ == after[b].0@ implies a
            == b by {
            if a < n {
                assert(after[a] == before[a]);
            }
            if b < n {
                assert(after[b] == before[b]);
            }
            if a < n && b == n {
                assert(occurs(before, key));
            }
            if b < n && a == n {
                assert(occurs(before, key));
            }
        }
    }
    let want = map_of(before).insert(key, after[n].1);
    assert forall|k: Seq<char>| #[trigger] map_of(after).contains_key(k) <==> want.contains_key(
        k,
    ) by {
        if occurs(after, k) {
            let a = position(after, k);
            if a < n {
                assert(before[a].0@ == k);
            }
        }
        if occurs(before, k) {
            let a = position(before, k);
            assert(after[a].0@ == k);
        }
        assert(after[n].0@ == key);
    }
    assert forall|k: Seq<char>| #[trigger] map_of(after).contains_key(k) implies map_of(after)[k]
        == want[k] by {
        let a = position(after, k);
        position_is(after, a);
        if a < n {
            assert(after[a] == before[a]);
            position_is(before, a);
        }
    }
    assert(map_of(after) =~= want);
}

proof fn removed<V>(before: Seq<(String, V)>, after: Seq<(String, V)>, i: int)
    requires
        distinct(before),
        0 <= i < before.len(),
        after == before.remove(i),
    ensures
        distinct(after),
        map_of(after) == map_of(before).remove(before[i].0@),
{
    let key = before[i].0@;
    assert forall|a: int| 0 <= a < after.len() implies #[trigger] after[a] == before[if a < i {
        a
    } else {
        a + 1
    }] by {
    }
    assert(distinct(after)) by {
        assert forall|a: int, b: int|
            #![trigger after[a], after[b]]
            0 <= a < after.len() && 0 <= b < after.len() && after[a].0@ == after[b].0@ implies a
            == b by {
            let x = if a < i { a } else { a + 1 };
            let y = if b < i { b } else { b + 1 };
            assert(before[x].0@ == before[y].0@);
        }
    }
    let want = map_of(before).remove(key);
    assert forall|k: Seq<char>| #[trigger] map_of(after).contains_key(k) <==> want.contains_key(
        k,
    ) by {
        if occurs(after, k) {
            let a = position(after, k);
            let x = if a < i { a } else { a + 1 };
            assert(before[x].0@ == k);
            position_is(before, x);
            position_is(before, i);
        }
        if want.contains_key(k) {
            let x = position(before, k);
            position_is(before, i);
            let a = if x < i { x } else { x - 1 };
            assert(after[a] == before[x]);
        }
    }
    assert forall|k: Seq<char>| #[trigger] map_of(after).contains_key(k) implies map_of(after)[k]
        == want[k] by {
        let a = position(after, k);
        position_is(after, a);
        let x = if a < i { a } else { a + 1 };
        position_is(before, x);
    }
    assert(map_of(after) =~= want);
}

} // verus!
