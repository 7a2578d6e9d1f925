//! A map with text keys, kept as a list of entries.

use vstd::prelude::*;

use crate::text::same_text;

verus! {

/// The map that a list of entries stands for: a later entry hides an earlier
/// one with the same key.
pub open spec fn map_of<V>(entries: Seq<(String, V)>) -> Map<Seq<char>, V>
    decreases entries.len(),
{
    if entries.len() == 0 {
        Map::empty()
    } else {
        map_of(entries.drop_last()).insert(entries.last().0@, entries.last().1)
    }
}

/// No key occurs twice in a list of entries.
pub open spec fn distinct_keys<V>(entries: Seq<(String, V)>) -> bool {
    forall|i: int, j: int|
        0 <= i < j < entries.len() ==> (#[trigger] entries[i]).0@ != (#[trigger] entries[j]).0@
}

/// Where no key occurs twice, the map holds exactly the listed entries.
proof fn map_of_distinct<V>(entries: Seq<(String, V)>)
    requires
        distinct_keys(entries),
    ensures
        forall|i: int|
            0 <= i < entries.len() ==> {
                &&& map_of(entries).contains_key((#[trigger] entries[i]).0@)
                &&& map_of(entries)[entries[i].0@] == entries[i].1
            },
        forall|k: Seq<char>| #[trigger]
            map_of(entries).contains_key(k) ==> exists|i: int|
                0 <= i < entries.len() && (#[trigger] entries[i]).0@ == k,
    decreases entries.len(),
{
    if entries.len() > 0 {
        let init = entries.drop_last();
        assert forall|i: int, j: int| 0 <= i < j < init.len() implies (#[trigger] init[i]).0@ != (
        #[trigger] init[j]).0@ by {
            assert(entries[i].0@ != entries[j].0@);
        }
        map_of_distinct(init);
        assert forall|i: int| 0 <= i < entries.len() implies {
            &&& map_of(entries).contains_key((#[trigger] entries[i]).0@)
            &&& map_of(entries)[entries[i].0@] == entries[i].1
        } by {
            if i < init.len() {
                assert(init[i] == entries[i]);
                assert(entries[i].0@ != entries[entries.len() - 1].0@);
            }
        }
        assert forall|k: Seq<char>| #[trigger]
            map_of(entries).contains_key(k) implies exists|i: int|
            0 <= i < entries.len() && (#[trigger] entries[i]).0@ == k by {
            if k == entries.last().0@ {
                assert(entries[entries.len() - 1].0@ == k);
            } else {
                assert(map_of(init).contains_key(k));
                let i = choose|i: int| 0 <= i < init.len() && (#[trigger] init[i]).0@ == k;
                assert(entries[i].0@ == k);
            }
        }
    }
}

/// A map with text keys.
pub struct StringMap<V> {
    entries: Vec<(String, V)>,
}

impl<V> View for StringMap<V> {
    type V = Map<Seq<char>, V>;

    closed spec fn view(&self) -> Map<Seq<char>, V> {
        map_of(self.entries@)
    }
}

impl<V> StringMap<V> {
    #[verifier::type_invariant]
    spec fn well_formed(self) -> bool {
        distinct_keys(self.entries@)
    }

    /// A map without entries.
    pub fn new() -> (r: Self)
        ensures
            r@ == Map::<Seq<char>, V>::empty(),
    {
        StringMap { entries: Vec::new() }
    }

    /// The entries as a list, in no particular order.
    pub fn entries(&self) -> (r: &Vec<(String, V)>)
        ensures
            distinct_keys(r@),
            map_of(r@) == self@,
    {
        proof {
            use_type_invariant(self);
        }
        &self.entries
    }

    /// The position of a key in the list.
    fn position(&self, key: &str) -> (r: Option<usize>)
        ensures
            match r {
                Some(i) => i < self.entries@.len() && self.entries@[i as int].0@ == key@ && self@.contains_key(
                    key@,
                ) && self@[key@] == self.entries@[i as int].1,
                None => !self@.contains_key(key@) && forall|i: int|
                    0 <= i < self.entries@.len() ==> (#[trigger] self.entries@[i]).0@ != key@,
            },
    {
        proof {
            use_type_invariant(self);
            map_of_distinct(self.entries@);
        }
        let mut i: usize = 0;
        while i < self.entries.len()
            invariant
                i <= self.entries@.len(),
                forall|j: int| 0 <= j < i ==> (#[trigger] self.entries@[j]).0@ != key@,
                forall|j: int|
                    0 <= j < self.entries@.len() ==> {
                        &&& self@.contains_key((#[trigger] self.entries@[j]).0@)
                        &&& self@[self.entries@[j].0@] == self.entries@[j].1
                    },
            decreases self.entries@.len() - i,
        {
            if same_text(self.entries[i].0.as_str(), key) {
                return Some(i);
            }
            i = i + 1;
        }
        None
    }

    /// The value under a key.
    pub fn get(&self, key: &str) -> (r: Option<&V>)
        ensures
            match r {
                Some(v) => self@.contains_key(key@) && self@[key@] == *v,
                None => !self@.contains_key(key@),
            },
    {
        match self.position(key) {
            Some(i) => Some(&self.entries[i].1),
            None => None,
        }
    }

    /// Puts a value under a key, in place of the one that was there.
    pub fn insert(&mut self, key: &str, value: V)
        ensures
            final(self)@ == old(self)@.insert(key@, value),
    {
        let found = self.position(key);
        proof {
            use_type_invariant(&*self);
            map_of_distinct(self.entries@);
        }
        let ghost before = self.entries@;
        let mut entries: Vec<(String, V)> = Vec::new();
        std::mem::swap(&mut entries, &mut self.entries);
        match found {
            Some(i) => {
                entries.set(i, (key.to_string(), value));
                proof {
                    assert forall|a: int, b: int| 0 <= a < b < entries@.len() implies (
                    #[trigger] entries@[a]).0@ != (#[trigger] entries@[b]).0@ by {
                        assert(before[a].0@ != before[b].0@);
                    }
                }
            },
            None => {
                entries.push((key.to_string(), value));
            },
        }
        proof {
            map_of_distinct(entries@);
            assert forall|k: Seq<char>|
                map_of(entries@).contains_key(k) == map_of(before).insert(
                    key@,
                    value,
                ).contains_key(k) by {
                if map_of(entries@).contains_key(k) {
                    let j = choose|j: int| 0 <= j < entries@.len() && (#[trigger] entries@[j]).0@ == k;
                    if k != key@ {
                        assert(before[j] == entries@[j]);
                    }
                }
                if map_of(before).contains_key(k) {
                    let j = choose|j: int| 0 <= j < before.len() && (#[trigger] before[j]).0@ == k;
                    assert(entries@[j].0@ == k);
                }
                if k == key@ {
                    match found {
                        Some(i) => { assert(entries@[i as int].0@ == k); },
                        None => { assert(entries@[before.len() as int].0@ == k); },
                    }
                }
            }
            assert forall|k: Seq<char>| #[trigger]
                map_of(entries@).contains_key(k) implies map_of(entries@)[k] == map_of(before).insert(
                key@,
                value,
            )[k] by {
                let j = choose|j: int| 0 <= j < entries@.len() && (#[trigger] entries@[j]).0@ == k;
                assert(map_of(entries@)[k] == entries@[j].1);
                if k != key@ {
                    assert(before[j] == entries@[j]);
                }
            }
            assert(map_of(entries@) =~= map_of(before).insert(key@, value));
        }
        self.entries = entries;
    }

    /// Keeps the entries whose value passes a test.
    pub fn retain<F: Fn(&V) -> bool>(&mut self, keep: F, Ghost(kept): Ghost<spec_fn(V) -> bool>)
        requires
            forall|k: Seq<char>| #[trigger]
                old(self)@.contains_key(k) ==> call_requires(keep, (&old(self)@[k],)),
            forall|v: V, b: bool| #[trigger] call_ensures(keep, (&v,), b) ==> b == kept(v),
        ensures
            final(self)@ == old(self)@.restrict(
                Set::new(|k: Seq<char>| old(self)@.contains_key(k) && kept(old(self)@[k])),
            ),
    {
        proof {
            use_type_invariant(&*self);
            map_of_distinct(self.entries@);
        }
        let ghost all = self.entries@;
        let mut entries: Vec<(String, V)> = Vec::new();
        std::mem::swap(&mut entries, &mut self.entries);
        let mut left: Vec<(String, V)> = Vec::new();
        let ghost mut from: Seq<int> = Seq::empty();
        proof {
            assert forall|i: int| 0 <= i < all.len() implies call_requires(
                keep,
                (&(#[trigger] all[i]).1,),
            ) by {
                assert(old(self)@.contains_key(all[i].0@));
                assert(old(self)@[all[i].0@] == all[i].1);
            }
        }
        while entries.len() > 0
            invariant
                distinct_keys(all),
                entries@.len() <= all.len(),
                entries@ == all.take(entries@.len() as int),
                left@.len() == from.len(),
                forall|i: int|
                    0 <= i < all.len() ==> call_requires(keep, (&(#[trigger] all[i]).1,)),
                forall|v: V, b: bool| #[trigger] call_ensures(keep, (&v,), b) ==> b == kept(v),
                forall|a: int|
                    0 <= a < from.len() ==> entries@.len() <= #[trigger] from[a] < all.len() && left@[a] == all[from[a]] && kept(left@[a].1),
                forall|a: int, b: int| 0 <= a < b < from.len() ==> from[a] > from[b],
                forall|i: int|
                    entries@.len() <= i < all.len() && kept((#[trigger] all[i]).1) ==> from.contains(i),
            decreases entries@.len(),
        {
            let ghost n = entries@.len() - 1;
            let ghost seen = from;
            let e = entries.pop().unwrap();
            assert(e == all[n]);
            assert(entries@ =~= all.take(n));
            if keep(&e.1) {
                left.push(e);
                proof {
                    from = from.push(n);
                    assert(from[seen.len() as int] == n);
                    assert forall|i: int|
                        n <= i < all.len() && kept((#[trigger] all[i]).1) implies from.contains(i) by {
                        if i > n {
                            assert(seen.contains(i));
                            let a = choose|a: int| 0 <= a < seen.len() && seen[a] == i;
                            assert(from[a] == i);
                        }
                    }
                }
            }
        }
        proof {
            assert forall|a: int, b: int| 0 <= a < b < left@.len() implies (#[trigger] left@[a]).0@ != (
            #[trigger] left@[b]).0@ by {
                assert(all[from[b]].0@ != all[from[a]].0@);
            }
            map_of_distinct(left@);
            let want = map_of(all).restrict(
                Set::new(|k: Seq<char>| map_of(all).contains_key(k) && kept(map_of(all)[k])),
            );
            assert forall|k: Seq<char>| map_of(left@).contains_key(k) == want.contains_key(k) by {
                if map_of(left@).contains_key(k) {
                    let a = choose|a: int| 0 <= a < left@.len() && (#[trigger] left@[a]).0@ == k;
                    assert(all[from[a]].0@ == k);
                }
                if want.contains_key(k) {
                    let i = choose|i: int| 0 <= i < all.len() && (#[trigger] all[i]).0@ == k;
                    assert(from.contains(i));
                    let a = choose|a: int| 0 <= a < from.len() && from[a] == i;
                    assert(left@[a].0@ == k);
                }
            }
            assert forall|k: Seq<char>| #[trigger]
                map_of(left@).contains_key(k) implies map_of(left@)[k] == want[k] by {
                let a = choose|a: int| 0 <= a < left@.len() && (#[trigger] left@[a]).0@ == k;
                assert(all[from[a]].0@ == k);
            }
            assert(map_of(left@) =~= want);
        }
        self.entries = left;
    }

    /// Takes a key out.
    pub fn remove(&mut self, key: &str)
        ensures
            final(self)@ == old(self)@.remove(key@),
    {
        let found = self.position(key);
        proof {
            use_type_invariant(&*self);
            map_of_distinct(self.entries@);
        }
        let ghost before = self.entries@;
        match found {
            Some(i) => {
                let mut entries: Vec<(String, V)> = Vec::new();
                std::mem::swap(&mut entries, &mut self.entries);
                entries.remove(i);
                proof {
                    assert forall|a: int, b: int| 0 <= a < b < entries@.len() implies (
                    #[trigger] entries@[a]).0@ != (#[trigger] entries@[b]).0@ by {
                        let a0 = if a < i { a } else { a + 1 };
                        let b0 = if b < i { b } else { b + 1 };
                        assert(before[a0].0@ != before[b0].0@);
                    }
                    map_of_distinct(entries@);
                    let want = map_of(before).remove(key@);
                    assert forall|k: Seq<char>|
                        map_of(entries@).contains_key(k) == want.contains_key(k) by {
                        if map_of(entries@).contains_key(k) {
                            let a = choose|a: int|
                                0 <= a < entries@.len() && (#[trigger] entries@[a]).0@ == k;
                            let a0 = if a < i { a } else { a + 1 };
                            assert(before[a0].0@ == k);
                            assert(before[i as int].0@ == key@);
                        }
                        if want.contains_key(k) {
                            let a = choose|a: int|
                                0 <= a < before.len() && (#[trigger] before[a]).0@ == k;
                            let a1 = if a < i { a } else { a - 1 };
                            assert(entries@[a1].0@ == k);
                        }
                    }
                    assert forall|k: Seq<char>| #[trigger]
                        map_of(entries@).contains_key(k) implies map_of(entries@)[k] == want[k] by {
                        let a = choose|a: int|
                            0 <= a < entries@.len() && (#[trigger] entries@[a]).0@ == k;
                        let a0 = if a < i { a } else { a + 1 };
                        assert(before[a0].0@ == k);
                    }
                    assert(map_of(entries@) =~= want);
                }
                self.entries = entries;
            },
            None => {
                assert(map_of(before) =~= map_of(before).remove(key@));
            },
        }
    }
}

} // verus!
