//! A map from texts to values.
use vstd::prelude::*;
use crate::text::same_text;

verus! {

/// A map from texts to values, in the order in which the texts were first put in.
pub struct NameMap<V> {
    entries: Vec<(String, V)>,
}

/// No text stands twice.
pub open spec fn distinct_names<V>(entries: Seq<(String, V)>) -> bool {
    forall|i: int, j: int|
        0 <= i < j < entries.len() ==> (#[trigger] entries[i]).0@ != (#[trigger] entries[j]).0@
}

/// The map that entries make, a later one in place of an earlier one of the same name.
pub open spec fn map_of<V>(entries: Seq<(String, V)>) -> Map<Seq<char>, V>
    decreases entries.len(),
{
    if entries.len() == 0 {
        Map::empty()
    } else {
        map_of(entries.drop_last()).insert(entries.last().0@, entries.last().1)
    }
}

impl<V> View for NameMap<V> {
    type V = Map<Seq<char>, V>;

    closed spec fn view(&self) -> Map<Seq<char>, V> {
        map_of(self.entries@)
    }
}

proof fn lemma_map_of<V>(entries: Seq<(String, V)>)
    requires
        distinct_names(entries),
    ensures
        forall|i: int|
            0 <= i < entries.len() ==> map_of(entries).dom().contains((#[trigger] entries[i]).0@)
                && map_of(entries)[entries[i].0@] == entries[i].1,
        forall|name: Seq<char>| #[trigger]
            map_of(entries).dom().contains(name) ==> exists|i: int|
                0 <= i < entries.len() && (#[trigger] entries[i]).0@ == name,
    decreases entries.len(),
{
    if entries.len() > 0 {
        let init = entries.drop_last();
        assert(distinct_names(init)) by {
            assert forall|i: int, j: int| 0 <= i < j < init.len() implies (
            #[trigger] init[i]).0@ != (#[trigger] init[j]).0@ by {
                assert(entries[i].0@ != entries[j].0@);
            }
        }
        lemma_map_of(init);
        assert forall|i: int| 0 <= i < entries.len() implies map_of(entries).dom().contains(
            (#[trigger] entries[i]).0@,
        ) && map_of(entries)[entries[i].0@] == entries[i].1 by {
            if i < init.len() {
                assert(init[i] == entries[i]);
                assert(entries[i].0@ != entries[entries.len() - 1].0@);
            }
        }
        assert forall|name: Seq<char>| #[trigger]
            map_of(entries).dom().contains(name) implies exists|i: int|
            0 <= i < entries.len() && (#[trigger] entries[i]).0@ == name by {
            if name == entries.last().0@ {
                assert(entries[entries.len() - 1].0@ == name);
            } else {
                assert(map_of(init).dom().contains(name));
                let i = choose|i: int| 0 <= i < init.len() && (#[trigger] init[i]).0@ == name;
                assert(entries[i] == init[i]);
            }
        }
    }
}

proof fn lemma_map_update<V>(entries: Seq<(String, V)>, k: int, entry: (String, V))
    requires
        distinct_names(entries),
        0 <= k < entries.len(),
        entry.0@ == entries[k].0@,
    ensures
        distinct_names(entries.update(k, entry)),
        map_of(entries.update(k, entry)) == map_of(entries).insert(entry.0@, entry.1),
{
    let after = entries.update(k, entry);
    assert forall|i: int, j: int| 0 <= i < j < after.len() implies (#[trigger] after[i]).0@ != (
    #[trigger] after[j]).0@ by {
        assert(entries[i].0@ != entries[j].0@);
    }
    lemma_map_of(entries);
    lemma_map_of(after);
    let a = map_of(after);
    let b = map_of(entries).insert(entry.0@, entry.1);
    assert forall|name: Seq<char>| a.dom().contains(name) <==> b.dom().contains(name) by {
        if a.dom().contains(name) {
            let i = choose|i: int| 0 <= i < after.len() && (#[trigger] after[i]).0@ == name;
            assert(entries[i].0@ == name);
        }
        if b.dom().contains(name) {
            if name == entry.0@ {
                assert(after[k].0@ == name);
            } else {
                let i = choose|i: int|
                    0 <= i < entries.len() && (#[trigger] entries[i]).0@ == name;
                assert(after[i].0@ == name);
            }
        }
    }
    assert forall|name: Seq<char>| a.dom().contains(name) implies a[name] == b[name] by {
        let i = choose|i: int| 0 <= i < after.len() && (#[trigger] after[i]).0@ == name;
        assert(entries[i].0@ == name);
        if i != k {
            if i < k {
                assert(entries[i].0@ != entries[k].0@);
            } else {
                assert(entries[k].0@ != entries[i].0@);
            }
        }
    }
    assert(a =~= b);
}

impl<V> NameMap<V> {
    #[verifier::type_invariant]
    spec fn wf(self) -> bool {
        distinct_names(self.entries@)
    }

    /// The map without entries.
    pub fn new() -> (r: Self)
        ensures
            r@ == Map::<Seq<char>, V>::empty(),
    {
        NameMap { entries: Vec::new() }
    }

    fn place(&self, name: &str) -> (k: usize)
        ensures
            k <= self.entries@.len(),
            k < self.entries@.len() <==> self@.dom().contains(name@),
            k < self.entries@.len() ==> self.entries@[k as int].0@ == name@
                && self@[name@] == self.entries@[k as int].1,
    {
        proof {
            use_type_invariant(self);
            lemma_map_of(self.entries@);
        }
        let mut k: usize = 0;
        while k < self.entries.len() && !same_text(self.entries[k].0.as_str(), name)
            invariant
                k <= self.entries@.len(),
                forall|i: int| 0 <= i < k ==> (#[trigger] self.entries@[i]).0@ != name@,
            ensures
                k < self.entries@.len() ==> self.entries@[k as int].0@ == name@,
            decreases self.entries@.len() - k,
        {
            k += 1;
        }
        k
    }

    /// Whether there is an entry under `name`.
    pub fn contains(&self, name: &str) -> (r: bool)
        ensures
            r == self@.dom().contains(name@),
    {
        let k: usize = self.place(name);
        k < self.entries.len()
    }

    /// The value under `name`.
    pub fn get(&self, name: &str) -> (r: Option<&V>)
        ensures
            r is Some <==> self@.dom().contains(name@),
            r matches Some(value) ==> *value == self@[name@],
    {
        let k: usize = self.place(name);
        if k < self.entries.len() {
            Some(&self.entries[k].1)
        } else {
            None
        }
    }

    /// Puts a value under `name`, in place of one that is there.
    pub fn insert(&mut self, name: &str, value: V)
        ensures
            final(self)@ == old(self)@.insert(name@, value),
    {
        let k: usize = self.place(name);
        proof {
            use_type_invariant(&*self);
            lemma_map_of(self.entries@);
        }
        let mut entries: Vec<(String, V)> = Vec::new();
        std::mem::swap(&mut entries, &mut self.entries);
        let ghost before = entries@;
        if k < entries.len() {
            let entry = (entries[k].0.clone(), value);
            proof {
                lemma_map_update(before, k as int, entry);
            }
            entries.set(k, entry);
        } else {
            entries.push((name.to_owned(), value));
            proof {
                assert(entries@.drop_last() =~= before);
                assert forall|i: int, j: int| 0 <= i < j < entries@.len() implies (
                #[trigger] entries@[i]).0@ != (#[trigger] entries@[j]).0@ by {
                    if j < before.len() {
                        assert(before[i].0@ != before[j].0@);
                    } else {
                        assert(before[i].0@ != name@);
                    }
                }
            }
        }
        self.entries = entries;
    }

    /// How many entries there are.
    pub fn len(&self) -> (n: usize)
        ensures
            n == self@.dom().len(),
            self@.dom().finite(),
    {
        proof {
            use_type_invariant(self);
            lemma_map_len(self.entries@);
        }
        self.entries.len()
    }

    /// The names, in the order in which they were first put in.
    pub fn names(&self) -> (out: Vec<String>)
        ensures
            forall|name: Seq<char>| #[trigger]
                crate::text::texts(out@).contains(name) <==> self@.dom().contains(name),
            crate::text::texts(out@).no_duplicates(),
    {
        proof {
            use_type_invariant(self);
            lemma_map_of(self.entries@);
        }
        let mut out: Vec<String> = Vec::new();
        let mut i: usize = 0;
        while i < self.entries.len()
            invariant
                i <= self.entries@.len(),
                out@.len() == i,
                forall|k: int| 0 <= k < i ==> (#[trigger] out@[k])@ == self.entries@[k].0@,
            decreases self.entries@.len() - i,
        {
            out.push(self.entries[i].0.clone());
            i += 1;
        }
        proof {
            let all = crate::text::texts(out@);
            assert forall|name: Seq<char>| #[trigger] all.contains(name) <==> self@.dom().contains(
                name,
            ) by {
                if all.contains(name) {
                    let k = choose|k: int| 0 <= k < all.len() && all[k] == name;
                    assert(out@[k]@ == self.entries@[k].0@);
                    assert(self@.dom().contains(self.entries@[k].0@));
                }
                if self@.dom().contains(name) {
                    let k = choose|k: int|
                        0 <= k < self.entries@.len() && (#[trigger] self.entries@[k]).0@ == name;
                    assert(out@[k]@ == self.entries@[k].0@);
                    assert(all[k] == name);
                }
            }
            assert forall|i: int, j: int|
                0 <= i < all.len() && 0 <= j < all.len() && i != j implies all[i] != all[j] by {
                assert(out@[i]@ == self.entries@[i].0@);
                assert(out@[j]@ == self.entries@[j].0@);
                if i < j {
                    assert(self.entries@[i].0@ != self.entries@[j].0@);
                } else {
                    assert(self.entries@[j].0@ != self.entries@[i].0@);
                }
            }
        }
        out
    }
}

proof fn lemma_map_len<V>(entries: Seq<(String, V)>)
    requires
        distinct_names(entries),
    ensures
        map_of(entries).dom().finite(),
        map_of(entries).dom().len() == entries.len(),
    decreases entries.len(),
{
    if entries.len() > 0 {
        let init = entries.drop_last();
        assert(distinct_names(init)) by {
            assert forall|i: int, j: int| 0 <= i < j < init.len() implies (
            #[trigger] init[i]).0@ != (#[trigger] init[j]).0@ by {
                assert(entries[i].0@ != entries[j].0@);
            }
        }
        lemma_map_len(init);
        lemma_map_of(init);
        let name = entries.last().0@;
        if map_of(init).dom().contains(name) {
            let i = choose|i: int| 0 <= i < init.len() && (#[trigger] init[i]).0@ == name;
            assert(entries[i].0@ != entries[entries.len() - 1].0@);
        }
        assert(map_of(entries).dom() =~= map_of(init).dom().insert(name));
    }
}

} // verus!
