//! A map from task names to values, kept as a list of entries in which no
//! name occurs twice.

use vstd::prelude::*;

verus! {

/// The name and the value of an entry, as contracts see them.
pub type Entry<V> = (Seq<char>, V);

/// The entries that a vector of names and values holds.
pub open spec fn entries_of<V>(v: Seq<(String, V)>) -> Seq<Entry<V>> {
    Seq::new(v.len(), |i: int| (v[i].0@, v[i].1))
}

/// The names of some entries, in their order.
pub open spec fn names_of<V>(s: Seq<Entry<V>>) -> Seq<Seq<char>> {
    Seq::new(s.len(), |i: int| s[i].0)
}

/// No name occurs twice in `s`.
pub open spec fn distinct_names<V>(s: Seq<Entry<V>>) -> bool {
    forall|i: int, j: int|
        #![trigger s[i], s[j]]
        0 <= i < j < s.len() ==> s[i].0 != s[j].0
}

/// The map that results when the entries of `s` are inserted one after the
/// other into an empty map: where a name occurs twice, the later entry wins.
pub open spec fn map_of<V>(s: Seq<Entry<V>>) -> Map<Seq<char>, V>
    decreases s.len(),
{
    if s.len() == 0 {
        Map::empty()
    } else {
        map_of(s.drop_last()).insert(s.last().0, s.last().1)
    }
}

/// `s` lists the entries of `m`: each key once, with its value, and nothing
/// else.
pub open spec fn lists<V>(s: Seq<Entry<V>>, m: Map<Seq<char>, V>) -> bool {
    &&& distinct_names(s)
    &&& forall|i: int| 0 <= i < s.len() ==> m.contains_pair((#[trigger] s[i]).0, s[i].1)
    &&& forall|k: Seq<char>| #[trigger]
        m.contains_key(k) ==> exists|i: int| 0 <= i < s.len() && (#[trigger] s[i]).0 == k
}

/// The keys of `map_of(s)` are the names that occur in `s`.
pub proof fn lemma_map_of_keys<V>(s: Seq<Entry<V>>, k: Seq<char>)
    ensures
        map_of(s).contains_key(k) <==> exists|i: int| 0 <= i < s.len() && (#[trigger] s[i]).0 == k,
    decreases s.len(),
{
    if s.len() > 0 {
        let front = s.drop_last();
        lemma_map_of_keys(front, k);
        if map_of(s).contains_key(k) {
            if s.last().0 == k {
                assert(s[s.len() - 1].0 == k);
            } else {
                let i: int = choose|i: int| 0 <= i < front.len() && (#[trigger] front[i]).0 == k;
                assert(s[i].0 == k);
            }
        }
        if exists|i: int| 0 <= i < s.len() && (#[trigger] s[i]).0 == k {
            let i: int = choose|i: int| 0 <= i < s.len() && (#[trigger] s[i]).0 == k;
            if i < s.len() - 1 {
                assert(front[i].0 == k);
            }
        }
    }
}

/// Where no name occurs twice, `map_of(s)` gives each name the value that
/// stands beside it in `s`.
pub proof fn lemma_map_of_values<V>(s: Seq<Entry<V>>, i: int)
    requires
        distinct_names(s),
        0 <= i < s.len(),
    ensures
        map_of(s).contains_pair(s[i].0, s[i].1),
    decreases s.len(),
{
    let front = s.drop_last();
    if i < s.len() - 1 {
        assert(distinct_names(front)) by {
            assert forall|a: int, b: int| 0 <= a < b < front.len() implies (#[trigger] front[a]).0
                != (#[trigger] front[b]).0 by {
                assert(s[a].0 != s[b].0);
            }
        }
        lemma_map_of_values(front, i);
        assert(front[i] == s[i]);
        assert(s[i].0 != s[s.len() - 1].0);
    }
}

/// A list without repeated names lists the map that is made of it.
pub proof fn lemma_lists_map_of<V>(s: Seq<Entry<V>>)
    requires
        distinct_names(s),
    ensures
        lists(s, map_of(s)),
{
    assert forall|i: int| 0 <= i < s.len() implies map_of(s).contains_pair(
        (#[trigger] s[i]).0,
        s[i].1,
    ) by {
        lemma_map_of_values(s, i);
    }
    assert forall|k: Seq<char>| #[trigger] map_of(s).contains_key(k) implies exists|i: int|
        0 <= i < s.len() && (#[trigger] s[i]).0 == k by {
        lemma_map_of_keys(s, k);
    }
}

/// A list lists one map only.
pub proof fn lemma_lists_one_map<V>(s: Seq<Entry<V>>, m1: Map<Seq<char>, V>, m2: Map<Seq<char>, V>)
    requires
        lists(s, m1),
        lists(s, m2),
    ensures
        m1 == m2,
{
    assert forall|k: Seq<char>| m1.contains_key(k) implies m2.contains_key(k) && m1[k] == m2[k] by {
        let i: int = choose|i: int| 0 <= i < s.len() && (#[trigger] s[i]).0 == k;
        assert(m2.contains_pair(s[i].0, s[i].1));
        assert(m1.contains_pair(s[i].0, s[i].1));
    }
    assert forall|k: Seq<char>| m2.contains_key(k) implies m1.contains_key(k) by {
        let i: int = choose|i: int| 0 <= i < s.len() && (#[trigger] s[i]).0 == k;
        assert(m1.contains_pair(s[i].0, s[i].1));
    }
    assert(m1 =~= m2);
}

/// To replace the value of an entry is to insert the new value under the
/// entry's name.
pub proof fn lemma_map_of_update<V>(s: Seq<Entry<V>>, i: int, value: V)
    requires
        distinct_names(s),
        0 <= i < s.len(),
    ensures
        distinct_names(s.update(i, (s[i].0, value))),
        map_of(s.update(i, (s[i].0, value))) == map_of(s).insert(s[i].0, value),
{
    let name = s[i].0;
    let t = s.update(i, (name, value));
    let m = map_of(s).insert(name, value);
    assert forall|a: int, b: int| 0 <= a < b < t.len() implies (#[trigger] t[a]).0 != (
    #[trigger] t[b]).0 by {
        assert(s[a].0 != s[b].0);
    }
    assert forall|a: int| 0 <= a < t.len() implies m.contains_pair((#[trigger] t[a]).0, t[a].1) by {
        if a != i {
            lemma_map_of_values(s, a);
            assert(s[a].0 != s[i].0);
        }
    }
    assert forall|k: Seq<char>| #[trigger] m.contains_key(k) implies exists|a: int|
        0 <= a < t.len() && (#[trigger] t[a]).0 == k by {
        if k == name {
            assert(t[i].0 == k);
        } else {
            lemma_map_of_keys(s, k);
            let a: int = choose|a: int| 0 <= a < s.len() && (#[trigger] s[a]).0 == k;
            assert(t[a].0 == k);
        }
    }
    lemma_lists_map_of(t);
    lemma_lists_one_map(t, map_of(t), m);
}

/// To take an entry out of the list is to remove its name from the map.
pub proof fn lemma_map_of_remove<V>(s: Seq<Entry<V>>, i: int)
    requires
        distinct_names(s),
        0 <= i < s.len(),
    ensures
        distinct_names(s.remove(i)),
        map_of(s.remove(i)) == map_of(s).remove(s[i].0),
{
    let name = s[i].0;
    let t = s.remove(i);
    let m = map_of(s).remove(name);
    assert forall|a: int, b: int| 0 <= a < b < t.len() implies (#[trigger] t[a]).0 != (
    #[trigger] t[b]).0 by {
        let a0: int = if a < i { a } else { a + 1 };
        let b0: int = if b < i { b } else { b + 1 };
        assert(s[a0].0 != s[b0].0);
    }
    assert forall|a: int| 0 <= a < t.len() implies m.contains_pair((#[trigger] t[a]).0, t[a].1) by {
        let a0: int = if a < i { a } else { a + 1 };
        lemma_map_of_values(s, a0);
        if a0 < i {
            assert(s[a0].0 != s[i].0);
        } else {
            assert(s[i].0 != s[a0].0);
        }
    }
    assert forall|k: Seq<char>| #[trigger] m.contains_key(k) implies exists|a: int|
        0 <= a < t.len() && (#[trigger] t[a]).0 == k by {
        lemma_map_of_keys(s, k);
        let a0: int = choose|a: int| 0 <= a < s.len() && (#[trigger] s[a]).0 == k;
        let a: int = if a0 < i { a0 } else { a0 - 1 };
        assert(t[a].0 == k);
    }
    lemma_lists_map_of(t);
    lemma_lists_one_map(t, map_of(t), m);
}

/// The map made of a list that lists `m` is `m`: a map that is written out
/// entry by entry and read back is the same map, whatever the order.
pub proof fn lemma_map_of_listing<V>(s: Seq<Entry<V>>, m: Map<Seq<char>, V>)
    requires
        lists(s, m),
    ensures
        map_of(s) == m,
{
    lemma_lists_map_of(s);
    lemma_lists_one_map(s, map_of(s), m);
}

/// A map from task names to values. It hands its entries out in one fixed
/// order, `listing`, which is no part of what the map means.
#[derive(Debug)]
pub struct TaskMap<V> {
    entries: Vec<(String, V)>,
}

impl<V> View for TaskMap<V> {
    type V = Map<Seq<char>, V>;

    closed spec fn view(&self) -> Map<Seq<char>, V> {
        map_of(self.listing())
    }
}

impl<V> TaskMap<V> {
    /// The entries in the order in which the map hands them out.
    pub closed spec fn listing(&self) -> Seq<Entry<V>> {
        entries_of(self.entries@)
    }

    #[verifier::type_invariant]
    closed spec fn names_occur_once(&self) -> bool {
        distinct_names(self.listing())
    }
}

impl<V: Copy> TaskMap<V> {
    /// An empty map.
    pub fn new() -> (r: Self)
        ensures
            r@ == Map::<Seq<char>, V>::empty(),
            r.listing() == Seq::<Entry<V>>::empty(),
    {
        let r = TaskMap { entries: Vec::new() };
        assert(r.listing() =~= Seq::<Entry<V>>::empty());
        r
    }

    fn find(&self, name: &String) -> (r: Option<usize>)
        ensures
            match r {
                Some(i) => i < self.listing().len() && self.listing()[i as int].0 == name@,
                None => forall|i: int|
                    0 <= i < self.listing().len() ==> (#[trigger] self.listing()[i]).0 != name@,
            },
    {
        let mut i: usize = 0;
        while i < self.entries.len()
            invariant
                i <= self.entries.len(),
                self.listing().len() == self.entries.len(),
                forall|j: int| 0 <= j < i ==> (#[trigger] self.listing()[j]).0 != name@,
            decreases self.entries.len() - i,
        {
            if self.entries[i].0 == *name {
                return Some(i);
            }
            i += 1;
        }
        None
    }

    /// Whether `name` has an entry.
    pub fn contains_key(&self, name: &String) -> (r: bool)
        ensures
            r == self@.contains_key(name@),
    {
        proof {
            lemma_map_of_keys(self.listing(), name@);
        }
        self.find(name).is_some()
    }

    /// The value that stands under `name`.
    pub fn get(&self, name: &String) -> (r: Option<V>)
        ensures
            r == (if self@.contains_key(name@) {
                Some(self@[name@])
            } else {
                None
            }),
    {
        proof {
            use_type_invariant(self);
            lemma_map_of_keys(self.listing(), name@);
        }
        match self.find(name) {
            Some(i) => {
                proof {
                    lemma_map_of_values(self.listing(), i as int);
                }
                Some(self.entries[i].1)
            },
            None => None,
        }
    }

    /// Puts `value` under `name`, in place of the value that stood there, and
    /// hands that value back.
    pub fn insert(&mut self, name: String, value: V) -> (previous: Option<V>)
        ensures
            final(self)@ == old(self)@.insert(name@, value),
            previous == (if old(self)@.contains_key(name@) {
                Some(old(self)@[name@])
            } else {
                None
            }),
    {
        proof {
            use_type_invariant(&*self);
            lemma_map_of_keys(self.listing(), name@);
        }
        let ghost before = self.listing();
        let found = self.find(&name);
        let mut entries: Vec<(String, V)> = Vec::new();
        std::mem::swap(&mut entries, &mut self.entries);
        let previous = match found {
            Some(i) => {
                let previous = entries[i].1;
                proof {
                    lemma_map_of_values(before, i as int);
                }
                entries.set(i, (name, value));
                proof {
                    assert(entries_of(entries@) =~= before.update(i as int, (name@, value)));
                    lemma_map_of_update(before, i as int, value);
                }
                Some(previous)
            },
            None => {
                entries.push((name, value));
                proof {
                    let after = entries_of(entries@);
                    assert(after =~= before.push((name@, value)));
                    assert(after.drop_last() =~= before);
                }
                None
            },
        };
        self.entries = entries;
        previous
    }

    /// Takes the entry of `name` out, if there is one, and hands its value
    /// back.
    pub fn remove(&mut self, name: &String) -> (previous: Option<V>)
        ensures
            final(self)@ == old(self)@.remove(name@),
            previous == (if old(self)@.contains_key(name@) {
                Some(old(self)@[name@])
            } else {
                None
            }),
    {
        proof {
            use_type_invariant(&*self);
            lemma_map_of_keys(self.listing(), name@);
        }
        let ghost before = self.listing();
        match self.find(name) {
            Some(i) => {
                let mut entries: Vec<(String, V)> = Vec::new();
                std::mem::swap(&mut entries, &mut self.entries);
                let taken = entries.remove(i);
                proof {
                    lemma_map_of_values(before, i as int);
                    assert(entries_of(entries@) =~= before.remove(i as int));
                    lemma_map_of_remove(before, i as int);
                }
                self.entries = entries;
                Some(taken.1)
            },
            None => {
                assert(self@.remove(name@) =~= self@);
                None
            },
        }
    }

    /// The entries, each name with its value, in the order of `listing`.
    pub fn entries(&self) -> (r: Vec<(String, V)>)
        ensures
            entries_of(r@) == self.listing(),
            lists(self.listing(), self@),
    {
        proof {
            use_type_invariant(self);
            lemma_lists_map_of(self.listing());
        }
        let mut out: Vec<(String, V)> = Vec::new();
        let mut i: usize = 0;
        while i < self.entries.len()
            invariant
                i <= self.entries.len(),
                out.len() == i,
                forall|j: int|
                    0 <= j < i ==> (#[trigger] out[j]).0@ == self.entries[j].0@ && out[j].1
                        == self.entries[j].1,
            decreases self.entries.len() - i,
        {
            out.push((self.entries[i].0.clone(), self.entries[i].1));
            i += 1;
        }
        assert(entries_of(out@) =~= self.listing());
        out
    }

    /// The names, in the order of `listing`.
    pub fn names(&self) -> (r: Vec<String>)
        ensures
            r.deep_view() == names_of(self.listing()),
            lists(self.listing(), self@),
    {
        proof {
            use_type_invariant(self);
            lemma_lists_map_of(self.listing());
        }
        let mut out: Vec<String> = Vec::new();
        let mut i: usize = 0;
        while i < self.entries.len()
            invariant
                i <= self.entries.len(),
                out.len() == i,
                forall|j: int| 0 <= j < i ==> (#[trigger] out[j])@ == self.entries[j].0@,
            decreases self.entries.len() - i,
        {
            out.push(self.entries[i].0.clone());
            i += 1;
        }
        assert(out.deep_view() =~= names_of(self.listing()));
        out
    }

    /// The map that results when the entries of `entries` are inserted one
    /// after the other: of two entries with one name the later one stays.
    pub fn from_entries(entries: Vec<(String, V)>) -> (r: Self)
        ensures
            r@ == map_of(entries_of(entries@)),
    {
        let mut map: TaskMap<V> = TaskMap::new();
        let mut i: usize = 0;
        while i < entries.len()
            invariant
                i <= entries.len(),
                map@ == map_of(entries_of(entries@).take(i as int)),
            decreases entries.len() - i,
        {
            let ghost all = entries_of(entries@);
            assert(all.take(i + 1).drop_last() =~= all.take(i as int));
            map.insert(entries[i].0.clone(), entries[i].1);
            i += 1;
        }
        assert(entries_of(entries@).take(i as int) =~= entries_of(entries@));
        map
    }
}

impl<V: Copy> Default for TaskMap<V> {
    fn default() -> (r: Self)
        ensures
            r@ == Map::<Seq<char>, V>::empty(),
    {
        TaskMap::new()
    }
}

} // verus!
