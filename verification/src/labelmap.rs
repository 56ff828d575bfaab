use vstd::prelude::*;

verus! {

/// The map held by a list of label/value pairs: each pair inserted in turn.
pub open spec fn map_of<V>(s: Seq<(String, V)>) -> Map<Seq<char>, V>
    decreases s.len(),
{
    if s.len() == 0 {
        Map::empty()
    } else {
        map_of(s.drop_last()).insert(s.last().0@, s.last().1)
    }
}

/// No label occurs twice.
pub open spec fn labels_distinct<V>(s: Seq<(String, V)>) -> bool {
    forall|i: int, j: int| 0 <= i < j < s.len() ==> (#[trigger] s[i]).0@ != (#[trigger] s[j]).0@
}

proof fn lemma_map_of_lookup<V>(s: Seq<(String, V)>)
    requires
        labels_distinct(s),
    ensures
        forall|k: Seq<char>| #[trigger] map_of(s).dom().contains(k) <==> exists|i: int| 0 <= i < s.len() && s[i].0@ == k,
        forall|i: int| 0 <= i < s.len() ==> #[trigger] map_of(s)[s[i].0@] == s[i].1,
    decreases s.len(),
{
    if s.len() > 0 {
        let t = s.drop_last();
        assert(labels_distinct(t)) by {
            assert forall|i: int, j: int| 0 <= i < j < t.len() implies (#[trigger] t[i]).0@ != (#[trigger] t[j]).0@ by {
                assert(t[i] == s[i] && t[j] == s[j]);
            }
        }
        lemma_map_of_lookup(t);
        assert forall|k: Seq<char>| #[trigger] map_of(s).dom().contains(k) <==> exists|i: int| 0 <= i < s.len() && s[i].0@ == k by {
            if map_of(s).dom().contains(k) && k != s.last().0@ {
                assert(map_of(t).dom().contains(k));
                let i = choose|i: int| 0 <= i < t.len() && t[i].0@ == k;
                assert(s[i] == t[i]);
                assert(s[i].0@ == k);
            }
            if map_of(s).dom().contains(k) && k == s.last().0@ {
                assert(s[s.len() - 1].0@ == k);
            }
            if exists|i: int| 0 <= i < s.len() && s[i].0@ == k {
                let i = choose|i: int| 0 <= i < s.len() && s[i].0@ == k;
                if i < s.len() - 1 {
                    assert(t[i] == s[i]);
                    assert(map_of(t).dom().contains(k));
                }
            }
        }
        assert forall|i: int| 0 <= i < s.len() implies #[trigger] map_of(s)[s[i].0@] == s[i].1 by {
            if i < s.len() - 1 {
                assert(t[i] == s[i]);
                assert(s[i].0@ != s[s.len() - 1].0@);
                assert(map_of(t)[t[i].0@] == t[i].1);
            } else {
                assert(s[i] == s.last());
            }
        }
    }
}

proof fn lemma_map_of_update<V>(s: Seq<(String, V)>, i: int, e: (String, V))
    requires
        labels_distinct(s),
        0 <= i < s.len(),
        s[i].0@ == e.0@,
    ensures
        map_of(s.update(i, e)) == map_of(s).insert(e.0@, e.1),
        labels_distinct(s.update(i, e)),
{
    let u = s.update(i, e);
    assert(labels_distinct(u)) by {
        assert forall|a: int, b: int| 0 <= a < b < u.len() implies (#[trigger] u[a]).0@ != (#[trigger] u[b]).0@ by {
            assert(s[a].0@ != s[b].0@);
        }
    }
    lemma_map_of_lookup(s);
    lemma_map_of_lookup(u);
    assert forall|k: Seq<char>| #[trigger] map_of(u).dom().contains(k) <==> map_of(s).insert(e.0@, e.1).dom().contains(k) by {
        if exists|j: int| 0 <= j < s.len() && s[j].0@ == k {
            let j = choose|j: int| 0 <= j < s.len() && s[j].0@ == k;
            assert(u[j].0@ == k);
        }
        if exists|j: int| 0 <= j < u.len() && u[j].0@ == k {
            let j = choose|j: int| 0 <= j < u.len() && u[j].0@ == k;
            assert(s[j].0@ == k);
        }
    }
    assert forall|k: Seq<char>| map_of(u).dom().contains(k) implies map_of(u)[k] == map_of(s).insert(e.0@, e.1)[k] by {
        let j = choose|j: int| 0 <= j < u.len() && u[j].0@ == k;
        assert(map_of(u)[u[j].0@] == u[j].1);
        if j != i {
            assert(map_of(s)[s[j].0@] == s[j].1);
        }
    }
    assert(map_of(u) =~= map_of(s).insert(e.0@, e.1));
}

/// A small map from labels to values, kept as a list of pairs without repeated
/// labels.
pub struct LabelMap<V> {
    entries: Vec<(String, V)>,
}

impl<V> View for LabelMap<V> {
    type V = Map<Seq<char>, V>;

    closed spec fn view(&self) -> Map<Seq<char>, V> {
        map_of(self.entries@)
    }
}

impl<V> LabelMap<V> {
    #[verifier::type_invariant]
    spec fn wf(self) -> bool {
        labels_distinct(self.entries@)
    }
}

impl<V: Copy> LabelMap<V> {
    /// The empty map.
    pub fn new() -> (r: Self)
        ensures
            r@ == Map::<Seq<char>, V>::empty(),
    {
        LabelMap { entries: Vec::new() }
    }

    /// The label's value, if it has one.
    pub fn get(&self, label: &str) -> (r: Option<V>)
        ensures
            r == (if self@.contains_key(label@) { Some(self@[label@]) } else { None::<V> }),
    {
        proof {
            use_type_invariant(self);
            lemma_map_of_lookup(self.entries@);
        }
        let mut i: usize = 0;
        while i < self.entries.len()
            invariant
                i <= self.entries@.len(),
                labels_distinct(self.entries@),
                forall|j: int| 0 <= j < self.entries@.len() ==> #[trigger] map_of(self.entries@)[self.entries@[j].0@] == self.entries@[j].1,
                forall|k: Seq<char>| #[trigger] map_of(self.entries@).dom().contains(k) <==> exists|j: int| 0 <= j < self.entries@.len() && self.entries@[j].0@ == k,
                forall|j: int| 0 <= j < i ==> self.entries@[j].0@ != label@,
            decreases self.entries.len() - i,
        {
            if crate::text::str_eq(self.entries[i].0.as_str(), label) {
                return Some(self.entries[i].1);
            }
            i = i + 1;
        }
        None
    }

    /// Sets the label's value.
    pub fn insert(&mut self, label: String, value: V)
        ensures
            final(self)@ == old(self)@.insert(label@, value),
    {
        proof {
            use_type_invariant(&*self);
            lemma_map_of_lookup(self.entries@);
        }
        let mut i: usize = 0;
        while i < self.entries.len()
            invariant
                i <= self.entries@.len(),
                self.entries@ == old(self).entries@,
                labels_distinct(self.entries@),
                forall|j: int| 0 <= j < i ==> self.entries@[j].0@ != label@,
            decreases self.entries.len() - i,
        {
            if crate::text::str_eq(self.entries[i].0.as_str(), label.as_str()) {
                proof {
                    lemma_map_of_update(self.entries@, i as int, (label, value));
                }
                let mut entries: Vec<(String, V)> = Vec::new();
                std::mem::swap(&mut entries, &mut self.entries);
                entries.set(i, (label, value));
                self.entries = entries;
                return;
            }
            i = i + 1;
        }
        let mut entries: Vec<(String, V)> = Vec::new();
        std::mem::swap(&mut entries, &mut self.entries);
        proof {
            assert(entries@.push((label, value)).drop_last() =~= entries@);
            assert(labels_distinct(entries@.push((label, value)))) by {
                let s = entries@.push((label, value));
                assert forall|a: int, b: int| 0 <= a < b < s.len() implies (#[trigger] s[a]).0@ != (#[trigger] s[b]).0@ by {
                    if b == s.len() - 1 {
                        assert(s[a] == entries@[a]);
                    } else {
                        assert(s[a] == entries@[a] && s[b] == entries@[b]);
                    }
                }
            }
        }
        entries.push((label, value));
        self.entries = entries;
    }

    /// The map holding the given pairs, each inserted in turn (a later pair
    /// overrides an earlier one with the same label).
    pub fn from_pairs(pairs: &Vec<(String, V)>) -> (r: Self)
        ensures
            r@ == map_of(pairs@),
    {
        let mut r = LabelMap::new();
        for i in 0..pairs.len()
            invariant
                r@ == map_of(pairs@.take(i as int)),
        {
            assert(pairs@.take(i + 1).drop_last() =~= pairs@.take(i as int));
            r.insert(pairs[i].0.clone(), pairs[i].1);
        }
        assert(pairs@.take(pairs.len() as int) =~= pairs@);
        r
    }

    /// The labels and their values.
    pub fn pairs(&self) -> (r: Vec<(String, V)>)
        ensures
            map_of(r@) == self@,
            labels_distinct(r@),
    {
        proof {
            use_type_invariant(self);
        }
        let mut r: Vec<(String, V)> = Vec::new();
        for i in 0..self.entries.len()
            invariant
                r@.len() == i,
                forall|j: int| 0 <= j < i ==> (#[trigger] r@[j]).0@ == self.entries@[j].0@ && r@[j].1 == self.entries@[j].1,
        {
            r.push((self.entries[i].0.clone(), self.entries[i].1));
        }
        proof {
            lemma_map_of_same(r@, self.entries@);
        }
        r
    }
}

proof fn lemma_map_of_same<V>(a: Seq<(String, V)>, b: Seq<(String, V)>)
    requires
        a.len() == b.len(),
        forall|j: int| 0 <= j < a.len() ==> (#[trigger] a[j]).0@ == b[j].0@ && a[j].1 == b[j].1,
    ensures
        map_of(a) == map_of(b),
        labels_distinct(a) == labels_distinct(b),
    decreases a.len(),
{
    if a.len() > 0 {
        lemma_map_of_same(a.drop_last(), b.drop_last());
        assert(a.last() == a[a.len() - 1]);
    }
    assert(labels_distinct(a) == labels_distinct(b)) by {
        if labels_distinct(a) {
            assert forall|i: int, j: int| 0 <= i < j < b.len() implies (#[trigger] b[i]).0@ != (#[trigger] b[j]).0@ by {
                assert(a[i].0@ != a[j].0@);
            }
        }
        if labels_distinct(b) {
            assert forall|i: int, j: int| 0 <= i < j < a.len() implies (#[trigger] a[i]).0@ != (#[trigger] a[j]).0@ by {
                assert(b[i].0@ != b[j].0@);
            }
        }
    }
}

} // verus!
