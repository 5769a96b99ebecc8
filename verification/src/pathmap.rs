//! A map from relative paths to values, kept as a list of distinct keys.
use vstd::prelude::*;

verus! {

/// Map keyed by path text. Its entries hold each key once.
pub struct PathMap<V> {
    entries: Vec<(String, V)>,
}

pub open spec fn has_key_at<V>(s: Seq<(String, V)>, k: Seq<char>, i: int) -> bool {
    0 <= i < s.len() && s[i].0@ == k
}

pub open spec fn seq_to_map<V>(s: Seq<(String, V)>) -> Map<Seq<char>, V> {
    Map::new(
        |k: Seq<char>| exists|i: int| has_key_at(s, k, i),
        |k: Seq<char>| s[choose|i: int| has_key_at(s, k, i)].1,
    )
}

pub open spec fn keys_distinct<V>(s: Seq<(String, V)>) -> bool {
    forall|i: int, j: int| 0 <= i < s.len() && 0 <= j < s.len() && i != j ==> s[i].0@ != s[j].0@
}

proof fn lemma_value_at<V>(s: Seq<(String, V)>, i: int)
    requires
        keys_distinct(s),
        0 <= i < s.len(),
    ensures
        seq_to_map(s).dom().contains(s[i].0@),
        seq_to_map(s)[s[i].0@] == s[i].1,
{
    assert(has_key_at(s, s[i].0@, i));
    let j = choose|j: int| has_key_at(s, s[i].0@, j);
    assert(j == i);
}

proof fn lemma_push_map<V>(s: Seq<(String, V)>, x: (String, V))
    requires
        keys_distinct(s.push(x)),
    ensures
        seq_to_map(s.push(x)) =~= seq_to_map(s).insert(x.0@, x.1),
{
    let t = s.push(x);
    assert forall|q: Seq<char>| seq_to_map(t).dom().contains(q) <==> seq_to_map(s).insert(x.0@, x.1).dom().contains(q) by {
        if seq_to_map(t).dom().contains(q) {
            let j = choose|j: int| has_key_at(t, q, j);
            if j < s.len() {
                assert(has_key_at(s, q, j));
            }
        }
        if seq_to_map(s).dom().contains(q) {
            let j = choose|j: int| has_key_at(s, q, j);
            assert(has_key_at(t, q, j));
        }
        if q == x.0@ {
            assert(has_key_at(t, q, s.len() as int));
        }
    }
    assert forall|q: Seq<char>| #[trigger] seq_to_map(t).dom().contains(q) implies seq_to_map(t)[q]
        == seq_to_map(s).insert(x.0@, x.1)[q] by {
        let j = choose|j: int| has_key_at(t, q, j);
        lemma_value_at(t, j);
        if q == x.0@ {
            assert(has_key_at(t, q, s.len() as int));
            lemma_value_at(t, s.len() as int);
        } else {
            assert(j < s.len());
            assert(t[j] == s[j]);
            assert(keys_distinct(s)) by {
                assert forall|a: int, b: int|
                    0 <= a < s.len() && 0 <= b < s.len() && a != b implies s[a].0@ != s[b].0@ by {
                    assert(s[a] == t[a]);
                    assert(s[b] == t[b]);
                }
            }
            lemma_value_at(s, j);
        }
    }
}

/// Stores `value` under `key` in a list of distinct keys, in place of what was
/// there.
fn insert_entry<V>(entries: &mut Vec<(String, V)>, key: String, value: V)
    requires
        keys_distinct(old(entries)@),
    ensures
        keys_distinct(final(entries)@),
        seq_to_map(final(entries)@) == seq_to_map(old(entries)@).insert(key@, value),
{
    let ghost s = entries@;
    let mut i: usize = 0;
    while i < entries.len()
        invariant
            s == entries@,
            s == old(entries)@,
            keys_distinct(s),
            i <= s.len(),
            forall|j: int| 0 <= j < i ==> s[j].0@ != key@,
        decreases entries.len() - i,
    {
        if entries[i].0 == key {
            let ghost k = key@;
            assert(s[i as int].0@ == k);
            entries.set(i, (key, value));
            let ghost t = entries@;
            assert(t == s.update(i as int, t[i as int]));
            assert(keys_distinct(t)) by {
                assert forall|a: int, b: int|
                    0 <= a < t.len() && 0 <= b < t.len() && a != b implies t[a].0@ != t[b].0@ by {
                    assert(t[a].0@ == s[a].0@);
                    assert(t[b].0@ == s[b].0@);
                }
            }
            assert(seq_to_map(t) =~= seq_to_map(s).insert(k, value)) by {
                assert forall|q: Seq<char>| seq_to_map(t).dom().contains(q) <==> seq_to_map(
                    s,
                ).insert(k, value).dom().contains(q) by {
                    if seq_to_map(t).dom().contains(q) {
                        let j = choose|j: int| has_key_at(t, q, j);
                        assert(has_key_at(s, q, j));
                    }
                    if seq_to_map(s).dom().contains(q) {
                        let j = choose|j: int| has_key_at(s, q, j);
                        assert(has_key_at(t, q, j));
                    }
                    if q == k {
                        assert(has_key_at(t, q, i as int));
                    }
                }
                assert forall|q: Seq<char>| #[trigger] seq_to_map(t).dom().contains(q) implies seq_to_map(
                    t,
                )[q] == seq_to_map(s).insert(k, value)[q] by {
                    let j = choose|j: int| has_key_at(t, q, j);
                    lemma_value_at(t, j);
                    if q != k {
                        lemma_value_at(s, j);
                    }
                }
            }
            return;
        }
        i += 1;
    }
    let ghost k = key@;
    entries.push((key, value));
    let ghost t = entries@;
    assert(t == s.push(t[s.len() as int]));
    assert(keys_distinct(t)) by {
        assert forall|a: int, b: int|
            0 <= a < t.len() && 0 <= b < t.len() && a != b implies t[a].0@ != t[b].0@ by {
            if a < s.len() {
                assert(t[a] == s[a]);
            }
            if b < s.len() {
                assert(t[b] == s[b]);
            }
        }
    }
    assert(seq_to_map(t) =~= seq_to_map(s).insert(k, value)) by {
        assert forall|q: Seq<char>| seq_to_map(t).dom().contains(q) <==> seq_to_map(s).insert(
            k,
            value,
        ).dom().contains(q) by {
            if seq_to_map(t).dom().contains(q) {
                let j = choose|j: int| has_key_at(t, q, j);
                if j < s.len() {
                    assert(has_key_at(s, q, j));
                }
            }
            if seq_to_map(s).dom().contains(q) {
                let j = choose|j: int| has_key_at(s, q, j);
                assert(has_key_at(t, q, j));
            }
            if q == k {
                assert(has_key_at(t, q, s.len() as int));
            }
        }
        assert forall|q: Seq<char>| #[trigger] seq_to_map(t).dom().contains(q) implies seq_to_map(
            t,
        )[q] == seq_to_map(s).insert(k, value)[q] by {
            let j = choose|j: int| has_key_at(t, q, j);
            lemma_value_at(t, j);
            if q != k {
                assert(j < s.len());
                assert(t[j] == s[j]);
                lemma_value_at(s, j);
            }
        }
    }
}

impl<V> PathMap<V> {
    /// Each key is held once.
    #[verifier::type_invariant]
    spec fn keys_held_once(self) -> bool {
        keys_distinct(self.entries@)
    }

    pub closed spec fn view(self) -> Map<Seq<char>, V> {
        seq_to_map(self.entries@)
    }

    pub fn new() -> (m: Self)
        ensures
            m.view() == Map::<Seq<char>, V>::empty(),
    {
        let m = PathMap { entries: Vec::new() };
        assert(m.view() =~= Map::<Seq<char>, V>::empty());
        m
    }

    pub fn len(&self) -> (n: usize)
        ensures
            n == self.view().dom().len(),
    {
        proof {
            use_type_invariant(self);
            self.lemma_dom_len();
        }
        self.entries.len()
    }

    proof fn lemma_dom_len(self)
        requires
            keys_distinct(self.entries@),
        ensures
            self.view().dom().len() == self.entries@.len(),
            self.view().dom().finite(),
    {
        let s = self.entries@;
        let keys = s.map_values(|e: (String, V)| e.0@);
        assert(self.view().dom() =~= keys.to_set()) by {
            assert forall|k: Seq<char>| self.view().dom().contains(k) implies keys.to_set().contains(
                k,
            ) by {
                let i = choose|i: int| has_key_at(s, k, i);
                assert(keys[i] == k);
            }
            assert forall|k: Seq<char>| keys.to_set().contains(k) implies self.view().dom().contains(
                k,
            ) by {
                let i = choose|i: int| 0 <= i < keys.len() && keys[i] == k;
                assert(has_key_at(s, k, i));
            }
        }
        assert(keys.no_duplicates());
        keys.unique_seq_to_set();
    }

    /// The value stored under `key`.
    pub fn get(&self, key: &String) -> (r: Option<&V>)
        ensures
            r matches Some(v) ==> self.view().dom().contains(key@) && self.view()[key@] == *v,
            r is None ==> !self.view().dom().contains(key@),
    {
        proof {
            use_type_invariant(self);
        }
        let mut i: usize = 0;
        while i < self.entries.len()
            invariant
                keys_distinct(self.entries@),
                i <= self.entries@.len(),
                forall|j: int| 0 <= j < i ==> self.entries@[j].0@ != key@,
            decreases self.entries.len() - i,
        {
            if self.entries[i].0 == *key {
                proof {
                    lemma_value_at(self.entries@, i as int);
                }
                return Some(&self.entries[i].1);
            }
            i += 1;
        }
        None
    }

    pub fn contains_key(&self, key: &String) -> (b: bool)
        ensures
            b == self.view().dom().contains(key@),
    {
        self.get(key).is_some()
    }

    /// Stores `value` under `key`, in place of what was there.
    pub fn insert(&mut self, key: String, value: V)
        ensures
            final(self).view() == old(self).view().insert(key@, value),
    {
        proof {
            use_type_invariant(&*self);
        }
        let mut entries: Vec<(String, V)> = Vec::new();
        std::mem::swap(&mut entries, &mut self.entries);
        insert_entry(&mut entries, key, value);
        self.entries = entries;
    }

    /// Adds every entry of `other`, which wins where both hold a key.
    pub fn extend(&mut self, other: PathMap<V>)
        ensures
            final(self).view() == old(self).view().union_prefer_right(other.view()),
    {
        proof {
            use_type_invariant(&other);
        }
        let ghost o = other.entries@;
        let ghost start = self.view();
        let mut rest = other.entries;
        assert(o.len() == rest.len());
        let mut i: usize = 0;
        assert(o.take(0) =~= Seq::<(String, V)>::empty());
        assert(seq_to_map(o.take(0)) =~= Map::<Seq<char>, V>::empty());
        assert(start.union_prefer_right(Map::<Seq<char>, V>::empty()) =~= start);
        assert(rest@ =~= o.skip(0));
        while rest.len() > 0
            invariant
                keys_distinct(o),
                i <= o.len(),
                o.len() <= usize::MAX,
                rest@ == o.skip(i as int),
                self.view() == start.union_prefer_right(seq_to_map(o.take(i as int))),
            decreases rest.len(),
        {
            let ghost before = self.view();
            assert(rest@[0] == o[i as int]);
            let (k, v) = rest.remove(0);
            assert(rest@ =~= o.skip(i + 1));
            proof {
                let t = o.take(i + 1);
                assert(t =~= o.take(i as int).push(o[i as int]));
                assert(keys_distinct(t)) by {
                    assert forall|a: int, b: int|
                        0 <= a < t.len() && 0 <= b < t.len() && a != b implies t[a].0@ != t[b].0@ by {
                        assert(t[a] == o[a]);
                        assert(t[b] == o[b]);
                    }
                }
                lemma_push_map(o.take(i as int), o[i as int]);
            }
            self.insert(k, v);
            proof {
                let m = seq_to_map(o.take(i as int));
                assert(self.view() =~= start.union_prefer_right(m.insert(k@, v)));
            }
            i += 1;
        }
        assert(o.take(o.len() as int) =~= o);
    }

    /// The keys, each once.
    pub fn keys(&self) -> (ks: Vec<String>)
        ensures
            forall|i: int, j: int| 0 <= i < ks@.len() && 0 <= j < ks@.len() && i != j ==> ks@[i]@
                != ks@[j]@,
            forall|k: Seq<char>| self.view().dom().contains(k) <==> exists|i: int|
                0 <= i < ks@.len() && #[trigger] ks@[i]@ == k,
    {
        proof {
            use_type_invariant(self);
        }
        let mut ks: Vec<String> = Vec::new();
        let mut i: usize = 0;
        while i < self.entries.len()
            invariant
                keys_distinct(self.entries@),
                i <= self.entries@.len(),
                ks@.len() == i,
                forall|j: int| 0 <= j < i ==> #[trigger] ks@[j]@ == self.entries@[j].0@,
            decreases self.entries.len() - i,
        {
            ks.push(self.entries[i].0.clone());
            i += 1;
        }
        proof {
            let s = self.entries@;
            assert forall|k: Seq<char>| self.view().dom().contains(k) implies exists|i: int|
                0 <= i < ks@.len() && #[trigger] ks@[i]@ == k by {
                let j = choose|j: int| has_key_at(s, k, j);
                assert(ks@[j]@ == k);
            }
            assert forall|k: Seq<char>|
                (exists|i: int| 0 <= i < ks@.len() && #[trigger] ks@[i]@ == k) implies self.view().dom().contains(
                k,
            ) by {
                let j = choose|j: int| 0 <= j < ks@.len() && #[trigger] ks@[j]@ == k;
                assert(has_key_at(s, k, j));
            }
        }
        ks
    }
}

} // verus!
