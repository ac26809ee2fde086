//! Maps keyed by text.

use vstd::prelude::*;

use crate::text::text_eq;

verus! {

/// A map from texts to values. No key occurs twice.
#[derive(Debug)]
pub struct TextMap<V> {
    entries: Vec<(String, V)>,
}

/// No two entries have the same key.
pub open spec fn distinct_keys<V>(s: Seq<(String, V)>) -> bool {
    forall|i: int, j: int| #![trigger s[i], s[j]] 0 <= i < j < s.len() ==> s[i].0@ != s[j].0@
}

/// The entry at position `i` has the key `k`.
pub open spec fn keyed_at<V>(s: Seq<(String, V)>, k: Seq<char>, i: int) -> bool {
    0 <= i < s.len() && s[i].0@ == k
}

/// The map that the entries list.
pub open spec fn entries_map<V>(s: Seq<(String, V)>) -> Map<Seq<char>, V> {
    Map::new(
        |k: Seq<char>| exists|i: int| keyed_at(s, k, i),
        |k: Seq<char>| s[choose|i: int| keyed_at(s, k, i)].1,
    )
}

/// The values of a map of texts, as their characters.
pub open spec fn text_values(m: Map<Seq<char>, String>) -> Map<Seq<char>, Seq<char>> {
    Map::new(|k: Seq<char>| m.dom().contains(k), |k: Seq<char>| m[k]@)
}

/// The count under the key `k`, zero where there is none.
pub open spec fn count_of(m: Map<Seq<char>, u64>, k: Seq<char>) -> nat {
    if m.dom().contains(k) {
        m[k] as nat
    } else {
        0
    }
}

impl<V> View for TextMap<V> {
    type V = Map<Seq<char>, V>;

    closed spec fn view(&self) -> Map<Seq<char>, V> {
        entries_map(self.entries@)
    }
}

proof fn lemma_keyed<V>(s: Seq<(String, V)>, i: int)
    requires
        distinct_keys(s),
        0 <= i < s.len(),
    ensures
        entries_map(s).dom().contains(s[i].0@),
        entries_map(s)[s[i].0@] == s[i].1,
{
    let k = s[i].0@;
    assert(keyed_at(s, k, i));
    let j = choose|j: int| keyed_at(s, k, j);
    assert(s[j].0@ == s[i].0@);
    assert(i == j);
}

proof fn lemma_push<V>(s: Seq<(String, V)>, e: (String, V))
    requires
        distinct_keys(s),
        !entries_map(s).dom().contains(e.0@),
    ensures
        distinct_keys(s.push(e)),
        entries_map(s.push(e)) == entries_map(s).insert(e.0@, e.1),
{
    let t = s.push(e);
    assert forall|i: int, j: int| #![trigger t[i], t[j]] 0 <= i < j < t.len() implies t[i].0@
        != t[j].0@ by {
        if j == s.len() {
            lemma_keyed(s, i);
        } else {
            assert(s[i].0@ != s[j].0@);
        }
    }
    assert forall|k: Seq<char>| entries_map(t).dom().contains(k) <==> #[trigger] entries_map(
        s,
    ).insert(e.0@, e.1).dom().contains(k) by {
        if entries_map(s).dom().contains(k) {
            let i = choose|i: int| keyed_at(s, k, i);
            assert(keyed_at(t, k, i));
        }
        if k == e.0@ {
            assert(keyed_at(t, k, s.len() as int));
        }
        if entries_map(t).dom().contains(k) && k != e.0@ {
            let i = choose|i: int| keyed_at(t, k, i);
            assert(keyed_at(s, k, i));
        }
    }
    assert forall|k: Seq<char>| #[trigger] entries_map(t).dom().contains(k) implies entries_map(t)[k]
        == entries_map(s).insert(e.0@, e.1)[k] by {
        let i = choose|i: int| keyed_at(t, k, i);
        lemma_keyed(t, i);
        if i < s.len() {
            lemma_keyed(s, i);
        }
    }
    assert(entries_map(t) =~= entries_map(s).insert(e.0@, e.1));
}

proof fn lemma_update<V>(s: Seq<(String, V)>, e: (String, V), p: int)
    requires
        distinct_keys(s),
        keyed_at(s, e.0@, p),
    ensures
        distinct_keys(s.update(p, e)),
        entries_map(s.update(p, e)) == entries_map(s).insert(e.0@, e.1),
{
    let t = s.update(p, e);
    assert forall|i: int, j: int| #![trigger t[i], t[j]] 0 <= i < j < t.len() implies t[i].0@
        != t[j].0@ by {
        assert(s[i].0@ != s[j].0@);
    }
    assert forall|k: Seq<char>| entries_map(t).dom().contains(k) <==> #[trigger] entries_map(
        s,
    ).insert(e.0@, e.1).dom().contains(k) by {
        if entries_map(s).dom().contains(k) {
            let i = choose|i: int| keyed_at(s, k, i);
            assert(keyed_at(t, k, i));
        }
        if k == e.0@ {
            assert(keyed_at(t, k, p));
        }
        if entries_map(t).dom().contains(k) {
            let i = choose|i: int| keyed_at(t, k, i);
            assert(keyed_at(s, k, i));
        }
    }
    assert forall|k: Seq<char>| #[trigger] entries_map(t).dom().contains(k) implies entries_map(t)[k]
        == entries_map(s).insert(e.0@, e.1)[k] by {
        let i = choose|i: int| keyed_at(t, k, i);
        lemma_keyed(t, i);
        lemma_keyed(s, i);
        if i != p && k == e.0@ {
            assert(s[i].0@ == s[p].0@);
        }
    }
    assert(entries_map(t) =~= entries_map(s).insert(e.0@, e.1));
}

proof fn lemma_remove<V>(s: Seq<(String, V)>, p: int)
    requires
        distinct_keys(s),
        0 <= p < s.len(),
    ensures
        distinct_keys(s.remove(p)),
        entries_map(s.remove(p)) == entries_map(s).remove(s[p].0@),
{
    let t = s.remove(p);
    let gone = s[p].0@;
    assert forall|i: int, j: int| #![trigger t[i], t[j]] 0 <= i < j < t.len() implies t[i].0@
        != t[j].0@ by {
        let a = if i < p {
            i
        } else {
            i + 1
        };
        let b = if j < p {
            j
        } else {
            j + 1
        };
        assert(t[i] == s[a] && t[j] == s[b]);
    }
    assert forall|k: Seq<char>| entries_map(t).dom().contains(k) <==> #[trigger] entries_map(
        s,
    ).remove(gone).dom().contains(k) by {
        if entries_map(t).dom().contains(k) {
            let i = choose|i: int| keyed_at(t, k, i);
            let a = if i < p {
                i
            } else {
                i + 1
            };
            assert(t[i] == s[a]);
            assert(keyed_at(s, k, a));
            assert(s[a].0@ != s[p].0@);
        }
        if entries_map(s).dom().contains(k) && k != gone {
            let i = choose|i: int| keyed_at(s, k, i);
            let a = if i < p {
                i
            } else {
                i - 1
            };
            assert(t[a] == s[i]);
            assert(keyed_at(t, k, a));
        }
    }
    assert forall|k: Seq<char>| #[trigger] entries_map(t).dom().contains(k) implies entries_map(t)[k]
        == entries_map(s).remove(gone)[k] by {
        let i = choose|i: int| keyed_at(t, k, i);
        lemma_keyed(t, i);
        let a = if i < p {
            i
        } else {
            i + 1
        };
        assert(t[i] == s[a]);
        lemma_keyed(s, a);
    }
    assert(entries_map(t) =~= entries_map(s).remove(gone));
}

impl<V> TextMap<V> {
    #[verifier::type_invariant]
    spec fn well_formed(self) -> bool {
        distinct_keys(self.entries@)
    }

    /// A map without entries.
    pub fn new() -> (r: Self)
        ensures
            r@ == Map::<Seq<char>, V>::empty(),
    {
        let r = TextMap { entries: Vec::new() };
        assert(r@ =~= Map::<Seq<char>, V>::empty());
        r
    }

    fn position(&self, key: &str) -> (r: Option<usize>)
        ensures
            r matches Some(i) ==> keyed_at(self.entries@, key@, i as int),
            r is None ==> !self@.dom().contains(key@),
    {
        let mut i: usize = 0;
        while i < self.entries.len()
            invariant
                i <= self.entries@.len(),
                forall|j: int| 0 <= j < i ==> (#[trigger] self.entries@[j]).0@ != key@,
            decreases self.entries@.len() - i,
        {
            if text_eq(self.entries[i].0.as_str(), key) {
                return Some(i);
            }
            i = i + 1;
        }
        None
    }

    /// The value under `key`.
    pub fn get(&self, key: &str) -> (r: Option<&V>)
        ensures
            r is Some <==> self@.dom().contains(key@),
            r matches Some(v) ==> *v == self@[key@],
    {
        match self.position(key) {
            Some(i) => {
                proof {
                    use_type_invariant(self);
                    lemma_keyed(self.entries@, i as int);
                }
                Some(&self.entries[i].1)
            },
            None => None,
        }
    }

    /// `key` has a value.
    pub fn contains_key(&self, key: &str) -> (r: bool)
        ensures
            r == self@.dom().contains(key@),
    {
        self.get(key).is_some()
    }

    /// Puts `value` under `key`, in place of what was there.
    pub fn insert(&mut self, key: String, value: V)
        ensures
            final(self)@ == old(self)@.insert(key@, value),
    {
        proof {
            use_type_invariant(&*self);
        }
        let at = self.position(key.as_str());
        let mut entries: Vec<(String, V)> = Vec::new();
        std::mem::swap(&mut self.entries, &mut entries);
        match at {
            Some(i) => {
                proof {
                    lemma_update(entries@, (key, value), i as int);
                }
                entries.set(i, (key, value));
            },
            None => {
                proof {
                    lemma_push(entries@, (key, value));
                }
                entries.push((key, value));
            },
        }
        self.entries = entries;
    }

    /// Takes `key` and its value out.
    pub fn remove(&mut self, key: &str)
        ensures
            final(self)@ == old(self)@.remove(key@),
    {
        proof {
            use_type_invariant(&*self);
        }
        match self.position(key) {
            Some(i) => {
                let mut entries: Vec<(String, V)> = Vec::new();
                std::mem::swap(&mut self.entries, &mut entries);
                proof {
                    lemma_remove(entries@, i as int);
                }
                entries.remove(i);
                self.entries = entries;
            },
            None => {
                assert(self@.remove(key@) =~= self@);
            },
        }
    }

    /// The map has no entries.
    pub fn is_empty(&self) -> (r: bool)
        ensures
            r == (self@ == Map::<Seq<char>, V>::empty()),
    {
        if self.entries.len() == 0 {
            assert(self@ =~= Map::<Seq<char>, V>::empty());
            true
        } else {
            proof {
                use_type_invariant(self);
                lemma_keyed(self.entries@, 0);
            }
            false
        }
    }

    /// The entries, each key once.
    pub fn entries(&self) -> (r: &Vec<(String, V)>)
        ensures
            distinct_keys(r@),
            entries_map(r@) == self@,
    {
        proof {
            use_type_invariant(self);
        }
        &self.entries
    }

    /// The keys, each once.
    pub fn keys(&self) -> (r: Vec<String>)
        ensures
            crate::text::views(r@).no_duplicates(),
            forall|k: Seq<char>| crate::text::views(r@).contains(k) <==> self@.dom().contains(k),
    {
        proof {
            use_type_invariant(self);
        }
        let ghost s = self.entries@;
        let mut out: Vec<String> = Vec::new();
        let mut i: usize = 0;
        while i < self.entries.len()
            invariant
                i <= self.entries@.len(),
                s == self.entries@,
                out@.len() == i,
                forall|j: int| 0 <= j < i ==> (#[trigger] out@[j])@ == s[j].0@,
            decreases self.entries@.len() - i,
        {
            out.push(self.entries[i].0.clone());
            i = i + 1;
        }
        proof {
            let names = crate::text::views(out@);
            assert forall|a: int, b: int|
                0 <= a < names.len() && 0 <= b < names.len() && a != b implies names[a]
                != names[b] by {
                if a < b {
                    assert(s[a].0@ != s[b].0@);
                } else {
                    assert(s[b].0@ != s[a].0@);
                }
            }
            assert forall|k: Seq<char>| names.contains(k) <==> self@.dom().contains(k) by {
                if names.contains(k) {
                    let i = choose|i: int| 0 <= i < names.len() && names[i] == k;
                    assert(keyed_at(s, k, i));
                }
                if self@.dom().contains(k) {
                    let i = choose|i: int| keyed_at(s, k, i);
                    assert(names[i] == k);
                }
            }
        }
        out
    }
}

impl TextMap<u64> {
    /// Adds `n` to the count under `key`.
    pub fn tally(&mut self, key: &str, n: u64)
        requires
            count_of(old(self)@, key@) + n <= u64::MAX,
        ensures
            final(self)@ == old(self)@.insert(key@, (count_of(old(self)@, key@) + n) as u64),
    {
        let now: u64 = match self.get(key) {
            Some(c) => *c,
            None => 0,
        };
        self.insert(key.to_owned(), now + n);
    }

    /// A copy of the counts.
    pub fn copy(&self) -> (r: TextMap<u64>)
        ensures
            r@ == self@,
    {
        proof {
            use_type_invariant(self);
        }
        let ghost s = self.entries@;
        let mut out: Vec<(String, u64)> = Vec::new();
        let mut i: usize = 0;
        while i < self.entries.len()
            invariant
                i <= self.entries@.len(),
                s == self.entries@,
                out@.len() == i,
                forall|j: int|
                    0 <= j < i ==> (#[trigger] out@[j]).0@ == s[j].0@ && out@[j].1 == s[j].1,
            decreases self.entries@.len() - i,
        {
            out.push((self.entries[i].0.clone(), self.entries[i].1));
            i = i + 1;
        }
        proof {
            lemma_same_entries(out@, s);
        }
        TextMap { entries: out }
    }
}

proof fn lemma_same_entries(t: Seq<(String, u64)>, s: Seq<(String, u64)>)
    requires
        distinct_keys(s),
        t.len() == s.len(),
        forall|j: int| 0 <= j < s.len() ==> (#[trigger] t[j]).0@ == s[j].0@ && t[j].1 == s[j].1,
    ensures
        distinct_keys(t),
        entries_map(t) == entries_map(s),
{
    assert forall|i: int, j: int| #![trigger t[i], t[j]] 0 <= i < j < t.len() implies t[i].0@
        != t[j].0@ by {
        assert(s[i].0@ != s[j].0@);
    }
    assert forall|k: Seq<char>| #[trigger] entries_map(t).dom().contains(k) <==> entries_map(
        s,
    ).dom().contains(k) by {
        if entries_map(t).dom().contains(k) {
            let i = choose|i: int| keyed_at(t, k, i);
            assert(keyed_at(s, k, i));
        }
        if entries_map(s).dom().contains(k) {
            let i = choose|i: int| keyed_at(s, k, i);
            assert(keyed_at(t, k, i));
        }
    }
    assert forall|k: Seq<char>| #[trigger] entries_map(t).dom().contains(k) implies entries_map(t)[k]
        == entries_map(s)[k] by {
        let i = choose|i: int| keyed_at(t, k, i);
        lemma_keyed(t, i);
        lemma_keyed(s, i);
    }
    assert(entries_map(t) =~= entries_map(s));
}

impl<V> Default for TextMap<V> {
    fn default() -> (r: Self)
        ensures
            r@ == Map::<Seq<char>, V>::empty(),
    {
        TextMap::new()
    }
}

} // verus!
