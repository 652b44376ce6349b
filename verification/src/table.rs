use vstd::prelude::*;

verus! {
/// No key occurs twice.
pub open spec fn keys_distinct<V>(s: Seq<(Seq<char>, V)>) -> bool {
    forall|i: int, j: int| 0 <= i < s.len() && 0 <= j < s.len() && i != j ==> s[i].0 != s[j].0
}

/// `k` is a key of `s`.
pub open spec fn has_key<V>(s: Seq<(Seq<char>, V)>, k: Seq<char>) -> bool {
    exists|i: int| 0 <= i < s.len() && s[i].0 == k
}

/// The position of key `k` in `s` (meaningful when `has_key(s, k)`).
pub open spec fn key_index<V>(s: Seq<(Seq<char>, V)>, k: Seq<char>) -> int {
    choose|i: int| 0 <= i < s.len() && s[i].0 == k
}

/// The value stored under `k` (meaningful when `has_key(s, k)`).
pub open spec fn value_of<V>(s: Seq<(Seq<char>, V)>, k: Seq<char>) -> V {
    s[key_index(s, k)].1
}

/// The count stored under `k`, or 0 when `k` is absent.
pub open spec fn count_of(s: Seq<(Seq<char>, usize)>, k: Seq<char>) -> nat {
    if has_key(s, k) { value_of(s, k) as nat } else { 0 }
}

/// Every count of `s` is at most `b`.
pub open spec fn counts_bounded(s: Seq<(Seq<char>, usize)>, b: nat) -> bool {
    forall|i: int| 0 <= i < s.len() ==> (#[trigger] s[i]).1 <= b
}

/// The sequence with the value under `k` replaced by `v`, or with `(k, v)` appended when `k` is absent.
pub open spec fn upsert<V>(s: Seq<(Seq<char>, V)>, k: Seq<char>, v: V) -> Seq<(Seq<char>, V)> {
    if has_key(s, k) { s.update(key_index(s, k), (k, v)) } else { s.push((k, v)) }
}

/// The sequence after counting one more occurrence of `k`.
pub open spec fn bump(s: Seq<(Seq<char>, usize)>, k: Seq<char>) -> Seq<(Seq<char>, usize)> {
    upsert(s, k, (count_of(s, k) + 1) as usize)
}

pub proof fn lemma_key_index<V>(s: Seq<(Seq<char>, V)>, k: Seq<char>, i: int)
    requires
        keys_distinct(s),
        0 <= i < s.len(),
        s[i].0 == k,
    ensures
        has_key(s, k),
        key_index(s, k) == i,
        value_of(s, k) == s[i].1,
{
}

pub proof fn lemma_upsert_distinct<V>(s: Seq<(Seq<char>, V)>, k: Seq<char>, v: V)
    requires
        keys_distinct(s),
    ensures
        keys_distinct(upsert(s, k, v)),
        has_key(upsert(s, k, v), k),
        value_of(upsert(s, k, v), k) == v,
        forall|k2: Seq<char>| k2 != k ==> (has_key(upsert(s, k, v), k2) <==> has_key(s, k2)),
        forall|k2: Seq<char>| k2 != k && has_key(s, k2) ==> value_of(upsert(s, k, v), k2) == value_of(s, k2),
{
    let t = upsert(s, k, v);
    if has_key(s, k) {
        let i = key_index(s, k);
        assert(t[i].0 == k);
    } else {
        assert(t[s.len() as int].0 == k);
    }
    assert forall|k2: Seq<char>| k2 != k && has_key(s, k2) implies
        has_key(t, k2) && value_of(t, k2) == value_of(s, k2) by {
        let j = key_index(s, k2);
        assert(t[j] == s[j]);
    }
    assert forall|k2: Seq<char>| k2 != k && has_key(t, k2) implies has_key(s, k2) by {
        let j = key_index(t, k2);
        assert(s[j] == t[j]);
    }
}

/// A table from strings to values: an association list whose keys are distinct,
/// kept in the order the keys were first stored.
#[derive(Debug)]
pub struct Table<V> {
    entries: Vec<(String, V)>,
}

impl<V> Table<V> {
    /// The stored `(key, value)` pairs, in storage order.
    pub closed spec fn seq(&self) -> Seq<(Seq<char>, V)> {
        self.entries@.map_values(|p: (String, V)| (p.0@, p.1))
    }

    /// Keys are distinct.
    pub open spec fn wf(&self) -> bool {
        keys_distinct(self.seq())
    }

    /// An empty table.
    pub fn new() -> (r: Self)
        ensures
            r.wf(),
            r.seq() == Seq::<(Seq<char>, V)>::empty(),
    {
        let r = Table { entries: Vec::new() };
        assert(r.seq() =~= Seq::<(Seq<char>, V)>::empty());
        r
    }

    /// Number of keys.
    pub fn len(&self) -> (r: usize)
        ensures
            r == self.seq().len(),
    {
        self.entries.len()
    }

    /// Position of key `k`, if present.
    pub fn find(&self, k: &str) -> (r: Option<usize>)
        requires
            self.wf(),
        ensures
            match r {
                Some(i) => i < self.seq().len() && self.seq()[i as int].0 == k@
                    && has_key(self.seq(), k@) && key_index(self.seq(), k@) == i,
                None => !has_key(self.seq(), k@),
            },
    {
        let key = String::from_str(k);
        let mut i: usize = 0;
        while i < self.entries.len()
            invariant
                self.wf(),
                key@ == k@,
                i <= self.entries@.len(),
                forall|j: int| 0 <= j < i ==> self.seq()[j].0 != k@,
            decreases self.entries.len() - i,
        {
            if self.entries[i].0 == key {
                proof {
                    assert(self.seq()[i as int].0 == k@);
                    lemma_key_index(self.seq(), k@, i as int);
                }
                return Some(i);
            }
            assert(self.seq()[i as int].0 != k@);
            i += 1;
        }
        None
    }

    /// Whether key `k` is present (`HashMap::contains_key`).
    pub fn contains_key(&self, k: &str) -> (r: bool)
        requires
            self.wf(),
        ensures
            r == has_key(self.seq(), k@),
    {
        self.find(k).is_some()
    }

    /// The value under key `k`, if present (`HashMap::get`).
    pub fn get(&self, k: &str) -> (r: Option<&V>)
        requires
            self.wf(),
        ensures
            match r {
                Some(v) => has_key(self.seq(), k@) && *v == value_of(self.seq(), k@),
                None => !has_key(self.seq(), k@),
            },
    {
        match self.find(k) {
            Some(i) => Some(&self.entries[i].1),
            None => None,
        }
    }

    /// The key at position `i`.
    pub fn key_at(&self, i: usize) -> (r: &String)
        requires
            i < self.seq().len(),
        ensures
            r@ == self.seq()[i as int].0,
    {
        &self.entries[i].0
    }

    /// The value at position `i`.
    pub fn value_at(&self, i: usize) -> (r: &V)
        requires
            i < self.seq().len(),
        ensures
            *r == self.seq()[i as int].1,
    {
        &self.entries[i].1
    }

    /// Mutable access to the value at position `i`; keys are unchanged.
    pub fn value_at_mut(&mut self, i: usize) -> (r: &mut V)
        requires
            i < old(self).seq().len(),
        ensures
            *r == old(self).seq()[i as int].1,
            final(self).seq() == old(self).seq().update(i as int, (old(self).seq()[i as int].0, *final(r))),
    {
        let e = &mut self.entries[i];
        &mut e.1
    }

    /// Appends `(k, v)` for a key that is not yet present.
    pub fn push_new(&mut self, k: String, v: V)
        requires
            old(self).wf(),
            !has_key(old(self).seq(), k@),
        ensures
            final(self).wf(),
            final(self).seq() == old(self).seq().push((k@, v)),
    {
        let ghost kv = k@;
        self.entries.push((k, v));
        assert(self.seq() =~= old(self).seq().push((kv, v)));
        assert forall|i: int, j: int| 0 <= i < self.seq().len() && 0 <= j < self.seq().len() && i != j
            implies self.seq()[i].0 != self.seq()[j].0 by {
            if i == old(self).seq().len() {
                assert(old(self).seq()[j].0 != kv);
            } else if j == old(self).seq().len() {
                assert(old(self).seq()[i].0 != kv);
            }
        }
    }
}

impl Table<usize> {
    /// Counts one more occurrence of `k` (`*map.entry(k).or_insert(0) += 1`).
    pub fn increment(&mut self, k: &str)
        requires
            old(self).wf(),
            count_of(old(self).seq(), k@) < usize::MAX,
        ensures
            final(self).wf(),
            final(self).seq() == bump(old(self).seq(), k@),
    {
        proof { lemma_upsert_distinct(self.seq(), k@, (count_of(self.seq(), k@) + 1) as usize); }
        match self.find(k) {
            Some(i) => {
                let c = self.value_at_mut(i);
                *c = *c + 1;
                assert(self.seq() =~= bump(old(self).seq(), k@));
            },
            None => {
                self.push_new(String::from_str(k), 1);
            },
        }
    }

    /// The `(key, count)` pairs, in storage order.
    pub fn to_pairs(&self) -> (r: Vec<(String, usize)>)
        ensures
            r@.map_values(|p: (String, usize)| (p.0@, p.1)) == self.seq(),
    {
        let mut r: Vec<(String, usize)> = Vec::new();
        let mut i: usize = 0;
        while i < self.len()
            invariant
                i <= self.seq().len(),
                r@.map_values(|p: (String, usize)| (p.0@, p.1)) == self.seq().subrange(0, i as int),
            decreases self.seq().len() - i,
        {
            let ghost prev = r@;
            let k = self.key_at(i).clone();
            let v = *self.value_at(i);
            r.push((k, v));
            assert(r@ == prev.push((k, v)));
            assert(r@.map_values(|p: (String, usize)| (p.0@, p.1)) =~= prev.map_values(|p: (String, usize)| (p.0@, p.1)).push((k@, v)));
            i += 1;
            assert(r@.map_values(|p: (String, usize)| (p.0@, p.1)) =~= self.seq().subrange(0, i as int));
        }
        assert(self.seq().subrange(0, i as int) =~= self.seq());
        r
    }
}

/// Counting one more occurrence of `k` raises its count by one and leaves every
/// other key's count unchanged.
pub proof fn law_bump_counts(s: Seq<(Seq<char>, usize)>, k: Seq<char>, other: Seq<char>)
    requires
        keys_distinct(s),
        count_of(s, k) < usize::MAX,
        other != k,
    ensures
        keys_distinct(bump(s, k)),
        count_of(bump(s, k), k) == count_of(s, k) + 1,
        count_of(bump(s, k), other) == count_of(s, other),
{
    lemma_upsert_distinct(s, k, (count_of(s, k) + 1) as usize);
}

/// Storing twice under the same key keeps only the second value.
pub proof fn lemma_upsert_twice<V>(s: Seq<(Seq<char>, V)>, k: Seq<char>, v1: V, v2: V)
    requires
        keys_distinct(s),
    ensures
        upsert(upsert(s, k, v1), k, v2) == upsert(s, k, v2),
{
    lemma_upsert_distinct(s, k, v1);
    let t = upsert(s, k, v1);
    if has_key(s, k) {
        let i = key_index(s, k);
        assert(t[i].0 == k);
        lemma_key_index(t, k, i);
        assert(t.update(i, (k, v2)) =~= s.update(i, (k, v2)));
    } else {
        let i = s.len() as int;
        assert(t[i].0 == k);
        lemma_key_index(t, k, i);
        assert(t.update(i, (k, v2)) =~= s.push((k, v2)));
    }
}

/// Replacing the value at the position of an existing key is storing under that key.
pub proof fn lemma_update_is_upsert<V>(s: Seq<(Seq<char>, V)>, i: int, v: V)
    requires
        keys_distinct(s),
        0 <= i < s.len(),
    ensures
        s.update(i, (s[i].0, v)) == upsert(s, s[i].0, v),
        keys_distinct(s.update(i, (s[i].0, v))),
{
    lemma_key_index(s, s[i].0, i);
    lemma_upsert_distinct(s, s[i].0, v);
}

/// The `(key, count)` table obtained by counting `ks` in order, each new key
/// appended when first seen.
pub open spec fn tally(ks: Seq<Seq<char>>) -> Seq<(Seq<char>, usize)>
    decreases ks.len(),
{
    if ks.len() == 0 {
        Seq::empty()
    } else {
        bump(tally(ks.drop_last()), ks.last())
    }
}

/// Counting a sequence of keys lists each distinct key once, with the number of
/// times it occurs.
pub proof fn law_tally_counts(ks: Seq<Seq<char>>)
    requires
        ks.len() <= usize::MAX,
    ensures
        keys_distinct(tally(ks)),
        tally(ks).len() == ks.to_set().len(),
        forall|k: Seq<char>| #[trigger] count_of(tally(ks), k) == ks.to_multiset().count(k),
        forall|k: Seq<char>| #[trigger] has_key(tally(ks), k) <==> ks.contains(k),
        forall|k: Seq<char>| count_of(tally(ks), k) <= ks.len(),
    decreases ks.len(),
{
    broadcast use vstd::seq_lib::group_to_multiset_ensures;
    broadcast use vstd::seq_lib::seq_to_set_is_finite;
    if ks.len() == 0 {
        assert(ks.to_set() =~= Set::<Seq<char>>::empty());
    } else {
        let p = ks.drop_last();
        let x = ks.last();
        law_tally_counts(p);
        assert(ks =~= p.push(x));
        let t = tally(p);
        assert(count_of(t, x) <= p.len());
        lemma_upsert_distinct(t, x, (count_of(t, x) + 1) as usize);
        assert forall|k: Seq<char>| #[trigger] count_of(tally(ks), k) == ks.to_multiset().count(k)
            && count_of(tally(ks), k) <= ks.len() by {
            if k != x {
                law_bump_counts(t, x, k);
            } else {
                assert(x.push('a').len() != x.len());
                law_bump_counts(t, x, x.push('a'));
            }
        }
        assert(tally(ks) == upsert(t, x, (count_of(t, x) + 1) as usize));
        assert forall|k: Seq<char>| #[trigger] has_key(tally(ks), k) <==> ks.contains(k) by {
            lemma_upsert_distinct(t, x, (count_of(t, x) + 1) as usize);
            assert(has_key(t, k) <==> p.contains(k));
            if k == x {
                assert(ks[ks.len() - 1] == k);
            } else {
                if p.contains(k) {
                    let j = choose|j: int| 0 <= j < p.len() && p[j] == k;
                    assert(ks[j] == k);
                }
                if ks.contains(k) {
                    let j = choose|j: int| 0 <= j < ks.len() && ks[j] == k;
                    assert(p[j] == k);
                }
            }
        }
        if p.contains(x) {
            assert(ks.to_set() =~= p.to_set());
            assert(has_key(t, x));
        } else {
            assert(ks.to_set() =~= p.to_set().insert(x));
            assert(!has_key(t, x));
        }
    }
}

} // verus!
