use vstd::prelude::*;

verus! {

/// Inserts `x` into `s` after every element whose count is at least `x`'s count,
/// scanning from the end (the insertion step of a stable sort by decreasing count).
pub open spec fn insert_desc<K>(s: Seq<(K, usize)>, x: (K, usize)) -> Seq<(K, usize)>
    decreases s.len(),
{
    if s.len() == 0 {
        seq![x]
    } else if s.last().1 >= x.1 {
        s.push(x)
    } else {
        insert_desc(s.drop_last(), x).push(s.last())
    }
}

/// The stable sort of `s` by decreasing count (what `sort_by(|a, b| b.1.cmp(&a.1))` gives).
pub open spec fn sort_desc<K>(s: Seq<(K, usize)>) -> Seq<(K, usize)>
    decreases s.len(),
{
    if s.len() == 0 {
        s
    } else {
        insert_desc(sort_desc(s.drop_last()), s.last())
    }
}

/// `s` is ordered by decreasing count.
pub open spec fn is_sorted_desc<K>(s: Seq<(K, usize)>) -> bool {
    forall|i: int, j: int| 0 <= i <= j < s.len() ==> s[i].1 >= s[j].1
}

/// The first `n` elements of `s` (what `truncate(n)` keeps).
pub open spec fn first_n<T>(s: Seq<T>, n: nat) -> Seq<T> {
    if n < s.len() { s.take(n as int) } else { s }
}

/// Pairs each count with its position.
pub open spec fn indexed(c: Seq<usize>) -> Seq<(usize, usize)> {
    Seq::new(c.len(), |i: int| (i as usize, c[i]))
}

/// Replaces positions by the keys they designate.
pub open spec fn rekey<K>(s: Seq<(usize, usize)>, keys: Seq<K>) -> Seq<(K, usize)> {
    s.map_values(|p: (usize, usize)| (keys[p.0 as int], p.1))
}

proof fn lemma_insert_desc_len<K>(s: Seq<(K, usize)>, x: (K, usize))
    ensures
        insert_desc(s, x).len() == s.len() + 1,
    decreases s.len(),
{
    if s.len() > 0 && s.last().1 < x.1 {
        lemma_insert_desc_len(s.drop_last(), x);
    }
}

pub proof fn lemma_sort_desc_len<K>(s: Seq<(K, usize)>)
    ensures
        sort_desc(s).len() == s.len(),
    decreases s.len(),
{
    if s.len() > 0 {
        lemma_sort_desc_len(s.drop_last());
        lemma_insert_desc_len(sort_desc(s.drop_last()), s.last());
    }
}

/// Inserting at position `j` is the insertion step when everything before `j`
/// has a count at least `x`'s and everything from `j` on has a smaller count.
proof fn lemma_insert_at<K>(s: Seq<(K, usize)>, x: (K, usize), j: int)
    requires
        0 <= j <= s.len(),
        j > 0 ==> s[j - 1].1 >= x.1,
        forall|k: int| j <= k < s.len() ==> s[k].1 < x.1,
    ensures
        insert_desc(s, x) == s.insert(j, x),
    decreases s.len(),
{
    if s.len() == 0 {
        assert(s.insert(j, x) =~= seq![x]);
    } else if s.last().1 >= x.1 {
        assert(j == s.len());
        assert(s.insert(j, x) =~= s.push(x));
    } else {
        lemma_insert_at(s.drop_last(), x, j);
        assert(s.insert(j, x) =~= s.drop_last().insert(j, x).push(s.last()));
    }
}

proof fn lemma_insert_desc_map<K, L>(s: Seq<(K, usize)>, x: (K, usize), f: spec_fn(K) -> L)
    ensures
        insert_desc(s, x).map_values(|p: (K, usize)| (f(p.0), p.1))
            == insert_desc(s.map_values(|p: (K, usize)| (f(p.0), p.1)), (f(x.0), x.1)),
    decreases s.len(),
{
    let g = |p: (K, usize)| (f(p.0), p.1);
    if s.len() == 0 {
        assert(insert_desc(s, x).map_values(g) =~= seq![(f(x.0), x.1)]);
    } else if s.last().1 >= x.1 {
        assert(s.push(x).map_values(g) =~= s.map_values(g).push(g(x)));
    } else {
        lemma_insert_desc_map(s.drop_last(), x, f);
        assert(s.drop_last().map_values(g) =~= s.map_values(g).drop_last());
        assert(insert_desc(s.drop_last(), x).push(s.last()).map_values(g)
            =~= insert_desc(s.drop_last(), x).map_values(g).push(g(s.last())));
    }
}

/// Sorting commutes with renaming the keys.
pub proof fn lemma_sort_desc_map<K, L>(s: Seq<(K, usize)>, f: spec_fn(K) -> L)
    ensures
        sort_desc(s).map_values(|p: (K, usize)| (f(p.0), p.1))
            == sort_desc(s.map_values(|p: (K, usize)| (f(p.0), p.1))),
    decreases s.len(),
{
    let g = |p: (K, usize)| (f(p.0), p.1);
    if s.len() > 0 {
        lemma_sort_desc_map(s.drop_last(), f);
        lemma_insert_desc_map(sort_desc(s.drop_last()), s.last(), f);
        assert(s.drop_last().map_values(g) =~= s.map_values(g).drop_last());
    }
}

/// Keys designated by positions, then sorted, equals sorting then designating.
pub proof fn lemma_sort_rekey<K>(c: Seq<usize>, keys: Seq<K>)
    requires
        keys.len() == c.len(),
    ensures
        rekey(sort_desc(indexed(c)), keys) == sort_desc(rekey(indexed(c), keys)),
{
    let f = |i: usize| keys[i as int];
    lemma_sort_desc_map(indexed(c), f);
    assert(rekey(sort_desc(indexed(c)), keys) =~= sort_desc(indexed(c)).map_values(|p: (usize, usize)| (f(p.0), p.1)));
    assert(rekey(indexed(c), keys) =~= indexed(c).map_values(|p: (usize, usize)| (f(p.0), p.1)));
}

proof fn lemma_insert_desc_sorted<K>(s: Seq<(K, usize)>, x: (K, usize))
    requires
        is_sorted_desc(s),
    ensures
        is_sorted_desc(insert_desc(s, x)),
        insert_desc(s, x).to_multiset() == s.to_multiset().insert(x),
    decreases s.len(),
{
    broadcast use vstd::seq_lib::group_to_multiset_ensures;
    if s.len() == 0 {
        assert(seq![x] =~= s.push(x));
    } else if s.last().1 >= x.1 {
    } else {
        let t = s.drop_last();
        lemma_insert_desc_sorted(t, x);
        lemma_insert_desc_len(t, x);
        let u = insert_desc(t, x);
        assert(s =~= t.push(s.last()));
        assert forall|k: int| 0 <= k < u.len() implies u[k].1 >= s.last().1 by {
            lemma_insert_desc_members(t, x, k);
        }
        assert(u.push(s.last()).to_multiset() =~= s.to_multiset().insert(x));
    }
}

proof fn lemma_insert_desc_members<K>(s: Seq<(K, usize)>, x: (K, usize), k: int)
    requires
        0 <= k < insert_desc(s, x).len(),
    ensures
        insert_desc(s, x)[k] == x || exists|m: int| 0 <= m < s.len() && insert_desc(s, x)[k] == s[m],
    decreases s.len(),
{
    lemma_insert_desc_len(s, x);
    if s.len() == 0 {
    } else if s.last().1 >= x.1 {
        if k < s.len() {
            assert(insert_desc(s, x)[k] == s[k]);
        }
    } else {
        let t = s.drop_last();
        lemma_insert_desc_len(t, x);
        if k < insert_desc(t, x).len() {
            lemma_insert_desc_members(t, x, k);
            if insert_desc(t, x)[k] != x {
                let m = choose|m: int| 0 <= m < t.len() && insert_desc(t, x)[k] == t[m];
                assert(insert_desc(s, x)[k] == s[m]);
            }
        } else {
            assert(insert_desc(s, x)[k] == s[s.len() - 1]);
        }
    }
}

/// The sort orders by decreasing count and keeps exactly the same elements.
pub proof fn law_sort_desc_sorted_permutation<K>(s: Seq<(K, usize)>)
    ensures
        is_sorted_desc(sort_desc(s)),
        sort_desc(s).to_multiset() == s.to_multiset(),
    decreases s.len(),
{
    broadcast use vstd::seq_lib::group_to_multiset_ensures;
    if s.len() > 0 {
        law_sort_desc_sorted_permutation(s.drop_last());
        lemma_insert_desc_sorted(sort_desc(s.drop_last()), s.last());
        assert(s =~= s.drop_last().push(s.last()));
    }
}

/// A top list (the first `limit` of the first 1000 listed pairs, sorted by
/// decreasing count) is ordered by decreasing count, is as long as it can be, and
/// holds only listed pairs.
pub proof fn law_top_list_sorted<K>(s: Seq<(K, usize)>, limit: nat)
    ensures
        is_sorted_desc(first_n(sort_desc(first_n(s, 1000)), limit)),
        first_n(sort_desc(first_n(s, 1000)), limit).len()
            == (if limit < first_n(s, 1000).len() { limit } else { first_n(s, 1000).len() }),
        forall|i: int| 0 <= i < first_n(sort_desc(first_n(s, 1000)), limit).len()
            ==> s.contains(#[trigger] first_n(sort_desc(first_n(s, 1000)), limit)[i]),
{
    broadcast use vstd::seq_lib::group_to_multiset_ensures;
    let f = first_n(s, 1000);
    let sorted = sort_desc(f);
    let top = first_n(sorted, limit);
    law_sort_desc_sorted_permutation(f);
    lemma_sort_desc_len(f);
    assert forall|i: int| 0 <= i < top.len() implies s.contains(#[trigger] top[i]) by {
        let x = top[i];
        assert(sorted[i] == x);
        assert(sorted.contains(x));
        assert(sorted.to_multiset().count(x) > 0);
        assert(f.contains(x));
        let j = choose|j: int| 0 <= j < f.len() && f[j] == x;
        assert(s[j] == x);
    }
}

/// Positions `0..c.len()` with their counts, stably sorted by decreasing count.
pub fn sort_indices_desc(c: &Vec<usize>) -> (r: Vec<(usize, usize)>)
    ensures
        r@ == sort_desc(indexed(c@)),
{
    let mut r: Vec<(usize, usize)> = Vec::new();
    let mut i: usize = 0;
    while i < c.len()
        invariant
            i <= c@.len(),
            r@ == sort_desc(indexed(c@).take(i as int)),
            is_sorted_desc(r@),
        decreases c.len() - i,
    {
        let x = (i, c[i]);
        proof {
            law_sort_desc_sorted_permutation(indexed(c@).take(i as int));
        }
        let mut j = r.len();
        while j > 0 && r[j - 1].1 < x.1
            invariant
                j <= r@.len(),
                forall|k: int| j <= k < r@.len() ==> r@[k].1 < x.1,
            decreases j,
        {
            j -= 1;
        }
        proof {
            lemma_insert_at(r@, x, j as int);
            let s = indexed(c@).take(i as int + 1);
            assert(s.drop_last() =~= indexed(c@).take(i as int));
            assert(s.last() == x);
            lemma_insert_desc_sorted(r@, x);
        }
        r.insert(j, x);
        i += 1;
    }
    assert(indexed(c@).take(i as int) =~= indexed(c@));
    r
}

/// Stable sort of `(key, count)` pairs by decreasing count.
pub fn sort_pairs_desc(v: Vec<(String, usize)>) -> (r: Vec<(String, usize)>)
    ensures
        r@.map_values(|p: (String, usize)| (p.0@, p.1))
            == sort_desc(v@.map_values(|p: (String, usize)| (p.0@, p.1))),
{
    let mut counts: Vec<usize> = Vec::new();
    let mut i: usize = 0;
    while i < v.len()
        invariant
            i <= v@.len(),
            counts@.len() == i,
            forall|k: int| 0 <= k < i ==> counts@[k] == v@[k].1,
        decreases v.len() - i,
    {
        counts.push(v[i].1);
        i += 1;
    }
    let order = sort_indices_desc(&counts);
    let ghost keys = v@.map_values(|p: (String, usize)| p.0@);
    proof {
        lemma_sort_desc_len(indexed(counts@));
        lemma_sort_rekey(counts@, keys);
        law_sort_desc_sorted_permutation(indexed(counts@));
        assert(rekey(indexed(counts@), keys) =~= v@.map_values(|p: (String, usize)| (p.0@, p.1)));
        assert forall|m: int| 0 <= m < order@.len() implies order@[m].0 < v@.len() by {
            broadcast use vstd::seq_lib::group_to_multiset_ensures;
            let e = order@[m];
            assert(order@.contains(e));
            assert(indexed(counts@).to_multiset().count(e) > 0);
            assert(indexed(counts@).contains(e));
            let i = choose|i: int| 0 <= i < indexed(counts@).len() && indexed(counts@)[i] == e;
        }
    }
    let mut r: Vec<(String, usize)> = Vec::new();
    let mut k: usize = 0;
    while k < order.len()
        invariant
            order@ == sort_desc(indexed(counts@)),
            counts@.len() == v@.len(),
            keys == v@.map_values(|p: (String, usize)| p.0@),
            k <= order@.len(),
            forall|m: int| 0 <= m < order@.len() ==> order@[m].0 < v@.len(),
            r@.map_values(|p: (String, usize)| (p.0@, p.1)) == rekey(order@, keys).take(k as int),
        decreases order.len() - k,
    {
        let (idx, cnt) = order[k];
        let ghost prev = r@;
        let key = v[idx].0.clone();
        assert(key@ == keys[idx as int]);
        assert(rekey(order@, keys)[k as int] == (key@, cnt));
        r.push((key, cnt));
        assert(r@ == prev.push((key, cnt)));
        assert(r@.map_values(|p: (String, usize)| (p.0@, p.1)) =~= prev.map_values(|p: (String, usize)| (p.0@, p.1)).push((key@, cnt)));
        assert(r@.map_values(|p: (String, usize)| (p.0@, p.1)) =~= rekey(order@, keys).take(k as int + 1));
        k += 1;
    }
    assert(rekey(order@, keys).take(k as int) =~= rekey(order@, keys));
    r
}

/// Stable sort of `(code, count)` pairs by decreasing count.
pub fn sort_codes_desc(v: Vec<(u16, usize)>) -> (r: Vec<(u16, usize)>)
    ensures
        r@ == sort_desc(v@),
{
    let mut counts: Vec<usize> = Vec::new();
    let mut i: usize = 0;
    while i < v.len()
        invariant
            i <= v@.len(),
            counts@.len() == i,
            forall|k: int| 0 <= k < i ==> counts@[k] == v@[k].1,
        decreases v.len() - i,
    {
        counts.push(v[i].1);
        i += 1;
    }
    let order = sort_indices_desc(&counts);
    let ghost keys = v@.map_values(|p: (u16, usize)| p.0);
    proof {
        lemma_sort_desc_len(indexed(counts@));
        lemma_sort_rekey(counts@, keys);
        law_sort_desc_sorted_permutation(indexed(counts@));
        assert(rekey(indexed(counts@), keys) =~= v@);
        assert forall|m: int| 0 <= m < order@.len() implies order@[m].0 < v@.len() by {
            broadcast use vstd::seq_lib::group_to_multiset_ensures;
            let e = order@[m];
            assert(order@.contains(e));
            assert(indexed(counts@).to_multiset().count(e) > 0);
            assert(indexed(counts@).contains(e));
            let i = choose|i: int| 0 <= i < indexed(counts@).len() && indexed(counts@)[i] == e;
        }
    }
    let mut r: Vec<(u16, usize)> = Vec::new();
    let mut k: usize = 0;
    while k < order.len()
        invariant
            order@ == sort_desc(indexed(counts@)),
            counts@.len() == v@.len(),
            keys == v@.map_values(|p: (u16, usize)| p.0),
            k <= order@.len(),
            forall|m: int| 0 <= m < order@.len() ==> order@[m].0 < v@.len(),
            r@ == rekey(order@, keys).take(k as int),
        decreases order.len() - k,
    {
        let (idx, cnt) = order[k];
        r.push((v[idx].0, cnt));
        assert(r@ =~= rekey(order@, keys).take(k as int + 1));
        k += 1;
    }
    assert(rekey(order@, keys).take(k as int) =~= rekey(order@, keys));
    r
}

} // verus!
