use vstd::prelude::*;

use crate::strutil::str_eq;

verus! {

/// The mapping that an association vector denotes; a later entry for the
/// same key overrides an earlier one.
pub open spec fn assoc_map<T>(s: Seq<(String, T)>) -> Map<Seq<char>, T>
    decreases s.len(),
{
    if s.len() == 0 {
        Map::empty()
    } else {
        assoc_map(s.drop_last()).insert(s.last().0@, s.last().1)
    }
}

/// Whether the keys of an association vector are pairwise distinct.
pub open spec fn assoc_keys_unique<T>(s: Seq<(String, T)>) -> bool {
    forall|i: int, j: int| 0 <= i < j < s.len() ==> s[i].0@ != s[j].0@
}

/// Whether some entry of `s` carries the key `k`.
pub open spec fn assoc_has_key<T>(s: Seq<(String, T)>, k: Seq<char>) -> bool {
    exists|i: int| 0 <= i < s.len() && s[i].0@ == k
}

/// A key is in the denoted mapping exactly when some entry carries it.
pub proof fn lemma_assoc_contains<T>(s: Seq<(String, T)>, k: Seq<char>)
    ensures
        assoc_map(s).contains_key(k) <==> assoc_has_key(s, k),
    decreases s.len(),
{
    if s.len() > 0 {
        lemma_assoc_contains(s.drop_last(), k);
        if assoc_has_key(s.drop_last(), k) {
            let i = choose|i: int| 0 <= i < s.drop_last().len() && s.drop_last()[i].0@ == k;
            assert(s[i].0@ == k);
        }
        if assoc_has_key(s, k) && s.last().0@ != k {
            let i = choose|i: int| 0 <= i < s.len() && s[i].0@ == k;
            assert(s.drop_last()[i].0@ == k);
        }
    }
}

/// With distinct keys, the denoted mapping reads back the entry itself.
pub proof fn lemma_assoc_get<T>(s: Seq<(String, T)>, i: int)
    requires
        assoc_keys_unique(s),
        0 <= i < s.len(),
    ensures
        assoc_map(s).contains_key(s[i].0@),
        assoc_map(s)[s[i].0@] == s[i].1,
    decreases s.len(),
{
    if i < s.len() - 1 {
        assert(s.drop_last()[i] == s[i]);
        lemma_assoc_get(s.drop_last(), i);
    }
}

/// Replacing the entry that carries a key updates the denoted mapping at
/// that key alone.
pub proof fn lemma_assoc_update<T>(s: Seq<(String, T)>, i: int, key: String, val: T)
    requires
        assoc_keys_unique(s),
        0 <= i < s.len(),
        s[i].0@ == key@,
    ensures
        assoc_map(s.update(i, (key, val))) =~= assoc_map(s).insert(key@, val),
    decreases s.len(),
{
    let t = s.update(i, (key, val));
    if i == s.len() - 1 {
        assert(t.drop_last() =~= s.drop_last());
    } else {
        assert(t.drop_last() =~= s.drop_last().update(i, (key, val)));
        assert(s.drop_last()[i] == s[i]);
        lemma_assoc_update(s.drop_last(), i, key, val);
        assert(s.last().0@ != key@);
    }
}

/// Entry-wise images denote the value-wise image of the denoted mapping.
pub proof fn lemma_assoc_map_pointwise<T, W>(
    s: Seq<(String, T)>,
    t: Seq<(String, W)>,
    f: spec_fn(T) -> W,
)
    requires
        s.len() == t.len(),
        forall|j: int| 0 <= j < s.len() ==> t[j].0@ == s[j].0@ && t[j].1 == f(s[j].1),
    ensures
        assoc_map(t) =~= assoc_map(s).map_values(f),
    decreases s.len(),
{
    if s.len() > 0 {
        lemma_assoc_map_pointwise(s.drop_last(), t.drop_last(), f);
    }
}

/// Whether the vector carries an entry for `k`.
pub fn assoc_contains<T>(v: &Vec<(String, T)>, k: &str) -> (r: bool)
    ensures
        r == assoc_map(v@).contains_key(k@),
{
    let n = v.len();
    let mut i: usize = 0;
    while i < n
        invariant
            0 <= i <= n,
            n == v.len(),
            forall|j: int| 0 <= j < i ==> v@[j].0@ != k@,
        decreases n - i,
    {
        if str_eq(v[i].0.as_str(), k) {
            proof {
                lemma_assoc_contains(v@, k@);
                assert(assoc_has_key(v@, k@)) by {
                    assert(v@[i as int].0@ == k@);
                }
            }
            return true;
        }
        i += 1;
    }
    proof {
        lemma_assoc_contains(v@, k@);
    }
    false
}

/// Look a key up in the vector.
pub fn assoc_get<'a, T>(v: &'a Vec<(String, T)>, k: &str) -> (r: Option<&'a T>)
    requires
        assoc_keys_unique(v@),
    ensures
        match r {
            Some(t) => assoc_map(v@).contains_key(k@) && *t == assoc_map(v@)[k@],
            None => !assoc_map(v@).contains_key(k@),
        },
{
    proof {
        lemma_assoc_contains(v@, k@);
    }
    let n = v.len();
    let mut i: usize = 0;
    while i < n
        invariant
            0 <= i <= n,
            n == v.len(),
            assoc_keys_unique(v@),
            forall|j: int| 0 <= j < i ==> v@[j].0@ != k@,
        decreases n - i,
    {
        if str_eq(v[i].0.as_str(), k) {
            proof {
                lemma_assoc_get(v@, i as int);
            }
            return Some(&v[i].1);
        }
        i += 1;
    }
    None
}

/// Insert an entry, replacing the one that carries the same key if any.
pub fn assoc_insert<T>(v: &mut Vec<(String, T)>, key: String, val: T)
    requires
        assoc_keys_unique(old(v)@),
    ensures
        assoc_keys_unique(final(v)@),
        assoc_map(final(v)@) == assoc_map(old(v)@).insert(key@, val),
        old(v)@.len() <= final(v)@.len() <= old(v)@.len() + 1,
        forall|j: int|
            0 <= j < final(v)@.len() ==> #[trigger] final(v)@[j] == (key, val) || exists|m: int|
                0 <= m < old(v)@.len() && final(v)@[j] == old(v)@[m],
{
    let n = v.len();
    let mut i: usize = 0;
    while i < n
        invariant
            0 <= i <= n,
            n == v.len(),
            v@ == old(v)@,
            assoc_keys_unique(v@),
            forall|j: int| 0 <= j < i ==> v@[j].0@ != key@,
        decreases n - i,
    {
        if str_eq(v[i].0.as_str(), key.as_str()) {
            proof {
                lemma_assoc_update(v@, i as int, key, val);
            }
            let ghost old_seq = v@;
            v[i] = (key, val);
            proof {
                assert(v@ =~= old_seq.update(i as int, (key, val)));
                assert forall|a: int, b: int| 0 <= a < b < v@.len() implies v@[a].0@
                    != v@[b].0@ by {
                    assert(old_seq[a].0@ != old_seq[b].0@);
                }
                assert forall|j: int|
                    0 <= j < v@.len() implies v@[j] == (key, val) || exists|m: int|
                        0 <= m < old_seq.len() && v@[j] == old_seq[m] by {
                    if j != i {
                        assert(v@[j] == old_seq[j]);
                    }
                }
            }
            return ;
        }
        i += 1;
    }
    let ghost old_seq = v@;
    v.push((key, val));
    proof {
        assert(v@.drop_last() =~= old_seq);
        lemma_assoc_contains(old_seq, key@);
        assert forall|a: int, b: int| 0 <= a < b < v@.len() implies v@[a].0@ != v@[b].0@ by {
            if b < v@.len() - 1 {
                assert(old_seq[a].0@ != old_seq[b].0@);
            } else {
                assert(old_seq[a].0@ != key@);
            }
        }
        assert forall|j: int|
            0 <= j < v@.len() implies v@[j] == (key, val) || exists|m: int|
                0 <= m < old_seq.len() && v@[j] == old_seq[m] by {
            if j < v@.len() - 1 {
                assert(v@[j] == old_seq[j]);
            }
        }
    }
}

/// Extend `v` with those entries of `other` whose keys `v` does not hold:
/// on a key both sides carry, the entry already in `v` wins.
pub fn assoc_extend_fresh<T: Copy>(v: &mut Vec<(String, T)>, other: &Vec<(String, T)>)
    requires
        assoc_keys_unique(old(v)@),
        assoc_keys_unique(other@),
    ensures
        assoc_keys_unique(final(v)@),
        assoc_map(final(v)@) == assoc_map(other@).union_prefer_right(assoc_map(old(v)@)),
        final(v)@.len() >= old(v)@.len(),
{
    let ghost cm = assoc_map(old(v)@);
    let n = other.len();
    let mut i: usize = 0;
    proof {
        assert(other@.take(0) =~= Seq::<(String, T)>::empty());
        assert(assoc_map(other@.take(0)).union_prefer_right(cm) =~= cm);
    }
    while i < n
        invariant
            0 <= i <= n,
            n == other.len(),
            cm == assoc_map(old(v)@),
            v@.len() >= old(v)@.len(),
            assoc_keys_unique(other@),
            assoc_keys_unique(v@),
            assoc_map(v@) == assoc_map(other@.take(i as int)).union_prefer_right(cm),
            assoc_map(v@).dom() == assoc_map(other@.take(i as int)).dom() + cm.dom(),
        decreases n - i,
    {
        let ghost pre = v@;
        let ghost tm = assoc_map(other@.take(i as int));
        proof {
            assert(other@.take(i + 1).drop_last() =~= other@.take(i as int));
            assert(other@.take(i + 1).last() == other@[i as int]);
            lemma_assoc_contains(other@.take(i as int), other@[i as int].0@);
            assert(!assoc_has_key(other@.take(i as int), other@[i as int].0@)) by {
                assert(forall|j: int|
                    0 <= j < i ==> #[trigger] other@.take(i as int)[j].0@ == other@[j].0@);
            }
        }
        if !assoc_contains(v, other[i].0.as_str()) {
            v.push((other[i].0.clone(), other[i].1));
            proof {
                assert(v@.drop_last() =~= pre);
                lemma_assoc_contains(pre, other@[i as int].0@);
                assert forall|a: int, b: int| 0 <= a < b < v@.len() implies v@[a].0@
                    != v@[b].0@ by {
                    if b < v@.len() - 1 {
                        assert(pre[a].0@ != pre[b].0@);
                    } else {
                        assert(pre[a].0@ != other@[i as int].0@);
                    }
                }
                assert(assoc_map(v@) =~= assoc_map(other@.take(i + 1)).union_prefer_right(cm));
            }
        } else {
            proof {
                assert(assoc_map(pre).contains_key(other@[i as int].0@));
                assert(!tm.dom().contains(other@[i as int].0@));
                assert(cm.dom().contains(other@[i as int].0@));
                assert(assoc_map(v@) =~= assoc_map(other@.take(i + 1)).union_prefer_right(cm));
            }
        }
        i += 1;
    }
    proof {
        assert(other@.take(n as int) =~= other@);
    }
}

/// Insert every entry of `other` into `v`: on a key both sides carry, the
/// entry from `other` wins.
pub fn assoc_extend_replace<T: Copy>(v: &mut Vec<(String, T)>, other: &Vec<(String, T)>)
    requires
        assoc_keys_unique(old(v)@),
        assoc_keys_unique(other@),
    ensures
        assoc_keys_unique(final(v)@),
        assoc_map(final(v)@) == assoc_map(old(v)@).union_prefer_right(assoc_map(other@)),
        final(v)@.len() >= old(v)@.len(),
{
    let ghost cm = assoc_map(old(v)@);
    let n = other.len();
    let mut i: usize = 0;
    proof {
        assert(other@.take(0) =~= Seq::<(String, T)>::empty());
        assert(cm.union_prefer_right(assoc_map(other@.take(0))) =~= cm);
    }
    while i < n
        invariant
            0 <= i <= n,
            n == other.len(),
            cm == assoc_map(old(v)@),
            v@.len() >= old(v)@.len(),
            assoc_keys_unique(other@),
            assoc_keys_unique(v@),
            assoc_map(v@) == cm.union_prefer_right(assoc_map(other@.take(i as int))),
        decreases n - i,
    {
        proof {
            assert(other@.take(i + 1).drop_last() =~= other@.take(i as int));
            assert(other@.take(i + 1).last() == other@[i as int]);
            lemma_assoc_contains(other@.take(i as int), other@[i as int].0@);
            assert(!assoc_has_key(other@.take(i as int), other@[i as int].0@)) by {
                assert(forall|j: int|
                    0 <= j < i ==> #[trigger] other@.take(i as int)[j].0@ == other@[j].0@);
            }
        }
        assoc_insert(v, other[i].0.clone(), other[i].1);
        proof {
            assert(assoc_map(v@) =~= cm.union_prefer_right(assoc_map(other@.take(i + 1))));
        }
        i += 1;
    }
    proof {
        assert(other@.take(n as int) =~= other@);
    }
}

} // verus!
