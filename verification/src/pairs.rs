//! Small string-keyed maps and sets held in vectors: each key at most once.

use vstd::prelude::*;
use vstd::string::StringExecFns;
use crate::order::{seq_lt, str_lt, lemma_lt_irreflexive, lemma_lt_total, lemma_lt_transitive};

verus! {

/// A list of (name, value) pairs as a map from name to value.
/// Where a name occurs more than once, the last pair wins.
pub open spec fn pairs_map<V: View>(s: Seq<(String, V)>) -> Map<Seq<char>, V::V>
    decreases s.len(),
{
    if s.len() == 0 {
        Map::empty()
    } else {
        pairs_map(s.drop_last()).insert(s.last().0@, s.last().1@)
    }
}

/// The names in a list of strings, as a set.
pub open spec fn names_set(s: Seq<String>) -> Set<Seq<char>> {
    Set::new(|k: Seq<char>| exists|i: int| 0 <= i < s.len() && #[trigger] s[i]@ == k)
}

/// No two pairs share a name.
pub open spec fn distinct_keys<V>(s: Seq<(String, V)>) -> bool {
    forall|i: int, j: int| 0 <= i < s.len() && 0 <= j < s.len() && i != j ==> s[i].0@ != s[j].0@
}

/// No name occurs twice.
pub open spec fn distinct_names(s: Seq<String>) -> bool {
    forall|i: int, j: int| 0 <= i < s.len() && 0 <= j < s.len() && i != j ==> s[i]@ != s[j]@
}

/// With distinct names, a name is in the map exactly when some pair has it,
/// and then it maps to that pair's value.
pub proof fn lemma_pairs_map<V: View>(s: Seq<(String, V)>)
    requires
        distinct_keys(s),
    ensures
        forall|k: Seq<char>| #[trigger] pairs_map(s).contains_key(k) <==> exists|i: int| 0 <= i < s.len() && s[i].0@ == k,
        forall|i: int| 0 <= i < s.len() ==> #[trigger] pairs_map(s)[s[i].0@] == s[i].1@,
        pairs_map(s).dom().finite(),
    decreases s.len(),
{
    if s.len() > 0 {
        let p = s.drop_last();
        assert(distinct_keys(p));
        lemma_pairs_map(p);
        assert forall|k: Seq<char>| #[trigger] pairs_map(s).contains_key(k) <==> exists|i: int| 0 <= i < s.len() && s[i].0@ == k by {
            if pairs_map(s).contains_key(k) {
                if k == s.last().0@ {
                    assert(s[s.len() - 1].0@ == k);
                } else {
                    assert(pairs_map(p).contains_key(k));
                    let i = choose|i: int| 0 <= i < p.len() && p[i].0@ == k;
                    assert(s[i].0@ == k);
                }
            }
            if exists|i: int| 0 <= i < s.len() && s[i].0@ == k {
                let i = choose|i: int| 0 <= i < s.len() && s[i].0@ == k;
                if i < s.len() - 1 {
                    assert(p[i].0@ == k);
                }
            }
        }
        assert forall|i: int| 0 <= i < s.len() implies #[trigger] pairs_map(s)[s[i].0@] == s[i].1@ by {
            if i < s.len() - 1 {
                assert(p[i] == s[i]);
                assert(s[i].0@ != s[s.len() - 1].0@);
            }
        }
    }
}

/// The position of the pair named `k`, if there is one.
pub fn find_key<V>(s: &Vec<(String, V)>, k: &String) -> (r: Option<usize>)
    ensures
        match r {
            Some(i) => i < s@.len() && s@[i as int].0@ == k@,
            None => forall|i: int| 0 <= i < s@.len() ==> s@[i].0@ != k@,
        },
{
    let mut i: usize = 0;
    while i < s.len()
        invariant
            i <= s@.len(),
            forall|j: int| 0 <= j < i ==> s@[j].0@ != k@,
        decreases s@.len() - i,
    {
        if s[i].0 == *k {
            return Some(i);
        }
        i = i + 1;
    }
    None
}

/// The position of name `k`, if it is there.
pub fn find_name(s: &Vec<String>, k: &String) -> (r: Option<usize>)
    ensures
        match r {
            Some(i) => i < s@.len() && s@[i as int]@ == k@,
            None => forall|i: int| 0 <= i < s@.len() ==> s@[i]@ != k@,
        },
{
    let mut i: usize = 0;
    while i < s.len()
        invariant
            i <= s@.len(),
            forall|j: int| 0 <= j < i ==> s@[j]@ != k@,
        decreases s@.len() - i,
    {
        if s[i] == *k {
            return Some(i);
        }
        i = i + 1;
    }
    None
}

/// Sets the value of name `k` to `v`: replaces the pair named `k`, or adds one.
pub fn set_pair<V: View>(s: &mut Vec<(String, V)>, k: String, v: V)
    requires
        distinct_keys(old(s)@),
    ensures
        distinct_keys(final(s)@),
        pairs_map(final(s)@) == pairs_map(old(s)@).insert(k@, v@),
{
    let ghost old_s = s@;
    let ghost kv = k@;
    let ghost vv = v@;
    proof {
        lemma_pairs_map(old_s);
    }
    match find_key(s, &k) {
        Some(i) => {
            s.set(i, (k, v));
            proof {
                let n = s@;
                assert(distinct_keys(n));
                lemma_pairs_map(n);
                let want = pairs_map(old_s).insert(kv, vv);
                assert forall|q: Seq<char>| #[trigger] pairs_map(n).dom().contains(q) == want.dom().contains(q) by {
                    if pairs_map(n).contains_key(q) {
                        let j = choose|j: int| 0 <= j < n.len() && n[j].0@ == q;
                        if j != i {
                            assert(n[j] == old_s[j]);
                            assert(pairs_map(old_s).contains_key(q));
                        }
                    }
                    if want.contains_key(q) {
                        if q == kv {
                            assert(n[i as int].0@ == q);
                        } else {
                            assert(pairs_map(old_s).contains_key(q));
                            let j = choose|j: int| 0 <= j < old_s.len() && old_s[j].0@ == q;
                            assert(n[j] == old_s[j]);
                        }
                        assert(pairs_map(n).contains_key(q));
                    }
                }
                assert forall|q: Seq<char>| #[trigger] want.contains_key(q) implies pairs_map(n)[q] == want[q] by {
                    if q == kv {
                        assert(n[i as int].0@ == q);
                        assert(pairs_map(n)[n[i as int].0@] == n[i as int].1@);
                    } else {
                        let j = choose|j: int| 0 <= j < old_s.len() && old_s[j].0@ == q;
                        assert(n[j] == old_s[j]);
                        assert(pairs_map(n)[n[j].0@] == n[j].1@);
                        assert(pairs_map(old_s)[old_s[j].0@] == old_s[j].1@);
                    }
                }
                assert(pairs_map(n) =~= want);
            }
        },
        None => {
            s.push((k, v));
            proof {
                assert(s@.drop_last() =~= old_s);
                assert(distinct_keys(s@));
            }
        },
    }
}

/// The names of the pairs come in increasing order (see [`seq_lt`]), as a
/// `BTreeMap` holds its keys.
pub open spec fn keys_sorted<V>(s: Seq<(String, V)>) -> bool {
    forall|i: int, j: int| 0 <= i < j < s.len() ==> seq_lt(#[trigger] s[i].0@, #[trigger] s[j].0@)
}

/// The names come in increasing order, as a `BTreeSet` holds them.
pub open spec fn names_sorted(s: Seq<String>) -> bool {
    forall|i: int, j: int| 0 <= i < j < s.len() ==> seq_lt(#[trigger] s[i]@, #[trigger] s[j]@)
}

/// Names in increasing order are distinct.
pub proof fn lemma_sorted_keys_distinct<V>(s: Seq<(String, V)>)
    requires
        keys_sorted(s),
    ensures
        distinct_keys(s),
{
    assert forall|i: int, j: int| 0 <= i < s.len() && 0 <= j < s.len() && i != j implies s[i].0@ != s[j].0@ by {
        lemma_lt_irreflexive(s[i].0@);
        if i < j {
            assert(seq_lt(s[i].0@, s[j].0@));
        } else {
            assert(seq_lt(s[j].0@, s[i].0@));
        }
    }
}

/// Names in increasing order are distinct.
pub proof fn lemma_sorted_names_distinct(s: Seq<String>)
    requires
        names_sorted(s),
    ensures
        distinct_names(s),
{
    assert forall|i: int, j: int| 0 <= i < s.len() && 0 <= j < s.len() && i != j implies s[i]@ != s[j]@ by {
        lemma_lt_irreflexive(s[i]@);
        if i < j {
            assert(seq_lt(s[i]@, s[j]@));
        } else {
            assert(seq_lt(s[j]@, s[i]@));
        }
    }
}

/// Putting a pair with a new name anywhere in the list adds it to the map.
proof fn lemma_pairs_map_insert<V: View>(s: Seq<(String, V)>, p: int, x: (String, V))
    requires
        0 <= p <= s.len(),
        distinct_keys(s.insert(p, x)),
    ensures
        pairs_map(s.insert(p, x)) == pairs_map(s).insert(x.0@, x.1@),
    decreases s.len(),
{
    let n = s.insert(p, x);
    if p == s.len() {
        assert(n.drop_last() =~= s);
    } else {
        let l = s.last();
        let d = s.drop_last();
        assert(n.drop_last() =~= d.insert(p, x));
        assert(n.last() == l);
        assert(distinct_keys(d.insert(p, x)));
        lemma_pairs_map_insert(d, p, x);
        assert(n[p] == x);
        assert(n[n.len() - 1] == l);
        assert(x.0@ != l.0@);
        assert(pairs_map(n) =~= pairs_map(s).insert(x.0@, x.1@));
    }
}

/// Replacing the pair with name `x.0` sets that name's value in the map.
proof fn lemma_pairs_map_update<V: View>(s: Seq<(String, V)>, p: int, x: (String, V))
    requires
        0 <= p < s.len(),
        s[p].0@ == x.0@,
        distinct_keys(s),
    ensures
        pairs_map(s.update(p, x)) == pairs_map(s).insert(x.0@, x.1@),
    decreases s.len(),
{
    let n = s.update(p, x);
    let d = s.drop_last();
    if p == s.len() - 1 {
        assert(n.drop_last() =~= d);
        assert(pairs_map(n) =~= pairs_map(s).insert(x.0@, x.1@));
    } else {
        let l = s.last();
        assert(n.drop_last() =~= d.update(p, x));
        assert(distinct_keys(d));
        lemma_pairs_map_update(d, p, x);
        assert(s[s.len() - 1] == l);
        assert(x.0@ != l.0@);
        assert(pairs_map(n) =~= pairs_map(s).insert(x.0@, x.1@));
    }
}

/// Sets the value of name `k` to `v` in a list kept in name order: replaces
/// the pair named `k`, or puts a new one where its name belongs.
pub fn set_sorted_pair<V: View>(s: &mut Vec<(String, V)>, k: String, v: V)
    requires
        keys_sorted(old(s)@),
    ensures
        keys_sorted(final(s)@),
        pairs_map(final(s)@) == pairs_map(old(s)@).insert(k@, v@),
{
    let ghost old_s = s@;
    proof {
        lemma_sorted_keys_distinct(old_s);
    }
    let mut p: usize = 0;
    while p < s.len() && str_lt(s[p].0.as_str(), k.as_str())
        invariant
            p <= s@.len(),
            s@ == old_s,
            forall|j: int| 0 <= j < p ==> seq_lt(#[trigger] old_s[j].0@, k@),
        decreases s@.len() - p,
    {
        p = p + 1;
    }
    if p < s.len() && s[p].0 == k {
        let ghost x = (k, v);
        s.set(p, (k, v));
        proof {
            assert(s@ == old_s.update(p as int, x));
            lemma_pairs_map_update(old_s, p as int, x);
            assert forall|i: int, j: int| 0 <= i < j < s@.len() implies seq_lt(#[trigger] s@[i].0@, #[trigger] s@[j].0@) by {
                assert(s@[i].0@ == old_s[i].0@);
                assert(s@[j].0@ == old_s[j].0@);
            }
        }
    } else {
        let ghost x = (k, v);
        let ghost kv = k@;
        proof {
            if p < old_s.len() {
                assert(!seq_lt(old_s[p as int].0@, kv));
                lemma_lt_total(old_s[p as int].0@, kv);
            }
        }
        s.insert(p, (k, v));
        proof {
            let n = s@;
            assert(n == old_s.insert(p as int, x));
            assert forall|i: int, j: int| 0 <= i < j < n.len() implies seq_lt(#[trigger] n[i].0@, #[trigger] n[j].0@) by {
                if j < p {
                    assert(n[i] == old_s[i] && n[j] == old_s[j]);
                } else if j == p {
                    assert(n[i] == old_s[i]);
                } else if i < p {
                    assert(n[i] == old_s[i] && n[j] == old_s[j - 1]);
                } else if i == p {
                    assert(n[j] == old_s[j - 1]);
                    if j - 1 > p {
                        assert(seq_lt(old_s[p as int].0@, old_s[j - 1].0@));
                        lemma_lt_transitive(kv, old_s[p as int].0@, old_s[j - 1].0@);
                    }
                } else {
                    assert(n[i] == old_s[i - 1] && n[j] == old_s[j - 1]);
                }
            }
            lemma_sorted_keys_distinct(n);
            lemma_pairs_map_insert(old_s, p as int, x);
        }
    }
}

/// Adds name `k` to a list kept in order, where it is not there yet.
pub fn add_name(s: &mut Vec<String>, k: String)
    requires
        names_sorted(old(s)@),
    ensures
        names_sorted(final(s)@),
        names_set(final(s)@) == names_set(old(s)@).insert(k@),
{
    let ghost old_s = s@;
    let ghost kv = k@;
    let mut p: usize = 0;
    while p < s.len() && str_lt(s[p].as_str(), k.as_str())
        invariant
            p <= s@.len(),
            s@ == old_s,
            k@ == kv,
            forall|j: int| 0 <= j < p ==> seq_lt(#[trigger] old_s[j]@, kv),
        decreases s@.len() - p,
    {
        p = p + 1;
    }
    if p < s.len() && s[p] == k {
        proof {
            assert(old_s[p as int]@ == kv);
            assert(names_set(old_s).insert(kv) =~= names_set(old_s));
        }
    } else {
        proof {
            if p < old_s.len() {
                assert(!seq_lt(old_s[p as int]@, kv));
                lemma_lt_total(old_s[p as int]@, kv);
            }
        }
        let ghost x = k;
        s.insert(p, k);
        proof {
            let n = s@;
            assert(n == old_s.insert(p as int, x));
            assert forall|i: int, j: int| 0 <= i < j < n.len() implies seq_lt(#[trigger] n[i]@, #[trigger] n[j]@) by {
                if j < p {
                    assert(n[i] == old_s[i] && n[j] == old_s[j]);
                } else if j == p {
                    assert(n[i] == old_s[i]);
                } else if i < p {
                    assert(n[i] == old_s[i] && n[j] == old_s[j - 1]);
                } else if i == p {
                    assert(n[j] == old_s[j - 1]);
                    if j - 1 > p {
                        assert(seq_lt(old_s[p as int]@, old_s[j - 1]@));
                        lemma_lt_transitive(kv, old_s[p as int]@, old_s[j - 1]@);
                    }
                } else {
                    assert(n[i] == old_s[i - 1] && n[j] == old_s[j - 1]);
                }
            }
            assert forall|q: Seq<char>| names_set(n).contains(q) implies names_set(old_s).insert(kv).contains(q) by {
                let j = choose|j: int| 0 <= j < n.len() && #[trigger] n[j]@ == q;
                if j < p {
                    assert(old_s[j]@ == q);
                } else if j > p {
                    assert(old_s[j - 1]@ == q);
                }
            }
            assert forall|q: Seq<char>| names_set(old_s).insert(kv).contains(q) implies names_set(n).contains(q) by {
                if q == kv {
                    assert(n[p as int]@ == q);
                } else {
                    let j = choose|j: int| 0 <= j < old_s.len() && #[trigger] old_s[j]@ == q;
                    if j < p {
                        assert(n[j] == old_s[j]);
                    } else {
                        assert(n[j + 1] == old_s[j]);
                    }
                }
            }
            assert(names_set(n) =~= names_set(old_s).insert(kv));
        }
    }
}

} // verus!
