//! Lists of `(name, value)` entries used as maps keyed by strings: each name
//! at most once, looked up by its first occurrence.
use vstd::prelude::*;
use crate::text::{chars_eq, chars_of, owned};

verus! {

/// Index of the first entry whose key is `k`.
pub open spec fn key_of<T>(s: Seq<(String, T)>, k: Seq<char>) -> Option<int>
    decreases s.len(),
{
    if s.len() == 0 {
        None
    } else {
        match key_of(s.drop_last(), k) {
            Some(i) => Some(i),
            None => if s.last().0@ == k { Some(s.len() - 1) } else { None },
        }
    }
}

/// The value stored under `k`.
pub open spec fn value_of<T>(s: Seq<(String, T)>, k: Seq<char>) -> Option<T> {
    match key_of(s, k) {
        Some(i) => Some(s[i].1),
        None => None,
    }
}

/// Keys appear at most once.
pub open spec fn unique_keys<T>(s: Seq<(String, T)>) -> bool {
    forall|i: int, j: int| 0 <= i < j < s.len() ==> s[i].0@ != s[j].0@
}

/// The set of keys.
pub open spec fn keys<T>(s: Seq<(String, T)>) -> Set<Seq<char>> {
    Set::new(|k: Seq<char>| exists|i: int| 0 <= i < s.len() && #[trigger] s[i].0@ == k)
}

pub proof fn lemma_key_of<T>(s: Seq<(String, T)>, k: Seq<char>)
    ensures
        match key_of(s, k) {
            Some(i) => 0 <= i < s.len() && s[i].0@ == k && forall|j: int| 0 <= j < i ==> s[j].0@ != k,
            None => forall|j: int| 0 <= j < s.len() ==> s[j].0@ != k,
        },
    decreases s.len(),
{
    if s.len() > 0 {
        lemma_key_of(s.drop_last(), k);
        match key_of(s.drop_last(), k) {
            Some(i) => {
                assert(s.drop_last()[i] == s[i]);
                assert forall|j: int| 0 <= j < i implies s[j].0@ != k by {
                    assert(s.drop_last()[j] == s[j]);
                }
            },
            None => {
                assert forall|j: int| 0 <= j < s.len() - 1 implies s[j].0@ != k by {
                    assert(s.drop_last()[j] == s[j]);
                }
            },
        }
    }
}

/// `key_of` is the first index holding the key.
pub proof fn lemma_key_of_first<T>(s: Seq<(String, T)>, k: Seq<char>, i: int)
    requires
        0 <= i < s.len(),
        s[i].0@ == k,
        forall|j: int| 0 <= j < i ==> s[j].0@ != k,
    ensures
        key_of(s, k) == Some(i),
{
    lemma_key_of(s, k);
}

pub proof fn lemma_key_of_none<T>(s: Seq<(String, T)>, k: Seq<char>)
    requires
        forall|j: int| 0 <= j < s.len() ==> s[j].0@ != k,
    ensures
        key_of(s, k) is None,
{
    lemma_key_of(s, k);
    if let Some(j) = key_of(s, k) {
        assert(s[j].0@ != k);
    }
}

/// With unique keys, the one index holding `k` is where `k` is found.
pub proof fn lemma_unique_at<T>(s: Seq<(String, T)>, k: Seq<char>, i: int)
    requires
        unique_keys(s),
        0 <= i < s.len(),
        s[i].0@ == k,
    ensures
        key_of(s, k) == Some(i),
        value_of(s, k) == Some(s[i].1),
{
    lemma_key_of_first(s, k, i);
}

/// Two lists with the same keys at the same places find every key at the same
/// place.
pub proof fn lemma_same_keys<T, U>(s: Seq<(String, T)>, t: Seq<(String, U)>, k: Seq<char>)
    requires
        s.len() == t.len(),
        forall|j: int| 0 <= j < s.len() ==> #[trigger] s[j].0@ == t[j].0@,
    ensures
        key_of(s, k) == key_of(t, k),
{
    lemma_key_of(s, k);
    lemma_key_of(t, k);
    match key_of(s, k) {
        Some(i) => {
            assert(s[i].0@ == t[i].0@);
            assert forall|j: int| 0 <= j < i implies t[j].0@ != k by {
                assert(s[j].0@ == t[j].0@);
            }
            lemma_key_of_first(t, k, i);
        },
        None => {
            assert forall|j: int| 0 <= j < t.len() implies t[j].0@ != k by {
                assert(s[j].0@ == t[j].0@);
            }
            lemma_key_of_none(t, k);
        },
    }
}

/// Changing the value of one entry, keeping its key, changes only what is
/// stored under that key.
pub proof fn lemma_update_value<T>(s: Seq<(String, T)>, i: int, t: Seq<(String, T)>)
    requires
        unique_keys(s),
        0 <= i < s.len(),
        t.len() == s.len(),
        t[i].0@ == s[i].0@,
        forall|j: int| 0 <= j < s.len() && j != i ==> t[j] == s[j],
    ensures
        unique_keys(t),
        key_of(t, s[i].0@) == Some(i),
        value_of(t, s[i].0@) == Some(t[i].1),
        forall|a: Seq<char>| a != s[i].0@ ==> #[trigger] value_of(t, a) == value_of(s, a),
        forall|a: Seq<char>| #[trigger] key_of(t, a) == key_of(s, a),
{
    assert forall|j: int| 0 <= j < s.len() implies #[trigger] s[j].0@ == t[j].0@ by {
        if j != i { assert(t[j] == s[j]); }
    }
    assert forall|a: Seq<char>| #[trigger] key_of(t, a) == key_of(s, a) by {
        lemma_same_keys(s, t, a);
    }
    assert forall|p: int, q: int| 0 <= p < q < t.len() implies t[p].0@ != t[q].0@ by {
        assert(s[p].0@ == t[p].0@);
        assert(s[q].0@ == t[q].0@);
    }
    lemma_unique_at(t, s[i].0@, i);
    assert forall|a: Seq<char>| a != s[i].0@ implies #[trigger] value_of(t, a) == value_of(s, a) by {
        lemma_same_keys(s, t, a);
        lemma_key_of(s, a);
        if let Some(j) = key_of(s, a) {
            assert(j != i);
        }
    }
}

/// Index of the first entry of `v` whose key is `k`.
pub fn find_key<T>(v: &Vec<(String, T)>, k: &str) -> (r: Option<usize>)
    ensures
        match key_of(v@, k@) {
            Some(i) => r == Some(i as usize),
            None => r is None,
        },
        r matches Some(i) ==> i < v@.len() && key_of(v@, k@) == Some(i as int) && v@[i as int].0@ == k@,
{
    let target = chars_of(k);
    let mut i: usize = 0;
    while i < v.len()
        invariant
            i <= v@.len(),
            target@ == k@,
            forall|j: int| 0 <= j < i ==> v@[j].0@ != k@,
        decreases v@.len() - i,
    {
        if chars_eq(&chars_of(v[i].0.as_str()), &target) {
            proof { lemma_key_of_first(v@, k@, i as int); }
            return Some(i);
        }
        i = i + 1;
    }
    proof { lemma_key_of_none(v@, k@); }
    None
}

/// Whether some entry has key `k`.
pub fn has_key<T>(v: &Vec<(String, T)>, k: &str) -> (b: bool)
    ensures
        b == (key_of(v@, k@) is Some),
{
    find_key(v, k).is_some()
}

/// Stores `val` under `k`: the entry is overwritten if `k` is present, else
/// appended.
pub fn set_entry<T>(v: &mut Vec<(String, T)>, k: &str, val: T)
    requires
        unique_keys(old(v)@),
    ensures
        unique_keys(final(v)@),
        value_of(final(v)@, k@) == Some(val),
        forall|a: Seq<char>| a != k@ ==> #[trigger] value_of(final(v)@, a) == value_of(old(v)@, a),
        keys(final(v)@) == keys(old(v)@).insert(k@),
        match key_of(old(v)@, k@) {
            Some(i) => final(v)@.len() == old(v)@.len() && final(v)@[i].1 == val
                && forall|j: int| 0 <= j < old(v)@.len() && j != i ==> final(v)@[j] == old(v)@[j],
            None => final(v)@.len() == old(v)@.len() + 1 && final(v)@.drop_last() == old(v)@,
        },
{
    let ghost s = v@;
    match find_key(v, k) {
        Some(i) => {
            v[i].1 = val;
            proof {
                assert forall|j: int| 0 <= j < v@.len() implies #[trigger] v@[j].0@ == s[j].0@ by {
                    if j != i { assert(v@[j] == s[j]); }
                }
                assert forall|a: Seq<char>| a != k@ implies #[trigger] value_of(v@, a) == value_of(s, a) by {
                    lemma_same_keys(v@, s, a);
                    lemma_key_of(s, a);
                    if let Some(j) = key_of(s, a) {
                        assert(j != i);
                        assert(v@[j] == s[j]);
                    }
                }
                lemma_unique_at(v@, k@, i as int);
                assert(keys(v@) =~= keys(s).insert(k@)) by {
                    assert forall|q: Seq<char>| keys(s).insert(k@).contains(q) implies keys(v@).contains(q) by {
                        if q == k@ {
                            assert(v@[i as int].0@ == q);
                        } else {
                            let j = choose|j: int| 0 <= j < s.len() && #[trigger] s[j].0@ == q;
                            assert(v@[j].0@ == q);
                        }
                    }
                    assert forall|q: Seq<char>| keys(v@).contains(q) implies keys(s).insert(k@).contains(q) by {
                        let j = choose|j: int| 0 <= j < v@.len() && #[trigger] v@[j].0@ == q;
                        assert(s[j].0@ == q);
                    }
                }
            }
        },
        None => {
            proof { lemma_key_of(s, k@); }
            v.push((owned(k), val));
            proof {
                assert(v@.drop_last() =~= s);
                assert forall|a: Seq<char>| a != k@ implies #[trigger] value_of(v@, a) == value_of(s, a) by {
                    lemma_key_of(s, a);
                    match key_of(s, a) {
                        Some(j) => {
                            assert(v@[j] == s[j]);
                            lemma_unique_at(v@, a, j);
                        },
                        None => {
                            assert forall|j: int| 0 <= j < v@.len() implies v@[j].0@ != a by {
                                if j < s.len() { assert(v@[j] == s[j]); }
                            }
                            lemma_key_of_none(v@, a);
                        },
                    }
                }
                assert(unique_keys(v@)) by {
                    assert forall|p: int, q: int| 0 <= p < q < v@.len() implies v@[p].0@ != v@[q].0@ by {
                        assert(v@[p] == s[p]);
                        if q < s.len() { assert(v@[q] == s[q]); }
                    }
                }
                lemma_unique_at(v@, k@, s.len() as int);
                assert(keys(v@) =~= keys(s).insert(k@)) by {
                    assert forall|q: Seq<char>| keys(s).insert(k@).contains(q) implies keys(v@).contains(q) by {
                        if q == k@ {
                            assert(v@[s.len() as int].0@ == q);
                        } else {
                            let j = choose|j: int| 0 <= j < s.len() && #[trigger] s[j].0@ == q;
                            assert(v@[j] == s[j]);
                        }
                    }
                    assert forall|q: Seq<char>| keys(v@).contains(q) implies keys(s).insert(k@).contains(q) by {
                        let j = choose|j: int| 0 <= j < v@.len() && #[trigger] v@[j].0@ == q;
                        if j < s.len() { assert(v@[j] == s[j]); }
                    }
                }
            }
        },
    }
}

/// Removes the entry under `k`, returning its value.
pub fn remove_entry<T>(v: &mut Vec<(String, T)>, k: &str) -> (r: Option<T>)
    requires
        unique_keys(old(v)@),
    ensures
        unique_keys(final(v)@),
        r == value_of(old(v)@, k@),
        value_of(final(v)@, k@) is None,
        forall|a: Seq<char>| a != k@ ==> #[trigger] value_of(final(v)@, a) == value_of(old(v)@, a),
        keys(final(v)@) == keys(old(v)@).remove(k@),
{
    let ghost s = v@;
    match find_key(v, k) {
        None => {
            proof {
                lemma_key_of(s, k@);
                assert(keys(s).remove(k@) =~= keys(s));
            }
            None
        },
        Some(i) => {
            let (_, val) = v.remove(i);
            proof {
                let t = v@;
                assert(t =~= s.remove(i as int));
                assert(forall|j: int| 0 <= j < i ==> t[j] == s[j]);
                assert(forall|j: int| i <= j < t.len() ==> t[j] == s[j + 1]);
                assert(unique_keys(t)) by {
                    assert forall|p: int, q: int| 0 <= p < q < t.len() implies t[p].0@ != t[q].0@ by {
                        if p < i { assert(t[p] == s[p]); } else { assert(t[p] == s[p + 1]); }
                        if q < i { assert(t[q] == s[q]); } else { assert(t[q] == s[q + 1]); }
                    }
                }
                assert forall|j: int| 0 <= j < t.len() implies t[j].0@ != k@ by {
                    if j < i { assert(t[j] == s[j]); } else { assert(t[j] == s[j + 1]); }
                }
                lemma_key_of_none(t, k@);
                assert forall|a: Seq<char>| a != k@ implies #[trigger] value_of(t, a) == value_of(s, a) by {
                    lemma_key_of(s, a);
                    match key_of(s, a) {
                        Some(j) => {
                            if j < i {
                                assert(t[j] == s[j]);
                                lemma_unique_at(t, a, j);
                            } else {
                                assert(j != i);
                                assert(t[j - 1] == s[j]);
                                lemma_unique_at(t, a, j - 1);
                            }
                        },
                        None => {
                            assert forall|j: int| 0 <= j < t.len() implies t[j].0@ != a by {
                                if j < i { assert(t[j] == s[j]); } else { assert(t[j] == s[j + 1]); }
                            }
                            lemma_key_of_none(t, a);
                        },
                    }
                }
                assert(keys(t) =~= keys(s).remove(k@)) by {
                    assert forall|q: Seq<char>| keys(s).remove(k@).contains(q) implies keys(t).contains(q) by {
                        let j = choose|j: int| 0 <= j < s.len() && #[trigger] s[j].0@ == q;
                        assert(j != i);
                        if j < i { assert(t[j] == s[j]); } else { assert(t[j - 1] == s[j]); }
                    }
                    assert forall|q: Seq<char>| keys(t).contains(q) implies keys(s).remove(k@).contains(q) by {
                        let j = choose|j: int| 0 <= j < t.len() && #[trigger] t[j].0@ == q;
                        if j < i { assert(t[j] == s[j]); } else { assert(t[j] == s[j + 1]); }
                    }
                }
            }
            Some(val)
        },
    }
}

} // verus!
