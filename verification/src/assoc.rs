//! Lists of `(name, items)` pairs read as maps from names to item lists;
//! a later pair for the same name shadows an earlier one.

use vstd::prelude::*;
use crate::text::str_eq;

verus! {

broadcast use vstd::string::group_string_axioms;

/// The map an association list denotes.
pub open spec fn assoc_map<T>(s: Seq<(String, Vec<T>)>) -> Map<Seq<char>, Seq<T>>
    decreases s.len(),
{
    if s.len() == 0 {
        Map::empty()
    } else {
        assoc_map(s.drop_last()).insert(s.last().0@, s.last().1@)
    }
}

/// Whether `j` is the last index of `s` whose name is `k`.
pub open spec fn last_key_index<T>(s: Seq<(String, Vec<T>)>, k: Seq<char>, j: int) -> bool {
    &&& 0 <= j < s.len()
    &&& s[j].0@ == k
    &&& forall|i: int| j < i < s.len() ==> (#[trigger] s[i]).0@ != k
}

/// A name that no pair carries is not in the map.
pub proof fn lemma_assoc_absent<T>(s: Seq<(String, Vec<T>)>, k: Seq<char>)
    requires
        forall|i: int| 0 <= i < s.len() ==> (#[trigger] s[i]).0@ != k,
    ensures
        !assoc_map(s).contains_key(k),
    decreases s.len(),
{
    if s.len() > 0 {
        let d = s.drop_last();
        assert forall|i: int| 0 <= i < d.len() implies (#[trigger] d[i]).0@ != k by {
            assert(d[i] == s[i]);
        }
        lemma_assoc_absent(d, k);
    }
}

/// The map holds, for a name, the items of its last pair.
pub proof fn lemma_assoc_at<T>(s: Seq<(String, Vec<T>)>, k: Seq<char>, j: int)
    requires
        last_key_index(s, k, j),
    ensures
        assoc_map(s).contains_key(k),
        assoc_map(s)[k] == s[j].1@,
    decreases s.len(),
{
    if j < s.len() - 1 {
        let d = s.drop_last();
        assert(s.last() == s[s.len() - 1]);
        assert forall|i: int| j < i < d.len() implies (#[trigger] d[i]).0@ != k by {
            assert(d[i] == s[i]);
        }
        assert(d[j] == s[j]);
        lemma_assoc_at(d, k, j);
    }
}

/// Replacing the last pair of a name replaces that name's entry.
pub proof fn lemma_assoc_update<T>(s: Seq<(String, Vec<T>)>, j: int, e: (String, Vec<T>))
    requires
        last_key_index(s, e.0@, j),
    ensures
        assoc_map(s.update(j, e)) == assoc_map(s).insert(e.0@, e.1@),
    decreases s.len(),
{
    let t = s.update(j, e);
    if j == s.len() - 1 {
        assert(t.drop_last() == s.drop_last());
        assert(assoc_map(t) =~= assoc_map(s).insert(e.0@, e.1@));
    } else {
        let d = s.drop_last();
        assert(t.drop_last() == d.update(j, e));
        assert(s.last() == s[s.len() - 1]);
        assert(s.last().0@ != e.0@);
        assert forall|i: int| j < i < d.len() implies (#[trigger] d[i]).0@ != e.0@ by {
            assert(d[i] == s[i]);
        }
        assert(d[j] == s[j]);
        lemma_assoc_update(d, j, e);
        assert(t.last() == s.last());
        assert(assoc_map(t) =~= assoc_map(s).insert(e.0@, e.1@));
    }
}

/// The last index whose name is `key`, if any.
pub fn find_last_key<T>(s: &Vec<(String, Vec<T>)>, key: &str) -> (r: Option<usize>)
    ensures
        r matches Some(j) ==> last_key_index(s@, key@, j as int),
        r is None ==> forall|i: int| 0 <= i < s@.len() ==> (#[trigger] s@[i]).0@ != key@,
{
    let mut i = s.len();
    while i > 0
        invariant
            i <= s.len(),
            forall|m: int| i <= m < s@.len() ==> (#[trigger] s@[m]).0@ != key@,
        decreases i,
    {
        if str_eq(s[i - 1].0.as_str(), key) {
            return Some(i - 1);
        }
        i -= 1;
    }
    None
}

/// A copy of a slice of `Copy` items.
pub fn copy_items<T: Copy>(v: &[T]) -> (r: Vec<T>)
    ensures
        r@ == v@,
{
    let mut r: Vec<T> = Vec::new();
    let mut i: usize = 0;
    while i < v.len()
        invariant
            i <= v.len(),
            r@ == v@.take(i as int),
        decreases v.len() - i,
    {
        r.push(v[i]);
        assert(v@.take(i + 1) == v@.take(i as int).push(v@[i as int]));
        i += 1;
    }
    assert(v@.take(v.len() as int) == v@);
    r
}

} // verus!
