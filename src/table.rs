//! String-keyed tables: a vector of `(key, value)` pairs viewed as a map,
//! where a later pair for a key shadows an earlier one. Keys need not be
//! unique in the vector; after `table_insert` its key has a single pair, and
//! after `table_remove` none. The verifier's model of `HashMap` covers keys that obey its
//! key model, which `String` keys are not given, so the tables are kept here.
use vstd::prelude::*;

verus! {

/// The map that the pairs `s` describe; the last pair for a key wins.
pub open spec fn table_map<V>(s: Seq<(String, V)>) -> Map<Seq<char>, V>
    decreases s.len(),
{
    if s.len() == 0 {
        Map::empty()
    } else {
        table_map(s.drop_last()).insert(s.last().0@, s.last().1)
    }
}

/// A key that no pair holds is not in the map.
pub proof fn lemma_table_absent<V>(s: Seq<(String, V)>, k: Seq<char>)
    requires
        forall|j: int| 0 <= j < s.len() ==> (#[trigger] s[j]).0@ != k,
    ensures
        !table_map(s).contains_key(k),
    decreases s.len(),
{
    if s.len() > 0 {
        assert forall|j: int| 0 <= j < s.drop_last().len() implies (#[trigger] s.drop_last()[j]).0@
            != k by {
            assert(s.drop_last()[j] == s[j]);
        }
        lemma_table_absent(s.drop_last(), k);
    }
}

/// The map gives the value of the last pair for a key.
pub proof fn lemma_table_last<V>(s: Seq<(String, V)>, i: int)
    requires
        0 <= i < s.len(),
        forall|j: int| i < j < s.len() ==> (#[trigger] s[j]).0@ != s[i].0@,
    ensures
        table_map(s).contains_key(s[i].0@),
        table_map(s)[s[i].0@] == s[i].1,
    decreases s.len(),
{
    if i < s.len() - 1 {
        assert forall|j: int| i < j < s.drop_last().len() implies (#[trigger] s.drop_last()[j]).0@
            != s.drop_last()[i].0@ by {
            assert(s.drop_last()[j] == s[j]);
        }
        lemma_table_last(s.drop_last(), i);
    }
}

/// Looks `key` up.
pub fn table_get<'a, V>(t: &'a Vec<(String, V)>, key: &str) -> (r: Option<&'a V>)
    ensures
        r matches Some(v) ==> table_map(t@).contains_key(key@) && table_map(t@)[key@] == *v,
        r is None ==> !table_map(t@).contains_key(key@),
{
    let k = String::from_str(key);
    let mut i = t.len();
    while i > 0
        invariant
            i <= t@.len(),
            k@ == key@,
            forall|j: int| i <= j < t@.len() ==> (#[trigger] t@[j]).0@ != key@,
        decreases i,
    {
        i = i - 1;
        if t[i].0 == k {
            proof {
                lemma_table_last(t@, i as int);
            }
            return Some(&t[i].1);
        }
    }
    proof {
        lemma_table_absent(t@, key@);
    }
    None
}

/// Does the table hold `key`?
pub fn table_contains<V>(t: &Vec<(String, V)>, key: &str) -> (r: bool)
    ensures
        r == table_map(t@).contains_key(key@),
{
    table_get(t, key).is_some()
}

/// Removes every pair for `key`.
pub fn table_remove<V>(t: &mut Vec<(String, V)>, key: &str)
    ensures
        table_map(final(t)@) == table_map(old(t)@).remove(key@),
{
    let k = String::from_str(key);
    let ghost orig = t@;
    let total = t.len();
    let mut out: Vec<(String, V)> = Vec::new();
    let mut done: usize = 0;
    while t.len() > 0
        invariant
            k@ == key@,
            done <= orig.len() == total,
            t@ == orig.subrange(done as int, orig.len() as int),
            table_map(out@) == table_map(orig.subrange(0, done as int)).remove(key@),
        decreases t@.len(),
    {
        let e = t.remove(0);
        proof {
            let pre = orig.subrange(0, done as int);
            let next = orig.subrange(0, done + 1);
            assert(next.drop_last() =~= pre);
            assert(next.last() == e);
        }
        if e.0 == k {
            proof {
                let pre = orig.subrange(0, done as int);
                assert(table_map(pre).insert(key@, e.1).remove(key@) =~= table_map(pre).remove(key@));
            }
            done = done + 1;
        } else {
            let ghost before = out@;
            out.push(e);
            proof {
                let pre = orig.subrange(0, done as int);
                assert(out@.drop_last() =~= before);
                assert(table_map(pre).remove(key@).insert(e.0@, e.1) =~= table_map(pre).insert(
                    e.0@,
                    e.1,
                ).remove(key@));
            }
            done = done + 1;
        }
        assert(t@ =~= orig.subrange(done as int, orig.len() as int));
    }
    assert(orig.subrange(0, done as int) =~= orig);
    *t = out;
}

/// Sets `key` to `value`, replacing what it held.
pub fn table_insert<V>(t: &mut Vec<(String, V)>, key: String, value: V)
    ensures
        table_map(final(t)@) == table_map(old(t)@).insert(key@, value),
{
    table_remove(t, key.as_str());
    let ghost mid = t@;
    let ghost k = key@;
    t.push((key, value));
    proof {
        assert(t@.drop_last() =~= mid);
        assert(table_map(old(t)@).remove(k).insert(k, value) =~= table_map(old(t)@).insert(k, value));
    }
}

} // verus!
