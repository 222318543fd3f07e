//! Sets of strings held in vectors without repetition.
use crate::db::pair_views;
use crate::text::string_views;
use vstd::prelude::*;

verus! {

/// The strings of a vector as a set.
pub open spec fn string_set(v: Seq<String>) -> Set<Seq<char>> {
    string_views(v).to_set()
}

/// No string occurs twice in the vector.
pub open spec fn distinct_strings(v: Seq<String>) -> bool {
    string_views(v).no_duplicates()
}

/// The pairs of a vector as a set.
pub open spec fn pair_set(v: Seq<(String, String)>) -> Set<(Seq<char>, Seq<char>)> {
    pair_views(v).to_set()
}

/// The first components of the pairs.
pub open spec fn key_set(p: Set<(Seq<char>, Seq<char>)>) -> Set<Seq<char>> {
    Set::new(|k: Seq<char>| exists|v: Seq<char>| #[trigger] p.contains((k, v)))
}

/// The second components of the pairs whose first is `k`.
pub open spec fn values_of(p: Set<(Seq<char>, Seq<char>)>, k: Seq<char>) -> Set<Seq<char>> {
    Set::new(|v: Seq<char>| p.contains((k, v)))
}

/// Whether the vector holds the string.
pub fn contains_string(v: &Vec<String>, s: &String) -> (r: bool)
    ensures
        r == string_set(v@).contains(s@),
{
    let mut i: usize = 0;
    while i < v.len()
        invariant
            i <= v.len(),
            forall|j: int| 0 <= j < i ==> v@[j]@ != s@,
        decreases v.len() - i,
    {
        if v[i] == *s {
            assert(string_views(v@)[i as int] == s@);
            return true;
        }
        i = i + 1;
    }
    assert(!string_views(v@).contains(s@)) by {
        if string_views(v@).contains(s@) {
            let j = choose|j: int| 0 <= j < string_views(v@).len() && string_views(v@)[j] == s@;
            assert(v@[j]@ == s@);
        }
    }
    false
}

/// Adds a string to a set unless it is there already.
pub fn insert_string(v: &mut Vec<String>, s: String)
    requires
        distinct_strings(old(v)@),
    ensures
        distinct_strings(final(v)@),
        string_set(final(v)@) == string_set(old(v)@).insert(s@),
        string_set(old(v)@).contains(s@) ==> final(v)@ == old(v)@,
        !string_set(old(v)@).contains(s@) ==> final(v)@ == old(v)@.push(s),
{
    if contains_string(v, &s) {
        assert(string_set(v@).insert(s@) =~= string_set(v@));
    } else {
        let ghost before = v@;
        v.push(s);
        proof {
            assert(string_views(v@) =~= string_views(before).push(s@));
            string_views(before).lemma_push_to_set_commute(s@);
        }
    }
}

/// Whether the vector holds a pair whose first component is `k`.
pub fn has_key(pairs: &Vec<(String, String)>, k: &String) -> (r: bool)
    ensures
        r == key_set(pair_set(pairs@)).contains(k@),
{
    let mut i: usize = 0;
    while i < pairs.len()
        invariant
            i <= pairs.len(),
            forall|j: int| 0 <= j < i ==> pairs@[j].0@ != k@,
        decreases pairs.len() - i,
    {
        if pairs[i].0 == *k {
            assert(pair_views(pairs@)[i as int] == (k@, pairs@[i as int].1@));
            assert(pair_set(pairs@).contains((k@, pairs@[i as int].1@)));
            return true;
        }
        i = i + 1;
    }
    assert(!key_set(pair_set(pairs@)).contains(k@)) by {
        if key_set(pair_set(pairs@)).contains(k@) {
            let v = choose|v: Seq<char>| pair_set(pairs@).contains((k@, v));
            let j = choose|j: int| 0 <= j < pair_views(pairs@).len() && pair_views(pairs@)[j] == (k@, v);
            assert(pairs@[j].0@ == k@);
        }
    }
    false
}

/// Whether the vector holds the pair `(k, v)`.
pub fn has_pair(pairs: &Vec<(String, String)>, k: &String, v: &String) -> (r: bool)
    ensures
        r == pair_set(pairs@).contains((k@, v@)),
{
    let mut i: usize = 0;
    while i < pairs.len()
        invariant
            i <= pairs.len(),
            forall|j: int| 0 <= j < i ==> pair_views(pairs@)[j] != (k@, v@),
        decreases pairs.len() - i,
    {
        if pairs[i].0 == *k && pairs[i].1 == *v {
            assert(pair_views(pairs@)[i as int] == (k@, v@));
            return true;
        }
        i = i + 1;
    }
    false
}

/// The first components of the pairs, each once.
pub fn distinct_keys(pairs: &Vec<(String, String)>) -> (r: Vec<String>)
    ensures
        distinct_strings(r@),
        string_set(r@) == key_set(pair_set(pairs@)),
{
    let mut r: Vec<String> = Vec::new();
    let mut i: usize = 0;
    while i < pairs.len()
        invariant
            i <= pairs.len(),
            distinct_strings(r@),
            string_set(r@) == key_set(pair_set(pairs@.take(i as int))),
        decreases pairs.len() - i,
    {
        insert_string(&mut r, pairs[i].0.clone());
        proof {
            let p = pairs@.take(i + 1);
            assert(pair_views(p) =~= pair_views(pairs@.take(i as int)).push((pairs@[i as int].0@, pairs@[i as int].1@)));
            pair_views(pairs@.take(i as int)).lemma_push_to_set_commute((pairs@[i as int].0@, pairs@[i as int].1@));
            let pr = (pairs@[i as int].0@, pairs@[i as int].1@);
            let prev = pair_set(pairs@.take(i as int));
            assert(pair_set(p) == prev.insert(pr));
            assert forall|x: Seq<char>| key_set(pair_set(p)).contains(x) implies string_set(r@).contains(x) by {
                let v = choose|v: Seq<char>| pair_set(p).contains((x, v));
                if (x, v) != pr {
                    assert(prev.contains((x, v)));
                }
            }
            assert forall|x: Seq<char>| string_set(r@).contains(x) implies key_set(pair_set(p)).contains(x) by {
                if x == pr.0 {
                    assert(pair_set(p).contains(pr));
                } else {
                    let v = choose|v: Seq<char>| prev.contains((x, v));
                    assert(pair_set(p).contains((x, v)));
                }
            }
            assert(string_set(r@) =~= key_set(pair_set(p)));
        }
        i = i + 1;
    }
    assert(pairs@.take(pairs.len() as int) =~= pairs@);
    r
}

/// The second components of the pairs whose first is `k`, each once.
pub fn distinct_values_of(pairs: &Vec<(String, String)>, k: &String) -> (r: Vec<String>)
    ensures
        distinct_strings(r@),
        string_set(r@) == values_of(pair_set(pairs@), k@),
{
    let mut r: Vec<String> = Vec::new();
    let mut i: usize = 0;
    while i < pairs.len()
        invariant
            i <= pairs.len(),
            distinct_strings(r@),
            string_set(r@) == values_of(pair_set(pairs@.take(i as int)), k@),
        decreases pairs.len() - i,
    {
        proof {
            let p = pairs@.take(i + 1);
            assert(pair_views(p) =~= pair_views(pairs@.take(i as int)).push((pairs@[i as int].0@, pairs@[i as int].1@)));
            pair_views(pairs@.take(i as int)).lemma_push_to_set_commute((pairs@[i as int].0@, pairs@[i as int].1@));
        }
        if pairs[i].0 == *k {
            insert_string(&mut r, pairs[i].1.clone());
            assert(string_set(r@) =~= values_of(pair_set(pairs@.take(i + 1)), k@));
        } else {
            assert(string_set(r@) =~= values_of(pair_set(pairs@.take(i + 1)), k@));
        }
        i = i + 1;
    }
    assert(pairs@.take(pairs.len() as int) =~= pairs@);
    r
}

/// Appends copies of the pairs of `src`.
pub fn append_pairs(dst: &mut Vec<(String, String)>, src: &Vec<(String, String)>)
    ensures
        pair_views(final(dst)@) == pair_views(old(dst)@) + pair_views(src@),
{
    let mut i: usize = 0;
    while i < src.len()
        invariant
            i <= src.len(),
            pair_views(dst@) == pair_views(old(dst)@) + pair_views(src@).take(i as int),
        decreases src.len() - i,
    {
        let ghost before = dst@;
        let a = src[i].0.clone();
        let b = src[i].1.clone();
        dst.push((a, b));
        assert(pair_views(dst@) =~= pair_views(before).push((a@, b@)));
        assert(pair_views(src@)[i as int] == (a@, b@));
        assert(pair_views(src@).take(i + 1) =~= pair_views(src@).take(i as int).push((a@, b@)));
        assert(pair_views(dst@) =~= pair_views(old(dst)@) + pair_views(src@).take(i + 1));
        i = i + 1;
    }
    assert(pair_views(src@).take(src.len() as int) =~= pair_views(src@));
}

} // verus!
