//! Vectors of `(key, value)` pairs with distinct string keys, read as finite
//! maps: the shape of the tag and note tables of the sidecar metadata.

use vstd::prelude::*;

use crate::text::{str_eq, strs};

verus! {

/// No key occurs twice.
pub open spec fn keys_unique<V>(e: Seq<(String, V)>) -> bool {
    forall|i: int, j: int| 0 <= i < e.len() && 0 <= j < e.len() && i != j ==> e[i].0@ != e[j].0@
}

/// Some entry has key `k`.
pub open spec fn has_key<V>(e: Seq<(String, V)>, k: Seq<char>) -> bool {
    exists|i: int| 0 <= i < e.len() && #[trigger] e[i].0@ == k
}

/// The index of the entry with key `k` (meaningful when [`has_key`]).
pub open spec fn slot<V>(e: Seq<(String, V)>, k: Seq<char>) -> int {
    choose|i: int| 0 <= i < e.len() && #[trigger] e[i].0@ == k
}

/// With distinct keys, the entry at `j` is the one found for its key.
pub proof fn lemma_slot<V>(e: Seq<(String, V)>, j: int)
    requires
        keys_unique(e),
        0 <= j < e.len(),
    ensures
        has_key(e, e[j].0@),
        slot(e, e[j].0@) == j,
{
    assert(e[j].0@ == e[j].0@);
    let s = slot(e, e[j].0@);
    assert(0 <= s < e.len() && e[s].0@ == e[j].0@);
}

/// Replacing the value at `i`, key unchanged, leaves every other key where it was.
pub proof fn lemma_frame_set<V>(old: Seq<(String, V)>, new: Seq<(String, V)>, i: int)
    requires
        keys_unique(old),
        0 <= i < old.len(),
        new.len() == old.len(),
        new[i].0@ == old[i].0@,
        forall|j: int| 0 <= j < old.len() && j != i ==> new[j] == old[j],
    ensures
        keys_unique(new),
        forall|k: Seq<char>| has_key(new, k) == has_key(old, k),
        forall|k: Seq<char>|
            has_key(old, k) && k != old[i].0@ ==> slot(new, k) == slot(old, k) && new[slot(new, k)]
                == old[slot(old, k)],
        slot(new, old[i].0@) == i,
{
    assert forall|a: int, b: int| 0 <= a < new.len() && 0 <= b < new.len() && a != b implies new[a].0@ != new[b].0@ by {
        if a != i && b != i {
            assert(new[a] == old[a] && new[b] == old[b]);
        } else if a == i {
            assert(new[b] == old[b]);
        } else {
            assert(new[a] == old[a]);
        }
    }
    assert forall|k: Seq<char>| has_key(new, k) == has_key(old, k) by {
        if has_key(old, k) {
            let j = choose|j: int| 0 <= j < old.len() && #[trigger] old[j].0@ == k;
            if j != i {
                assert(new[j] == old[j]);
            }
            assert(new[j].0@ == k);
        }
        if has_key(new, k) {
            let j = choose|j: int| 0 <= j < new.len() && #[trigger] new[j].0@ == k;
            if j != i {
                assert(new[j] == old[j]);
            }
            assert(old[j].0@ == k);
        }
    }
    assert forall|k: Seq<char>| has_key(old, k) && k != old[i].0@ implies slot(new, k) == slot(old, k)
        && new[slot(new, k)] == old[slot(old, k)] by {
        let j = choose|j: int| 0 <= j < old.len() && #[trigger] old[j].0@ == k;
        lemma_slot(old, j);
        assert(j != i);
        assert(new[j] == old[j]);
        lemma_slot(new, j);
    }
    lemma_slot(new, i);
}

/// Appending an entry with a fresh key leaves every other key where it was.
pub proof fn lemma_frame_push<V>(old: Seq<(String, V)>, x: (String, V))
    requires
        keys_unique(old),
        !has_key(old, x.0@),
    ensures
        keys_unique(old.push(x)),
        forall|k: Seq<char>| has_key(old.push(x), k) == (has_key(old, k) || k == x.0@),
        forall|k: Seq<char>|
            has_key(old, k) ==> slot(old.push(x), k) == slot(old, k) && old.push(x)[slot(
                old.push(x),
                k,
            )] == old[slot(old, k)],
        slot(old.push(x), x.0@) == old.len(),
{
    let new = old.push(x);
    assert forall|a: int, b: int| 0 <= a < new.len() && 0 <= b < new.len() && a != b implies new[a].0@ != new[b].0@ by {
        if a == old.len() {
            assert(old[b].0@ == new[b].0@);
        } else if b == old.len() {
            assert(old[a].0@ == new[a].0@);
        }
    }
    assert forall|k: Seq<char>| has_key(new, k) == (has_key(old, k) || k == x.0@) by {
        if has_key(old, k) {
            let j = choose|j: int| 0 <= j < old.len() && #[trigger] old[j].0@ == k;
            assert(new[j] == old[j]);
        }
        if k == x.0@ {
            assert(new[old.len() as int] == x);
        }
        if has_key(new, k) && k != x.0@ {
            let j = choose|j: int| 0 <= j < new.len() && #[trigger] new[j].0@ == k;
            assert(j < old.len());
            assert(old[j] == new[j]);
        }
    }
    assert forall|k: Seq<char>| has_key(old, k) implies slot(new, k) == slot(old, k) && new[slot(new, k)]
        == old[slot(old, k)] by {
        let j = choose|j: int| 0 <= j < old.len() && #[trigger] old[j].0@ == k;
        lemma_slot(old, j);
        assert(new[j] == old[j]);
        lemma_slot(new, j);
    }
    assert(new[old.len() as int] == x);
    lemma_slot(new, old.len() as int);
}

/// Removing the entry at `i` leaves every other key present, with its entry.
pub proof fn lemma_frame_remove<V>(old: Seq<(String, V)>, i: int)
    requires
        keys_unique(old),
        0 <= i < old.len(),
    ensures
        keys_unique(old.remove(i)),
        forall|k: Seq<char>| has_key(old.remove(i), k) == (has_key(old, k) && k != old[i].0@),
        forall|k: Seq<char>|
            has_key(old, k) && k != old[i].0@ ==> old.remove(i)[slot(old.remove(i), k)] == old[slot(
                old,
                k,
            )],
{
    let new = old.remove(i);
    assert forall|a: int, b: int| 0 <= a < new.len() && 0 <= b < new.len() && a != b implies new[a].0@ != new[b].0@ by {
        let oa = if a < i { a } else { a + 1 };
        let ob = if b < i { b } else { b + 1 };
        assert(new[a] == old[oa]);
        assert(new[b] == old[ob]);
    }
    assert forall|k: Seq<char>| has_key(new, k) == (has_key(old, k) && k != old[i].0@) by {
        if has_key(old, k) && k != old[i].0@ {
            let j = choose|j: int| 0 <= j < old.len() && #[trigger] old[j].0@ == k;
            assert(j != i);
            let nj = if j < i { j } else { j - 1 };
            assert(new[nj] == old[j]);
        }
        if has_key(new, k) {
            let j = choose|j: int| 0 <= j < new.len() && #[trigger] new[j].0@ == k;
            let oj = if j < i { j } else { j + 1 };
            assert(new[j] == old[oj]);
            assert(old[oj].0@ == k);
            assert(oj != i);
        }
    }
    assert forall|k: Seq<char>| has_key(old, k) && k != old[i].0@ implies new[slot(new, k)] == old[slot(old, k)] by {
        let j = choose|j: int| 0 <= j < old.len() && #[trigger] old[j].0@ == k;
        lemma_slot(old, j);
        let nj = if j < i { j } else { j - 1 };
        assert(new[nj] == old[j]);
        lemma_slot(new, nj);
    }
}

/// The index of the entry with key `k`, if any.
pub fn find_key<V>(e: &Vec<(String, V)>, k: &str) -> (r: Option<usize>)
    requires
        keys_unique(e@),
    ensures
        r is Some <==> has_key(e@, k@),
        r matches Some(i) ==> i < e@.len() && e@[i as int].0@ == k@ && slot(e@, k@) == i,
{
    let mut i: usize = 0;
    while i < e.len()
        invariant
            keys_unique(e@),
            i <= e.len(),
            forall|j: int| 0 <= j < i ==> #[trigger] e@[j].0@ != k@,
        decreases e.len() - i,
    {
        if str_eq(e[i].0.as_str(), k) {
            proof {
                lemma_slot(e@, i as int);
            }
            return Some(i);
        }
        i = i + 1;
    }
    None
}

/// A copy of a list of strings.
pub fn clone_strings(v: &Vec<String>) -> (r: Vec<String>)
    ensures
        strs(r@) == strs(v@),
{
    let mut r: Vec<String> = Vec::new();
    let mut i: usize = 0;
    while i < v.len()
        invariant
            i <= v.len(),
            r@.len() == i,
            strs(r@) == strs(v@).take(i as int),
        decreases v.len() - i,
    {
        let c = v[i].clone();
        let ghost before = r@;
        r.push(c);
        assert(r@[i as int]@ == v@[i as int]@);
        assert forall|j: int| 0 <= j < i implies r@[j]@ == before[j]@ by {}
        assert(strs(r@) =~= strs(v@).take(i + 1));
        i = i + 1;
    }
    assert(strs(v@).take(v.len() as int) =~= strs(v@));
    r
}

} // verus!
