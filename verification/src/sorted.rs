//! Sorted lists of distinct strings.

use vstd::prelude::*;

use crate::text::{
    lemma_seq_le_antisym, lemma_seq_le_total, lemma_seq_lt_trans, seq_le, seq_lt, str_eq, str_le,
    strs,
};

verus! {

/// Each string sorts strictly before the next: sorted, without repeats.
pub open spec fn strictly_sorted(s: Seq<Seq<char>>) -> bool {
    forall|i: int, j: int| 0 <= i < j < s.len() ==> seq_lt(#[trigger] s[i], #[trigger] s[j])
}

/// `a` and `b` hold the same strings (as sets).
pub open spec fn same_elems(a: Seq<Seq<char>>, b: Seq<Seq<char>>) -> bool {
    forall|x: Seq<char>| a.contains(x) <==> b.contains(x)
}

/// `r` is the sorted list of the distinct strings of `s`.
pub open spec fn sorted_set_of(r: Seq<Seq<char>>, s: Seq<Seq<char>>) -> bool {
    strictly_sorted(r) && same_elems(r, s)
}

/// Whether the list holds `x`.
pub fn contains_str(v: &Vec<String>, x: &str) -> (r: bool)
    ensures
        r == strs(v@).contains(x@),
{
    let mut i: usize = 0;
    while i < v.len()
        invariant
            i <= v.len(),
            forall|j: int| 0 <= j < i ==> v@[j]@ != x@,
        decreases v.len() - i,
    {
        if str_eq(v[i].as_str(), x) {
            assert(strs(v@)[i as int] == x@);
            return true;
        }
        i = i + 1;
    }
    proof {
        if strs(v@).contains(x@) {
            let j = choose|j: int| 0 <= j < strs(v@).len() && strs(v@)[j] == x@;
            assert(v@[j]@ == x@);
        }
    }
    false
}

/// Inserts `x` at its sorted place unless the list already holds it.
pub fn insert_sorted_unique(v: &mut Vec<String>, x: String)
    requires
        strictly_sorted(strs(old(v)@)),
    ensures
        strictly_sorted(strs(final(v)@)),
        same_elems(strs(final(v)@), strs(old(v)@).push(x@)),
{
    let ghost ov = strs(v@);
    let mut k: usize = 0;
    while k < v.len() && str_le(v[k].as_str(), x.as_str()) && !str_eq(v[k].as_str(), x.as_str())
        invariant
            k <= v.len(),
            strs(v@) == ov,
            strictly_sorted(ov),
            forall|j: int| 0 <= j < k ==> seq_lt(#[trigger] ov[j], x@),
        decreases v.len() - k,
    {
        k = k + 1;
    }
    if k < v.len() && str_eq(v[k].as_str(), x.as_str()) {
        assert forall|y: Seq<char>| ov.contains(y) <==> ov.push(x@).contains(y) by {
            if ov.push(x@).contains(y) && !ov.contains(y) {
                let j = choose|j: int| 0 <= j < ov.push(x@).len() && ov.push(x@)[j] == y;
                assert(j == ov.len());
                assert(ov[k as int] == x@);
            }
            if ov.contains(y) {
                let j = choose|j: int| 0 <= j < ov.len() && ov[j] == y;
                assert(ov.push(x@)[j] == y);
            }
        }
        return;
    }
    proof {
        if k < v.len() {
            // x sorts strictly before v[k], hence before everything after it.
            lemma_seq_le_total(ov[k as int], x@);
            assert(!seq_le(ov[k as int], x@));
            assert(seq_le(x@, ov[k as int]));
            assert(seq_lt(x@, ov[k as int]));
        }
    }
    let ghost xv = x@;
    v.insert(k, x);
    let ghost nv = strs(v@);
    proof {
        assert(nv =~= ov.insert(k as int, xv));
        assert forall|i: int, j: int| 0 <= i < j < nv.len() implies seq_lt(#[trigger] nv[i], #[trigger] nv[j]) by {
            if j < k {
                assert(nv[i] == ov[i] && nv[j] == ov[j]);
            } else if j == k {
                assert(nv[i] == ov[i]);
            } else if i == k {
                assert(nv[j] == ov[j - 1]);
                if j - 1 > k {
                    lemma_seq_lt_trans(xv, ov[k as int], ov[j - 1]);
                }
            } else if i < k {
                assert(nv[i] == ov[i] && nv[j] == ov[j - 1]);
            } else {
                assert(nv[i] == ov[i - 1] && nv[j] == ov[j - 1]);
            }
        }
        assert forall|y: Seq<char>| nv.contains(y) <==> ov.push(xv).contains(y) by {
            if nv.contains(y) {
                let j = choose|j: int| 0 <= j < nv.len() && nv[j] == y;
                if j < k {
                    assert(ov.push(xv)[j] == y);
                } else if j == k {
                    assert(ov.push(xv)[ov.len() as int] == y);
                } else {
                    assert(ov.push(xv)[j - 1] == y);
                }
            }
            if ov.push(xv).contains(y) {
                let j = choose|j: int| 0 <= j < ov.push(xv).len() && ov.push(xv)[j] == y;
                if j == ov.len() {
                    assert(nv[k as int] == y);
                } else if j < k {
                    assert(nv[j] == y);
                } else {
                    assert(nv[j + 1] == y);
                }
            }
        }
    }
}

/// The distinct strings of `v`, sorted (`sort` followed by `dedup`).
pub fn sorted_unique(v: &Vec<String>) -> (r: Vec<String>)
    ensures
        sorted_set_of(strs(r@), strs(v@)),
{
    let mut r: Vec<String> = Vec::new();
    let mut i: usize = 0;
    while i < v.len()
        invariant
            i <= v.len(),
            sorted_set_of(strs(r@), strs(v@).take(i as int)),
        decreases v.len() - i,
    {
        let ghost before = strs(r@);
        insert_sorted_unique(&mut r, v[i].clone());
        proof {
            let t = strs(v@).take(i + 1);
            assert(t =~= strs(v@).take(i as int).push(v@[i as int]@));
            assert forall|y: Seq<char>| strs(r@).contains(y) <==> t.contains(y) by {
                assert(strs(r@).contains(y) <==> before.push(v@[i as int]@).contains(y));
                if before.push(v@[i as int]@).contains(y) {
                    let j = choose|j: int| 0 <= j < before.push(v@[i as int]@).len() && before.push(v@[i as int]@)[j] == y;
                    if j < before.len() {
                        assert(before.contains(y));
                        assert(strs(v@).take(i as int).contains(y));
                        let m = choose|m: int| 0 <= m < strs(v@).take(i as int).len() && strs(v@).take(i as int)[m] == y;
                        assert(t[m] == y);
                    } else {
                        assert(t[i as int] == y);
                    }
                }
                if t.contains(y) {
                    let j = choose|j: int| 0 <= j < t.len() && t[j] == y;
                    if j < i {
                        assert(strs(v@).take(i as int)[j] == y);
                        assert(before.contains(y));
                        let m = choose|m: int| 0 <= m < before.len() && before[m] == y;
                        assert(before.push(v@[i as int]@)[m] == y);
                    } else {
                        assert(before.push(v@[i as int]@)[before.len() as int] == y);
                    }
                }
            }
        }
        i = i + 1;
    }
    assert(strs(v@).take(v.len() as int) =~= strs(v@));
    r
}

} // verus!
