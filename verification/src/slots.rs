//! Reaching one element of a list for writing.
use vstd::prelude::*;

verus! {

/// One element of a list, for writing in place.
pub fn element_mut<T>(v: &mut Vec<T>, i: usize) -> (r: &mut T)
    requires
        i < old(v)@.len(),
    ensures
        *r == old(v)@[i as int],
        final(v)@ == old(v)@.update(i as int, *final(r)),
{
    let s = v.as_mut_slice();
    let (_left, right) = s.split_at_mut(i);
    match right.first_mut() {
        Some(x) => x,
        None => vstd::pervasive::unreached(),
    }
}

/// The set of numbers below `n` has `n` members.
pub proof fn lemma_range_len(n: int)
    requires
        n >= 0,
    ensures
        Set::new(|k: int| 0 <= k < n).len() == n,
        Set::new(|k: int| 0 <= k < n).finite(),
    decreases n,
{
    if n == 0 {
        assert(Set::new(|k: int| 0 <= k < n) =~= Set::<int>::empty());
    } else {
        lemma_range_len(n - 1);
        assert(Set::new(|k: int| 0 <= k < n) =~= Set::new(|k: int| 0 <= k < n - 1).insert(n - 1));
    }
}

/// Distinct numbers below `m`, none of them equal to `x < m`, are fewer than
/// `m`.
pub proof fn lemma_distinct_below(s: Seq<u32>, m: int, x: int)
    requires
        s.no_duplicates(),
        0 <= x < m,
        forall|k: int| 0 <= k < s.len() ==> 0 <= #[trigger] s[k] < m && s[k] != x,
    ensures
        s.len() < m,
{
    let t = s.map_values(|v: u32| v as int);
    assert forall|i: int, j: int| 0 <= i < t.len() && 0 <= j < t.len() && i != j implies t[i]
        != t[j] by {
        assert(s[i] != s[j]);
    }
    assert(t.no_duplicates());
    t.unique_seq_to_set();
    let range = Set::new(|k: int| 0 <= k < m);
    lemma_range_len(m);
    let smaller = range.remove(x);
    assert(t.to_set().subset_of(smaller)) by {
        assert forall|v: int| t.to_set().contains(v) implies smaller.contains(v) by {
            let w = choose|w: int| 0 <= w < t.len() && t[w] == v;
            assert(s[w] as int == v);
        }
    }
    vstd::set_lib::lemma_len_subset(t.to_set(), smaller);
}

} // verus!
