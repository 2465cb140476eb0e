//! Lists kept in strictly increasing key order, and the one operation that
//! grows one: putting a new element where its key belongs.
use vstd::prelude::*;

verus! {

/// Something ordered by a numeric key.
pub trait Keyed: Copy {
    /// The key, as a number.
    spec fn key_spec(&self) -> int;

    /// The key, computed.
    fn key(&self) -> (r: u64)
        ensures
            r as int == self.key_spec(),
    ;
}

/// Keys strictly increasing.
pub open spec fn strictly_sorted<T: Keyed>(s: Seq<T>) -> bool {
    forall|i: int, j: int| 0 <= i < j < s.len() ==> s[i].key_spec() < s[j].key_spec()
}

/// Puts `x` into an ordered list at the place its key belongs. `acc` is the
/// list's contents as a sequence in any order; no element of it shares `x`'s key.
pub fn insert_sorted<T: Keyed>(v: &mut Vec<T>, x: T, Ghost(acc): Ghost<Seq<T>>)
    requires
        strictly_sorted(old(v)@),
        old(v)@.to_set() == acc.to_set(),
        old(v)@.len() == acc.len(),
        acc.len() < usize::MAX,
        forall|k: int| 0 <= k < acc.len() ==> (#[trigger] acc[k]).key_spec() != x.key_spec(),
    ensures
        strictly_sorted(final(v)@),
        final(v)@.to_set() == acc.push(x).to_set(),
        final(v)@.len() == acc.len() + 1,
{
    let key = x.key();
    let mut lo: usize = 0;
    let mut hi: usize = v.len();
    while lo < hi
        invariant
            0 <= lo <= hi <= v@.len(),
            v@ == old(v)@,
            strictly_sorted(v@),
            key as int == x.key_spec(),
            old(v)@.to_set() == acc.to_set(),
            forall|k: int| 0 <= k < acc.len() ==> (#[trigger] acc[k]).key_spec() != x.key_spec(),
            forall|i: int| 0 <= i < lo ==> v@[i].key_spec() < key,
            forall|i: int| hi <= i < v@.len() ==> v@[i].key_spec() > key,
        decreases hi - lo,
    {
        let mid = lo + (hi - lo) / 2;
        let k = v[mid].key();
        proof {
            assert(v@.to_set().contains(v@[mid as int]));
            assert(acc.to_set().contains(v@[mid as int]));
            let w = choose|w: int| 0 <= w < acc.len() && acc[w] == v@[mid as int];
            assert(acc[w].key_spec() != x.key_spec());
        }
        if k < key {
            lo = mid + 1;
        } else {
            hi = mid;
        }
    }
    let ghost before = v@;
    v.insert(lo, x);
    proof {
        let after = v@;
        assert(after == before.insert(lo as int, x));
        assert forall|i: int, j: int| 0 <= i < j < after.len() implies after[i].key_spec()
            < after[j].key_spec() by {
            if j < lo {
            } else if i > lo {
                assert(after[i] == before[i - 1]);
                assert(after[j] == before[j - 1]);
            } else if i == lo {
                assert(after[j] == before[j - 1]);
            } else if j == lo {
            } else {
                assert(after[j] == before[j - 1]);
            }
        }
        assert forall|y: T| after.to_set().contains(y) <==> acc.push(x).to_set().contains(y) by {
            if after.to_set().contains(y) {
                let w = choose|w: int| 0 <= w < after.len() && after[w] == y;
                if w < lo {
                    assert(before.to_set().contains(before[w]));
                    let u = choose|u: int| 0 <= u < acc.len() && acc[u] == before[w];
                    assert(acc.push(x)[u] == y);
                } else if w == lo {
                    assert(acc.push(x)[acc.len() as int] == y);
                } else {
                    assert(before.to_set().contains(before[w - 1]));
                    let u = choose|u: int| 0 <= u < acc.len() && acc[u] == before[w - 1];
                    assert(acc.push(x)[u] == y);
                }
            }
            if acc.push(x).to_set().contains(y) {
                let w = choose|w: int| 0 <= w < acc.len() + 1 && acc.push(x)[w] == y;
                if w == acc.len() {
                    assert(after[lo as int] == y);
                } else {
                    assert(acc.to_set().contains(acc[w]));
                    assert(before.to_set().contains(acc[w]));
                    let u = choose|u: int| 0 <= u < before.len() && before[u] == acc[w];
                    if u < lo {
                        assert(after[u] == y);
                    } else {
                        assert(after[u + 1] == y);
                    }
                }
            }
        }
        assert(after.to_set() =~= acc.push(x).to_set());
    }
}

/// In a strictly ordered list, a key picks out at most one element.
pub proof fn lemma_key_unique<T: Keyed>(s: Seq<T>, i: int, j: int)
    requires
        strictly_sorted(s),
        0 <= i < s.len(),
        0 <= j < s.len(),
        s[i].key_spec() == s[j].key_spec(),
    ensures
        i == j,
{
    if i < j {
        assert(s[i].key_spec() < s[j].key_spec());
    } else if j < i {
        assert(s[j].key_spec() < s[i].key_spec());
    }
}

/// The position of the element with the given key in an ordered list, if
/// there is one: a binary search.
pub fn find_key<T: Keyed>(v: &Vec<T>, key: u64) -> (r: Option<usize>)
    requires
        strictly_sorted(v@),
    ensures
        r matches Some(i) ==> i < v@.len() && v@[i as int].key_spec() == key,
        r is None ==> forall|i: int| 0 <= i < v@.len() ==> v@[i].key_spec() != key,
{
    let mut lo: usize = 0;
    let mut hi: usize = v.len();
    while lo < hi
        invariant
            0 <= lo <= hi <= v@.len(),
            strictly_sorted(v@),
            forall|i: int| 0 <= i < lo ==> v@[i].key_spec() < key,
            forall|i: int| hi <= i < v@.len() ==> v@[i].key_spec() > key,
        decreases hi - lo,
    {
        let mid = lo + (hi - lo) / 2;
        let k = v[mid].key();
        if k == key {
            return Some(mid);
        } else if k < key {
            lo = mid + 1;
        } else {
            hi = mid;
        }
    }
    None
}

/// The distinct elements of `items`, in key order. The key must tell elements
/// apart, so that two with the same key are the same element.
pub fn sorted_distinct<T: Keyed>(items: &[T]) -> (r: Vec<T>)
    requires
        forall|a: T, b: T| a.key_spec() == b.key_spec() ==> a == b,
    ensures
        strictly_sorted(r@),
        r@.to_set() == items@.to_set(),
        r@.no_duplicates(),
        r@.len() == items@.to_set().len(),
{
    let mut out: Vec<T> = Vec::new();
    let ghost mut acc: Seq<T> = Seq::empty();
    let mut i: usize = 0;
    while i < items.len()
        invariant
            0 <= i <= items@.len(),
            forall|a: T, b: T| a.key_spec() == b.key_spec() ==> a == b,
            strictly_sorted(out@),
            out@.to_set() == items@.subrange(0, i as int).to_set(),
            out@.to_set() == acc.to_set(),
            out@.len() == acc.len(),
            acc.len() <= i,
        decreases items@.len() - i,
    {
        let x = items[i];
        let found = find_key(&out, x.key()).is_some();
        proof {
            assert(items@.subrange(0, i as int + 1) =~= items@.subrange(0, i as int).push(x));
            items@.subrange(0, i as int).lemma_push_to_set_commute(x);
        }
        if !found {
            proof {
                assert forall|k: int| 0 <= k < acc.len() implies (#[trigger] acc[k]).key_spec() != x.key_spec() by {
                    assert(acc.to_set().contains(acc[k]));
                    assert(out@.to_set().contains(acc[k]));
                }
            }
            insert_sorted(&mut out, x, Ghost(acc));
            proof {
                acc.lemma_push_to_set_commute(x);
                acc = acc.push(x);
                assert(out@.to_set() =~= items@.subrange(0, i as int + 1).to_set());
            }
        } else {
            proof {
                let w = choose|w: int| 0 <= w < out@.len() && out@[w].key_spec() == x.key_spec();
                assert(out@[w] == x);
                assert(out@.to_set().contains(x));
                assert(out@.to_set() =~= items@.subrange(0, i as int + 1).to_set());
            }
        }
        i = i + 1;
    }
    proof {
        assert(items@.subrange(0, items@.len() as int) =~= items@);
        assert(out@.no_duplicates()) by {
            assert forall|x: int, y: int| 0 <= x < out@.len() && 0 <= y < out@.len() && x != y implies out@[x] != out@[y] by {
                if x < y { assert(out@[x].key_spec() < out@[y].key_spec()); }
                else { assert(out@[y].key_spec() < out@[x].key_spec()); }
            }
        }
        out@.unique_seq_to_set();
    }
    out
}

/// An ordered list read as a map from key to element.
pub open spec fn map_of<T: Keyed>(s: Seq<T>) -> Map<int, T> {
    Map::new(
        |k: int| exists|i: int| 0 <= i < s.len() && s[i].key_spec() == k,
        |k: int| s[choose|i: int| 0 <= i < s.len() && s[i].key_spec() == k],
    )
}

/// In an ordered list, the map holds each element under its own key.
pub proof fn lemma_map_of_index<T: Keyed>(s: Seq<T>, i: int)
    requires
        strictly_sorted(s),
        0 <= i < s.len(),
    ensures
        map_of(s).contains_key(s[i].key_spec()),
        map_of(s)[s[i].key_spec()] == s[i],
{
    let j = choose|j: int| 0 <= j < s.len() && s[j].key_spec() == s[i].key_spec();
    lemma_key_unique(s, i, j);
}

/// The element with the given key, if the ordered list has one.
pub fn get_key<T: Keyed>(v: &Vec<T>, key: u64) -> (r: Option<T>)
    requires
        strictly_sorted(v@),
    ensures
        r == if map_of(v@).contains_key(key as int) {
            Some(map_of(v@)[key as int])
        } else {
            None::<T>
        },
{
    match find_key(v, key) {
        Some(i) => {
            proof {
                lemma_map_of_index(v@, i as int);
            }
            Some(v[i])
        },
        None => None,
    }
}

/// Puts `x` under its key, replacing the element that had that key, keeping
/// the list ordered.
pub fn upsert<T: Keyed>(v: &mut Vec<T>, x: T)
    requires
        strictly_sorted(old(v)@),
    ensures
        strictly_sorted(final(v)@),
        map_of(final(v)@) == map_of(old(v)@).insert(x.key_spec(), x),
        final(v)@.len() <= old(v)@.len() + 1,
{
    let key = x.key();
    let mut lo: usize = 0;
    let mut hi: usize = v.len();
    while lo < hi
        invariant
            0 <= lo <= hi <= v@.len(),
            v@ == old(v)@,
            strictly_sorted(v@),
            key as int == x.key_spec(),
            forall|i: int| 0 <= i < lo ==> v@[i].key_spec() < key,
            forall|i: int| hi <= i < v@.len() ==> v@[i].key_spec() >= key,
        decreases hi - lo,
    {
        let mid = lo + (hi - lo) / 2;
        if v[mid].key() < key {
            lo = mid + 1;
        } else {
            hi = mid;
        }
    }
    let ghost before = v@;
    if lo < v.len() && v[lo].key() == key {
        v.set(lo, x);
        proof {
            let after = v@;
            assert forall|i: int, j: int| 0 <= i < j < after.len() implies after[i].key_spec()
                < after[j].key_spec() by {
                assert(before[i].key_spec() < before[j].key_spec());
            }
            assert forall|k: int| #[trigger] map_of(after).contains_key(k) <==> map_of(before).insert(
                key as int,
                x,
            ).contains_key(k) by {
                if map_of(after).contains_key(k) {
                    let w = choose|w: int| 0 <= w < after.len() && after[w].key_spec() == k;
                    if w != lo {
                        assert(before[w] == after[w]);
                    }
                }
                if map_of(before).contains_key(k) && k != key {
                    let w = choose|w: int| 0 <= w < before.len() && before[w].key_spec() == k;
                    assert(after[w] == before[w]);
                }
                if k == key {
                    assert(after[lo as int].key_spec() == k);
                }
            }
            assert forall|k: int| #[trigger] map_of(after).contains_key(k) implies map_of(after)[k]
                == map_of(before).insert(key as int, x)[k] by {
                let w = choose|w: int| 0 <= w < after.len() && after[w].key_spec() == k;
                lemma_map_of_index(after, w);
                if w != lo {
                    assert(before[w] == after[w]);
                    lemma_map_of_index(before, w);
                }
            }
            assert(map_of(after) =~= map_of(before).insert(key as int, x));
        }
    } else {
        v.insert(lo, x);
        proof {
            let after = v@;
            assert(after == before.insert(lo as int, x));
            assert forall|i: int, j: int| 0 <= i < j < after.len() implies after[i].key_spec()
                < after[j].key_spec() by {
                if j < lo {
                    assert(before[i].key_spec() < before[j].key_spec());
                } else if i > lo {
                    assert(after[i] == before[i - 1]);
                    assert(after[j] == before[j - 1]);
                    assert(before[i - 1].key_spec() < before[j - 1].key_spec());
                } else if i == lo {
                    assert(after[j] == before[j - 1]);
                    if j - 1 > lo {
                        assert(before[lo as int].key_spec() < before[j - 1].key_spec());
                    }
                } else {
                    if j > lo {
                        assert(after[j] == before[j - 1]);
                    }
                }
            }
            assert forall|k: int| #[trigger] map_of(after).contains_key(k) <==> map_of(before).insert(
                key as int,
                x,
            ).contains_key(k) by {
                if map_of(after).contains_key(k) {
                    let w = choose|w: int| 0 <= w < after.len() && after[w].key_spec() == k;
                    if w < lo {
                        assert(before[w] == after[w]);
                    } else if w > lo {
                        assert(before[w - 1] == after[w]);
                    }
                }
                if map_of(before).contains_key(k) {
                    let w = choose|w: int| 0 <= w < before.len() && before[w].key_spec() == k;
                    if w < lo {
                        assert(after[w] == before[w]);
                    } else {
                        assert(after[w + 1] == before[w]);
                    }
                }
                if k == key {
                    assert(after[lo as int].key_spec() == k);
                }
            }
            assert forall|k: int| #[trigger] map_of(after).contains_key(k) implies map_of(after)[k]
                == map_of(before).insert(key as int, x)[k] by {
                let w = choose|w: int| 0 <= w < after.len() && after[w].key_spec() == k;
                lemma_map_of_index(after, w);
                if w < lo {
                    assert(before[w] == after[w]);
                    lemma_map_of_index(before, w);
                } else if w > lo {
                    assert(before[w - 1] == after[w]);
                    lemma_map_of_index(before, w - 1);
                }
            }
            assert(map_of(after) =~= map_of(before).insert(key as int, x));
        }
    }
}

/// Takes the element with the given key out, if there is one, keeping the
/// list ordered.
pub fn remove_key<T: Keyed>(v: &mut Vec<T>, key: u64)
    requires
        strictly_sorted(old(v)@),
    ensures
        strictly_sorted(final(v)@),
        map_of(final(v)@) == map_of(old(v)@).remove(key as int),
        final(v)@.len() <= old(v)@.len(),
{
    match find_key(v, key) {
        Some(i) => {
            let ghost before = v@;
            v.remove(i);
            proof {
                let after = v@;
                assert(after == before.remove(i as int));
                assert forall|a: int, b: int| 0 <= a < b < after.len() implies after[a].key_spec()
                    < after[b].key_spec() by {
                    if a < i {
                        if b < i {
                            assert(before[a].key_spec() < before[b].key_spec());
                        } else {
                            assert(after[b] == before[b + 1]);
                            assert(before[a].key_spec() < before[b + 1].key_spec());
                        }
                    } else {
                        assert(after[a] == before[a + 1]);
                        assert(after[b] == before[b + 1]);
                        assert(before[a + 1].key_spec() < before[b + 1].key_spec());
                    }
                }
                assert forall|k: int| #[trigger] map_of(after).contains_key(k) <==> map_of(before).remove(
                    key as int,
                ).contains_key(k) by {
                    if map_of(after).contains_key(k) {
                        let w = choose|w: int| 0 <= w < after.len() && after[w].key_spec() == k;
                        if w < i {
                            assert(before[w] == after[w]);
                            if k == key {
                                lemma_key_unique(before, w, i as int);
                            }
                        } else {
                            assert(before[w + 1] == after[w]);
                            if k == key {
                                lemma_key_unique(before, w + 1, i as int);
                            }
                        }
                    }
                    if map_of(before).contains_key(k) && k != key {
                        let w = choose|w: int| 0 <= w < before.len() && before[w].key_spec() == k;
                        if w < i {
                            assert(after[w] == before[w]);
                        } else {
                            assert(w != i);
                            assert(after[w - 1] == before[w]);
                        }
                    }
                }
                assert forall|k: int| #[trigger] map_of(after).contains_key(k) implies map_of(after)[k]
                    == map_of(before).remove(key as int)[k] by {
                    let w = choose|w: int| 0 <= w < after.len() && after[w].key_spec() == k;
                    lemma_map_of_index(after, w);
                    if w < i {
                        assert(before[w] == after[w]);
                        lemma_map_of_index(before, w);
                    } else {
                        assert(before[w + 1] == after[w]);
                        lemma_map_of_index(before, w + 1);
                    }
                }
                assert(map_of(after) =~= map_of(before).remove(key as int));
            }
        },
        None => {
            proof {
                assert(!map_of(v@).contains_key(key as int));
                assert(map_of(v@) =~= map_of(v@).remove(key as int));
            }
        },
    }
}

/// An ordered list read as a map is the map of all but its last element, with
/// the last element added under its key.
pub proof fn lemma_map_of_drop_last<T: Keyed>(s: Seq<T>)
    requires
        strictly_sorted(s),
        s.len() > 0,
    ensures
        strictly_sorted(s.drop_last()),
        !map_of(s.drop_last()).contains_key(s.last().key_spec()),
        map_of(s) == map_of(s.drop_last()).insert(s.last().key_spec(), s.last()),
{
    let t = s.drop_last();
    let n = s.len() - 1;
    assert(strictly_sorted(t));
    if map_of(t).contains_key(s.last().key_spec()) {
        let j = choose|j: int| 0 <= j < t.len() && t[j].key_spec() == s.last().key_spec();
        assert(s[j].key_spec() < s[n].key_spec());
    }
    lemma_map_of_index(s, n);
    assert forall|k: int| #[trigger] map_of(s).contains_key(k) implies map_of(t).insert(s.last().key_spec(), s.last()).contains_key(k) by {
        let i = choose|i: int| 0 <= i < s.len() && s[i].key_spec() == k;
        if i < n {
            assert(t[i].key_spec() == k);
        }
    }
    assert forall|k: int| #[trigger] map_of(t).insert(s.last().key_spec(), s.last()).contains_key(k) implies map_of(s).contains_key(k) by {
        if k != s.last().key_spec() {
            let i = choose|i: int| 0 <= i < t.len() && t[i].key_spec() == k;
            assert(s[i].key_spec() == k);
        }
    }
    assert forall|k: int| #[trigger] map_of(s).contains_key(k) implies map_of(s)[k] == map_of(t).insert(s.last().key_spec(), s.last())[k] by {
        if k != s.last().key_spec() {
            let i = choose|i: int| 0 <= i < t.len() && t[i].key_spec() == k;
            lemma_map_of_index(t, i);
            assert(s[i] == t[i]);
            lemma_map_of_index(s, i);
        }
    }
    assert(map_of(s) =~= map_of(t).insert(s.last().key_spec(), s.last()));
}


/// Two lists ordered by key that hold the same elements are the same list.
pub proof fn lemma_sorted_by_contents<T: Keyed>(p: Seq<T>, q: Seq<T>)
    requires
        strictly_sorted(p),
        strictly_sorted(q),
        p.to_set() == q.to_set(),
    ensures
        p == q,
    decreases p.len(),
{
    if p.len() == 0 {
        if q.len() > 0 {
            assert(q.to_set().contains(q[0]));
        }
        assert(q.len() == 0);
    } else {
        assert(p.to_set().contains(p[0]));
        assert(q.len() > 0) by {
            if q.len() == 0 {
                assert(q.to_set().contains(p[0]));
            }
        }
        assert(q.to_set().contains(q[0]));
        let j = choose|j: int| 0 <= j < q.len() && q[j] == p[0];
        let k = choose|k: int| 0 <= k < p.len() && p[k] == q[0];
        if j > 0 {
            assert(q[0].key_spec() < q[j].key_spec());
            if k > 0 {
                assert(p[0].key_spec() < p[k].key_spec());
            }
        }
        assert(p[0] == q[0]);
        let pr = p.drop_first();
        let qr = q.drop_first();
        assert forall|x: T| pr.to_set().contains(x) <==> qr.to_set().contains(x) by {
            if pr.to_set().contains(x) {
                let a = choose|a: int| 0 <= a < pr.len() && pr[a] == x;
                assert(p[a + 1] == x);
                assert(p.to_set().contains(x));
                let b = choose|b: int| 0 <= b < q.len() && q[b] == x;
                if b == 0 {
                    assert(p[0].key_spec() < p[a + 1].key_spec());
                }
                assert(qr[b - 1] == x);
            }
            if qr.to_set().contains(x) {
                let a = choose|a: int| 0 <= a < qr.len() && qr[a] == x;
                assert(q[a + 1] == x);
                assert(q.to_set().contains(x));
                let b = choose|b: int| 0 <= b < p.len() && p[b] == x;
                if b == 0 {
                    assert(q[0].key_spec() < q[a + 1].key_spec());
                }
                assert(pr[b - 1] == x);
            }
        }
        assert(pr.to_set() =~= qr.to_set());
        lemma_sorted_by_contents(pr, qr);
        assert(p =~= seq![p[0]] + pr);
        assert(q =~= seq![q[0]] + qr);
    }
}

} // verus!
