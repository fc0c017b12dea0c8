//! Lists of numbers in order.

use vstd::prelude::*;

verus! {

pub open spec fn increasing(s: Seq<usize>) -> bool {
    forall|i: int, j: int| 0 <= i < j < s.len() ==> s[i] < s[j]
}

pub open spec fn non_decreasing(s: Seq<usize>) -> bool {
    forall|i: int, j: int| 0 <= i <= j < s.len() ==> s[i] <= s[j]
}

/// What increases never stays the same, and what does not decrease may.
pub proof fn lemma_increasing(s: Seq<usize>)
    ensures
        increasing(s) ==> non_decreasing(s) && s.no_duplicates(),
        (forall|i: int, j: int| 0 <= i < j < s.len() ==> s[i] < s[j]) ==> increasing(s),
        (forall|i: int, j: int| 0 <= i < j < s.len() ==> s[i] <= s[j]) ==> non_decreasing(s),
        non_decreasing(s) && s.no_duplicates() ==> increasing(s),
{
}

/// The position before which all numbers are smaller, and from which on none
/// is.
fn lower_bound(v: &Vec<usize>, x: usize) -> (k: usize)
    requires
        non_decreasing(v@),
    ensures
        k <= v@.len(),
        forall|i: int| 0 <= i < k ==> v@[i] < x,
        forall|i: int| k <= i < v@.len() ==> x <= v@[i],
{
    let mut k: usize = 0;
    while k < v.len() && v[k] < x
        invariant
            k <= v@.len(),
            non_decreasing(v@),
            forall|i: int| 0 <= i < k ==> v@[i] < x,
        decreases v@.len() - k,
    {
        k = k + 1;
    }
    k
}

/// The numbers in increasing order, each once.
pub fn sorted_unique(input: &Vec<usize>) -> (r: Vec<usize>)
    ensures
        increasing(r@),
        forall|i: int, j: int| 0 <= i < j < r@.len() ==> #[trigger] r@[i] < #[trigger] r@[j],
        forall|x: usize| r@.contains(x) <==> input@.contains(x),
{
    let mut r: Vec<usize> = Vec::new();
    let mut i: usize = 0;
    while i < input.len()
        invariant
            i <= input@.len(),
            increasing(r@),
            forall|x: usize| r@.contains(x) <==> input@.take(i as int).contains(x),
        decreases input@.len() - i,
    {
        let x = input[i];
        let ghost r0 = r@;
        let k = lower_bound(&r, x);
        if k < r.len() && r[k] == x {
            assert(r@[k as int] == x);
            assert(r@.contains(x));
        } else {
            r.insert(k, x);
            proof {
                assert(r@ =~= r0.insert(k as int, x));
                assert forall|y: usize| r@.contains(y) <==> r0.contains(y) || y == x by {
                    if r@.contains(y) {
                        let j = choose|j: int| 0 <= j < r@.len() && r@[j] == y;
                        if j < k {
                            assert(r0[j] == y);
                        } else if j > k {
                            assert(r0[j - 1] == y);
                        }
                    }
                    if r0.contains(y) {
                        let j = choose|j: int| 0 <= j < r0.len() && r0[j] == y;
                        if j < k {
                            assert(r@[j] == y);
                        } else {
                            assert(r@[j + 1] == y);
                        }
                    }
                    assert(r@[k as int] == x);
                }
            }
        }
        assert(forall|y: usize| r@.contains(y) <==> r0.contains(y) || y == x);
        let ghost t0 = input@.take(i as int);
        let ghost t1 = input@.take(i + 1);
        proof {
            assert forall|y: usize| t1.contains(y) <==> t0.contains(y) || y == x by {
                if t1.contains(y) {
                    let j = choose|j: int| 0 <= j < t1.len() && t1[j] == y;
                    if j < i {
                        assert(t0[j] == y);
                    }
                }
                if t0.contains(y) {
                    let j = choose|j: int| 0 <= j < t0.len() && t0[j] == y;
                    assert(t1[j] == y);
                }
                assert(t1[i as int] == x);
            }
            assert forall|y: usize| r@.contains(y) <==> t1.contains(y) by {
                assert(r0.contains(y) <==> t0.contains(y));
            }
        }
        i = i + 1;
    }
    assert(input@.take(i as int) =~= input@);
    r
}

/// The numbers in order, each as often as before.
pub open spec fn in_order(s: Seq<usize>) -> Seq<usize> {
    s.sort_by(|a: usize, b: usize| a <= b)
}

/// There is only one way to put numbers in order.
pub proof fn lemma_in_order(s: Seq<usize>, r: Seq<usize>)
    requires
        non_decreasing(r),
        r.to_multiset() == s.to_multiset(),
    ensures
        r == in_order(s),
{
    let le = |a: usize, b: usize| a <= b;
    assert(vstd::relations::total_ordering(le));
    s.lemma_sort_by_ensures(le);
    assert(vstd::relations::sorted_by(r, le));
    vstd::seq_lib::lemma_sorted_unique(r, in_order(s), le);
}

/// The numbers in order are in order, and each is there as often as before.
pub proof fn lemma_in_order_is_ordered(s: Seq<usize>)
    ensures
        in_order(s).len() == s.len(),
        in_order(s).to_multiset() == s.to_multiset(),
        forall|i: int, j: int|
            0 <= i <= j < s.len() ==> #[trigger] in_order(s)[i] <= #[trigger] in_order(s)[j],
{
    broadcast use vstd::seq_lib::group_to_multiset_ensures;

    let le = |a: usize, b: usize| a <= b;
    let r = in_order(s);
    assert(vstd::relations::total_ordering(le));
    s.lemma_sort_by_ensures(le);
    assert(r.len() == r.to_multiset().len());
    assert(s.len() == s.to_multiset().len());
    assert(vstd::relations::sorted_by(r, le));
    assert forall|i: int, j: int| 0 <= i <= j < s.len() implies #[trigger] r[i] <= #[trigger] r[j]
    by {
        if i < j {
            assert(le(r[i], r[j]));
        }
    }
}

/// Putting numbers in order adds none and loses none.
pub proof fn lemma_in_order_within(s: Seq<usize>, bound: nat)
    requires
        forall|k: int| 0 <= k < s.len() ==> (#[trigger] s[k]) < bound,
    ensures
        in_order(s).len() == s.len(),
        forall|k: int| 0 <= k < s.len() ==> (#[trigger] in_order(s)[k]) < bound,
{
    broadcast use vstd::seq_lib::group_to_multiset_ensures;

    let le = |a: usize, b: usize| a <= b;
    let r = in_order(s);
    assert(vstd::relations::total_ordering(le));
    s.lemma_sort_by_ensures(le);
    assert(r.len() == r.to_multiset().len());
    assert(s.len() == s.to_multiset().len());
    assert forall|k: int| 0 <= k < r.len() implies (#[trigger] r[k]) < bound by {
        assert(r.contains(r[k]));
        assert(r.to_multiset().count(r[k]) > 0);
        assert(s.contains(r[k]));
    }
}

/// Puts the numbers in order.
pub fn sorted(input: &Vec<usize>) -> (r: Vec<usize>)
    ensures
        r@ == in_order(input@),
        r@.len() == input@.len(),
        r@.to_multiset() == input@.to_multiset(),
        forall|i: int, j: int|
            0 <= i <= j < r@.len() ==> #[trigger] r@[i] <= #[trigger] r@[j],
{
    broadcast use vstd::seq_lib::group_to_multiset_ensures;

    let mut r: Vec<usize> = Vec::new();
    let mut i: usize = 0;
    assert(input@.take(0) =~= Seq::<usize>::empty());
    while i < input.len()
        invariant
            i <= input@.len(),
            non_decreasing(r@),
            r@.len() == i,
            r@.to_multiset() == input@.take(i as int).to_multiset(),
        decreases input@.len() - i,
    {
        broadcast use vstd::seq_lib::group_to_multiset_ensures;

        let x = input[i];
        let ghost r0 = r@;
        let k = lower_bound(&r, x);
        r.insert(k, x);
        proof {
            assert(r@ =~= r0.insert(k as int, x));
            assert(input@.take(i + 1) =~= input@.take(i as int).push(x));
            vstd::seq_lib::to_multiset_insert(r0, k as int, x);
        }
        i = i + 1;
    }
    proof {
        assert(input@.take(i as int) =~= input@);
        lemma_in_order(input@, r@);
    }
    r
}

/// Whether the list holds the number.
pub fn list_contains(v: &Vec<usize>, x: usize) -> (r: bool)
    ensures
        r == v@.contains(x),
{
    let mut i: usize = 0;
    while i < v.len()
        invariant
            i <= v@.len(),
            forall|j: int| 0 <= j < i ==> v@[j] != x,
        decreases v@.len() - i,
    {
        if v[i] == x {
            assert(v@[i as int] == x);
            return true;
        }
        i = i + 1;
    }
    false
}

} // verus!
