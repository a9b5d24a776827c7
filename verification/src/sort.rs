use vstd::prelude::*;
use vstd::seq_lib::*;

verus! {

/// A key together with the index of the item that it belongs to.
#[derive(Clone, Copy, Debug, PartialEq, Eq, Structural)]
pub struct Keyed {
    pub key: i128,
    pub index: usize,
}

impl Keyed {
    /// The order of sorting: by key, and among equal keys by index.
    pub open spec fn before(self, other: Keyed) -> bool {
        self.key < other.key || (self.key == other.key && self.index < other.index)
    }

    /// `before`, or equal in key and index.
    pub open spec fn not_after(self, other: Keyed) -> bool {
        !other.before(self)
    }

    /// `before`, computed.
    pub fn precedes(&self, other: &Keyed) -> (r: bool)
        ensures
            r == self.before(*other),
    {
        self.key < other.key || (self.key == other.key && self.index < other.index)
    }
}

/// Whether no item of `s` stands after a later one.
pub open spec fn ascending(s: Seq<Keyed>) -> bool {
    forall|i: int, j: int| 0 <= i < j < s.len() ==> (#[trigger] s[i]).not_after(#[trigger] s[j])
}

/// Whether each item of `s` carries its own place in `s` as its index.
pub open spec fn numbered(s: Seq<Keyed>) -> bool {
    forall|i: int| 0 <= i < s.len() ==> (#[trigger] s[i]).index == i
}

/// What holds of numbered items once sorted: no two are alike, so each
/// stands strictly before the next; each is the one that its index
/// numbers; and none is missing.
pub proof fn lemma_sorted_numbered(items: Seq<Keyed>, sorted: Seq<Keyed>)
    requires
        numbered(items),
        ascending(sorted),
        sorted.to_multiset() == items.to_multiset(),
    ensures
        sorted.len() == items.len(),
        forall|i: int, j: int|
            0 <= i < j < sorted.len() ==>
                (#[trigger] sorted[i]).before(#[trigger] sorted[j]),
        forall|i: int|
            0 <= i < sorted.len() ==>
                0 <= (#[trigger] sorted[i]).index < items.len() && sorted[i] == items[sorted[i].index as int],
        forall|n: int| 0 <= n < items.len() ==> sorted.contains(#[trigger] items[n]),
{
    broadcast use group_to_multiset_ensures;
    to_multiset_len(sorted);
    to_multiset_len(items);
    assert(items.no_duplicates()) by {
        assert forall|i: int, j: int|
            0 <= i < items.len() && 0 <= j < items.len() && i != j implies
                items[i] != items[j] by {
            assert(items[i].index == i && items[j].index == j);
        }
    }
    items.lemma_multiset_has_no_duplicates();
    sorted.lemma_multiset_has_no_duplicates_conv();
    assert forall|i: int|
        0 <= i < sorted.len() implies
            0 <= (#[trigger] sorted[i]).index < items.len() && sorted[i] == items[sorted[i].index as int] by {
        assert(sorted.contains(sorted[i]));
        assert(items.to_multiset().count(sorted[i]) > 0);
        assert(items.contains(sorted[i]));
        let n = choose|n: int| 0 <= n < items.len() && items[n] == sorted[i];
        assert(items[n].index == n);
    }
    assert forall|n: int| 0 <= n < items.len() implies sorted.contains(#[trigger] items[n]) by {
        assert(items.contains(items[n]));
        assert(sorted.to_multiset().count(items[n]) > 0);
    }
    assert forall|i: int, j: int|
        0 <= i < j < sorted.len() implies
            (#[trigger] sorted[i]).before(#[trigger] sorted[j]) by {
        assert(sorted[i].not_after(sorted[j]));
        assert(sorted[i] != sorted[j]);
    }
}

/// Merges two ascending sequences into one.
fn merge(left: &Vec<Keyed>, right: &Vec<Keyed>) -> (out: Vec<Keyed>)
    requires
        ascending(left@),
        ascending(right@),
        left@.len() + right@.len() <= usize::MAX,
    ensures
        ascending(out@),
        out@.to_multiset() == left@.to_multiset().add(right@.to_multiset()),
{
    let nl: usize = left.len();
    let nr: usize = right.len();
    let mut out: Vec<Keyed> = Vec::new();
    let mut i: usize = 0;
    let mut j: usize = 0;
    proof {
        assert(left@.take(0) =~= Seq::<Keyed>::empty());
        assert(right@.take(0) =~= Seq::<Keyed>::empty());
        broadcast use vstd::multiset::group_multiset_axioms;
        broadcast use group_to_multiset_ensures;
        assert(out@.to_multiset() =~= left@.take(0).to_multiset().add(right@.take(0).to_multiset()));
    }
    while i < nl || j < nr
        invariant
            nl == left@.len(),
            nr == right@.len(),
            i <= nl,
            j <= nr,
            ascending(left@),
            ascending(right@),
            ascending(out@),
            out@.len() == i + j,
            out@.to_multiset() == left@.take(i as int).to_multiset().add(
                right@.take(j as int).to_multiset(),
            ),
            forall|k: int|
                0 <= k < out@.len() && i < nl ==>
                    (#[trigger] out@[k]).not_after(left@[i as int]),
            forall|k: int|
                0 <= k < out@.len() && j < nr ==>
                    (#[trigger] out@[k]).not_after(right@[j as int]),
        decreases (nl - i) + (nr - j),
    {
        let take_left: bool = if i >= nl {
            false
        } else if j >= nr {
            true
        } else {
            !right[j].precedes(&left[i])
        };
        if take_left {
            let x: Keyed = left[i];
            out.push(x);
            proof {
                assert(left@.take(i + 1) =~= left@.take(i as int).push(x));
                broadcast use vstd::multiset::group_multiset_axioms;
                broadcast use group_to_multiset_ensures;
                assert(out@.to_multiset() =~= left@.take(i + 1).to_multiset().add(
                    right@.take(j as int).to_multiset(),
                ));
            }
            i += 1;
        } else {
            let x: Keyed = right[j];
            out.push(x);
            proof {
                assert(right@.take(j + 1) =~= right@.take(j as int).push(x));
                broadcast use vstd::multiset::group_multiset_axioms;
                broadcast use group_to_multiset_ensures;
                assert(out@.to_multiset() =~= left@.take(i as int).to_multiset().add(
                    right@.take(j + 1).to_multiset(),
                ));
            }
            j += 1;
        }
    }
    proof {
        assert(left@.take(nl as int) =~= left@);
        assert(right@.take(nr as int) =~= right@);
    }
    out
}

/// Sorts by key, and among equal keys by index.
pub fn sort_keyed(v: Vec<Keyed>) -> (r: Vec<Keyed>)
    ensures
        ascending(r@),
        r@.to_multiset() == v@.to_multiset(),
        r@.len() == v@.len(),
    decreases v@.len(),
{
    let n: usize = v.len();
    if n <= 1 {
        return v;
    }
    let mid: usize = n / 2;
    let mut left: Vec<Keyed> = Vec::new();
    let mut right: Vec<Keyed> = Vec::new();
    let mut k: usize = 0;
    while k < n
        invariant
            n == v@.len(),
            mid == n / 2,
            k <= n,
            left@ == v@.take(if k < mid { k as int } else { mid as int }),
            right@ == v@.subrange(mid as int, if k < mid { mid as int } else { k as int }),
        decreases n - k,
    {
        if k < mid {
            left.push(v[k]);
            assert(v@.take(k + 1) =~= v@.take(k as int).push(v@[k as int]));
        } else {
            right.push(v[k]);
            assert(v@.subrange(mid as int, k + 1) =~= v@.subrange(mid as int, k as int).push(
                v@[k as int],
            ));
        }
        k += 1;
    }
    proof {
        assert(v@ =~= left@ + right@);
        lemma_multiset_commutative(left@, right@);
    }
    let left_sorted: Vec<Keyed> = sort_keyed(left);
    let right_sorted: Vec<Keyed> = sort_keyed(right);
    let r: Vec<Keyed> = merge(&left_sorted, &right_sorted);
    proof {
        to_multiset_len(r@);
        to_multiset_len(v@);
    }
    r
}

} // verus!
