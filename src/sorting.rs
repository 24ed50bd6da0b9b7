use vstd::multiset::Multiset;
use vstd::prelude::*;

verus! {

/// An integer key by which items are sorted.
pub trait SortKey: Copy {
    spec fn key_int(&self) -> int;

    fn key_gt(&self, other: &Self) -> (r: bool)
        ensures
            r == (self.key_int() > other.key_int()),
    ;
}

impl SortKey for u32 {
    open spec fn key_int(&self) -> int {
        *self as int
    }

    fn key_gt(&self, other: &Self) -> (r: bool) {
        *self > *other
    }
}

impl SortKey for usize {
    open spec fn key_int(&self) -> int {
        *self as int
    }

    fn key_gt(&self, other: &Self) -> (r: bool) {
        *self > *other
    }
}

/// Keys that never increase along the sequence.
pub open spec fn is_descending<K: SortKey, G>(s: Seq<(K, G)>) -> bool {
    forall|i: int, j: int| 0 <= i < j < s.len() ==> s[i].0.key_int() >= s[j].0.key_int()
}

/// Sorts keyed items, largest key first. Items with equal keys come in no set order.
pub fn sort_descending<K: SortKey, G>(items: Vec<(K, G)>) -> (r: Vec<(K, G)>)
    ensures
        is_descending(r@),
        r@.to_multiset() == items@.to_multiset(),
        r@.len() == items@.len(),
{
    let mut rest = items;
    let mut out: Vec<(K, G)> = Vec::with_capacity(rest.len());
    proof {
        out@.to_multiset_ensures();
        assert(out@.to_multiset() =~= Multiset::empty());
        assert(Multiset::empty().add(rest@.to_multiset()) =~= rest@.to_multiset());
    }
    while rest.len() > 0
        invariant
            out@.to_multiset().add(rest@.to_multiset()) == items@.to_multiset(),
            is_descending(out@),
            forall|i: int, j: int|
                0 <= i < out@.len() && 0 <= j < rest@.len() ==> out@[i].0.key_int() >= rest@[j].0.key_int(),
        decreases rest@.len(),
    {
        let mut best: usize = 0;
        let mut j: usize = 1;
        while j < rest.len()
            invariant
                1 <= j <= rest@.len(),
                best < rest@.len(),
                forall|k: int| 0 <= k < j ==> rest@[best as int].0.key_int() >= rest@[k].0.key_int(),
            decreases rest@.len() - j,
        {
            if rest[j].0.key_gt(&rest[best].0) {
                best = j;
            }
            j = j + 1;
        }
        let ghost old_rest = rest@;
        let ghost old_out = out@;
        let item = rest.remove(best);
        proof {
            old_rest.to_multiset_ensures();
            old_out.to_multiset_ensures();
        }
        assert(old_rest.remove(best as int).to_multiset() =~= old_rest.to_multiset().remove(item));
        out.push(item);
        assert(old_out.push(item).to_multiset() =~= old_out.to_multiset().insert(item));
        assert(old_rest.to_multiset().count(item) > 0) by {
            assert(old_rest.contains(item)) by {
                assert(old_rest[best as int] == item);
            }
        }
        assert(out@.to_multiset().add(rest@.to_multiset()) =~= items@.to_multiset());
        assert forall|i: int, k: int| 0 <= i < out@.len() && 0 <= k < rest@.len() implies out@[i].0.key_int()
            >= rest@[k].0.key_int() by {
            if k < best {
                assert(rest@[k] == old_rest[k]);
            } else {
                assert(rest@[k] == old_rest[k + 1]);
            }
        }
    }
    proof {
        rest@.to_multiset_ensures();
        assert(rest@.to_multiset() =~= Multiset::empty());
        assert(out@.to_multiset().add(Multiset::empty()) =~= out@.to_multiset());
        out@.to_multiset_ensures();
        items@.to_multiset_ensures();
    }
    out
}

} // verus!
