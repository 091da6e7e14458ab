//! Canonical form of optional values and of sequences.

use vstd::prelude::*;

verus! {

use core::cmp::Ordering;
use crate::{Canonical, CanonicalOrd, Canonicalize, IsCanonical};
use crate::order::{
    canonical_order, insert_canonical, is_sorted_strictly_by, lemma_canonical_order_is_canonical,
    lemma_canonical_order_of_sorted, lemma_sorted_pair, merge_into, seq_is_canonical,
};

/// An optional value is canonical if it is absent, or present and canonical.
impl<T: IsCanonical> IsCanonical for Option<T> {
    open spec fn spec_is_canonical(&self) -> bool {
        match self {
            None => true,
            Some(x) => x.spec_is_canonical(),
        }
    }

    fn is_canonical(&self) -> (r: bool) {
        match self {
            None => true,
            Some(x) => x.is_canonical(),
        }
    }
}

/// Canonicalizing an optional value canonicalizes what it holds.
impl<T: Canonicalize> Canonicalize for Option<T> {
    open spec fn spec_canonicalizes_to(&self, result: &Self) -> bool {
        match (self, result) {
            (None, None) => true,
            (Some(x), Some(y)) => x.spec_canonicalizes_to(y),
            _ => false,
        }
    }

    fn canonicalize(&mut self) {
        match self {
            Some(x) => x.canonicalize(),
            None => {},
        }
    }
}

/// A slice is canonical if every element is canonical and the elements are
/// strictly increasing under the primary ordering.
impl<T: IsCanonical + CanonicalOrd> IsCanonical for [T] {
    open spec fn spec_is_canonical(&self) -> bool {
        seq_is_canonical(self@)
    }

    fn is_canonical(&self) -> (r: bool) {
        let n = self.len();
        let mut i: usize = 0;
        while i < n
            invariant
                n == self@.len(),
                i <= n,
                forall|j: int| 0 <= j < i ==> (#[trigger] self@[j]).spec_is_canonical(),
            decreases n - i,
        {
            if !self[i].is_canonical() {
                return false;
            }
            i = i + 1;
        }
        is_sorted_strictly_by(self)
    }
}

/// A vector is canonical if its elements, as a slice, are.
impl<T: IsCanonical + CanonicalOrd> IsCanonical for Vec<T> {
    open spec fn spec_is_canonical(&self) -> bool {
        seq_is_canonical(self@)
    }

    fn is_canonical(&self) -> (r: bool) {
        self.as_slice().is_canonical()
    }
}

/// `c` holds, position for position, what canonicalizing the elements of
/// `s` produces.
pub open spec fn canonicalized_elements<T: Canonicalize>(s: Seq<T>, c: Seq<T>) -> bool {
    &&& s.len() == c.len()
    &&& forall|i: int| 0 <= i < s.len() ==> (#[trigger] s[i]).spec_canonicalizes_to(&c[i])
    &&& forall|i: int| 0 <= i < c.len() ==> (#[trigger] c[i]).spec_is_canonical()
}

/// Canonicalizing a vector canonicalizes each element, then sorts the
/// elements by the primary ordering and keeps one per class of
/// primary-equal elements, as [`canonical_order`] describes.
impl<T: Canonicalize + CanonicalOrd> Canonicalize for Vec<T> {
    open spec fn spec_canonicalizes_to(&self, result: &Self) -> bool {
        exists|c: Seq<T>| #[trigger] canonicalized_elements(self@, c) && result@ == canonical_order(c)
    }

    fn canonicalize(&mut self) {
        let ghost orig = self@;
        let n = self.len();
        let mut out: Vec<T> = Vec::new();
        let ghost mut c: Seq<T> = Seq::empty();
        let mut k: usize = 0;
        while k < n
            invariant
                n == orig.len(),
                k <= n,
                self@ == orig.skip(k as int),
                canonicalized_elements(orig.take(k as int), c),
                out@ == canonical_order(c),
                seq_is_canonical(out@),
            decreases n - k,
        {
            let mut x = self.remove(0);
            assert(x == orig[k as int]);
            x.canonicalize();
            proof {
                let c2 = c.push(x);
                assert(c2.drop_last() =~= c);
                assert(orig.take(k + 1).drop_last() =~= orig.take(k as int));
                lemma_canonical_order_is_canonical(c2);
                c = c2;
            }
            insert_canonical(&mut out, x);
            assert(self@ =~= orig.skip(k + 1));
            k = k + 1;
        }
        assert(orig.take(n as int) =~= orig);
        *self = out;
    }
}

/// Canonicalizing a second time changes nothing: what canonicalizing `v1`
/// gave back, canonicalized again, has the same elements, provided that
/// canonicalizing a canonical element leaves it as it is.
pub proof fn lemma_canonicalize_idempotent<T: Canonicalize + CanonicalOrd>(
    v1: Vec<T>,
    v2: Vec<T>,
    v3: Vec<T>,
)
    requires
        forall|x: T, r: T| x.spec_is_canonical() && #[trigger] x.spec_canonicalizes_to(&r) ==> r == x,
        v1.spec_canonicalizes_to(&v2),
        v2.spec_canonicalizes_to(&v3),
    ensures
        v3@ == v2@,
{
    let c1 = choose|c: Seq<T>| #[trigger] canonicalized_elements(v1@, c) && v2@ == canonical_order(c);
    lemma_canonical_order_is_canonical(c1);
    let c2 = choose|c: Seq<T>| #[trigger] canonicalized_elements(v2@, c) && v3@ == canonical_order(c);
    assert forall|i: int| 0 <= i < c2.len() implies c2[i] == v2@[i] by {
        assert(v2@[i].spec_is_canonical());
        assert(v2@[i].spec_canonicalizes_to(&c2[i]));
    }
    assert(c2 =~= v2@);
    lemma_canonical_order_of_sorted(v2@);
}

/// In a canonical sequence no two elements at different positions compare
/// equal under the primary ordering.
pub proof fn lemma_canonical_has_no_ties<T: IsCanonical + CanonicalOrd>(s: Seq<T>, i: int, j: int)
    requires
        seq_is_canonical(s),
        0 <= i < s.len(),
        0 <= j < s.len(),
        i != j,
    ensures
        s[i].spec_canonical_cmp(&s[j]) != Ordering::Equal,
{
    if i < j {
        lemma_sorted_pair(s, i, j);
    } else {
        lemma_sorted_pair(s, j, i);
        T::lemma_canonical_cmp_antisymmetric(&s[i], &s[j]);
    }
}

/// Of two primary-equal elements, the one that the tie-break ranks `Less`
/// is the one kept, whichever of the two comes first.
pub proof fn lemma_tie_break_keeps_least<T: CanonicalOrd>(a: T, b: T)
    requires
        a.spec_canonical_cmp(&b) == Ordering::Equal,
        a.spec_canonical_dedup_cmp(&b) == Ordering::Less,
        b.spec_canonical_dedup_cmp(&a) == Ordering::Greater,
    ensures
        canonical_order(seq![a, b]) == seq![a],
        canonical_order(seq![b, a]) == seq![a],
{
    T::lemma_canonical_cmp_antisymmetric(&a, &b);
    assert(seq![a, b].drop_last() =~= seq![a]);
    assert(seq![b, a].drop_last() =~= seq![b]);
    assert(seq![a].drop_last() =~= Seq::<T>::empty());
    assert(seq![b].drop_last() =~= Seq::<T>::empty());
    assert(canonical_order(Seq::<T>::empty()) == Seq::<T>::empty());
    assert(seq![a].last() == a);
    assert(seq![b].last() == b);
    assert(canonical_order(seq![a]) == merge_into(canonical_order(seq![a].drop_last()), a));
    assert(canonical_order(seq![b]) == merge_into(canonical_order(seq![b].drop_last()), b));
    assert(merge_into(Seq::<T>::empty(), a) == seq![a]);
    assert(merge_into(Seq::<T>::empty(), b) == seq![b]);
    assert(seq![a, b].last() == b);
    assert(seq![b, a].last() == a);
    assert(merge_into(seq![a], b) == seq![a]);
    assert(merge_into(seq![b], a) == seq![a] + seq![b].drop_first());
    assert(seq![a] + seq![b].drop_first() =~= seq![a]);
}

impl<T: IsCanonical + CanonicalOrd> Canonical<Vec<T>> {
    /// A canonical view of the enclosed vector's elements.
    #[must_use]
    pub fn as_canonical_slice(&self) -> (r: Canonical<&[T]>)
        ensures
            r.value()@ == self.value()@,
    {
        let v = self.as_ref();
        Canonical::tie_unchecked(v.as_slice())
    }
}

} // verus!
