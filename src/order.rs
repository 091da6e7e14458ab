//! Strict sortedness and the canonical form of sequences.

use vstd::prelude::*;

verus! {

use core::cmp::Ordering;
use crate::{CanonicalOrd, IsCanonical};

/// `o` with its operands swapped.
pub open spec fn reversed(o: Ordering) -> Ordering {
    match o {
        Ordering::Less => Ordering::Greater,
        Ordering::Equal => Ordering::Equal,
        Ordering::Greater => Ordering::Less,
    }
}

/// Each element is strictly below its successor under the primary ordering.
pub open spec fn strictly_sorted<T: CanonicalOrd>(s: Seq<T>) -> bool {
    forall|i: int| 0 <= i < s.len() - 1 ==> #[trigger] s[i].spec_canonical_cmp(&s[i + 1]) == Ordering::Less
}

/// Check if a slice is sorted and does not contain duplicates under the
/// primary ordering.
pub fn is_sorted_strictly_by<T: CanonicalOrd>(s: &[T]) -> (r: bool)
    ensures
        r == strictly_sorted(s@),
{
    let n = s.len();
    let mut i: usize = 0;
    while i + 1 < n
        invariant
            n == s@.len(),
            i == 0 || i < n,
            forall|j: int| 0 <= j < i ==> #[trigger] s@[j].spec_canonical_cmp(&s@[j + 1]) == Ordering::Less,
        decreases n - i,
    {
        let a = &s[i];
        let b = &s[i + 1];
        let c = a.canonical_cmp(b);
        match c {
            Ordering::Less => {},
            _ => {
                assert(!(#[trigger] s@[i as int].spec_canonical_cmp(&s@[i + 1]) == Ordering::Less));
                return false;
            },
        }
        i = i + 1;
    }
    true
}

/// The sequence that results from adding `x` to `s`, which is taken to be in
/// canonical order already: `x` goes in front of the first element that is
/// not below it; where that element is primary-equal to `x`, only one of the
/// two stays, `x` if and only if the tie-break ranks it `Less`.
pub open spec fn merge_into<T: CanonicalOrd>(s: Seq<T>, x: T) -> Seq<T>
    decreases s.len(),
{
    if s.len() == 0 {
        seq![x]
    } else if s[0].spec_canonical_cmp(&x) == Ordering::Less {
        seq![s[0]] + merge_into(s.drop_first(), x)
    } else if s[0].spec_canonical_cmp(&x) == Ordering::Greater {
        seq![x] + s
    } else if x.spec_canonical_dedup_cmp(&s[0]) == Ordering::Less {
        seq![x] + s.drop_first()
    } else {
        s
    }
}

/// The elements of `s` sorted by the primary ordering, with one survivor for
/// each class of primary-equal elements: the first one met among those that
/// the tie-break ranks least.
pub open spec fn canonical_order<T: CanonicalOrd>(s: Seq<T>) -> Seq<T>
    decreases s.len(),
{
    if s.len() == 0 {
        Seq::empty()
    } else {
        merge_into(canonical_order(s.drop_last()), s.last())
    }
}

/// Every element is canonical and the sequence is strictly sorted.
pub open spec fn seq_is_canonical<T: IsCanonical + CanonicalOrd>(s: Seq<T>) -> bool {
    &&& forall|i: int| 0 <= i < s.len() ==> (#[trigger] s[i]).spec_is_canonical()
    &&& strictly_sorted(s)
}

/// In a strictly sorted sequence every element is below every later one.
pub proof fn lemma_sorted_pair<T: CanonicalOrd>(s: Seq<T>, i: int, j: int)
    requires
        strictly_sorted(s),
        0 <= i < j < s.len(),
    ensures
        s[i].spec_canonical_cmp(&s[j]) == Ordering::Less,
    decreases j - i,
{
    if j > i + 1 {
        let k = j - 1;
        lemma_sorted_pair(s, i, k);
        assert(s[k].spec_canonical_cmp(&s[k + 1]) == Ordering::Less);
        assert(s[k + 1] == s[j]);
        T::lemma_canonical_cmp_transitive(&s[i], &s[k], &s[j]);
    } else {
        assert(s[i].spec_canonical_cmp(&s[i + 1]) == Ordering::Less);
    }
}

/// Where the first `i` elements of `s` are below `x` and the next is not,
/// merging leaves those `i` elements in front untouched.
proof fn lemma_merge_split<T: CanonicalOrd>(s: Seq<T>, x: T, i: int)
    requires
        0 <= i <= s.len(),
        forall|j: int| 0 <= j < i ==> #[trigger] s[j].spec_canonical_cmp(&x) == Ordering::Less,
    ensures
        merge_into(s, x) == s.take(i) + merge_into(s.skip(i), x),
    decreases i,
{
    if i == 0 {
        assert(s.take(0) + s == s);
        assert(s.skip(0) == s);
    } else {
        let rest = s.drop_first();
        assert forall|j: int| 0 <= j < i - 1 implies #[trigger] rest[j].spec_canonical_cmp(&x) == Ordering::Less by {
            assert(rest[j] == s[j + 1]);
        }
        lemma_merge_split(rest, x, i - 1);
        assert(s[0].spec_canonical_cmp(&x) == Ordering::Less);
        assert(rest.skip(i - 1) == s.skip(i));
        assert(seq![s[0]] + rest.take(i - 1) == s.take(i));
        assert(seq![s[0]] + (rest.take(i - 1) + merge_into(rest.skip(i - 1), x)) == (seq![s[0]] + rest.take(i - 1)) + merge_into(rest.skip(i - 1), x));
    }
}

/// Merging into a canonical sequence keeps it canonical; the result starts
/// with `x` or with the first element of `s`, and holds only elements of `s`
/// and `x`.
proof fn lemma_merge_canonical<T: IsCanonical + CanonicalOrd>(s: Seq<T>, x: T)
    requires
        seq_is_canonical(s),
        x.spec_is_canonical(),
    ensures
        seq_is_canonical(merge_into(s, x)),
        merge_into(s, x).len() > 0,
        merge_into(s, x)[0] == x || (s.len() > 0 && merge_into(s, x)[0] == s[0]),
    decreases s.len(),
{
    let m = merge_into(s, x);
    if s.len() == 0 {
        assert(m =~= seq![x]);
    } else if s[0].spec_canonical_cmp(&x) == Ordering::Less {
        let rest = s.drop_first();
        assert forall|i: int| 0 <= i < rest.len() - 1 implies #[trigger] rest[i].spec_canonical_cmp(&rest[i + 1]) == Ordering::Less by {
            assert(s[i + 1].spec_canonical_cmp(&s[i + 2]) == Ordering::Less);
        }
        assert forall|i: int| 0 <= i < rest.len() implies (#[trigger] rest[i]).spec_is_canonical() by {
            assert(s[i + 1].spec_is_canonical());
        }
        lemma_merge_canonical(rest, x);
        let mr = merge_into(rest, x);
        assert(m == seq![s[0]] + mr);
        if s.len() > 1 {
            assert(s[0].spec_canonical_cmp(&s[1]) == Ordering::Less);
        }
        assert(s[0].spec_canonical_cmp(&mr[0]) == Ordering::Less);
        assert forall|i: int| 0 <= i < m.len() - 1 implies #[trigger] m[i].spec_canonical_cmp(&m[i + 1]) == Ordering::Less by {
            if i > 0 {
                let k = i - 1;
                assert(m[i] == mr[k]);
                assert(mr[k].spec_canonical_cmp(&mr[k + 1]) == Ordering::Less);
            }
        }
        assert forall|i: int| 0 <= i < m.len() implies (#[trigger] m[i]).spec_is_canonical() by {
            if i > 0 {
                assert(m[i] == mr[i - 1]);
            }
        }
    } else if s[0].spec_canonical_cmp(&x) == Ordering::Greater {
        T::lemma_canonical_cmp_antisymmetric(&x, &s[0]);
        assert(m == seq![x] + s);
        assert forall|i: int| 0 <= i < m.len() - 1 implies #[trigger] m[i].spec_canonical_cmp(&m[i + 1]) == Ordering::Less by {
            if i > 0 {
                let k = i - 1;
                assert(s[k].spec_canonical_cmp(&s[k + 1]) == Ordering::Less);
            }
        }
        assert forall|i: int| 0 <= i < m.len() implies (#[trigger] m[i]).spec_is_canonical() by {
            if i > 0 {
                assert(s[i - 1].spec_is_canonical());
            }
        }
    } else if x.spec_canonical_dedup_cmp(&s[0]) == Ordering::Less {
        T::lemma_canonical_cmp_antisymmetric(&x, &s[0]);
        assert(m == seq![x] + s.drop_first());
        if s.len() > 1 {
            assert(s[0].spec_canonical_cmp(&s[1]) == Ordering::Less);
            T::lemma_canonical_cmp_transitive(&x, &s[0], &s[1]);
        }
        assert forall|i: int| 0 <= i < m.len() - 1 implies #[trigger] m[i].spec_canonical_cmp(&m[i + 1]) == Ordering::Less by {
            if i > 0 {
                assert(s[i].spec_canonical_cmp(&s[i + 1]) == Ordering::Less);
            }
        }
        assert forall|i: int| 0 <= i < m.len() implies (#[trigger] m[i]).spec_is_canonical() by {
            if i > 0 {
                assert(s[i].spec_is_canonical());
            }
        }
    }
}

/// The canonical order of any sequence of canonical elements is canonical.
pub proof fn lemma_canonical_order_is_canonical<T: IsCanonical + CanonicalOrd>(s: Seq<T>)
    requires
        forall|i: int| 0 <= i < s.len() ==> (#[trigger] s[i]).spec_is_canonical(),
    ensures
        seq_is_canonical(canonical_order(s)),
    decreases s.len(),
{
    if s.len() > 0 {
        let p = s.drop_last();
        assert forall|i: int| 0 <= i < p.len() implies (#[trigger] p[i]).spec_is_canonical() by {
            assert(s[i].spec_is_canonical());
        }
        lemma_canonical_order_is_canonical(p);
        assert(s[s.len() - 1].spec_is_canonical());
        lemma_merge_canonical(canonical_order(p), s.last());
    }
}

/// A strictly sorted sequence is its own canonical order.
pub proof fn lemma_canonical_order_of_sorted<T: CanonicalOrd>(s: Seq<T>)
    requires
        strictly_sorted(s),
    ensures
        canonical_order(s) == s,
    decreases s.len(),
{
    if s.len() > 0 {
        let p = s.drop_last();
        let x = s.last();
        assert forall|i: int| 0 <= i < p.len() - 1 implies #[trigger] p[i].spec_canonical_cmp(&p[i + 1]) == Ordering::Less by {
            assert(s[i].spec_canonical_cmp(&s[i + 1]) == Ordering::Less);
        }
        lemma_canonical_order_of_sorted(p);
        assert forall|j: int| 0 <= j < p.len() implies #[trigger] p[j].spec_canonical_cmp(&x) == Ordering::Less by {
            lemma_sorted_pair(s, j, s.len() - 1);
        }
        lemma_merge_split(p, x, p.len() as int);
        assert(p.skip(p.len() as int) =~= Seq::<T>::empty());
        assert(p.take(p.len() as int) == p);
        assert(p + seq![x] =~= s);
    }
}

/// Inserts `x` into `out`, which is in canonical order, as [`merge_into`]
/// describes.
pub(crate) fn insert_canonical<T: CanonicalOrd>(out: &mut Vec<T>, x: T)
    ensures
        final(out)@ == merge_into(old(out)@, x),
{
    let n = out.len();
    let mut i: usize = 0;
    while i < n
        invariant
            n == out@.len(),
            out@ == old(out)@,
            i <= n,
            forall|j: int| 0 <= j < i ==> #[trigger] out@[j].spec_canonical_cmp(&x) == Ordering::Less,
        ensures
            i <= n,
            forall|j: int| 0 <= j < i ==> #[trigger] out@[j].spec_canonical_cmp(&x) == Ordering::Less,
            i < n ==> out@[i as int].spec_canonical_cmp(&x) != Ordering::Less,
        decreases n - i,
    {
        match out[i].canonical_cmp(&x) {
            Ordering::Less => {},
            _ => break,
        }
        i = i + 1;
    }
    let ghost s = out@;
    proof {
        lemma_merge_split(s, x, i as int);
    }
    if i == n {
        assert(s.skip(i as int) =~= Seq::<T>::empty());
        assert(s.take(i as int) =~= s);
        out.push(x);
        assert(out@ =~= s + seq![x]);
    } else {
        let ghost rest = s.skip(i as int);
        assert(rest[0] == s[i as int]);
        match out[i].canonical_cmp(&x) {
            Ordering::Less => {},
            Ordering::Greater => {
                out.insert(i, x);
                assert(out@ =~= s.take(i as int) + (seq![x] + rest));
            },
            Ordering::Equal => {
                proof {
                    T::lemma_canonical_cmp_antisymmetric(&x, &s[i as int]);
                }
                match x.canonical_dedup_cmp(&out[i]) {
                    Ordering::Less => {
                        let _ = out.remove(i);
                        out.insert(i, x);
                        assert(out@ =~= s.take(i as int) + (seq![x] + rest.drop_first()));
                    },
                    _ => {
                        assert(s =~= s.take(i as int) + rest);
                    },
                }
            },
        }
    }
}

} // verus!
