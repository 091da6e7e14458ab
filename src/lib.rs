//! Tools for type-safe, canonical data representations.
//!
//! A value is *canonical* when it is the one designated representation among
//! all the representations that mean the same thing. Three independent
//! capabilities describe this: [`IsCanonical`] tests for it, [`Canonicalize`]
//! establishes it in place, and [`CanonicalOrd`] supplies the ordering that
//! collections use to sort and deduplicate their elements. The envelope
//! [`Canonical`] can only be built around a value proved canonical.

use vstd::prelude::*;

pub mod order;
pub mod collections;
pub mod envelope;
pub mod text;

pub use envelope::Canonical;
pub use order::is_sorted_strictly_by;

verus! {

use core::cmp::Ordering;

/// The ordering relations that canonical collections are built from.
///
/// `canonical_cmp` is the primary sort key. `canonical_dedup_cmp` only breaks
/// ties between values that the primary ordering considers equal, and decides
/// which of them survives deduplication: the one it ranks `Less` is kept.
pub trait CanonicalOrd: Sized {
    /// The primary ordering.
    spec fn spec_canonical_cmp(&self, other: &Self) -> Ordering;

    /// The tie-break ordering, only consulted between primary-equal values.
    spec fn spec_canonical_dedup_cmp(&self, other: &Self) -> Ordering;

    /// The primary ordering is antisymmetric: swapping the operands reverses it.
    proof fn lemma_canonical_cmp_antisymmetric(a: &Self, b: &Self)
        ensures
            a.spec_canonical_cmp(b) == order::reversed(b.spec_canonical_cmp(a)),
    ;

    /// The primary ordering is transitive: `a <= b < c` implies `a < c`.
    proof fn lemma_canonical_cmp_transitive(a: &Self, b: &Self, c: &Self)
        requires
            a.spec_canonical_cmp(b) != Ordering::Greater,
            b.spec_canonical_cmp(c) == Ordering::Less,
        ensures
            a.spec_canonical_cmp(c) == Ordering::Less,
    ;

    fn canonical_cmp(&self, other: &Self) -> (r: Ordering)
        ensures
            r == self.spec_canonical_cmp(other),
    ;

    /// Ordering for deduplication.
    ///
    /// Only used for disambiguation, i.e. chained after the primary
    /// comparison `canonical_cmp()`. Returns `Ordering::Less` for items that
    /// take precedence during deduplication; `Ordering::Equal` lets the one
    /// met first survive.
    fn canonical_dedup_cmp(&self, other: &Self) -> (r: Ordering)
        requires
            self.spec_canonical_cmp(other) == Ordering::Equal,
        ensures
            r == self.spec_canonical_dedup_cmp(other),
    ;
}

/// A decidable test for canonical form.
pub trait IsCanonical {
    /// Whether the representation of `self` is canonical.
    spec fn spec_is_canonical(&self) -> bool;

    /// Check if the representation of `self` is canonical.
    fn is_canonical(&self) -> (r: bool)
        ensures
            r == self.spec_is_canonical(),
    ;
}

/// An in-place normalisation into canonical form.
pub trait Canonicalize: IsCanonical + Sized {
    /// `result` is the canonical form that canonicalizing `self` produces.
    spec fn spec_canonicalizes_to(&self, result: &Self) -> bool;

    /// Mutate `self` into a canonical representation.
    ///
    /// Afterwards `is_canonical()` returns `true`, so `self` may be enclosed
    /// in a [`Canonical`] envelope.
    fn canonicalize(&mut self)
        ensures
            (*final(self)).spec_is_canonical(),
            old(self).spec_canonicalizes_to(final(self)),
    ;
}

/// Canonicalize a value and seal the result in an envelope.
pub trait CanonicalizeInto<T: IsCanonical>: Sized {
    /// `result` is the envelope that `canonicalize_into` returns for `self`.
    spec fn spec_canonicalizes_into(&self, result: &T) -> bool;

    /// Transform `self` into a canonical representation.
    fn canonicalize_into(self) -> (r: Canonical<T>)
        ensures
            self.spec_canonicalizes_into(&r.value()),
            r.value().spec_is_canonical(),
    ;
}

impl<T: Canonicalize> CanonicalizeInto<T> for T {
    open spec fn spec_canonicalizes_into(&self, result: &T) -> bool {
        self.spec_canonicalizes_to(result)
    }

    fn canonicalize_into(self) -> (r: Canonical<T>) {
        let mut value = self;
        value.canonicalize();
        Canonical::tie(value)
    }
}

} // verus!
