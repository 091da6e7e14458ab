//! The envelope that certifies canonical form by construction.

use vstd::prelude::*;

verus! {

use crate::IsCanonical;

/// Type-safe envelope for immutable, canonical data.
///
/// A `Canonical<T>` exists only around a value for which
/// `spec_is_canonical()` holds, and it never hands out mutable access, so the
/// value stays canonical for as long as the envelope lives.
#[derive(Debug, PartialEq, Eq, PartialOrd, Ord, Hash)]
pub struct Canonical<T: IsCanonical>(T);

impl<T: IsCanonical> Canonical<T> {
    /// The enclosed value.
    pub closed spec fn value(&self) -> T {
        self.0
    }

    #[verifier::type_invariant]
    spec fn enclosed_is_canonical(&self) -> bool {
        self.0.spec_is_canonical()
    }

    /// Enclose the argument into an immutable `Canonical` envelope.
    ///
    /// The argument must be canonical, e.g. because
    /// `Canonicalize::canonicalize()` was invoked on it beforehand.
    #[must_use]
    pub fn tie(canonical: T) -> (r: Self)
        requires
            canonical.spec_is_canonical(),
        ensures
            r.value() == canonical,
    {
        Canonical(canonical)
    }

    /// Enclose the argument into an immutable `Canonical` envelope.
    ///
    /// Meant for values that are canonical by construction, such as an
    /// empty sequence; the obligation to show it rests with the caller's
    /// proof alone.
    #[must_use]
    pub fn tie_unchecked(canonical: T) -> (r: Self)
        requires
            canonical.spec_is_canonical(),
        ensures
            r.value() == canonical,
    {
        Canonical(canonical)
    }

    /// Release the enclosed value from the `Canonical` envelope.
    #[must_use]
    pub fn untie(self) -> (r: T)
        ensures
            r == self.value(),
            r.spec_is_canonical(),
    {
        proof {
            use_type_invariant(&self);
        }
        let Canonical(canonical) = self;
        canonical
    }

    /// Borrow the enclosed value.
    pub fn as_ref(&self) -> (r: &T)
        ensures
            *r == self.value(),
            r.spec_is_canonical(),
    {
        proof {
            use_type_invariant(self);
        }
        &self.0
    }

    /// A canonical view of the enclosed value, by reference.
    #[must_use]
    pub fn as_canonical_ref(&self) -> (r: Canonical<&T>)
        ensures
            *r.value() == self.value(),
    {
        Canonical(self.as_ref())
    }
}

impl<T: IsCanonical> core::ops::Deref for Canonical<T> {
    type Target = T;

    fn deref(&self) -> (r: &T)
        ensures
            *r == self.value(),
    {
        self.as_ref()
    }
}

impl<T: IsCanonical> IsCanonical for Canonical<T> {
    open spec fn spec_is_canonical(&self) -> bool {
        true
    }

    /// An envelope is canonical by construction, never by inspection.
    fn is_canonical(&self) -> (r: bool) {
        true
    }
}

impl<'a, T: IsCanonical + ?Sized> IsCanonical for &'a T {
    open spec fn spec_is_canonical(&self) -> bool {
        (**self).spec_is_canonical()
    }

    fn is_canonical(&self) -> (r: bool) {
        (**self).is_canonical()
    }
}

impl<'a, T: IsCanonical + ?Sized> IsCanonical for &'a mut T {
    open spec fn spec_is_canonical(&self) -> bool {
        (**self).spec_is_canonical()
    }

    fn is_canonical(&self) -> (r: bool) {
        (**self).is_canonical()
    }
}

} // verus!
