//! Canonical form of text: no ASCII upper-case letters, ordered by code
//! point.

use vstd::prelude::*;

verus! {

use core::cmp::Ordering;
use crate::{Canonical, CanonicalOrd, Canonicalize, IsCanonical};

/// Whether `c` is one of the ASCII letters `'A'` to `'Z'`.
pub open spec fn is_ascii_upper(c: char) -> bool {
    65 <= (c as u32) <= 90
}

/// Text is canonical when it holds no ASCII upper-case letter.
pub open spec fn text_is_canonical(s: Seq<char>) -> bool {
    forall|i: int| 0 <= i < s.len() ==> !is_ascii_upper(#[trigger] s[i])
}

/// `r` is `s` with each ASCII upper-case letter mapped to its lower-case
/// counterpart, and every other character left as it is.
pub open spec fn is_ascii_lowercase_of(s: Seq<char>, r: Seq<char>) -> bool {
    &&& r.len() == s.len()
    &&& forall|i: int|
        0 <= i < s.len() ==> if is_ascii_upper(#[trigger] s[i]) {
            r[i] as u32 == s[i] as u32 + 32
        } else {
            r[i] == s[i]
        }
}

/// Lexicographic order of two texts, character by character by code point.
pub open spec fn text_cmp(a: Seq<char>, b: Seq<char>) -> Ordering
    decreases a.len(),
{
    if a.len() == 0 {
        if b.len() == 0 {
            Ordering::Equal
        } else {
            Ordering::Less
        }
    } else if b.len() == 0 {
        Ordering::Greater
    } else if (a[0] as u32) < (b[0] as u32) {
        Ordering::Less
    } else if (a[0] as u32) > (b[0] as u32) {
        Ordering::Greater
    } else {
        text_cmp(a.drop_first(), b.drop_first())
    }
}

proof fn lemma_text_cmp_antisymmetric(a: Seq<char>, b: Seq<char>)
    ensures
        text_cmp(a, b) == crate::order::reversed(text_cmp(b, a)),
    decreases a.len(),
{
    if a.len() > 0 && b.len() > 0 && a[0] as u32 == b[0] as u32 {
        lemma_text_cmp_antisymmetric(a.drop_first(), b.drop_first());
    }
}

proof fn lemma_text_cmp_transitive(a: Seq<char>, b: Seq<char>, c: Seq<char>)
    requires
        text_cmp(a, b) != Ordering::Greater,
        text_cmp(b, c) == Ordering::Less,
    ensures
        text_cmp(a, c) == Ordering::Less,
    decreases a.len(),
{
    if a.len() > 0 && b.len() > 0 && c.len() > 0 && a[0] as u32 == b[0] as u32 && b[0] as u32 == c[0] as u32 {
        lemma_text_cmp_transitive(a.drop_first(), b.drop_first(), c.drop_first());
    }
}

/// Relies on `Ord for str`: strings are ordered lexicographically by their
/// bytes, which orders their characters by code point.
#[verifier::external_body]
fn compare_text(a: &str, b: &str) -> (r: Ordering)
    ensures
        r == text_cmp(a@, b@),
{
    a.cmp(b)
}

/// Relies on `str::to_ascii_lowercase`: ASCII letters `'A'` to `'Z'` become
/// `'a'` to `'z'`, every other character is copied unchanged.
#[verifier::external_body]
fn ascii_lowercase(s: &str) -> (r: String)
    ensures
        is_ascii_lowercase_of(s@, r@),
{
    s.to_ascii_lowercase()
}

/// Whether `s` holds no ASCII upper-case letter.
fn str_is_canonical(s: &str) -> (r: bool)
    ensures
        r == text_is_canonical(s@),
{
    let lower = ascii_lowercase(s);
    let same = lower.eq(&s.to_owned());
    proof {
        if same {
            assert forall|i: int| 0 <= i < s@.len() implies !is_ascii_upper(#[trigger] s@[i]) by {
                if is_ascii_upper(s@[i]) {
                    assert(lower@[i] as u32 == s@[i] as u32 + 32);
                }
            }
        } else if text_is_canonical(s@) {
            assert forall|i: int| 0 <= i < s@.len() implies lower@[i] == s@[i] by {
                assert(!is_ascii_upper(s@[i]));
            }
            assert(lower@ =~= s@);
        }
    }
    same
}

impl IsCanonical for str {
    open spec fn spec_is_canonical(&self) -> bool {
        text_is_canonical(self@)
    }

    fn is_canonical(&self) -> (r: bool) {
        str_is_canonical(self)
    }
}

impl IsCanonical for String {
    open spec fn spec_is_canonical(&self) -> bool {
        text_is_canonical(self@)
    }

    fn is_canonical(&self) -> (r: bool) {
        str_is_canonical(self.as_str())
    }
}

/// Canonicalizing text lowers its ASCII upper-case letters.
impl Canonicalize for String {
    open spec fn spec_canonicalizes_to(&self, result: &Self) -> bool {
        is_ascii_lowercase_of(self@, result@)
    }

    fn canonicalize(&mut self) {
        let lower = ascii_lowercase(self.as_str());
        proof {
            assert forall|i: int| 0 <= i < lower@.len() implies !is_ascii_upper(#[trigger] lower@[i]) by {
                if is_ascii_upper(self@[i]) {
                    assert(lower@[i] as u32 == self@[i] as u32 + 32);
                } else {
                    assert(lower@[i] == self@[i]);
                }
            }
        }
        *self = lower;
    }
}

/// Text is ordered by code point; primary-equal texts are identical, so the
/// tie-break never has a choice to make.
impl CanonicalOrd for String {
    open spec fn spec_canonical_cmp(&self, other: &Self) -> Ordering {
        text_cmp(self@, other@)
    }

    open spec fn spec_canonical_dedup_cmp(&self, other: &Self) -> Ordering {
        Ordering::Equal
    }

    proof fn lemma_canonical_cmp_antisymmetric(a: &Self, b: &Self) {
        lemma_text_cmp_antisymmetric(a@, b@);
    }

    proof fn lemma_canonical_cmp_transitive(a: &Self, b: &Self, c: &Self) {
        lemma_text_cmp_transitive(a@, b@, c@);
    }

    fn canonical_cmp(&self, other: &Self) -> (r: Ordering) {
        compare_text(self.as_str(), other.as_str())
    }

    fn canonical_dedup_cmp(&self, other: &Self) -> (r: Ordering) {
        Ordering::Equal
    }
}

impl Canonical<String> {
    /// A canonical view of the enclosed text.
    #[must_use]
    pub fn as_canonical_str(&self) -> (r: Canonical<&str>)
        ensures
            r.value()@ == self.value()@,
    {
        let s = self.as_ref();
        Canonical::tie_unchecked(s.as_str())
    }
}

} // verus!
