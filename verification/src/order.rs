//! Equality and ordering of buffer contents.
//!
//! A [`SliceString`] compares like a native string: equality and ordering go
//! over the content only, never the capacity, and ordering is lexicographic
//! over the bytes — which for UTF-8 coincides with lexicographic order over
//! the decoded characters.

use core::cmp::Ordering;
use vstd::prelude::*;

use crate::buffer::SliceString;

verus! {

/// Lexicographic comparison of two byte sequences: the first differing byte
/// decides; a strict prefix comes first.
pub open spec fn lex_cmp(a: Seq<u8>, b: Seq<u8>) -> Ordering
    decreases a.len(),
{
    if a.len() == 0 && b.len() == 0 {
        Ordering::Equal
    } else if a.len() == 0 {
        Ordering::Less
    } else if b.len() == 0 {
        Ordering::Greater
    } else if a[0] < b[0] {
        Ordering::Less
    } else if a[0] > b[0] {
        Ordering::Greater
    } else {
        lex_cmp(a.drop_first(), b.drop_first())
    }
}

/// Two byte sequences compare `Equal` exactly when they are the same
/// sequence.
pub proof fn lemma_lex_cmp_equal(a: Seq<u8>, b: Seq<u8>)
    ensures
        (lex_cmp(a, b) == Ordering::Equal) == (a == b),
    decreases a.len(),
{
    if a.len() == 0 && b.len() == 0 {
        assert(a =~= b);
    } else if a.len() == 0 || b.len() == 0 {
    } else {
        lemma_lex_cmp_equal(a.drop_first(), b.drop_first());
        if a[0] == b[0] {
            if a.drop_first() == b.drop_first() {
                assert forall|j: int| 0 <= j < a.len() implies a[j] == b[j] by {
                    if j > 0 {
                        assert(a.drop_first()[j - 1] == b.drop_first()[j - 1]);
                    }
                }
                assert(a =~= b);
            } else {
                assert(a != b);
            }
        }
    }
}

fn cmp_slices(a: &[u8], b: &[u8]) -> (r: Ordering)
    ensures
        r == lex_cmp(a@, b@),
{
    let an: usize = a.len();
    let bn: usize = b.len();
    let n: usize = if an < bn {
        an
    } else {
        bn
    };
    let mut i: usize = 0;
    proof {
        assert(a@.skip(0) =~= a@);
        assert(b@.skip(0) =~= b@);
    }
    while i < n
        invariant
            i <= n,
            an == a@.len(),
            bn == b@.len(),
            n == if an < bn {
                an
            } else {
                bn
            },
            lex_cmp(a@, b@) == lex_cmp(a@.skip(i as int), b@.skip(i as int)),
        decreases n - i,
    {
        let x: u8 = a[i];
        let y: u8 = b[i];
        proof {
            assert(a@.skip(i as int)[0] == a@[i as int]);
            assert(b@.skip(i as int)[0] == b@[i as int]);
        }
        if x < y {
            return Ordering::Less;
        }
        if x > y {
            return Ordering::Greater;
        }
        proof {
            assert(a@.skip(i + 1 as int) =~= a@.skip(i as int).drop_first());
            assert(b@.skip(i + 1 as int) =~= b@.skip(i as int).drop_first());
        }
        i += 1;
    }
    proof {
        assert(a@.skip(i as int).len() == an - n);
        assert(b@.skip(i as int).len() == bn - n);
    }
    if an == bn {
        Ordering::Equal
    } else if an < bn {
        Ordering::Less
    } else {
        Ordering::Greater
    }
}

impl PartialEq for SliceString<'_> {
    /// Content equality: the capacities play no part.
    fn eq(&self, other: &SliceString) -> (r: bool) {
        proof {
            lemma_lex_cmp_equal(self@, other@);
        }
        match cmp_slices(self.as_bytes(), other.as_bytes()) {
            Ordering::Equal => true,
            _ => false,
        }
    }
}

impl vstd::std_specs::cmp::PartialEqSpecImpl for SliceString<'_> {
    open spec fn obeys_eq_spec() -> bool {
        true
    }

    open spec fn eq_spec(&self, other: &SliceString) -> bool {
        self@ == other@
    }
}

impl Eq for SliceString<'_> {

}

impl PartialOrd for SliceString<'_> {
    /// Lexicographic order over the content bytes, total on all contents.
    fn partial_cmp(&self, other: &SliceString) -> (r: Option<Ordering>) {
        Some(cmp_slices(self.as_bytes(), other.as_bytes()))
    }
}

impl vstd::std_specs::cmp::PartialOrdSpecImpl for SliceString<'_> {
    open spec fn obeys_partial_cmp_spec() -> bool {
        true
    }

    open spec fn partial_cmp_spec(&self, other: &SliceString) -> Option<Ordering> {
        Some(lex_cmp(self@, other@))
    }
}

} // verus!
