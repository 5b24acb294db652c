//! The backing store: a trusted view of `tinyvec::SliceVec<u8>`.
//!
//! A `SliceVec` wraps a caller-borrowed byte region together with a
//! committed length; the region is never reallocated, and splitting hands
//! parts of it over in place. Verus sees the type as opaque, so this module
//! names what a `SliceVec` holds — its committed bytes and the fixed size of
//! its region — and gives each method the buffer relies on a contract over
//! those names, taken from the `tinyvec` source.

use vstd::prelude::*;

verus! {

#[verifier::external_type_specification]
#[verifier::external_body]
#[verifier::reject_recursive_types(T)]
pub struct ExSliceVec<'s, T>(tinyvec::SliceVec<'s, T>);

/// The committed bytes of a `SliceVec<u8>`: the first `len` elements of its
/// region.
pub uninterp spec fn slicevec_bytes(v: tinyvec::SliceVec<'_, u8>) -> Seq<u8>;

/// The fixed size of the region a `SliceVec<u8>` is bound to.
pub uninterp spec fn slicevec_capacity(v: tinyvec::SliceVec<'_, u8>) -> nat;

/// Relies on `SliceVec::from_slice_len`: wraps a region, committing its
/// first `len` bytes. Asserts `len <= data.len()`, which the caller rules
/// out.
#[verifier::external_body]
pub(crate) fn sv_from_slice_len<'a>(data: &'a mut [u8], len: usize) -> (r: tinyvec::SliceVec<
    'a,
    u8,
>)
    requires
        len <= old(data)@.len(),
    ensures
        slicevec_bytes(r) == old(data)@.subrange(0, len as int),
        slicevec_capacity(r) == old(data)@.len(),
{
    tinyvec::SliceVec::from_slice_len(data, len)
}

/// Relies on `SliceVec::capacity`: the region's size, which also bounds the
/// committed length at all times.
#[verifier::external_body]
pub(crate) fn sv_capacity(v: &tinyvec::SliceVec<'_, u8>) -> (r: usize)
    ensures
        r == slicevec_capacity(*v),
        slicevec_bytes(*v).len() <= r,
{
    v.capacity()
}

/// Relies on `SliceVec::as_slice`: the committed prefix of the region.
#[verifier::external_body]
pub(crate) fn sv_as_slice<'x>(v: &'x tinyvec::SliceVec<'_, u8>) -> (r: &'x [u8])
    ensures
        r@ == slicevec_bytes(*v),
{
    v.as_slice()
}

/// Relies on `SliceVec::push`: appends one byte in place. Panics only on a
/// full vec, which the caller rules out.
#[verifier::external_body]
pub(crate) fn sv_push(v: &mut tinyvec::SliceVec<'_, u8>, b: u8)
    requires
        slicevec_bytes(*old(v)).len() < slicevec_capacity(*old(v)),
    ensures
        slicevec_bytes(*final(v)) == slicevec_bytes(*old(v)).push(b),
        slicevec_capacity(*final(v)) == slicevec_capacity(*old(v)),
{
    v.push(b)
}

/// Relies on `SliceVec::truncate`: caps the committed length at `new_len`,
/// keeping the region.
#[verifier::external_body]
pub(crate) fn sv_truncate(v: &mut tinyvec::SliceVec<'_, u8>, new_len: usize)
    ensures
        new_len <= slicevec_bytes(*old(v)).len() ==> slicevec_bytes(*final(v)) == slicevec_bytes(
            *old(v),
        ).subrange(0, new_len as int),
        new_len > slicevec_bytes(*old(v)).len() ==> slicevec_bytes(*final(v)) == slicevec_bytes(
            *old(v),
        ),
        slicevec_capacity(*final(v)) == slicevec_capacity(*old(v)),
{
    v.truncate(new_len)
}

/// Relies on `SliceVec::set_len`: moves the committed length anywhere within
/// capacity. Bytes newly exposed past the old length are whatever the region
/// held, so nothing is said of them.
#[verifier::external_body]
pub(crate) fn sv_set_len(v: &mut tinyvec::SliceVec<'_, u8>, new_len: usize)
    requires
        new_len <= slicevec_capacity(*old(v)),
    ensures
        slicevec_bytes(*final(v)).len() == new_len,
        forall|i: int|
            0 <= i < new_len && i < slicevec_bytes(*old(v)).len() ==> slicevec_bytes(*final(v))[i]
                == slicevec_bytes(*old(v))[i],
        slicevec_capacity(*final(v)) == slicevec_capacity(*old(v)),
{
    v.set_len(new_len)
}

/// Relies on `SliceVec::split_off`: splits the region in place at `at`, no
/// byte is copied. The vec keeps `[0, at)` as both content and capacity; the
/// returned vec takes over the rest of the region and content. Panics when
/// `at` exceeds the committed length, which the caller rules out.
#[verifier::external_body]
pub(crate) fn sv_split_off<'a>(v: &mut tinyvec::SliceVec<'a, u8>, at: usize) -> (r:
    tinyvec::SliceVec<'a, u8>)
    requires
        at <= slicevec_bytes(*old(v)).len(),
    ensures
        slicevec_bytes(*final(v)) == slicevec_bytes(*old(v)).subrange(0, at as int),
        slicevec_capacity(*final(v)) == at,
        slicevec_bytes(r) == slicevec_bytes(*old(v)).subrange(
            at as int,
            slicevec_bytes(*old(v)).len() as int,
        ),
        slicevec_capacity(r) == slicevec_capacity(*old(v)) - at,
{
    v.split_off(at)
}

/// Relies on `SliceVec::default`: an empty vec over the empty region.
#[verifier::external_body]
pub(crate) fn sv_default<'a>() -> (r: tinyvec::SliceVec<'a, u8>)
    ensures
        slicevec_bytes(r) == Seq::<u8>::empty(),
        slicevec_capacity(r) == 0,
{
    tinyvec::SliceVec::default()
}

} // verus!
