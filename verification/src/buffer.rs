//! The buffer type itself and its invariant-preserving operations.

use vstd::prelude::*;
use vstd::string::StringSliceAdditionalSpecFns;
use vstd::utf8::valid_utf8;

use crate::slicevec::slicevec_bytes;
use crate::slicevec::slicevec_capacity;
use crate::slicevec::sv_as_slice;
use crate::slicevec::sv_capacity;
use crate::slicevec::sv_default;
use crate::slicevec::sv_from_slice_len;
use crate::slicevec::sv_push;
use crate::slicevec::sv_set_len;
use crate::slicevec::sv_split_off;
use crate::slicevec::sv_truncate;

verus! {

broadcast use vstd::utf8::group_utf8_lib;

/// Relies on `char::from_u32`: a `u32` converts to a `char` exactly when it
/// is a Unicode scalar value, i.e. not a surrogate and at most 0x10FFFF, and
/// the char converts back to the same `u32`.
pub assume_specification[ char::from_u32 ](i: u32) -> (r: Option<char>)
    ensures
        r matches Some(c) ==> c as u32 == i,
        (r is Some) <==> vstd::utf8::is_scalar(i),
;

/// How an operation on a [`SliceString`] can fail.
#[derive(Clone, Copy, Debug, PartialEq, Eq, Structural)]
pub enum Error {
    /// A checked construction or conversion was handed bytes that are not
    /// valid UTF-8.
    InvalidEncoding,
    /// An append would have grown the content past the fixed capacity.
    /// The content is left exactly as it was.
    CapacityExceeded,
}

/// A UTF-8 string backed by a caller-supplied byte region.
///
/// The string holds exclusive write access to the region, through a
/// [`tinyvec::SliceVec`], for its whole lifetime: the region is never
/// reallocated, never grown, and never copied. The committed content is the
/// prefix of the region up to the current length, and it is always valid
/// UTF-8 ([`SliceString::wf`]).
///
/// The view (`self@`) of a `SliceString` is the sequence of content bytes.
pub struct SliceString<'a> {
    inner: tinyvec::SliceVec<'a, u8>,
}

impl<'a> View for SliceString<'a> {
    type V = Seq<u8>;

    closed spec fn view(&self) -> Seq<u8> {
        slicevec_bytes(self.inner)
    }
}

impl<'a> SliceString<'a> {
    /// The fixed byte capacity of the backing region.
    pub closed spec fn spec_capacity(&self) -> int {
        slicevec_capacity(self.inner) as int
    }

    /// The invariant of every reachable `SliceString`: the content never
    /// exceeds the fixed capacity, and it is always valid UTF-8.
    pub open spec fn wf(&self) -> bool {
        self@.len() <= self.spec_capacity() && valid_utf8(self@)
    }

    /// Bind an empty string to a byte region.
    ///
    /// The capacity of the string is the region's size; whatever the region
    /// holds stays past the length and is never read as text.
    pub fn new(buf: &'a mut [u8]) -> (s: SliceString<'a>)
        ensures
            s.wf(),
            s@ == Seq::<u8>::empty(),
            s.spec_capacity() == old(buf)@.len(),
    {
        let inner = sv_from_slice_len(buf, 0);
        proof {
            assert(old(buf)@.subrange(0, 0) =~= Seq::<u8>::empty());
        }
        SliceString { inner }
    }

    /// Bind a string to a byte region after checking that its first `len`
    /// bytes are valid UTF-8.
    ///
    /// On success the capacity is the region's size and the content is the
    /// checked prefix. When the prefix is not valid UTF-8, `InvalidEncoding`
    /// comes back and the region is untouched, still holding the caller's
    /// bytes.
    pub fn from_utf8(buf: &'a mut [u8], len: usize) -> (r: Result<SliceString<'a>, Error>)
        requires
            len <= old(buf)@.len(),
        ensures
            valid_utf8(old(buf)@.subrange(0, len as int)) ==> (r matches Ok(s) && s.wf() && s@
                == old(buf)@.subrange(0, len as int) && s.spec_capacity() == old(buf)@.len()),
            !valid_utf8(old(buf)@.subrange(0, len as int)) ==> r == Err::<SliceString<'a>, Error>(
                Error::InvalidEncoding,
            ) && final(buf)@ == old(buf)@,
    {
        if check_utf8_prefix(buf, len) {
            Ok(Self::from_utf8_unchecked(buf, len))
        } else {
            Err(Error::InvalidEncoding)
        }
    }

    /// Bind a string to a byte region whose first `len` bytes are already
    /// committed content.
    ///
    /// This is the trusted-boundary constructor: the caller carries the proof
    /// obligation, discharged here by `requires`, that the prefix is valid
    /// UTF-8. Nothing is checked at run time.
    pub fn from_utf8_unchecked(buf: &'a mut [u8], len: usize) -> (s: SliceString<'a>)
        requires
            len <= old(buf)@.len(),
            valid_utf8(old(buf)@.subrange(0, len as int)),
        ensures
            s.wf(),
            s@ == old(buf)@.subrange(0, len as int),
            s.spec_capacity() == old(buf)@.len(),
    {
        let inner = sv_from_slice_len(buf, len);
        SliceString { inner }
    }

    /// Bind a string to an existing `SliceVec`, with the caller carrying the
    /// proof that its committed bytes are valid UTF-8.
    ///
    /// The second obligation, that the committed length fits the capacity,
    /// holds of every `SliceVec` by construction; callers that received the
    /// vec through this crate's contracts have it at hand.
    pub fn new_unchecked(buf: tinyvec::SliceVec<'a, u8>) -> (s: SliceString<'a>)
        requires
            valid_utf8(slicevec_bytes(buf)),
            slicevec_bytes(buf).len() <= slicevec_capacity(buf),
        ensures
            s.wf(),
            s@ == slicevec_bytes(buf),
            s.spec_capacity() == slicevec_capacity(buf),
    {
        SliceString { inner: buf }
    }

    /// Bind a string to an existing `SliceVec` after checking that its
    /// committed bytes are valid UTF-8; `InvalidEncoding` comes back when
    /// they are not, and the vec is dropped, ending its borrow of the
    /// region.
    pub fn try_from_slicevec(buf: tinyvec::SliceVec<'a, u8>) -> (r: Result<SliceString<'a>, Error>)
        ensures
            valid_utf8(slicevec_bytes(buf)) ==> (r matches Ok(s) && s.wf() && s@ == slicevec_bytes(
                buf,
            ) && s.spec_capacity() == slicevec_capacity(buf)),
            !valid_utf8(slicevec_bytes(buf)) ==> r == Err::<SliceString<'a>, Error>(
                Error::InvalidEncoding,
            ),
    {
        // Asking for the capacity pins down that the committed length fits
        // the region, which binding the string below depends on.
        let _cap: usize = sv_capacity(&buf);
        let contents: &[u8] = sv_as_slice(&buf);
        let len: usize = contents.len();
        let ok: bool = check_utf8_prefix(contents, len);
        proof {
            assert(slicevec_bytes(buf).subrange(0, len as int) =~= slicevec_bytes(buf));
        }
        if ok {
            Ok(Self::new_unchecked(buf))
        } else {
            Err(Error::InvalidEncoding)
        }
    }

    /// Bind a string to a whole region, checking that all of it is valid
    /// UTF-8. The region is untouched either way; on failure it stays with
    /// the caller's bytes and `InvalidEncoding` comes back.
    pub fn try_from(buf: &'a mut [u8]) -> (r: Result<SliceString<'a>, Error>)
        ensures
            valid_utf8(old(buf)@) ==> (r matches Ok(s) && s.wf() && s@ == old(buf)@
                && s.spec_capacity() == old(buf)@.len()),
            !valid_utf8(old(buf)@) ==> r == Err::<SliceString<'a>, Error>(Error::InvalidEncoding)
                && final(buf)@ == old(buf)@,
    {
        let len: usize = buf.len();
        proof {
            assert(old(buf)@.subrange(0, len as int) =~= old(buf)@);
        }
        Self::from_utf8(buf, len)
    }

    /// Hand the backing `SliceVec` back, ending the string's role: the
    /// committed bytes and the region carry over unchanged.
    pub fn into_slicevec(self) -> (r: tinyvec::SliceVec<'a, u8>)
        ensures
            slicevec_bytes(r) == self@,
            slicevec_capacity(r) == self.spec_capacity(),
    {
        let SliceString { inner } = self;
        inner
    }

    /// Mutable access to the backing `SliceVec`.
    ///
    /// This is the trusted-boundary accessor: the caller may rewrite the
    /// committed bytes freely and carries the obligation to leave them valid
    /// UTF-8 — every later operation demands `wf` again.
    pub fn as_mut_slicevec(&mut self) -> (r: &mut tinyvec::SliceVec<'a, u8>)
        ensures
            slicevec_bytes(*r) == old(self)@,
            slicevec_capacity(*r) == old(self).spec_capacity(),
            final(self)@ == slicevec_bytes(*final(r)),
            final(self).spec_capacity() == slicevec_capacity(*final(r)),
    {
        &mut self.inner
    }

    /// The content as a borrowed `&str`, without copying.
    pub fn as_str(&self) -> (r: &str)
        requires
            self.wf(),
        ensures
            r.spec_bytes() == self@,
            r@ == vstd::utf8::decode_utf8(self@),
    {
        let r: &str = bytes_as_str(sv_as_slice(&self.inner));
        proof {
            assert(vstd::utf8::decode_utf8(vstd::utf8::encode_utf8(r@)) == r@);
        }
        r
    }

    /// The content copied out into an owned `String`.
    pub fn to_string(&self) -> (r: String)
        requires
            self.wf(),
        ensures
            r@ == vstd::utf8::decode_utf8(self@),
            vstd::utf8::encode_utf8(r@) == self@,
    {
        self.as_str().to_owned()
    }

    /// True exactly when the content reads as the same text as `other`.
    pub fn eq_str(&self, other: &str) -> (r: bool)
        requires
            self.wf(),
        ensures
            r == (self@ == vstd::utf8::encode_utf8(other@)),
            r == (vstd::utf8::decode_utf8(self@) == other@),
    {
        proof {
            assert((self@ == vstd::utf8::encode_utf8(other@)) == (vstd::utf8::decode_utf8(self@)
                == other@)) by {
                if self@ == vstd::utf8::encode_utf8(other@) {
                    assert(vstd::utf8::decode_utf8(vstd::utf8::encode_utf8(other@)) == other@);
                }
                if vstd::utf8::decode_utf8(self@) == other@ {
                    assert(vstd::utf8::encode_utf8(vstd::utf8::decode_utf8(self@)) == self@);
                }
            }
        }
        let mine: &[u8] = sv_as_slice(&self.inner);
        let bs: &[u8] = other.as_bytes();
        let n: usize = bs.len();
        if n != mine.len() {
            return false;
        }
        let mut i: usize = 0;
        while i < n
            invariant
                i <= n,
                n == bs@.len(),
                n == mine@.len(),
                mine@ == self@,
                bs@ == vstd::utf8::encode_utf8(other@),
                (self@ == bs@) == (vstd::utf8::decode_utf8(self@) == other@),
                forall|j: int| 0 <= j < i ==> mine@[j] == bs@[j],
            decreases n - i,
        {
            if mine[i] != bs[i] {
                proof {
                    assert(self@[i as int] != bs@[i as int]);
                }
                return false;
            }
            i += 1;
        }
        proof {
            assert(mine@ =~= bs@);
        }
        true
    }

    /// The maximum number of content bytes this string can hold.
    pub fn capacity(&self) -> (r: usize)
        ensures
            r == self.spec_capacity(),
    {
        sv_capacity(&self.inner)
    }

    /// The number of bytes of committed content.
    pub fn len(&self) -> (r: usize)
        ensures
            r == self@.len(),
    {
        sv_as_slice(&self.inner).len()
    }

    /// True when the content is empty.
    pub fn is_empty(&self) -> (r: bool)
        ensures
            r == (self@.len() == 0),
    {
        self.len() == 0
    }

    /// The content as a read-only byte slice.
    pub fn as_bytes(&self) -> (r: &[u8])
        ensures
            r@ == self@,
    {
        sv_as_slice(&self.inner)
    }

    /// True when `index` falls on a character boundary of the content: at its
    /// end, or at the first byte of a scalar's encoding. Past the end it is
    /// false.
    pub fn is_char_boundary(&self, index: usize) -> (r: bool)
        requires
            self.wf(),
        ensures
            r == vstd::utf8::is_char_boundary(self@, index as int),
    {
        let bs: &[u8] = sv_as_slice(&self.inner);
        let n: usize = bs.len();
        if index > n {
            proof {
                assert(!vstd::utf8::is_char_boundary(self@, index as int));
            }
            false
        } else if index == n || index == 0 {
            proof {
                assert(vstd::utf8::is_char_boundary(self@, index as int));
            }
            true
        } else {
            let b: u8 = bs[index];
            proof {
                assert(vstd::utf8::is_char_boundary(self@, index as int)
                    <==> !vstd::utf8::is_continuation_byte(self@[index as int]));
            }
            !(0x80 <= b && b <= 0xbf)
        }
    }

    /// Shorten the content to at most `new_len` bytes. When `new_len` is not
    /// below the current length nothing changes; otherwise `new_len` must be
    /// a character boundary, so that the retained prefix stays valid UTF-8.
    pub fn truncate(&mut self, new_len: usize)
        requires
            old(self).wf(),
            new_len < old(self)@.len() ==> vstd::utf8::is_char_boundary(
                old(self)@,
                new_len as int,
            ),
        ensures
            final(self).wf(),
            final(self).spec_capacity() == old(self).spec_capacity(),
            new_len <= old(self)@.len() ==> final(self)@ == old(self)@.subrange(
                0,
                new_len as int,
            ),
            new_len > old(self)@.len() ==> final(self)@ == old(self)@,
    {
        proof {
            let n: int = old(self)@.len() as int;
            if (new_len as int) < n {
                assert(valid_utf8(old(self)@.subrange(0, new_len as int)));
            } else if new_len as int == n {
                assert(old(self)@.subrange(0, n) =~= old(self)@);
            }
        }
        sv_truncate(&mut self.inner, new_len);
    }

    /// Remove the last character and return it, or `None` when the content
    /// is empty. The content shrinks by exactly the character's encoded byte
    /// width: the character is found by scanning backwards over continuation
    /// bytes, never by blindly dropping one byte.
    pub fn pop(&mut self) -> (r: Option<char>)
        requires
            old(self).wf(),
        ensures
            final(self).wf(),
            final(self).spec_capacity() == old(self).spec_capacity(),
            old(self)@.len() == 0 ==> r == None::<char> && final(self)@ == old(self)@,
            old(self)@.len() > 0 ==> (r matches Some(c) && {
                &&& c == (vstd::utf8::decode_last_scalar(old(self)@) as char)
                &&& final(self)@ == old(self)@.subrange(
                    0,
                    old(self)@.len() - vstd::utf8::length_of_last_scalar(old(self)@),
                )
                &&& old(self)@ == final(self)@ + vstd::utf8::encode_scalar(c as u32)
            }),
    {
        let bs: &[u8] = sv_as_slice(&self.inner);
        let n: usize = bs.len();
        if n == 0 {
            return None;
        }
        proof {
            crate::tail::lemma_last_scalar(bs@);
        }
        let b1: u8 = bs[n - 1];
        let w: usize = if !(0x80 <= b1 && b1 < 0xC0) {
            1
        } else {
            let b2: u8 = bs[n - 2];
            if !(0x80 <= b2 && b2 < 0xC0) {
                2
            } else {
                let b3: u8 = bs[n - 3];
                if !(0x80 <= b3 && b3 < 0xC0) {
                    3
                } else {
                    4
                }
            }
        };
        proof {
            assert(w == vstd::utf8::length_of_last_scalar(bs@));
        }
        let k: usize = n - w;
        let cp: u32 = if w == 1 {
            ((bs[n - 1] & 0x7F) as u32)
        } else if w == 2 {
            (((bs[n - 2] & 0x1F) as u32) << 6) | ((bs[n - 1] & 0x3F) as u32)
        } else if w == 3 {
            (((bs[n - 3] & 0x0F) as u32) << 12) | (((bs[n - 2] & 0x3F) as u32) << 6) | ((bs[n - 1]
                & 0x3F) as u32)
        } else {
            (((bs[n - 4] & 0x07) as u32) << 18) | (((bs[n - 3] & 0x3F) as u32) << 12) | (((bs[n - 2]
                & 0x3F) as u32) << 6) | ((bs[n - 1] & 0x3F) as u32)
        };
        let ghost orig: Seq<u8> = bs@;
        let ghost suffix: Seq<u8> = orig.subrange(k as int, n as int);
        proof {
            assert(cp == vstd::utf8::decode_last_scalar(orig));
            crate::tail::lemma_first_scalar_is_scalar(suffix);
            assert(vstd::utf8::is_scalar(cp));
        }
        let c: char = char::from_u32(cp).unwrap();
        sv_truncate(&mut self.inner, k);
        proof {
            vstd::utf8::char_u32_cast(c, cp);
            assert(valid_utf8(orig.subrange(0, k as int)));
            assert(valid_utf8(suffix));
            assert(vstd::utf8::encode_scalar(c as u32) == suffix) by {
                vstd::utf8::decode_utf8_first_scalar(suffix);
                assert(suffix.subrange(0, w as int) =~= suffix);
            }
            assert(orig =~= orig.subrange(0, k as int) + suffix);
        }
        Some(c)
    }

    /// Append one character, encoded as 1 to 4 UTF-8 bytes. When the encoding
    /// does not fit in the remaining capacity, `CapacityExceeded` comes back
    /// and the content is exactly as before.
    pub fn push(&mut self, c: char) -> (r: Result<(), Error>)
        requires
            old(self).wf(),
        ensures
            final(self).wf(),
            final(self).spec_capacity() == old(self).spec_capacity(),
            old(self)@.len() + vstd::utf8::encode_scalar(c as u32).len() <= old(
                self,
            ).spec_capacity() ==> {
                &&& r == Ok::<(), Error>(())
                &&& final(self)@ == old(self)@ + vstd::utf8::encode_scalar(c as u32)
            },
            old(self)@.len() + vstd::utf8::encode_scalar(c as u32).len() > old(
                self,
            ).spec_capacity() ==> {
                &&& r == Err::<(), Error>(Error::CapacityExceeded)
                &&& final(self)@ == old(self)@
            },
    {
        let cp: u32 = c as u32;
        proof {
            vstd::utf8::char_is_scalar(c);
        }
        let w: usize = if cp < 0x80 {
            1
        } else if cp < 0x800 {
            2
        } else if cp < 0x10000 {
            3
        } else {
            4
        };
        proof {
            assert(w == vstd::utf8::encode_scalar(cp).len());
        }
        let len: usize = self.len();
        let cap: usize = self.capacity();
        if w > cap - len {
            return Err(Error::CapacityExceeded);
        }
        let ghost orig: Seq<u8> = self@;
        if cp < 0x80 {
            sv_push(&mut self.inner, cp as u8);
            proof {
                assert(cp & 0x7F == cp) by (bit_vector)
                    requires
                        cp < 0x80,
                ;
                assert(self@ =~= orig + vstd::utf8::encode_scalar(cp));
            }
        } else if cp < 0x800 {
            proof {
                assert((cp >> 6) & 0x1F <= 0x1F) by (bit_vector);
                assert(cp & 0x3F <= 0x3F) by (bit_vector);
            }
            sv_push(&mut self.inner, 0xC0 | ((cp >> 6) & 0x1F) as u8);
            sv_push(&mut self.inner, 0x80 | (cp & 0x3F) as u8);
            proof {
                assert(self@ =~= orig + vstd::utf8::encode_scalar(cp));
            }
        } else if cp < 0x10000 {
            proof {
                assert((cp >> 12) & 0x0F <= 0x0F) by (bit_vector);
                assert((cp >> 6) & 0x3F <= 0x3F) by (bit_vector);
                assert(cp & 0x3F <= 0x3F) by (bit_vector);
            }
            sv_push(&mut self.inner, 0xE0 | ((cp >> 12) & 0x0F) as u8);
            sv_push(&mut self.inner, 0x80 | ((cp >> 6) & 0x3F) as u8);
            sv_push(&mut self.inner, 0x80 | (cp & 0x3F) as u8);
            proof {
                assert(self@ =~= orig + vstd::utf8::encode_scalar(cp));
            }
        } else {
            proof {
                assert((cp >> 18) & 0x7 <= 0x7) by (bit_vector);
                assert((cp >> 12) & 0x3F <= 0x3F) by (bit_vector);
                assert((cp >> 6) & 0x3F <= 0x3F) by (bit_vector);
                assert(cp & 0x3F <= 0x3F) by (bit_vector);
            }
            sv_push(&mut self.inner, 0xF0 | ((cp >> 18) & 0x7) as u8);
            sv_push(&mut self.inner, 0x80 | ((cp >> 12) & 0x3F) as u8);
            sv_push(&mut self.inner, 0x80 | ((cp >> 6) & 0x3F) as u8);
            sv_push(&mut self.inner, 0x80 | (cp & 0x3F) as u8);
            proof {
                assert(self@ =~= orig + vstd::utf8::encode_scalar(cp));
            }
        }
        proof {
            assert(vstd::utf8::encode_scalar(cp) =~= vstd::utf8::encode_utf8(seq![c])) by {
                reveal_with_fuel(vstd::utf8::encode_utf8, 2);
                assert(seq![c].drop_first() =~= Seq::<char>::empty());
                assert(seq![c][0] == c);
            }
            assert(valid_utf8(orig + vstd::utf8::encode_scalar(cp))) by {
                assert(valid_utf8(vstd::utf8::encode_utf8(seq![c])));
            }
        }
        Ok(())
    }

    /// Append an already-encoded UTF-8 string. The append is atomic: when it
    /// does not fit in the remaining capacity, `CapacityExceeded` comes back
    /// and the content is exactly as before.
    pub fn push_str(&mut self, string: &str) -> (r: Result<(), Error>)
        requires
            old(self).wf(),
        ensures
            final(self).wf(),
            final(self).spec_capacity() == old(self).spec_capacity(),
            old(self)@.len() + vstd::utf8::encode_utf8(string@).len() <= old(
                self,
            ).spec_capacity() ==> {
                &&& r == Ok::<(), Error>(())
                &&& final(self)@ == old(self)@ + vstd::utf8::encode_utf8(string@)
            },
            old(self)@.len() + vstd::utf8::encode_utf8(string@).len() > old(
                self,
            ).spec_capacity() ==> {
                &&& r == Err::<(), Error>(Error::CapacityExceeded)
                &&& final(self)@ == old(self)@
            },
    {
        let bs: &[u8] = string.as_bytes();
        let n: usize = bs.len();
        let len: usize = self.len();
        let cap: usize = self.capacity();
        if n > cap - len {
            return Err(Error::CapacityExceeded);
        }
        let ghost orig: Seq<u8> = self@;
        let mut i: usize = 0;
        while i < n
            invariant
                i <= n,
                n == bs@.len(),
                orig.len() + n <= self.spec_capacity(),
                self@ == orig + bs@.subrange(0, i as int),
                self.spec_capacity() == old(self).spec_capacity(),
                orig == old(self)@,
            decreases n - i,
        {
            let b: u8 = bs[i];
            sv_push(&mut self.inner, b);
            proof {
                assert(orig + bs@.subrange(0, i + 1 as int) =~= (orig + bs@.subrange(
                    0,
                    i as int,
                )).push(bs@[i as int]));
            }
            i += 1;
        }
        proof {
            assert(bs@.subrange(0, n as int) =~= bs@);
            assert(valid_utf8(old(self)@ + bs@)) by {
                assert(valid_utf8(bs@));
            }
        }
        Ok(())
    }

    /// Split the string at `at` and return the remainder, partitioning the
    /// backing region in place — no byte is copied. This string keeps bytes
    /// `[0, at)` and its capacity shrinks to `at`; the returned string takes
    /// over the rest of the region, holding whatever content lay past `at`
    /// (nothing when `at` is past the content). The two capacities always
    /// sum to the original, and the two contents together are exactly the
    /// original content.
    pub fn split_off(&mut self, at: usize) -> (r: SliceString<'a>)
        requires
            old(self).wf(),
            at <= old(self).spec_capacity(),
            at < old(self)@.len() ==> vstd::utf8::is_char_boundary(old(self)@, at as int),
        ensures
            final(self).wf(),
            r.wf(),
            final(self).spec_capacity() == at,
            r.spec_capacity() == old(self).spec_capacity() - at,
            final(self).spec_capacity() + r.spec_capacity() == old(self).spec_capacity(),
            at <= old(self)@.len() ==> {
                &&& final(self)@ == old(self)@.subrange(0, at as int)
                &&& r@ == old(self)@.subrange(at as int, old(self)@.len() as int)
                &&& old(self)@ == final(self)@ + r@
            },
            at > old(self)@.len() ==> final(self)@ == old(self)@ && r@ == Seq::<u8>::empty(),
    {
        let len: usize = self.len();
        if at <= len {
            proof {
                let s: Seq<u8> = old(self)@;
                assert(vstd::utf8::is_char_boundary(s, at as int));
                assert(valid_utf8(s.subrange(0, at as int)));
                assert(valid_utf8(s.subrange(at as int, s.len() as int)));
                assert(s =~= s.subrange(0, at as int) + s.subrange(at as int, s.len() as int));
            }
            let tail = sv_split_off(&mut self.inner, at);
            SliceString { inner: tail }
        } else {
            // The cut lies in the spare part of the region: widen the
            // committed window to `at`, split there, and narrow it back, so
            // that the tail starts empty and this string keeps its content.
            let ghost orig: Seq<u8> = self@;
            sv_set_len(&mut self.inner, at);
            let ghost widened: Seq<u8> = slicevec_bytes(self.inner);
            let tail = sv_split_off(&mut self.inner, at);
            proof {
                assert(widened.subrange(0, at as int) =~= widened);
                assert(slicevec_bytes(tail) =~= Seq::<u8>::empty());
            }
            sv_set_len(&mut self.inner, len);
            proof {
                assert(self@ =~= orig);
            }
            SliceString { inner: tail }
        }
    }

    /// Drop all content. The capacity is unchanged, and the empty content is
    /// trivially valid UTF-8.
    pub fn clear(&mut self)
        ensures
            final(self).wf(),
            final(self)@ == Seq::<u8>::empty(),
            final(self).spec_capacity() == old(self).spec_capacity(),
    {
        sv_truncate(&mut self.inner, 0);
        proof {
            assert(old(self)@.subrange(0, 0) =~= Seq::<u8>::empty());
        }
    }
}

impl<'a> Default for SliceString<'a> {
    /// The empty string over the empty region: zero capacity, zero length.
    fn default() -> (r: SliceString<'a>)
        ensures
            r.wf(),
            r@ == Seq::<u8>::empty(),
            r.spec_capacity() == 0,
    {
        SliceString { inner: sv_default() }
    }
}

/// The round-trip law of checked binding: [`SliceString::from_utf8`] commits
/// exactly `region[0..len]` as the content, and reading that content as text
/// loses nothing — re-encoding the decoded characters gives the caller's
/// original bytes back.
pub proof fn lemma_bind_round_trip(region: Seq<u8>, len: int)
    requires
        0 <= len <= region.len(),
        valid_utf8(region.subrange(0, len)),
    ensures
        vstd::utf8::encode_utf8(vstd::utf8::decode_utf8(region.subrange(0, len))) == region.subrange(
            0,
            len,
        ),
{
}

/// Relies on `core::str::from_utf8`: on valid UTF-8 bytes, which the caller
/// must establish, it returns `Ok` with a string slice viewing exactly the
/// given bytes.
#[verifier::external_body]
fn bytes_as_str(v: &[u8]) -> (r: &str)
    requires
        valid_utf8(v@),
    ensures
        r.spec_bytes() == v@,
{
    core::str::from_utf8(v).unwrap()
}

/// Run the UTF-8 grammar over `v[0..len]`, one scalar encoding at a time:
/// a leading byte announces the width, continuation bytes carry the rest of
/// the bits, and overlong encodings and surrogate codepoints are rejected.
fn check_utf8_prefix(v: &[u8], len: usize) -> (r: bool)
    requires
        len <= v@.len(),
    ensures
        r == valid_utf8(v@.subrange(0, len as int)),
{
    let ghost s: Seq<u8> = v@.subrange(0, len as int);
    let mut i: usize = 0;
    while i < len
        invariant
            i <= len,
            len <= v@.len(),
            s == v@.subrange(0, len as int),
            vstd::utf8::partial_valid_utf8(s, i as int),
        decreases len - i,
    {
        let ghost suf: Seq<u8> = s.subrange(i as int, s.len() as int);
        proof {
            assert(suf.len() == len - i);
            assert forall|k: int| 0 <= k < suf.len() implies suf[k] == v@[i + k] by {
                assert(suf[k] == s[i + k]);
            }
        }
        let b0: u8 = v[i];
        proof {
            assert(suf[0] == b0);
        }
        if b0 < 0x80 {
            proof {
                assert(vstd::utf8::valid_first_scalar(suf));
                vstd::utf8::partial_valid_utf8_extend(s, i as int);
                assert(vstd::utf8::length_of_first_scalar(suf) == 1);
            }
            i = i + 1;
        } else if b0 < 0xC0 {
            proof {
                assert(!vstd::utf8::valid_first_scalar(suf));
                assert(!valid_utf8(suf));
                vstd::utf8::partial_valid_partial_invalid_utf8(s, i as int);
            }
            return false;
        } else if b0 < 0xE0 {
            if len - i < 2 {
                proof {
                    assert(!vstd::utf8::valid_first_scalar(suf));
                    assert(!valid_utf8(suf));
                    vstd::utf8::partial_valid_partial_invalid_utf8(s, i as int);
                }
                return false;
            }
            let b1: u8 = v[i + 1];
            proof {
                assert(suf[1] == b1);
            }
            if !(0x80 <= b1 && b1 < 0xC0) {
                proof {
                    assert(!vstd::utf8::valid_first_scalar(suf));
                    assert(!valid_utf8(suf));
                    vstd::utf8::partial_valid_partial_invalid_utf8(s, i as int);
                }
                return false;
            }
            let cp: u32 = (((b0 & 0x1F) as u32) << 6) | ((b1 & 0x3F) as u32);
            proof {
                assert(cp == vstd::utf8::codepoint_width_2(b0, b1));
            }
            if cp < 0x80 {
                proof {
                    assert(!vstd::utf8::valid_first_scalar(suf));
                    assert(!valid_utf8(suf));
                    vstd::utf8::partial_valid_partial_invalid_utf8(s, i as int);
                }
                return false;
            }
            proof {
                assert((((b0 & 0x1F) as u32) << 6) | ((b1 & 0x3F) as u32) <= 0x7FF)
                    by (bit_vector);
                assert(vstd::utf8::valid_first_scalar(suf));
                vstd::utf8::partial_valid_utf8_extend(s, i as int);
                assert(vstd::utf8::length_of_first_scalar(suf) == 2);
            }
            i = i + 2;
        } else if b0 < 0xF0 {
            if len - i < 3 {
                proof {
                    assert(!vstd::utf8::valid_first_scalar(suf));
                    assert(!valid_utf8(suf));
                    vstd::utf8::partial_valid_partial_invalid_utf8(s, i as int);
                }
                return false;
            }
            let b1: u8 = v[i + 1];
            let b2: u8 = v[i + 2];
            proof {
                assert(suf[1] == b1);
                assert(suf[2] == b2);
            }
            if !(0x80 <= b1 && b1 < 0xC0) || !(0x80 <= b2 && b2 < 0xC0) {
                proof {
                    assert(!vstd::utf8::valid_first_scalar(suf));
                    assert(!valid_utf8(suf));
                    vstd::utf8::partial_valid_partial_invalid_utf8(s, i as int);
                }
                return false;
            }
            let cp: u32 = (((b0 & 0x0F) as u32) << 12) | (((b1 & 0x3F) as u32) << 6) | ((b2
                & 0x3F) as u32);
            proof {
                assert(cp == vstd::utf8::codepoint_width_3(b0, b1, b2));
            }
            if cp < 0x800 || (0xD800 <= cp && cp <= 0xDFFF) {
                proof {
                    assert(!vstd::utf8::valid_first_scalar(suf));
                    assert(!valid_utf8(suf));
                    vstd::utf8::partial_valid_partial_invalid_utf8(s, i as int);
                }
                return false;
            }
            proof {
                assert(vstd::utf8::valid_first_scalar(suf));
                vstd::utf8::partial_valid_utf8_extend(s, i as int);
                assert(vstd::utf8::length_of_first_scalar(suf) == 3);
            }
            i = i + 3;
        } else if b0 < 0xF8 {
            if len - i < 4 {
                proof {
                    assert(!vstd::utf8::valid_first_scalar(suf));
                    assert(!valid_utf8(suf));
                    vstd::utf8::partial_valid_partial_invalid_utf8(s, i as int);
                }
                return false;
            }
            let b1: u8 = v[i + 1];
            let b2: u8 = v[i + 2];
            let b3: u8 = v[i + 3];
            proof {
                assert(suf[1] == b1);
                assert(suf[2] == b2);
                assert(suf[3] == b3);
            }
            if !(0x80 <= b1 && b1 < 0xC0) || !(0x80 <= b2 && b2 < 0xC0) || !(0x80 <= b3 && b3
                < 0xC0) {
                proof {
                    assert(!vstd::utf8::valid_first_scalar(suf));
                    assert(!valid_utf8(suf));
                    vstd::utf8::partial_valid_partial_invalid_utf8(s, i as int);
                }
                return false;
            }
            let cp: u32 = (((b0 & 0x07) as u32) << 18) | (((b1 & 0x3F) as u32) << 12) | (((b2
                & 0x3F) as u32) << 6) | ((b3 & 0x3F) as u32);
            proof {
                assert(cp == vstd::utf8::codepoint_width_4(b0, b1, b2, b3));
            }
            if cp < 0x10000 || cp > 0x10FFFF {
                proof {
                    assert(!vstd::utf8::valid_first_scalar(suf));
                    assert(!valid_utf8(suf));
                    vstd::utf8::partial_valid_partial_invalid_utf8(s, i as int);
                }
                return false;
            }
            proof {
                assert(vstd::utf8::valid_first_scalar(suf));
                vstd::utf8::partial_valid_utf8_extend(s, i as int);
                assert(vstd::utf8::length_of_first_scalar(suf) == 4);
            }
            i = i + 4;
        } else {
            proof {
                assert(!vstd::utf8::valid_first_scalar(suf));
                assert(!valid_utf8(suf));
                vstd::utf8::partial_valid_partial_invalid_utf8(s, i as int);
            }
            return false;
        }
    }
    proof {
        assert(s.subrange(0, len as int) =~= s);
    }
    true
}

} // verus!
