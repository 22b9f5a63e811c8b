//! The buffers of the crate, and the two families they come in: on the heap and in place.
use vstd::prelude::*;
use vstd::utf8::encode_utf8;

use crate::bounded::{zeros, BoundedString, BoundedVec};
use crate::error::CapacityError;
use crate::limits::{AUTH_MAX_STR_LEN, INFO_MAX_STR_LEN};
use crate::sealed::Sealed;

verus! {

/// A set of collections that are used together throughout this crate: [`Alloc`] or [`Heapless`].
pub trait NatsCollections: Sealed {
    /// Holds the topic of a message.
    type Topic: StrBuf;

    /// Holds the payload of a message.
    type MsgBuf: BytesBuf;

    /// Collects the header of a frame.
    type SyncBuf: BytesBuf;

    /// Holds the body of a CONNECT message.
    type AuthBuf: BytesBuf;
}

/// A string buffer that can be made of a `&str` and gives one back.
pub trait StrBuf: Sized + Clone {
    /// The text in the buffer.
    spec fn text(&self) -> Seq<char>;

    /// Whether a buffer of this type can hold a text.
    spec fn holds(text: Seq<char>) -> bool;

    /// A buffer with a copy of the text, if one can hold it.
    fn try_from_str(s: &str) -> (r: Result<Self, CapacityError>)
        ensures
            match r {
                Ok(buf) => Self::holds(s@) && buf.text() == s@,
                Err(e) => !Self::holds(s@) && e == CapacityError::Str,
            },
    ;

    /// The text in the buffer.
    fn as_str(&self) -> (s: &str)
        ensures
            s@ == self.text(),
    ;
}

/// A byte buffer that can be extended, cleared and read.
pub trait BytesBuf: Sized + Default {
    /// The bytes in the buffer.
    spec fn bytes(&self) -> Seq<u8>;

    /// The most bytes that a buffer of this type can hold; none for a buffer on the heap.
    spec fn limit() -> Option<nat>;

    /// Whether [`BytesBuf::extend_by`] can be called.
    fn may_extend_by(&self, len: usize) -> (r: bool)
        ensures
            r == can_extend(Self::limit(), self.bytes().len(), len as nat),
            r == (Self::limit() is None ==> self.bytes().len() + len <= isize::MAX),
    ;

    /// Extends the buffer by `len` bytes of zero, if that many fit, and returns the part that was
    /// added, to be written to.
    fn extend_by(&mut self, len: usize) -> (r: Result<&mut [u8], CapacityError>)
        requires
            can_extend(Self::limit(), old(self).bytes().len(), len as nat),
        ensures
            match r {
                Ok(added) => {
                    &&& fits(Self::limit(), old(self).bytes().len(), len as nat)
                    &&& Self::limit() matches Some(max) ==> old(self).bytes().len() + len <= max
                    &&& added@.len() == len
                    &&& forall|i: int| 0 <= i < len ==> #[trigger] added@[i] == 0
                    &&& added@ == zeros(len as nat)
                    &&& final(self).bytes() == old(self).bytes() + final(added)@
                },
                Err(e) => {
                    &&& !fits(Self::limit(), old(self).bytes().len(), len as nat)
                    &&& Self::limit() matches Some(max) && old(self).bytes().len() + len > max
                    &&& e == CapacityError::Bytes
                    &&& *final(self) == *old(self)
                },
            },
    ;

    /// Keeps the first `len` bytes only, or all if there are no more.
    fn truncate(&mut self, len: usize)
        ensures
            final(self).bytes() == shortened(old(self).bytes(), len as nat),
            len <= old(self).bytes().len() ==> final(self).bytes() == old(self).bytes().take(
                len as int,
            ),
            len >= old(self).bytes().len() ==> final(self).bytes() == old(self).bytes(),
    ;

    /// Removes all bytes.
    fn clear(&mut self)
        ensures
            final(self).bytes() == Seq::<u8>::empty(),
    ;

    /// The bytes in the buffer.
    fn as_bytes(&self) -> (slice: &[u8])
        ensures
            slice@ == self.bytes(),
    ;

    /// The number of bytes in the buffer.
    fn len(&self) -> (n: usize)
        ensures
            n == self.bytes().len(),
    ;
}

/// Whether [`BytesBuf::extend_by`] can be called on a buffer of `len` bytes: one without a limit is
/// on the heap, and must stay below the size at which the allocator gives up.
pub open spec fn can_extend(limit: Option<nat>, len: nat, more: nat) -> bool {
    limit is None ==> len + more <= isize::MAX
}

/// Whether a buffer of `len` bytes has room for `more`.
pub open spec fn fits(limit: Option<nat>, len: nat, more: nat) -> bool {
    limit matches Some(max) ==> len + more <= max
}

/// The first `len` bytes, or all if there are no more.
pub open spec fn shortened(bytes: Seq<u8>, len: nat) -> Seq<u8> {
    if len <= bytes.len() {
        bytes.take(len as int)
    } else {
        bytes
    }
}

/// Collections on the heap, without a limit of their own.
pub struct Alloc;

impl Sealed for Alloc {

}

impl NatsCollections for Alloc {
    type Topic = String;

    type MsgBuf = Vec<u8>;

    type SyncBuf = Vec<u8>;

    type AuthBuf = Vec<u8>;
}

impl StrBuf for String {
    open spec fn text(&self) -> Seq<char> {
        self@
    }

    open spec fn holds(text: Seq<char>) -> bool {
        true
    }

    fn try_from_str(s: &str) -> (r: Result<Self, CapacityError>)
        ensures
            r matches Ok(buf) && buf@ == s@,
    {
        Ok(s.to_owned())
    }

    fn as_str(&self) -> (s: &str)
        ensures
            s@ == self@,
    {
        String::as_str(self)
    }
}

impl BytesBuf for Vec<u8> {
    open spec fn bytes(&self) -> Seq<u8> {
        self@
    }

    open spec fn limit() -> Option<nat> {
        None
    }

    fn may_extend_by(&self, len: usize) -> (r: bool)
        ensures
            r == (self@.len() + len <= isize::MAX),
    {
        let before: usize = Vec::len(self);
        before <= isize::MAX as usize && len <= isize::MAX as usize - before
    }

    fn extend_by(&mut self, len: usize) -> (r: Result<&mut [u8], CapacityError>)
        ensures
            r matches Ok(added) && added@ == zeros(len as nat) && final(self)@ == old(self)@
                + final(added)@,
    {
        let before: usize = Vec::len(self);
        self.resize(before + len, 0);
        let all = self.as_mut_slice();
        assert(all@.subrange(before as int, before + len) =~= zeros(len as nat));
        let (_, added) = all.split_at_mut(before);
        Ok(added)
    }

    fn truncate(&mut self, len: usize)
        ensures
            len <= old(self)@.len() ==> final(self)@ == old(self)@.take(len as int),
            len >= old(self)@.len() ==> final(self)@ == old(self)@,
    {
        Vec::truncate(self, len)
    }

    fn clear(&mut self)
        ensures
            final(self)@.len() == 0,
    {
        Vec::clear(self)
    }

    fn as_bytes(&self) -> (slice: &[u8])
        ensures
            slice@ == self@,
    {
        self.as_slice()
    }

    fn len(&self) -> (n: usize)
        ensures
            n == self@.len(),
    {
        self.as_bytes().len()
    }
}

/// Collections in place: topics of at most `TOPIC` bytes and payloads of at most `PAYLOAD`.
pub struct Heapless<const TOPIC: usize, const PAYLOAD: usize>;

impl<const TOPIC: usize, const PAYLOAD: usize> Sealed for Heapless<TOPIC, PAYLOAD> {

}

impl<const TOPIC: usize, const PAYLOAD: usize> NatsCollections for Heapless<TOPIC, PAYLOAD> {
    type Topic = BoundedString<TOPIC>;

    type MsgBuf = BoundedVec<u8, PAYLOAD>;

    type SyncBuf = BoundedVec<u8, INFO_MAX_STR_LEN>;

    type AuthBuf = BoundedVec<u8, AUTH_MAX_STR_LEN>;
}

impl<const N: usize> StrBuf for BoundedString<N> {
    open spec fn text(&self) -> Seq<char> {
        self@
    }

    open spec fn holds(text: Seq<char>) -> bool {
        encode_utf8(text).len() <= N
    }

    fn try_from_str(s: &str) -> (r: Result<Self, CapacityError>)
        ensures
            match r {
                Ok(buf) => encode_utf8(s@).len() <= N && buf@ == s@,
                Err(e) => encode_utf8(s@).len() > N && e == CapacityError::Str,
            },
    {
        match BoundedString::from_text(s) {
            Some(buf) => Ok(buf),
            None => Err(CapacityError::Str),
        }
    }

    fn as_str(&self) -> (s: &str)
        ensures
            s@ == self@,
    {
        self.as_text()
    }
}

impl<const N: usize> BytesBuf for BoundedVec<u8, N> {
    open spec fn bytes(&self) -> Seq<u8> {
        self@
    }

    open spec fn limit() -> Option<nat> {
        Some(N as nat)
    }

    fn may_extend_by(&self, len: usize) -> (r: bool)
        ensures
            r,
    {
        true
    }

    fn extend_by(&mut self, len: usize) -> (r: Result<&mut [u8], CapacityError>)
        ensures
            match r {
                Ok(added) => {
                    &&& old(self)@.len() + len <= N
                    &&& added@ == zeros(len as nat)
                    &&& final(self)@ == old(self)@ + final(added)@
                },
                Err(e) => {
                    &&& old(self)@.len() + len > N
                    &&& e == CapacityError::Bytes
                    &&& final(self)@ == old(self)@
                },
            },
    {
        let before: usize = self.as_slice().len();
        if self.capacity() - before < len {
            return Err(CapacityError::Bytes);
        }
        self.extend_zeros(len);
        let all = self.as_mut_slice();
        assert(all@.subrange(before as int, before + len) =~= zeros(len as nat));
        let (_, added) = all.split_at_mut(before);
        Ok(added)
    }

    fn truncate(&mut self, len: usize)
        ensures
            len <= old(self)@.len() ==> final(self)@ == old(self)@.take(len as int),
            len >= old(self)@.len() ==> final(self)@ == old(self)@,
    {
        BoundedVec::truncate(self, len)
    }

    fn clear(&mut self)
        ensures
            final(self)@.len() == 0,
    {
        BoundedVec::clear(self)
    }

    fn as_bytes(&self) -> (slice: &[u8])
        ensures
            slice@ == self@,
    {
        self.as_slice()
    }

    fn len(&self) -> (n: usize)
        ensures
            n == self@.len(),
    {
        self.as_bytes().len()
    }
}

} // verus!
