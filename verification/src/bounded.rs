//! Vectors and strings of a fixed capacity, held in place by the `heapless` crate.
//!
//! Verus cannot look into a `heapless` collection, so each type here pairs one with a ghost
//! sequence that stands for its contents. The fields are private to this module, and no function
//! but the ones below, each a single call into `heapless`, makes or changes such a pair: that the
//! ghost sequence is what the collection holds is what their contracts take for granted.
use core::fmt::Write;
use vstd::prelude::*;
use vstd::utf8::encode_utf8;

use crate::text::decimal;

verus! {

/// A `heapless::Vec`, opaque to proofs.
#[verifier::external_body]
#[verifier::reject_recursive_types(T)]
struct RawVec<T, const N: usize> {
    inner: heapless::Vec<T, N>,
}

/// A `heapless::String`, opaque to proofs.
#[verifier::external_body]
struct RawString<const N: usize> {
    inner: heapless::String<N>,
}

/// A vector of at most `N` items, stored in place.
#[verifier::reject_recursive_types(T)]
pub struct BoundedVec<T, const N: usize> {
    raw: RawVec<T, N>,
    items: Ghost<Seq<T>>,
}

/// A string of at most `N` bytes of UTF-8, stored in place.
pub struct BoundedString<const N: usize> {
    raw: RawString<N>,
    chars: Ghost<Seq<char>>,
}

/// `n` bytes of zero.
pub open spec fn zeros(n: nat) -> Seq<u8> {
    Seq::new(n, |i: int| 0u8)
}

impl<T, const N: usize> View for BoundedVec<T, N> {
    type V = Seq<T>;

    closed spec fn view(&self) -> Seq<T> {
        self.items@
    }
}

impl<const N: usize> View for BoundedString<N> {
    type V = Seq<char>;

    closed spec fn view(&self) -> Seq<char> {
        self.chars@
    }
}

impl<T, const N: usize> BoundedVec<T, N> {
    /// `heapless::Vec::new`: the new vector is empty.
    #[verifier::external_body]
    pub(crate) fn new() -> (v: Self)
        ensures
            v@ == Seq::<T>::empty(),
    {
        BoundedVec { raw: RawVec { inner: heapless::Vec::new() }, items: Ghost(Seq::empty()) }
    }

    /// `heapless::Vec::capacity`: the capacity is `N`, the length of the array that holds the
    /// items.
    #[verifier::external_body]
    pub(crate) fn capacity(&self) -> (n: usize)
        ensures
            n == N,
    {
        self.raw.inner.capacity()
    }

    /// `heapless::Vec::as_slice`: the slice holds the items in their order, never more than `N`.
    #[verifier::external_body]
    pub(crate) fn as_slice(&self) -> (slice: &[T])
        ensures
            slice@ == self@,
            slice@.len() <= N,
    {
        self.raw.inner.as_slice()
    }

    /// `heapless::Vec::as_mut_slice`: the slice holds the items in their order, and what it holds
    /// when it is given back is what the vector holds from then on.
    #[verifier::external_body]
    pub(crate) fn as_mut_slice(&mut self) -> (slice: &mut [T])
        ensures
            slice@ == old(self)@,
            final(self)@ == final(slice)@,
    {
        self.raw.inner.as_mut_slice()
    }

    /// `heapless::Vec::push`: the item goes to the end if there are fewer than `N` items, and
    /// comes back otherwise.
    #[verifier::external_body]
    pub(crate) fn push(&mut self, item: T) -> (r: Result<(), T>)
        ensures
            match r {
                Ok(()) => old(self)@.len() < N && final(self)@ == old(self)@.push(item),
                Err(back) => old(self)@.len() == N && back == item && *final(self) == *old(self),
            },
    {
        self.raw.inner.push(item)
    }

    /// `heapless::Vec::clear`: no item is left.
    #[verifier::external_body]
    pub(crate) fn clear(&mut self)
        ensures
            final(self)@ == Seq::<T>::empty(),
    {
        self.raw.inner.clear()
    }

    /// `heapless::Vec::truncate`: the first `len` items stay, or all if there are no more.
    #[verifier::external_body]
    pub(crate) fn truncate(&mut self, len: usize)
        ensures
            final(self)@ == (if len <= old(self)@.len() {
                old(self)@.take(len as int)
            } else {
                old(self)@
            }),
    {
        self.raw.inner.truncate(len)
    }
}

impl<const N: usize> BoundedVec<u8, N> {
    /// `heapless::Vec::extend` by `len` zeros, which panics where they do not fit: they go to the
    /// end.
    #[verifier::external_body]
    pub(crate) fn extend_zeros(&mut self, len: usize)
        requires
            old(self)@.len() + len <= N,
        ensures
            final(self)@ == old(self)@ + zeros(len as nat),
    {
        self.raw.inner.extend(core::iter::repeat_n(0, len));
    }
}

impl<T, const N: usize> Default for BoundedVec<T, N> {
    fn default() -> (v: Self)
        ensures
            v@ == Seq::<T>::empty(),
    {
        Self::new()
    }
}

impl<const N: usize> BoundedString<N> {
    /// `heapless::String::try_from` on a `&str`: the copy of a text that takes no more than `N`
    /// bytes, and nothing, in place of the error, for a longer one.
    #[verifier::external_body]
    pub(crate) fn from_text(s: &str) -> (r: Option<Self>)
        ensures
            match r {
                Some(t) => encode_utf8(s@).len() <= N && t@ == s@,
                None => encode_utf8(s@).len() > N,
            },
    {
        let inner: heapless::String<N> = heapless::String::try_from(s).ok()?;
        Some(BoundedString { raw: RawString { inner }, chars: Ghost(s@) })
    }

    /// `core::fmt::Write` of `heapless::String`, on an empty string: the decimal digits of `n`
    /// where they take no more than `N` bytes, and nothing, in place of the error, otherwise.
    #[verifier::external_body]
    pub(crate) fn from_number(n: usize) -> (r: Option<Self>)
        ensures
            match r {
                Some(t) => decimal(n as nat).len() <= N && t@ == decimal(n as nat),
                None => decimal(n as nat).len() > N,
            },
    {
        let mut inner: heapless::String<N> = heapless::String::new();
        write!(inner, "{}", n).ok()?;
        Some(BoundedString { raw: RawString { inner }, chars: Ghost(decimal(n as nat)) })
    }

    /// `heapless::String::as_str`: the text itself.
    #[verifier::external_body]
    pub(crate) fn as_text(&self) -> (s: &str)
        ensures
            s@ == self@,
    {
        self.raw.inner.as_str()
    }
}

impl<const N: usize> Clone for BoundedString<N> {
    /// `heapless::String::clone`: the same text.
    #[verifier::external_body]
    fn clone(&self) -> (s: Self)
        ensures
            s@ == self@,
    {
        let inner: heapless::String<N> = self.raw.inner.clone();
        BoundedString { raw: RawString { inner }, chars: Ghost(self.chars@) }
    }
}

} // verus!
