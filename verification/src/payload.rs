//! The bytes of a shred.
//!
//! A payload shares its bytes with its clones, so it is written through a guard, which makes the bytes
//! ones of the payload alone.
use crate::bytes_util::{bytes_eq, splice, write_at};
use bytes::{Bytes, BytesMut};
use std::ops::Range;
use vstd::prelude::*;
use vstd::slice::slice_to_vec;

verus! {

/// Shared bytes of the crate `bytes`.
#[verifier::external_type_specification]
#[verifier::external_body]
pub struct ExBytes(bytes::Bytes);

/// Owned bytes of the crate `bytes`.
#[verifier::external_type_specification]
#[verifier::external_body]
pub struct ExBytesMut(bytes::BytesMut);

/// The bytes that a `Bytes` holds.
pub uninterp spec fn bytes_contents(bytes: Bytes) -> Seq<u8>;

/// The bytes that a `BytesMut` holds.
pub uninterp spec fn bytes_mut_contents(bytes: BytesMut) -> Seq<u8>;

/// Calls `Bytes::from` on a vector, which takes over its bytes.
#[verifier::external_body]
fn bytes_from_vec(bytes: Vec<u8>) -> (taken: Bytes)
    ensures
        bytes_contents(taken) == bytes@,
{
    Bytes::from(bytes)
}

/// Calls `Bytes::new`, which holds no bytes.
#[verifier::external_body]
fn bytes_empty() -> (bytes: Bytes)
    ensures
        bytes_contents(bytes) == Seq::<u8>::empty(),
{
    Bytes::new()
}

/// Calls `Bytes::clone`, which shares the bytes.
#[verifier::external_body]
fn bytes_clone(bytes: &Bytes) -> (shared: Bytes)
    ensures
        bytes_contents(shared) == bytes_contents(*bytes),
{
    bytes.clone()
}

/// Calls `Bytes::as_ref`, which gives the bytes as a slice.
#[verifier::external_body]
fn bytes_slice(bytes: &Bytes) -> (slice: &[u8])
    ensures
        slice@ == bytes_contents(*bytes),
{
    bytes.as_ref()
}

/// Calls `Bytes::truncate`, which keeps the first `len` bytes, or all if there are no more.
#[verifier::external_body]
fn bytes_truncate(bytes: &mut Bytes, len: usize)
    ensures
        bytes_contents(*final(bytes)) == if len < bytes_contents(*old(bytes)).len() {
            bytes_contents(*old(bytes)).subrange(0, len as int)
        } else {
            bytes_contents(*old(bytes))
        },
{
    bytes.truncate(len)
}

/// Calls `BytesMut::from` on shared bytes, which takes them over, or copies them if they are shared.
#[verifier::external_body]
fn bytes_into_mut(bytes: Bytes) -> (owned: BytesMut)
    ensures
        bytes_mut_contents(owned) == bytes_contents(bytes),
{
    BytesMut::from(bytes)
}

/// Calls `BytesMut::freeze`, which makes the bytes ones that can be shared.
#[verifier::external_body]
fn bytes_mut_freeze(bytes: BytesMut) -> (frozen: Bytes)
    ensures
        bytes_contents(frozen) == bytes_mut_contents(bytes),
{
    bytes.freeze()
}

/// Calls `BytesMut::as_ref`, which gives the bytes as a slice.
#[verifier::external_body]
fn bytes_mut_slice(bytes: &BytesMut) -> (slice: &[u8])
    ensures
        slice@ == bytes_mut_contents(*bytes),
{
    bytes.as_ref()
}

/// Calls `BytesMut::as_mut`, which gives the bytes as a slice through which they are written.
#[verifier::external_body]
fn bytes_mut_slice_mut(bytes: &mut BytesMut) -> (slice: &mut [u8])
    ensures
        slice@ == bytes_mut_contents(*old(bytes)),
        bytes_mut_contents(*final(bytes)) == final(slice)@,
        final(slice)@.len() == slice@.len(),
{
    bytes.as_mut()
}

/// Where the bytes of a payload are: with all its clones, or with the payload alone once it was
/// written.
#[derive(Debug)]
pub enum PayloadBytes {
    Shared(Bytes),
    Owned(BytesMut),
}

impl View for PayloadBytes {
    type V = Seq<u8>;

    open spec fn view(&self) -> Seq<u8> {
        match *self {
            PayloadBytes::Shared(bytes) => bytes_contents(bytes),
            PayloadBytes::Owned(bytes) => bytes_mut_contents(bytes),
        }
    }
}

impl PayloadBytes {
    /// The bytes as a slice.
    pub fn as_slice(&self) -> (slice: &[u8])
        ensures
            slice@ == self@,
    {
        match self {
            PayloadBytes::Shared(bytes) => bytes_slice(bytes),
            PayloadBytes::Owned(bytes) => bytes_mut_slice(bytes),
        }
    }

    /// The bytes as ones that clones share.
    pub fn into_shared(self) -> (bytes: Bytes)
        ensures
            bytes_contents(bytes) == self@,
    {
        match self {
            PayloadBytes::Shared(bytes) => bytes,
            PayloadBytes::Owned(bytes) => bytes_mut_freeze(bytes),
        }
    }

    /// The bytes as ones that can be written.
    pub fn into_owned(self) -> (bytes: BytesMut)
        ensures
            bytes_mut_contents(bytes) == self@,
    {
        match self {
            PayloadBytes::Shared(bytes) => bytes_into_mut(bytes),
            PayloadBytes::Owned(bytes) => bytes,
        }
    }

    /// Takes the bytes out and leaves none.
    fn take(&mut self) -> (bytes: PayloadBytes)
        ensures
            bytes == *old(self),
    {
        let mut bytes = PayloadBytes::Shared(bytes_empty());
        std::mem::swap(&mut bytes, self);
        bytes
    }
}

/// The bytes of a shred.
#[derive(Debug)]
pub struct Payload {
    pub bytes: PayloadBytes,
}

impl View for Payload {
    type V = Seq<u8>;

    open spec fn view(&self) -> Seq<u8> {
        self.bytes@
    }
}

impl Clone for Payload {
    fn clone(&self) -> (shared: Payload)
        ensures
            shared@ == self@,
    {
        let bytes = match &self.bytes {
            PayloadBytes::Shared(bytes) => bytes_clone(bytes),
            PayloadBytes::Owned(bytes) => bytes_from_vec(slice_to_vec(bytes_mut_slice(bytes))),
        };
        Payload { bytes: PayloadBytes::Shared(bytes) }
    }
}

impl PartialEq for Payload {
    fn eq(&self, other: &Payload) -> (eq: bool) {
        bytes_eq(self.as_slice(), other.as_slice())
    }
}

impl Eq for Payload {

}

impl vstd::std_specs::cmp::PartialEqSpecImpl for Payload {
    open spec fn obeys_eq_spec() -> bool {
        true
    }

    open spec fn eq_spec(&self, other: &Payload) -> bool {
        self@ == other@
    }
}

impl From<Bytes> for Payload {
    fn from(bytes: Bytes) -> (payload: Payload) {
        Payload { bytes: PayloadBytes::Shared(bytes) }
    }
}

impl vstd::std_specs::convert::FromSpecImpl<Bytes> for Payload {
    open spec fn obeys_from_spec() -> bool {
        true
    }

    open spec fn from_spec(bytes: Bytes) -> Payload {
        Payload { bytes: PayloadBytes::Shared(bytes) }
    }
}

impl From<Vec<u8>> for Payload {
    fn from(bytes: Vec<u8>) -> (payload: Payload)
        ensures
            payload@ == bytes@,
    {
        Payload { bytes: PayloadBytes::Shared(bytes_from_vec(bytes)) }
    }
}

impl vstd::std_specs::convert::FromSpecImpl<Vec<u8>> for Payload {
    open spec fn obeys_from_spec() -> bool {
        false
    }

    open spec fn from_spec(bytes: Vec<u8>) -> Payload {
        arbitrary()
    }
}

impl From<BytesMut> for Payload {
    fn from(bytes: BytesMut) -> (payload: Payload)
        ensures
            payload@ == bytes_mut_contents(bytes),
    {
        Payload { bytes: PayloadBytes::Shared(bytes_mut_freeze(bytes)) }
    }
}

impl vstd::std_specs::convert::FromSpecImpl<BytesMut> for Payload {
    open spec fn obeys_from_spec() -> bool {
        false
    }

    open spec fn from_spec(bytes: BytesMut) -> Payload {
        arbitrary()
    }
}

impl AsRef<[u8]> for Payload {
    fn as_ref(&self) -> (slice: &[u8])
        ensures
            slice@ == self@,
    {
        self.as_slice()
    }
}

impl std::ops::Deref for Payload {
    type Target = [u8];

    fn deref(&self) -> (slice: &[u8])
        ensures
            slice@ == self@,
    {
        self.as_slice()
    }
}

impl Payload {
    /// The bytes as a slice.
    pub fn as_slice(&self) -> (slice: &[u8])
        ensures
            slice@ == self@,
    {
        self.bytes.as_slice()
    }

    /// The bytes as ones that can be written.
    pub fn into_bytes_mut(self) -> (bytes: BytesMut)
        ensures
            bytes_mut_contents(bytes) == self@,
    {
        self.bytes.into_owned()
    }

    /// A guard through which all bytes can be written.
    pub fn as_mut<'a>(&'a mut self) -> (guard: PayloadMutGuard<'a>)
        ensures
            guard.contents() == old(self)@,
            guard.slice_index.start == 0,
            guard.slice_index.end == old(self)@.len(),
            *final(self) == *final(guard.payload),
    {
        let len: usize = self.as_slice().len();
        PayloadMutGuard::new(self, 0..len)
    }

    /// A guard through which the bytes of a range can be written; `None` if the range ends behind
    /// the last byte.
    pub fn get_mut<'a>(&'a mut self, index: Range<usize>) -> (guard: Option<PayloadMutGuard<'a>>)
        ensures
            match guard {
                Some(guard) => {
                    &&& index.end <= old(self)@.len()
                    &&& guard.contents() == old(self)@
                    &&& guard.slice_index == index
                    &&& *final(self) == *final(guard.payload)
                },
                None => index.end > old(self)@.len() && *final(self) == *old(self),
            },
    {
        if index.end > self.as_slice().len() {
            None
        } else {
            Some(PayloadMutGuard::new(self, index))
        }
    }

    /// The bytes as a slice through which they are written.
    fn slice_mut(&mut self) -> (slice: &mut [u8])
        ensures
            slice@ == old(self)@,
            final(slice)@.len() == slice@.len(),
            final(self)@ == final(slice)@,
    {
        self.bytes = PayloadBytes::Owned(self.bytes.take().into_owned());
        match &mut self.bytes {
            PayloadBytes::Owned(bytes) => bytes_mut_slice_mut(bytes),
            PayloadBytes::Shared(_) => vstd::pervasive::unreached(),
        }
    }

    /// Drops all but the first `len` bytes.
    pub fn truncate(&mut self, len: usize)
        ensures
            final(self)@ == if len < old(self)@.len() {
                old(self)@.subrange(0, len as int)
            } else {
                old(self)@
            },
    {
        let mut bytes = self.bytes.take().into_shared();
        bytes_truncate(&mut bytes, len);
        self.bytes = PayloadBytes::Shared(bytes);
    }

    /// Makes the bytes ones that clones share, as they are until the payload is written.
    pub fn share(&mut self)
        ensures
            final(self)@ == old(self)@,
    {
        self.bytes = PayloadBytes::Shared(self.bytes.take().into_shared());
    }
}

/// Access to a range of the bytes of a payload, which has what was written through the guard.
pub struct PayloadMutGuard<'a> {
    pub payload: &'a mut Payload,
    pub slice_index: Range<usize>,
}

impl<'a> PayloadMutGuard<'a> {
    /// The bytes of the whole payload.
    pub open spec fn contents(self) -> Seq<u8> {
        self.payload@
    }

    /// Whether the range lies within the bytes.
    pub open spec fn in_bounds(self) -> bool {
        self.slice_index.start <= self.slice_index.end <= self.contents().len()
    }

    /// A guard of the bytes of a range.
    pub fn new(payload: &'a mut Payload, slice_index: Range<usize>) -> (guard: PayloadMutGuard<'a>)
        ensures
            guard.contents() == old(payload)@,
            guard.slice_index == slice_index,
            *final(payload) == *final(guard.payload),
    {
        payload.bytes = PayloadBytes::Owned(payload.bytes.take().into_owned());
        PayloadMutGuard { payload, slice_index }
    }

    /// The bytes of the range.
    pub fn as_ref(&self) -> (slice: &[u8])
        requires
            self.in_bounds(),
        ensures
            slice@ == self.contents().subrange(
                self.slice_index.start as int,
                self.slice_index.end as int,
            ),
    {
        &self.payload.as_slice()[self.slice_index.start..self.slice_index.end]
    }

    /// The bytes of the range, to be written.
    pub fn as_mut(&mut self) -> (slice: &mut [u8])
        requires
            old(self).in_bounds(),
        ensures
            slice@ == old(self).contents().subrange(
                old(self).slice_index.start as int,
                old(self).slice_index.end as int,
            ),
            final(slice)@.len() == slice@.len(),
            final(self).contents() == splice(
                old(self).contents(),
                old(self).slice_index.start as int,
                final(slice)@,
            ),
            final(self).slice_index == old(self).slice_index,
            *final(final(self).payload) == *final(old(self).payload),
    {
        let start: usize = self.slice_index.start;
        let len: usize = self.slice_index.end - start;
        let whole = self.payload.slice_mut();
        let (_, behind) = whole.split_at_mut(start);
        let (slice, _) = behind.split_at_mut(len);
        slice
    }

    /// Overwrites the bytes of the range with those of `src`.
    pub fn copy_from_slice(&mut self, src: &[u8])
        requires
            old(self).in_bounds(),
            src@.len() == old(self).slice_index.end - old(self).slice_index.start,
        ensures
            final(self).contents() == splice(
                old(self).contents(),
                old(self).slice_index.start as int,
                src@,
            ),
            final(self).slice_index == old(self).slice_index,
            *final(final(self).payload) == *final(old(self).payload),
    {
        let slice = self.as_mut();
        let ghost before = slice@;
        write_at(slice, 0, src);
        assert(splice(before, 0, src@) =~= src@);
    }
}

} // verus!
