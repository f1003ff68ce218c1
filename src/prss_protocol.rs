//! The public-key framing of the PRSS key exchange: a 32-byte key travels as
//! four 8-byte chunks, one per record, and is reassembled on receipt.
use crate::field::CodecError;
use crate::helpers::{Message, RecordId, MESSAGE_PAYLOAD_SIZE_BYTES};
use tinyvec::ArrayVec;
use vstd::prelude::*;

verus! {

/// Number of chunks that carry one public key.
pub const FULL_COUNT: u8 = 4;

/// Bytes of a public key.
pub const PUBLIC_KEY_BYTES: usize = 32;

/// Four messages of the transport's width carry exactly one public key; if the
/// message width changes, this stops verifying.
pub proof fn lemma_chunks_fill_key()
    ensures
        FULL_COUNT as usize * MESSAGE_PAYLOAD_SIZE_BYTES == PUBLIC_KEY_BYTES,
        MESSAGE_PAYLOAD_SIZE_BYTES == 8,
{
}

/// The bytes of chunk `k` of a public key.
pub open spec fn chunk_of(pk: Seq<u8>, k: int) -> Seq<u8> {
    pk.subrange(8 * k, 8 * k + 8)
}

/// A public key was built from fewer than four chunks.
#[derive(Clone, Copy, Debug, PartialEq, Eq, Structural)]
pub struct IncompletePublicKey {
    incomplete_count: u8,
}

impl IncompletePublicKey {
    pub closed spec fn count_spec(&self) -> u8 {
        self.incomplete_count
    }

    /// The number of chunks that had arrived.
    pub fn incomplete_count(&self) -> (r: u8)
        ensures
            r == self.count_spec(),
    {
        self.incomplete_count
    }

    /// The record of the first missing chunk.
    pub fn record_id(&self) -> (r: RecordId)
        ensures
            r.0 == self.count_spec() as u32,
    {
        RecordId(self.incomplete_count as u32)
    }
}

/// Eight bytes of a public key, sized to one transport message.
#[derive(Clone, Copy, Debug, PartialEq, Eq, Default)]
pub struct PublicKeyChunk(pub [u8; 8]);

fn chunk_at(pk: &[u8; 32], k: usize) -> (r: PublicKeyChunk)
    requires
        k < 4,
    ensures
        r.0@ == chunk_of(pk@, k as int),
{
    let mut bytes: [u8; 8] = [0u8; 8];
    let mut j: usize = 0;
    while j < 8
        invariant
            k < 4,
            j <= 8,
            forall|i: int| 0 <= i < j ==> bytes@[i] == pk@[8 * k + i],
        decreases 8 - j,
    {
        bytes[j] = pk[8 * k + j];
        j = j + 1;
    }
    assert(bytes@ =~= chunk_of(pk@, k as int));
    PublicKeyChunk(bytes)
}

impl PublicKeyChunk {
    /// Splits a public key into its four chunks, in order.
    pub fn chunks(pk: [u8; 32]) -> (r: [PublicKeyChunk; 4])
        ensures
            forall|k: int| 0 <= k < 4 ==> (#[trigger] r@[k]).0@ == chunk_of(pk@, k),
    {
        [chunk_at(&pk, 0), chunk_at(&pk, 1), chunk_at(&pk, 2), chunk_at(&pk, 3)]
    }

    /// The eight bytes of the chunk.
    pub fn into_inner(self) -> (r: [u8; 8])
        ensures
            r == self.0,
    {
        self.0
    }
}

impl Message for PublicKeyChunk {
    open spec fn size() -> nat {
        8
    }

    open spec fn encoding(&self) -> Seq<u8> {
        self.0@
    }

    fn size_in_bytes() -> (r: u32) {
        MESSAGE_PAYLOAD_SIZE_BYTES as u32
    }

    fn serialize(self, buf: &mut [u8]) -> (r: Result<(), CodecError>) {
        if buf.len() >= 8 {
            let mut j: usize = 0;
            while j < 8
                invariant
                    j <= 8,
                    8 <= buf@.len(),
                    buf@.len() == old(buf)@.len(),
                    forall|i: int| 0 <= i < j ==> buf@[i] == self.0@[i],
                    forall|i: int| 8 <= i < buf@.len() ==> buf@[i] == old(buf)@[i],
                decreases 8 - j,
            {
                buf[j] = self.0[j];
                j = j + 1;
            }
            assert(buf@ =~= self.0@ + old(buf)@.subrange(8, old(buf)@.len() as int));
            Ok(())
        } else {
            Err(
                CodecError::BufferTooSmallForWrite {
                    field_name: "PublicKeyChunk",
                    required: 8,
                    available: buf.len(),
                },
            )
        }
    }

    fn deserialize(buf: &mut [u8]) -> (r: Result<Self, CodecError>) {
        if 8 <= buf.len() {
            let mut bytes: [u8; 8] = [0u8; 8];
            let mut j: usize = 0;
            while j < 8
                invariant
                    j <= 8,
                    8 <= buf@.len(),
                    buf@ == old(buf)@,
                    forall|i: int| 0 <= i < j ==> bytes@[i] == buf@[i],
                decreases 8 - j,
            {
                bytes[j] = buf[j];
                j = j + 1;
            }
            assert(bytes@ =~= buf@.subrange(0, 8));
            Ok(PublicKeyChunk(bytes))
        } else {
            Err(
                CodecError::UnexpectedEof {
                    field_name: "PublicKeyChunk",
                    required: 8,
                    available: buf.len(),
                },
            )
        }
    }
}

/// Decoding the encoding of a chunk gives the chunk back.
pub proof fn lemma_chunk_round_trip(c: PublicKeyChunk, rest: Seq<u8>)
    ensures
        (c.encoding() + rest).subrange(0, 8) == c.0@,
{
    assert((c.encoding() + rest).subrange(0, 8) =~= c.0@);
}

#[verifier::external_type_specification]
#[verifier::external_body]
#[verifier::reject_recursive_types(A)]
pub struct ExArrayVec<A>(ArrayVec<A>);

/// The items held by a 32-byte `ArrayVec`, in order.
pub uninterp spec fn array_vec_items(v: ArrayVec<[u8; 32]>) -> Seq<u8>;

/// Relies on `tinyvec::ArrayVec::new`: a new `ArrayVec` holds no items.
#[verifier::external_body]
fn key_buffer_new() -> (r: ArrayVec<[u8; 32]>)
    ensures
        array_vec_items(r) == Seq::<u8>::empty(),
{
    ArrayVec::new()
}

/// Relies on `tinyvec::ArrayVec::extend_from_slice`: clones the slice's items
/// onto the end, and panics when they would not fit.
#[verifier::external_body]
fn key_buffer_extend(v: &mut ArrayVec<[u8; 32]>, s: &[u8])
    requires
        array_vec_items(*old(v)).len() + s@.len() <= 32,
    ensures
        array_vec_items(*final(v)) == array_vec_items(*old(v)) + s@,
{
    v.extend_from_slice(s)
}

/// Relies on `tinyvec::ArrayVec::into_inner`: returns the backing array, whose
/// first `len` elements are the items.
#[verifier::external_body]
fn key_buffer_into_inner(v: ArrayVec<[u8; 32]>) -> (r: [u8; 32])
    ensures
        r@.subrange(0, array_vec_items(v).len() as int) == array_vec_items(v),
{
    v.into_inner()
}

/// Collects received chunks into the bytes of a public key.
pub struct PublicKeyBytesBuilder {
    bytes: ArrayVec<[u8; 32]>,
    count: u8,
}

impl PublicKeyBytesBuilder {
    /// The bytes gathered so far.
    pub closed spec fn bytes_spec(&self) -> Seq<u8> {
        array_vec_items(self.bytes)
    }

    /// The number of chunks gathered so far.
    pub closed spec fn count_spec(&self) -> nat {
        self.count as nat
    }

    /// Each chunk added eight bytes, and no more than four were added.
    pub closed spec fn wf(&self) -> bool {
        self.count <= FULL_COUNT && array_vec_items(self.bytes).len() == 8 * self.count
    }

    pub fn empty() -> (r: Self)
        ensures
            r.wf(),
            r.count_spec() == 0,
            r.bytes_spec() == Seq::<u8>::empty(),
    {
        PublicKeyBytesBuilder { bytes: key_buffer_new(), count: 0 }
    }

    /// Appends one chunk; a key holds at most four.
    pub fn append_chunk(&mut self, chunk: PublicKeyChunk)
        requires
            old(self).wf(),
            old(self).count_spec() < FULL_COUNT,
        ensures
            final(self).wf(),
            final(self).count_spec() == old(self).count_spec() + 1,
            final(self).bytes_spec() == old(self).bytes_spec() + chunk.0@,
    {
        let inner = chunk.into_inner();
        key_buffer_extend(&mut self.bytes, vstd::array::array_as_slice(&inner));
        self.count = self.count + 1;
    }

    /// The public key, if all four chunks arrived; otherwise how many did.
    pub fn build(self) -> (r: Result<[u8; 32], IncompletePublicKey>)
        requires
            self.wf(),
        ensures
            self.count_spec() == FULL_COUNT as nat ==> (r matches Ok(k) && k@ == self.bytes_spec()),
            self.count_spec() != FULL_COUNT as nat ==> (r matches Err(e) && e.count_spec() as nat
                == self.count_spec()),
    {
        if self.count == FULL_COUNT {
            let key = key_buffer_into_inner(self.bytes);
            assert(key@ =~= key@.subrange(0, 32));
            Ok(key)
        } else {
            Err(IncompletePublicKey { incomplete_count: self.count })
        }
    }
}

} // verus!
