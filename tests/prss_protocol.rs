use raw_ipa::helpers::{Message, RecordId};
use raw_ipa::prss_protocol::{PublicKeyBytesBuilder, PublicKeyChunk};
use x25519_dalek::{EphemeralSecret, PublicKey};

#[test]
fn chunk_ser_de() {
    let chunk_bytes = [1, 2, 3, 4, 5, 6, 7, 8];
    let chunk = PublicKeyChunk(chunk_bytes);

    let mut serialized = [0u8; 8];
    chunk.serialize(&mut serialized).unwrap();
    assert_eq!(chunk_bytes, serialized);

    let deserialized = PublicKeyChunk::deserialize(&mut serialized).unwrap();
    assert_eq!(chunk, deserialized);
}

#[test]
fn chunk_codec_short_buffers() {
    let chunk = PublicKeyChunk([9; 8]);
    let mut short = [0u8; 7];
    assert!(chunk.serialize(&mut short).is_err());
    assert_eq!(short, [0; 7]);
    assert!(PublicKeyChunk::deserialize(&mut short).is_err());
    let mut long = [5u8; 10];
    chunk.serialize(&mut long).unwrap();
    assert_eq!(long, [9, 9, 9, 9, 9, 9, 9, 9, 5, 5]);
}

#[test]
fn incomplete_pk() {
    let secret = EphemeralSecret::random_from_rng(rand::thread_rng());
    let pk = PublicKey::from(&secret);

    let chunks = PublicKeyChunk::chunks(pk.to_bytes());

    // check incomplete keys fail
    for i in 0..chunks.len() {
        let mut builder = PublicKeyBytesBuilder::empty();
        for chunk in chunks.iter().take(i) {
            builder.append_chunk(*chunk);
        }
        let err = builder.build().unwrap_err();
        assert_eq!(err.incomplete_count(), u8::try_from(i).unwrap());
        assert_eq!(err.record_id(), RecordId(u32::try_from(i).unwrap()));
    }

    // check complete key succeeds
    let mut builder = PublicKeyBytesBuilder::empty();
    for chunk in chunks {
        builder.append_chunk(chunk);
    }
    assert_eq!(builder.build().map(PublicKey::from), Ok(pk));
}

#[test]
fn chunks_split_in_order() {
    let mut key = [0u8; 32];
    for (i, b) in key.iter_mut().enumerate() {
        *b = u8::try_from(i).unwrap();
    }
    let chunks = PublicKeyChunk::chunks(key);
    for (k, c) in chunks.iter().enumerate() {
        let inner = c.into_inner();
        for j in 0..8 {
            assert_eq!(usize::from(inner[j]), 8 * k + j);
        }
    }
}
