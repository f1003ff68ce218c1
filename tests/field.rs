use raw_ipa::field::{CodecError, Field, FieldError, FieldType, BinaryField};
use raw_ipa::fp::{Fp2, Fp31, Fp32BitPrime};

#[test]
fn field_type_str_is_case_insensitive() {
    let field_type = FieldType::parse("fP32bItPrImE")
        .expect("FieldType should match regardless of character case");
    assert_eq!(field_type.size_in_bytes(), Fp32BitPrime::size_in_bytes());
}

#[test]
fn field_type_names_round_trip() {
    for t in [FieldType::Fp2, FieldType::Fp31, FieldType::Fp32BitPrime] {
        assert_eq!(FieldType::parse(t.as_str()), Ok(t));
        assert_eq!(FieldType::parse(&t.as_str().to_uppercase()), Ok(t));
    }
    assert_eq!(FieldType::Fp2.as_str(), "fp2");
    assert_eq!(FieldType::Fp31.as_str(), "fp31");
    assert_eq!(FieldType::Fp32BitPrime.as_str(), "fp32BitPrime");
    assert_eq!(FieldType::parse("FP31"), Ok(FieldType::Fp31));
}

#[test]
fn field_type_unknown_name() {
    assert_eq!(
        FieldType::parse("fp33"),
        Err(FieldError::UnknownField { type_str: "fp33".to_string() })
    );
    assert!(FieldType::parse("").is_err());
    assert!(FieldType::parse("fp2 ").is_err());
}

#[test]
fn field_type_sizes() {
    assert_eq!(FieldType::Fp2.size_in_bytes(), 1);
    assert_eq!(FieldType::Fp31.size_in_bytes(), 1);
    assert_eq!(FieldType::Fp32BitPrime.size_in_bytes(), 4);
}

#[test]
fn fp31_arithmetic() {
    let a = Fp31::from_u128(20);
    let b = Fp31::from_u128(15);
    assert_eq!(a.add(b).as_u128(), 4);
    assert_eq!(b.sub(a).as_u128(), 26);
    assert_eq!(a.mul(b).as_u128(), 300 % 31);
    assert_eq!(a.neg().as_u128(), 11);
    assert_eq!(Fp31::zero().neg().as_u128(), 0);
    assert_eq!(Fp31::from_u128(31 * 1000 + 7).as_u128(), 7);
    assert_eq!(Fp31::from_u128(u128::MAX).as_u128(), u128::MAX % 31);
    assert_eq!(Fp31::prime_value(), 31);
}

#[test]
fn fp32_bit_prime_arithmetic() {
    let p: u128 = 4_294_967_291;
    let a = Fp32BitPrime::from_u128(p - 1);
    let b = Fp32BitPrime::from_u128(p - 2);
    assert_eq!(a.add(b).as_u128(), p - 3);
    assert_eq!(a.mul(b).as_u128(), 2);
    assert_eq!(b.sub(a).as_u128(), p - 1);
    assert_eq!(a.neg().as_u128(), 1);
    assert_eq!(Fp32BitPrime::from_u128(u128::from(u32::MAX)).as_u128(), 4);
    assert_eq!(Fp32BitPrime::prime_value(), 4_294_967_291);
}

#[test]
fn field_identities_and_ring_laws() {
    for x in 0..31u128 {
        let a = Fp31::from_u128(x);
        assert_eq!(a.add(Fp31::zero()), a);
        assert_eq!(a.mul(Fp31::one()), a);
        assert_eq!(a.add(a.neg()), Fp31::zero());
        for y in [0u128, 1, 7, 30] {
            let b = Fp31::from_u128(y);
            let c = Fp31::from_u128(y * 3 + 1);
            assert_eq!(a.add(b), b.add(a));
            assert_eq!(a.mul(b), b.mul(a));
            assert_eq!(a.add(b).add(c), a.add(b.add(c)));
            assert_eq!(a.mul(b).mul(c), a.mul(b.mul(c)));
            assert_eq!(a.mul(b.add(c)), a.mul(b).add(a.mul(c)));
        }
    }
}

#[test]
fn fp2_bit_operations() {
    let zero = Fp2::zero();
    let one = Fp2::one();
    assert_eq!(one.bitand(one), one);
    assert_eq!(one.bitand(zero), zero);
    assert_eq!(one.bitor(zero), one);
    assert_eq!(zero.bitor(zero), zero);
    assert_eq!(one.bitxor(one), zero);
    assert_eq!(one.bitxor(zero), one);
    assert_eq!(one.not(), zero);
    assert_eq!(zero.not(), one);
    assert_eq!(one.add(one), zero);
    assert_eq!(Fp2::from_u128(5), one);
}

#[test]
fn field_serialization_round_trip() {
    let a = Fp32BitPrime::from_u128(0x0102_0304);
    let mut buf = [0xffu8; 6];
    a.serialize(&mut buf).unwrap();
    assert_eq!(buf, [0x04, 0x03, 0x02, 0x01, 0xff, 0xff]);
    assert_eq!(Fp32BitPrime::deserialize(&buf).unwrap(), a);

    let b = Fp31::from_u128(29);
    let mut one = [0u8; 1];
    b.serialize(&mut one).unwrap();
    assert_eq!(one, [29]);
    assert_eq!(Fp31::deserialize(&one).unwrap(), b);
}

#[test]
fn field_deserialize_reduces() {
    assert_eq!(Fp31::deserialize(&[200]).unwrap().as_u128(), 200 % 31);
    assert_eq!(Fp2::deserialize(&[3]).unwrap(), Fp2::one());
    assert_eq!(
        Fp32BitPrime::deserialize(&[0xff, 0xff, 0xff, 0xff]).unwrap().as_u128(),
        4
    );
}

#[test]
fn field_codec_errors() {
    let a = Fp32BitPrime::from_u128(9);
    let mut small = [7u8; 3];
    assert_eq!(
        a.serialize(&mut small),
        Err(CodecError::BufferTooSmallForWrite {
            field_name: "fp32BitPrime",
            required: 4,
            available: 3
        })
    );
    assert_eq!(small, [7, 7, 7]);
    assert_eq!(
        Fp32BitPrime::deserialize(&[1, 2]),
        Err(CodecError::UnexpectedEof { field_name: "fp32BitPrime", required: 4, available: 2 })
    );
    assert!(Fp31::deserialize(&[]).is_err());
}
