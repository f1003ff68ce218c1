//! Prime fields `F_p` for `p` in {2, 31, 2^32 - 5}: arithmetic modulo `p`,
//! little-endian serialization, and the textual `FieldType` tag.
use crate::codec::{
    le_bytes, le_value, lemma_le_bytes_len, lemma_le_round_trip, pow256, read_le, write_le,
};
use crate::fp::{Fp2, Fp31, Fp32BitPrime};
use vstd::arithmetic::div_mod::{
    lemma_add_mod_noop, lemma_mul_mod_noop_left, lemma_mul_mod_noop_right, lemma_small_mod,
};
use vstd::arithmetic::mul::{
    lemma_mul_is_associative, lemma_mul_is_commutative, lemma_mul_is_distributive_add,
};
use vstd::prelude::*;
use vstd::string::StrSliceExecFns;

verus! {

/// `(a + b) mod p`.
pub open spec fn add_mod(a: nat, b: nat, p: nat) -> nat {
    ((a + b) as int % p as int) as nat
}

/// `(a - b) mod p`, taken in `[0, p)`.
pub open spec fn sub_mod(a: nat, b: nat, p: nat) -> nat {
    ((a - b) % (p as int)) as nat
}

/// `(a * b) mod p`.
pub open spec fn mul_mod(a: nat, b: nat, p: nat) -> nat {
    ((a * b) as int % p as int) as nat
}

/// `-a mod p`, taken in `[0, p)`.
pub open spec fn neg_mod(a: nat, p: nat) -> nat {
    sub_mod(0, a, p)
}

/// Errors of the fixed-width codec: a destination too short to write into, or
/// a source too short to read from. Both name the type and the lengths.
#[derive(Clone, Debug, PartialEq, Eq)]
pub enum CodecError {
    BufferTooSmallForWrite { field_name: &'static str, required: usize, available: usize },
    UnexpectedEof { field_name: &'static str, required: usize, available: usize },
}

/// An unrecognised field name.
#[derive(Clone, Debug, PartialEq, Eq)]
pub enum FieldError {
    UnknownField { type_str: String },
}

/// Unsigned integer types that back field values.
pub trait Int: Sized {
    /// The number this integer denotes.
    spec fn as_nat(&self) -> nat;

    /// Its width in bits.
    spec fn bits_spec() -> nat;

    fn bits() -> (r: u32)
        ensures
            r as nat == Self::bits_spec(),
    ;

    fn to_u128(&self) -> (r: u128)
        ensures
            r as nat == self.as_nat(),
    ;
}

impl Int for u8 {
    open spec fn as_nat(&self) -> nat {
        *self as nat
    }

    open spec fn bits_spec() -> nat {
        8
    }

    fn bits() -> (r: u32) {
        8
    }

    fn to_u128(&self) -> (r: u128) {
        *self as u128
    }
}

impl Int for u32 {
    open spec fn as_nat(&self) -> nat {
        *self as nat
    }

    open spec fn bits_spec() -> nat {
        32
    }

    fn bits() -> (r: u32) {
        32
    }

    fn to_u128(&self) -> (r: u128) {
        *self as u128
    }
}

/// An element of a prime field, held as its canonical representative in `[0, prime)`.
pub trait Field: Sized {
    type Integer: Int;

    /// The modulus.
    spec fn prime() -> nat;

    /// The canonical representative.
    spec fn value(&self) -> nat;

    /// The serialized width in bytes.
    spec fn size() -> nat;

    /// The canonical name of the field.
    spec fn name_spec() -> Seq<char>;

    proof fn lemma_modulus()
        ensures
            1 < Self::prime(),
            1 <= Self::size() <= 16,
            Self::prime() <= pow256(Self::size()),
    ;

    /// Additive identity.
    fn zero() -> (r: Self)
        ensures
            r.value() == 0,
    ;

    /// Multiplicative identity.
    fn one() -> (r: Self)
        ensures
            r.value() == 1,
    ;

    fn prime_value() -> (r: Self::Integer)
        ensures
            r.as_nat() == Self::prime(),
    ;

    fn size_in_bytes() -> (r: u32)
        ensures
            r as nat == Self::size(),
    ;

    fn type_str() -> (r: &'static str)
        ensures
            r@ == Self::name_spec(),
    ;

    /// Reduces `x` modulo the prime.
    fn from_u128(x: u128) -> (r: Self)
        ensures
            r.value() == x as nat % Self::prime(),
    ;

    fn as_integer(&self) -> (r: Self::Integer)
        ensures
            r.as_nat() == self.value(),
    ;

    fn add(self, o: Self) -> (r: Self)
        ensures
            r.value() == add_mod(self.value(), o.value(), Self::prime()),
    ;

    fn sub(self, o: Self) -> (r: Self)
        ensures
            r.value() == sub_mod(self.value(), o.value(), Self::prime()),
    ;

    fn mul(self, o: Self) -> (r: Self)
        ensures
            r.value() == mul_mod(self.value(), o.value(), Self::prime()),
    ;

    fn neg(self) -> (r: Self)
        ensures
            r.value() == neg_mod(self.value(), Self::prime()),
    ;

    fn as_u128(&self) -> (r: u128)
        ensures
            r as nat == self.value(),
    {
        let backing = self.as_integer();
        backing.to_u128()
    }

    /// Writes the canonical representative, little-endian, into `buf[..size]`.
    fn serialize(&self, buf: &mut [u8]) -> (r: Result<(), CodecError>)
        ensures
            r is Ok <==> old(buf)@.len() >= Self::size(),
            r is Ok ==> final(buf)@ == le_bytes(self.value(), Self::size()) + old(buf)@.subrange(
                Self::size() as int,
                old(buf)@.len() as int,
            ),
            r is Err ==> final(buf)@ == old(buf)@,
            r is Err ==> (r matches Err(
                CodecError::BufferTooSmallForWrite { field_name: f, required: q, available: a },
            ) && f@ == Self::name_spec() && q == Self::size() && a == old(buf)@.len()),
    {
        proof {
            Self::lemma_modulus();
        }
        let n = Self::size_in_bytes() as usize;
        if n <= buf.len() {
            let v = self.as_u128();
            write_le(v, n, buf);
            proof {
                assert(final(buf)@ =~= final(buf)@.subrange(0, n as int) + final(buf)@.subrange(
                    n as int,
                    final(buf)@.len() as int,
                ));
            }
            Ok(())
        } else {
            Err(
                CodecError::BufferTooSmallForWrite {
                    field_name: Self::type_str(),
                    required: n,
                    available: buf.len(),
                },
            )
        }
    }

    /// Reads `buf[..size]` as a little-endian number and reduces it modulo the prime.
    fn deserialize(buf: &[u8]) -> (r: Result<Self, CodecError>)
        ensures
            r is Ok <==> buf@.len() >= Self::size(),
            r matches Ok(v) ==> v.value() == le_value(buf@.subrange(0, Self::size() as int))
                % Self::prime(),
            r is Err ==> (r matches Err(
                CodecError::UnexpectedEof { field_name: f, required: q, available: a },
            ) && f@ == Self::name_spec() && q == Self::size() && a == buf@.len()),
    {
        proof {
            Self::lemma_modulus();
        }
        let n = Self::size_in_bytes() as usize;
        if n <= buf.len() {
            let x = read_le(buf, n);
            Ok(Self::from_u128(x))
        } else {
            Err(
                CodecError::UnexpectedEof {
                    field_name: Self::type_str(),
                    required: n,
                    available: buf.len(),
                },
            )
        }
    }
}

/// GF(2) conjunction of two bits.
pub open spec fn bit_and(a: nat, b: nat) -> nat {
    if a == 1 && b == 1 {
        1
    } else {
        0
    }
}

/// GF(2) disjunction of two bits.
pub open spec fn bit_or(a: nat, b: nat) -> nat {
    if a == 1 || b == 1 {
        1
    } else {
        0
    }
}

/// GF(2) exclusive or of two bits.
pub open spec fn bit_xor(a: nat, b: nat) -> nat {
    if a != b {
        1
    } else {
        0
    }
}

/// GF(2) complement of a bit.
pub open spec fn bit_not(a: nat) -> nat {
    if a == 1 {
        0
    } else {
        1
    }
}

/// A field whose elements are bits, with the boolean operations of GF(2).
pub trait BinaryField: Field {
    fn bitand(self, o: Self) -> (r: Self)
        ensures
            r.value() == bit_and(self.value(), o.value()),
    ;

    fn bitor(self, o: Self) -> (r: Self)
        ensures
            r.value() == bit_or(self.value(), o.value()),
    ;

    fn bitxor(self, o: Self) -> (r: Self)
        ensures
            r.value() == bit_xor(self.value(), o.value()),
    ;

    fn not(self) -> (r: Self)
        ensures
            r.value() == bit_not(self.value()),
    ;
}

/// Identities: adding zero and multiplying by one change nothing, and an
/// element plus its negation is zero.
pub proof fn lemma_identities<F: Field>(a: F)
    requires
        a.value() < F::prime(),
    ensures
        add_mod(a.value(), 0, F::prime()) == a.value(),
        mul_mod(a.value(), 1, F::prime()) == a.value(),
        add_mod(a.value(), neg_mod(a.value(), F::prime()), F::prime()) == 0,
{
    F::lemma_modulus();
    let p = F::prime();
    let x = a.value();
    lemma_small_mod(x, p);
    lemma_add_mod_noop(x as int, 0 - x, p as int);
    lemma_small_mod(0, p);
    assert(x + (0 - x) == 0);
}

/// Addition and multiplication are associative and commutative, and
/// multiplication distributes over addition.
pub proof fn lemma_ring_laws<F: Field>(a: F, b: F, c: F)
    requires
        a.value() < F::prime(),
        b.value() < F::prime(),
        c.value() < F::prime(),
    ensures
        add_mod(add_mod(a.value(), b.value(), F::prime()), c.value(), F::prime()) == add_mod(
            a.value(),
            add_mod(b.value(), c.value(), F::prime()),
            F::prime(),
        ),
        mul_mod(mul_mod(a.value(), b.value(), F::prime()), c.value(), F::prime()) == mul_mod(
            a.value(),
            mul_mod(b.value(), c.value(), F::prime()),
            F::prime(),
        ),
        add_mod(a.value(), b.value(), F::prime()) == add_mod(b.value(), a.value(), F::prime()),
        mul_mod(a.value(), b.value(), F::prime()) == mul_mod(b.value(), a.value(), F::prime()),
        mul_mod(a.value(), add_mod(b.value(), c.value(), F::prime()), F::prime()) == add_mod(
            mul_mod(a.value(), b.value(), F::prime()),
            mul_mod(a.value(), c.value(), F::prime()),
            F::prime(),
        ),
{
    F::lemma_modulus();
    let p = F::prime() as int;
    let (x, y, z) = (a.value() as int, b.value() as int, c.value() as int);
    lemma_small_mod(c.value(), F::prime());
    lemma_small_mod(a.value(), F::prime());
    lemma_add_mod_noop(x + y, z, p);
    lemma_add_mod_noop(x, y + z, p);
    assert((x + y) + z == x + (y + z));
    lemma_mul_mod_noop_left(x * y, z, p);
    lemma_mul_mod_noop_right(x, y * z, p);
    lemma_mul_is_associative(x, y, z);
    lemma_mul_is_commutative(x, y);
    lemma_mul_mod_noop_right(x, y + z, p);
    lemma_mul_is_distributive_add(x, y, z);
    lemma_add_mod_noop(x * y, x * z, p);
    assert(x * y >= 0 && x * z >= 0 && x * (y + z) >= 0 && (x * y) * z >= 0) by (nonlinear_arith)
        requires
            x >= 0,
            y >= 0,
            z >= 0,
    ;
}

/// Deserializing what was serialized gives the element back, whatever follows
/// it in the buffer.
pub proof fn lemma_serialize_round_trip<F: Field>(a: F, rest: Seq<u8>)
    requires
        a.value() < F::prime(),
    ensures
        le_value((le_bytes(a.value(), F::size()) + rest).subrange(0, F::size() as int))
            % F::prime() == a.value(),
{
    F::lemma_modulus();
    lemma_le_bytes_len(a.value(), F::size());
    assert((le_bytes(a.value(), F::size()) + rest).subrange(0, F::size() as int) =~= le_bytes(
        a.value(),
        F::size(),
    ));
    lemma_le_round_trip(a.value(), F::size());
    lemma_small_mod(a.value(), F::prime());
}

/// The supported fields, named at configuration boundaries.
#[derive(Clone, Copy, Debug, PartialEq, Eq, Structural)]
pub enum FieldType {
    Fp2,
    Fp31,
    Fp32BitPrime,
}

/// The canonical name of each field.
pub open spec fn field_type_name(t: FieldType) -> Seq<char> {
    match t {
        FieldType::Fp2 => Fp2::name_spec(),
        FieldType::Fp31 => Fp31::name_spec(),
        FieldType::Fp32BitPrime => Fp32BitPrime::name_spec(),
    }
}

/// The serialized width of each field.
pub open spec fn field_type_size(t: FieldType) -> nat {
    match t {
        FieldType::Fp2 => Fp2::size(),
        FieldType::Fp31 => Fp31::size(),
        FieldType::Fp32BitPrime => Fp32BitPrime::size(),
    }
}

/// A character with ASCII upper case folded to lower case.
pub open spec fn ascii_fold(c: char) -> u32 {
    if 65 <= c as u32 <= 90 {
        (c as u32 + 32) as u32
    } else {
        c as u32
    }
}

/// Equality of two strings up to ASCII case.
pub open spec fn eq_ignore_ascii_case(a: Seq<char>, b: Seq<char>) -> bool {
    a.len() == b.len() && forall|i: int| 0 <= i < a.len() ==> ascii_fold(#[trigger] a[i])
        == ascii_fold(b[i])
}

/// The field that a string names, matched without regard to ASCII case.
pub open spec fn field_type_of(s: Seq<char>) -> Option<FieldType> {
    if eq_ignore_ascii_case(s, field_type_name(FieldType::Fp2)) {
        Some(FieldType::Fp2)
    } else if eq_ignore_ascii_case(s, field_type_name(FieldType::Fp31)) {
        Some(FieldType::Fp31)
    } else if eq_ignore_ascii_case(s, field_type_name(FieldType::Fp32BitPrime)) {
        Some(FieldType::Fp32BitPrime)
    } else {
        None
    }
}

fn chars_eq_ignore_ascii_case(a: char, b: char) -> (r: bool)
    ensures
        r == (ascii_fold(a) == ascii_fold(b)),
{
    let x = a as u32;
    let y = b as u32;
    let fx = if 65 <= x && x <= 90 {
        x + 32
    } else {
        x
    };
    let fy = if 65 <= y && y <= 90 {
        y + 32
    } else {
        y
    };
    fx == fy
}

/// Compares two strings, folding ASCII case.
pub fn str_eq_ignore_ascii_case(a: &str, b: &str) -> (r: bool)
    ensures
        r == eq_ignore_ascii_case(a@, b@),
{
    let n = a.unicode_len();
    if n != b.unicode_len() {
        return false;
    }
    let mut i: usize = 0;
    while i < n
        invariant
            n == a@.len(),
            n == b@.len(),
            i <= n,
            forall|j: int| 0 <= j < i ==> ascii_fold(#[trigger] a@[j]) == ascii_fold(b@[j]),
        decreases n - i,
    {
        if !chars_eq_ignore_ascii_case(a.get_char(i), b.get_char(i)) {
            return false;
        }
        i = i + 1;
    }
    true
}

impl FieldType {
    /// Bytes taken by one serialized element of the field.
    pub fn size_in_bytes(&self) -> (r: u32)
        ensures
            r as nat == field_type_size(*self),
    {
        match self {
            FieldType::Fp2 => Fp2::size_in_bytes(),
            FieldType::Fp31 => Fp31::size_in_bytes(),
            FieldType::Fp32BitPrime => Fp32BitPrime::size_in_bytes(),
        }
    }

    /// The canonical name of the field.
    pub fn as_str(&self) -> (r: &'static str)
        ensures
            r@ == field_type_name(*self),
    {
        match self {
            FieldType::Fp2 => Fp2::type_str(),
            FieldType::Fp31 => Fp31::type_str(),
            FieldType::Fp32BitPrime => Fp32BitPrime::type_str(),
        }
    }

    /// Parses a field name, ignoring ASCII case.
    pub fn parse(s: &str) -> (r: Result<FieldType, FieldError>)
        ensures
            field_type_of(s@) matches Some(t) ==> r == Ok::<FieldType, FieldError>(t),
            field_type_of(s@) is None ==> (r matches Err(FieldError::UnknownField { type_str })
                && type_str@ == s@),
    {
        if str_eq_ignore_ascii_case(s, Fp2::type_str()) {
            Ok(FieldType::Fp2)
        } else if str_eq_ignore_ascii_case(s, Fp31::type_str()) {
            Ok(FieldType::Fp31)
        } else if str_eq_ignore_ascii_case(s, Fp32BitPrime::type_str()) {
            Ok(FieldType::Fp32BitPrime)
        } else {
            Err(FieldError::UnknownField { type_str: s.to_owned() })
        }
    }
}

/// Parsing the canonical name of a field gives that field.
pub proof fn lemma_field_type_round_trip(t: FieldType)
    ensures
        field_type_of(field_type_name(t)) == Some(t),
{
    assert(eq_ignore_ascii_case(field_type_name(t), field_type_name(t)));
}

/// Names that differ only in ASCII case name the same field.
pub proof fn lemma_field_type_case_insensitive(a: Seq<char>, b: Seq<char>)
    requires
        eq_ignore_ascii_case(a, b),
    ensures
        field_type_of(a) == field_type_of(b),
{
    assert forall|n: Seq<char>| eq_ignore_ascii_case(a, n) == eq_ignore_ascii_case(b, n) by {
        if eq_ignore_ascii_case(a, n) {
            assert forall|i: int| 0 <= i < b.len() implies ascii_fold(#[trigger] b[i])
                == ascii_fold(n[i]) by {
                assert(ascii_fold(a[i]) == ascii_fold(b[i]));
            }
        }
        if eq_ignore_ascii_case(b, n) {
            assert forall|i: int| 0 <= i < a.len() implies ascii_fold(#[trigger] a[i])
                == ascii_fold(n[i]) by {
                assert(ascii_fold(a[i]) == ascii_fold(b[i]));
            }
        }
    }
}

} // verus!
