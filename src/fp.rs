//! The concrete fields: `Fp2` (binary), `Fp31`, and `Fp32BitPrime` (`2^32 - 5`).
use crate::codec::pow256;
use crate::field::{BinaryField, Field, Int};
use vstd::arithmetic::div_mod::lemma_mod_add_multiples_vanish;
use vstd::prelude::*;

verus! {

pub const FP2_PRIME: u8 = 2;

pub const FP31_PRIME: u8 = 31;

pub const FP32_BIT_PRIME: u32 = 4294967291;

/// An element of `F_31`.
#[derive(Clone, Copy, Debug, PartialEq, Eq)]
pub struct Fp31 {
    v: u8,
}

impl Fp31 {
    #[verifier::type_invariant]
    spec fn canonical(self) -> bool {
        self.v < 31
    }
}

impl Field for Fp31 {
    type Integer = u8;

    open spec fn prime() -> nat {
        31
    }

    closed spec fn value(&self) -> nat {
        self.v as nat
    }

    open spec fn size() -> nat {
        1
    }

    open spec fn name_spec() -> Seq<char> {
        seq!['f', 'p', '3', '1']
    }

    proof fn lemma_modulus() {
        reveal_with_fuel(pow256, 2);
        assert(Self::prime() == 31);
    }

    fn zero() -> (r: Self) {
        Fp31 { v: 0 }
    }

    fn one() -> (r: Self) {
        Fp31 { v: 1 }
    }

    fn prime_value() -> (r: u8) {
        FP31_PRIME
    }

    fn size_in_bytes() -> (r: u32) {
        1
    }

    fn type_str() -> (r: &'static str) {
        let r = "fp31";
        proof {
            reveal_strlit("fp31");
        }
        assert(r@ =~= seq!['f', 'p', '3', '1']);
        r
    }

    fn from_u128(x: u128) -> (r: Self) {
        Fp31 { v: (x % 31) as u8 }
    }

    fn as_integer(&self) -> (r: u8) {
        assert(self.v.as_nat() == self.value());
        self.v
    }

    fn add(self, o: Self) -> (r: Self) {
        proof {
            use_type_invariant(&self);
            use_type_invariant(&o);
        }
        Fp31 { v: ((self.v as u16 + o.v as u16) % 31) as u8 }
    }

    fn sub(self, o: Self) -> (r: Self) {
        proof {
            use_type_invariant(&self);
            use_type_invariant(&o);
            lemma_mod_add_multiples_vanish(self.v - o.v, 31);
        }
        Fp31 { v: ((self.v as u16 + 31 - o.v as u16) % 31) as u8 }
    }

    fn mul(self, o: Self) -> (r: Self) {
        proof {
            use_type_invariant(&self);
            use_type_invariant(&o);
            assert(self.v as u16 * o.v as u16 <= 900) by (nonlinear_arith)
                requires
                    self.v < 31,
                    o.v < 31,
            ;
        }
        Fp31 { v: ((self.v as u16 * o.v as u16) % 31) as u8 }
    }

    fn neg(self) -> (r: Self) {
        proof {
            use_type_invariant(&self);
            lemma_mod_add_multiples_vanish(0 - self.v, 31);
        }
        Fp31 { v: ((31 - self.v) % 31) as u8 }
    }
}

/// An element of `F_2`, the binary field.
#[derive(Clone, Copy, Debug, PartialEq, Eq)]
pub struct Fp2 {
    v: u8,
}

impl Fp2 {
    #[verifier::type_invariant]
    spec fn canonical(self) -> bool {
        self.v < 2
    }
}

impl Field for Fp2 {
    type Integer = u8;

    open spec fn prime() -> nat {
        2
    }

    closed spec fn value(&self) -> nat {
        self.v as nat
    }

    open spec fn size() -> nat {
        1
    }

    open spec fn name_spec() -> Seq<char> {
        seq!['f', 'p', '2']
    }

    proof fn lemma_modulus() {
        reveal_with_fuel(pow256, 2);
        assert(Self::prime() == 2);
    }

    fn zero() -> (r: Self) {
        Fp2 { v: 0 }
    }

    fn one() -> (r: Self) {
        Fp2 { v: 1 }
    }

    fn prime_value() -> (r: u8) {
        FP2_PRIME
    }

    fn size_in_bytes() -> (r: u32) {
        1
    }

    fn type_str() -> (r: &'static str) {
        let r = "fp2";
        proof {
            reveal_strlit("fp2");
        }
        assert(r@ =~= seq!['f', 'p', '2']);
        r
    }

    fn from_u128(x: u128) -> (r: Self) {
        Fp2 { v: (x % 2) as u8 }
    }

    fn as_integer(&self) -> (r: u8) {
        assert(self.v.as_nat() == self.value());
        self.v
    }

    fn add(self, o: Self) -> (r: Self) {
        proof {
            use_type_invariant(&self);
            use_type_invariant(&o);
        }
        Fp2 { v: ((self.v as u16 + o.v as u16) % 2) as u8 }
    }

    fn sub(self, o: Self) -> (r: Self) {
        proof {
            use_type_invariant(&self);
            use_type_invariant(&o);
            lemma_mod_add_multiples_vanish(self.v - o.v, 2);
        }
        Fp2 { v: ((self.v as u16 + 2 - o.v as u16) % 2) as u8 }
    }

    fn mul(self, o: Self) -> (r: Self) {
        proof {
            use_type_invariant(&self);
            use_type_invariant(&o);
            assert(self.v as u16 * o.v as u16 <= 1) by (nonlinear_arith)
                requires
                    self.v < 2,
                    o.v < 2,
            ;
        }
        Fp2 { v: ((self.v as u16 * o.v as u16) % 2) as u8 }
    }

    fn neg(self) -> (r: Self) {
        proof {
            use_type_invariant(&self);
            lemma_mod_add_multiples_vanish(0 - self.v, 2);
        }
        Fp2 { v: ((2 - self.v) % 2) as u8 }
    }
}

/// An element of `F_p` with `p = 2^32 - 5`.
#[derive(Clone, Copy, Debug, PartialEq, Eq)]
pub struct Fp32BitPrime {
    v: u32,
}

impl Fp32BitPrime {
    #[verifier::type_invariant]
    spec fn canonical(self) -> bool {
        self.v < 4294967291
    }
}

impl Field for Fp32BitPrime {
    type Integer = u32;

    open spec fn prime() -> nat {
        4294967291
    }

    closed spec fn value(&self) -> nat {
        self.v as nat
    }

    open spec fn size() -> nat {
        4
    }

    open spec fn name_spec() -> Seq<char> {
        seq!['f', 'p', '3', '2', 'B', 'i', 't', 'P', 'r', 'i', 'm', 'e']
    }

    proof fn lemma_modulus() {
        reveal_with_fuel(pow256, 5);
        assert(Self::prime() == 4294967291);
    }

    fn zero() -> (r: Self) {
        Fp32BitPrime { v: 0 }
    }

    fn one() -> (r: Self) {
        Fp32BitPrime { v: 1 }
    }

    fn prime_value() -> (r: u32) {
        FP32_BIT_PRIME
    }

    fn size_in_bytes() -> (r: u32) {
        4
    }

    fn type_str() -> (r: &'static str) {
        let r = "fp32BitPrime";
        proof {
            reveal_strlit("fp32BitPrime");
        }
        assert(r@ =~= seq!['f', 'p', '3', '2', 'B', 'i', 't', 'P', 'r', 'i', 'm', 'e']);
        r
    }

    fn from_u128(x: u128) -> (r: Self) {
        Fp32BitPrime { v: (x % 4294967291) as u32 }
    }

    fn as_integer(&self) -> (r: u32) {
        assert(self.v.as_nat() == self.value());
        self.v
    }

    fn add(self, o: Self) -> (r: Self) {
        proof {
            use_type_invariant(&self);
            use_type_invariant(&o);
        }
        Fp32BitPrime { v: ((self.v as u64 + o.v as u64) % 4294967291) as u32 }
    }

    fn sub(self, o: Self) -> (r: Self) {
        proof {
            use_type_invariant(&self);
            use_type_invariant(&o);
            lemma_mod_add_multiples_vanish(self.v - o.v, 4294967291);
        }
        Fp32BitPrime { v: ((self.v as u64 + 4294967291 - o.v as u64) % 4294967291) as u32 }
    }

    fn mul(self, o: Self) -> (r: Self) {
        proof {
            use_type_invariant(&self);
            use_type_invariant(&o);
            assert(self.v as u64 * o.v as u64 <= 0xffff_fff6_0000_0019) by (nonlinear_arith)
                requires
                    self.v < 4294967291,
                    o.v < 4294967291,
            ;
        }
        Fp32BitPrime { v: ((self.v as u64 * o.v as u64) % 4294967291) as u32 }
    }

    fn neg(self) -> (r: Self) {
        proof {
            use_type_invariant(&self);
            lemma_mod_add_multiples_vanish(0 - self.v, 4294967291);
        }
        Fp32BitPrime { v: ((4294967291 - self.v) % 4294967291) as u32 }
    }
}

impl BinaryField for Fp2 {
    fn bitand(self, o: Self) -> (r: Self) {
        proof {
            use_type_invariant(&self);
            use_type_invariant(&o);
        }
        let (a, b) = (self.v, o.v);
        assert(a & b == (if a == 1 && b == 1 { 1u8 } else { 0u8 })) by (bit_vector)
            requires
                a < 2,
                b < 2,
        ;
        Fp2 { v: a & b }
    }

    fn bitor(self, o: Self) -> (r: Self) {
        proof {
            use_type_invariant(&self);
            use_type_invariant(&o);
        }
        let (a, b) = (self.v, o.v);
        assert(a | b == (if a == 1 || b == 1 { 1u8 } else { 0u8 })) by (bit_vector)
            requires
                a < 2,
                b < 2,
        ;
        Fp2 { v: a | b }
    }

    fn bitxor(self, o: Self) -> (r: Self) {
        proof {
            use_type_invariant(&self);
            use_type_invariant(&o);
        }
        let (a, b) = (self.v, o.v);
        assert(a ^ b == (if a != b { 1u8 } else { 0u8 })) by (bit_vector)
            requires
                a < 2,
                b < 2,
        ;
        Fp2 { v: a ^ b }
    }

    fn not(self) -> (r: Self) {
        proof {
            use_type_invariant(&self);
        }
        let a = self.v;
        assert(a ^ 1 == (if a == 1 { 0u8 } else { 1u8 })) by (bit_vector)
            requires
                a < 2,
        ;
        Fp2 { v: a ^ 1 }
    }
}

} // verus!
