//! The `Number` capability: fixed-width big-endian byte persistence of primitive values.
use crate::bytes::{
    be_bytes, be_value, decode_be, encode_be, lemma_be_bytes_of_value, lemma_be_value_bound,
    lemma_be_value_of_bytes,
};
use vstd::arithmetic::power::pow;
use vstd::layout::size_of;
use vstd::prelude::*;

verus! {

broadcast use vstd::layout::layout_of_primitives;

/// Why a byte sequence could not be decoded.
#[derive(Debug, Clone, Copy, PartialEq, Eq, Structural)]
pub enum DecodeError {
    /// Fewer bytes than the type's width were given.
    TooShort,
    /// The bytes are of the right width but encode no value (a flag byte other than 0 or 1).
    InvalidEncoding,
}

/// `256^n` for the widths of the primitive types.
proof fn lemma_pow_widths()
    ensures
        pow(256, 1) == 0x100,
        pow(256, 2) == 0x10000,
        pow(256, 4) == 0x1_0000_0000,
        pow(256, 8) == 0x1_0000_0000_0000_0000,
{
    reveal_with_fuel(pow, 9);
}

/// A primitive value with a fixed-width, reversible byte encoding.
pub trait Number: Sized + Copy {
    /// The serialized width in bytes.
    spec fn spec_num_bytes() -> nat;

    /// The bytes that encode `self`.
    spec fn spec_to_bytes(self) -> Seq<u8>;

    /// Whether `b`, of exactly the serialized width, encodes some value.
    spec fn spec_is_encoding(b: Seq<u8>) -> bool;

    /// The value that `b`, of exactly the serialized width, encodes.
    spec fn spec_from_bytes(b: Seq<u8>) -> Self;

    /// The number of bytes that store one value: the type's native size.
    fn num_bytes() -> (r: u8)
        ensures
            r as nat == Self::spec_num_bytes(),
            r as nat == size_of::<Self>(),
    ;

    /// The big-endian encoding of `self`, `num_bytes()` long.
    fn to_bytes(&self) -> (r: Vec<u8>)
        ensures
            r@ == self.spec_to_bytes(),
            r@.len() == Self::spec_num_bytes(),
    ;

    /// Decodes the value held in the first `num_bytes()` bytes of `bytes`.
    fn from_bytes(bytes: &[u8]) -> (r: Self)
        requires
            bytes@.len() >= Self::spec_num_bytes(),
            Self::spec_is_encoding(bytes@.take(Self::spec_num_bytes() as int)),
        ensures
            r == Self::spec_from_bytes(bytes@.take(Self::spec_num_bytes() as int)),
    ;

    /// Decodes the first `num_bytes()` bytes of `bytes`, or says why they hold no value.
    fn try_from_bytes(bytes: &[u8]) -> (r: Result<Self, DecodeError>)
        ensures
            bytes@.len() < Self::spec_num_bytes() ==> r == Err::<Self, DecodeError>(
                DecodeError::TooShort,
            ),
            bytes@.len() >= Self::spec_num_bytes() && !Self::spec_is_encoding(
                bytes@.take(Self::spec_num_bytes() as int),
            ) ==> r == Err::<Self, DecodeError>(DecodeError::InvalidEncoding),
            bytes@.len() >= Self::spec_num_bytes() && Self::spec_is_encoding(
                bytes@.take(Self::spec_num_bytes() as int),
            ) ==> r == Ok::<Self, DecodeError>(
                Self::spec_from_bytes(bytes@.take(Self::spec_num_bytes() as int)),
            ),
    ;

    /// The encoding of a value is a valid encoding, and decodes back to that value.
    proof fn lemma_decode_encode(v: Self)
        ensures
            v.spec_to_bytes().len() == Self::spec_num_bytes(),
            Self::spec_is_encoding(v.spec_to_bytes()),
            Self::spec_from_bytes(v.spec_to_bytes()) == v,
    ;

    /// A valid encoding decodes to a value whose encoding it is.
    proof fn lemma_encode_decode(b: Seq<u8>)
        requires
            b.len() == Self::spec_num_bytes(),
            Self::spec_is_encoding(b),
        ensures
            Self::spec_from_bytes(b).spec_to_bytes() == b,
    ;
}

/// Round trip: for every value `v` of a `Number` type, decoding the bytes that encode
/// `v` gives `v` back, and those bytes are exactly `num_bytes()` long.
pub proof fn lemma_round_trip<T: Number>(v: T)
    ensures
        v.spec_to_bytes().len() == T::spec_num_bytes(),
        T::spec_is_encoding(v.spec_to_bytes()),
        T::spec_from_bytes(v.spec_to_bytes()) == v,
{
    T::lemma_decode_encode(v);
}

/// The encoding is a bijection: every valid encoding of a `Number` type is the
/// encoding of exactly the value that it decodes to.
pub proof fn lemma_encoding_bijective<T: Number>(b: Seq<u8>, v: T)
    requires
        b.len() == T::spec_num_bytes(),
        T::spec_is_encoding(b),
    ensures
        T::spec_from_bytes(b).spec_to_bytes() == b,
        v.spec_to_bytes() == b <==> T::spec_from_bytes(b) == v,
{
    T::lemma_encode_decode(b);
    T::lemma_decode_encode(v);
}

impl Number for u8 {
    open spec fn spec_num_bytes() -> nat {
        1
    }

    /// The 1-byte big-endian form of the value.
    open spec fn spec_to_bytes(self) -> Seq<u8> {
        be_bytes(self as nat, 1)
    }

    /// Any bytes of this width encode a value.
    open spec fn spec_is_encoding(b: Seq<u8>) -> bool {
        true
    }

    /// The number whose big-endian form is `b`.
    open spec fn spec_from_bytes(b: Seq<u8>) -> u8 {
        be_value(b) as u8
    }

    fn num_bytes() -> (r: u8) {
        1
    }

    fn to_bytes(&self) -> (r: Vec<u8>) {
        encode_be(*self as u64, 1)
    }

    fn from_bytes(bytes: &[u8]) -> (r: u8) {
        proof {
            lemma_be_value_bound(bytes@.take(1));
            lemma_pow_widths();
        }
        decode_be(bytes, 1) as u8
    }

    fn try_from_bytes(bytes: &[u8]) -> (r: Result<u8, DecodeError>) {
        if bytes.len() < 1 {
            Err(DecodeError::TooShort)
        } else {
            Ok(Self::from_bytes(bytes))
        }
    }

    proof fn lemma_decode_encode(v: u8) {
        lemma_pow_widths();
        lemma_be_value_of_bytes(v as nat, 1);
    }

    proof fn lemma_encode_decode(b: Seq<u8>) {
        lemma_be_value_bound(b);
        lemma_pow_widths();
        lemma_be_bytes_of_value(b);
    }
}

impl Number for i8 {
    open spec fn spec_num_bytes() -> nat {
        1
    }

    /// The 1-byte big-endian form of the value's two's complement bits.
    open spec fn spec_to_bytes(self) -> Seq<u8> {
        be_bytes(self as u8 as nat, 1)
    }

    /// Any bytes of this width encode a value.
    open spec fn spec_is_encoding(b: Seq<u8>) -> bool {
        true
    }

    /// The number whose two's complement bits have the big-endian form `b`.
    open spec fn spec_from_bytes(b: Seq<u8>) -> i8 {
        be_value(b) as u8 as i8
    }

    fn num_bytes() -> (r: u8) {
        1
    }

    fn to_bytes(&self) -> (r: Vec<u8>) {
        encode_be(*self as u8 as u64, 1)
    }

    fn from_bytes(bytes: &[u8]) -> (r: i8) {
        proof {
            lemma_be_value_bound(bytes@.take(1));
            lemma_pow_widths();
        }
        decode_be(bytes, 1) as u8 as i8
    }

    fn try_from_bytes(bytes: &[u8]) -> (r: Result<i8, DecodeError>) {
        if bytes.len() < 1 {
            Err(DecodeError::TooShort)
        } else {
            Ok(Self::from_bytes(bytes))
        }
    }

    proof fn lemma_decode_encode(v: i8) {
        lemma_pow_widths();
        lemma_be_value_of_bytes(v as u8 as nat, 1);
        assert(v as u8 as i8 == v) by (bit_vector);
    }

    proof fn lemma_encode_decode(b: Seq<u8>) {
        lemma_be_value_bound(b);
        lemma_pow_widths();
        lemma_be_bytes_of_value(b);
        let u = be_value(b) as u8;
        assert(u as i8 as u8 == u) by (bit_vector);
    }
}

impl Number for u16 {
    open spec fn spec_num_bytes() -> nat {
        2
    }

    /// The 2-byte big-endian form of the value.
    open spec fn spec_to_bytes(self) -> Seq<u8> {
        be_bytes(self as nat, 2)
    }

    /// Any bytes of this width encode a value.
    open spec fn spec_is_encoding(b: Seq<u8>) -> bool {
        true
    }

    /// The number whose big-endian form is `b`.
    open spec fn spec_from_bytes(b: Seq<u8>) -> u16 {
        be_value(b) as u16
    }

    fn num_bytes() -> (r: u8) {
        2
    }

    fn to_bytes(&self) -> (r: Vec<u8>) {
        encode_be(*self as u64, 2)
    }

    fn from_bytes(bytes: &[u8]) -> (r: u16) {
        proof {
            lemma_be_value_bound(bytes@.take(2));
            lemma_pow_widths();
        }
        decode_be(bytes, 2) as u16
    }

    fn try_from_bytes(bytes: &[u8]) -> (r: Result<u16, DecodeError>) {
        if bytes.len() < 2 {
            Err(DecodeError::TooShort)
        } else {
            Ok(Self::from_bytes(bytes))
        }
    }

    proof fn lemma_decode_encode(v: u16) {
        lemma_pow_widths();
        lemma_be_value_of_bytes(v as nat, 2);
    }

    proof fn lemma_encode_decode(b: Seq<u8>) {
        lemma_be_value_bound(b);
        lemma_pow_widths();
        lemma_be_bytes_of_value(b);
    }
}

impl Number for i16 {
    open spec fn spec_num_bytes() -> nat {
        2
    }

    /// The 2-byte big-endian form of the value's two's complement bits.
    open spec fn spec_to_bytes(self) -> Seq<u8> {
        be_bytes(self as u16 as nat, 2)
    }

    /// Any bytes of this width encode a value.
    open spec fn spec_is_encoding(b: Seq<u8>) -> bool {
        true
    }

    /// The number whose two's complement bits have the big-endian form `b`.
    open spec fn spec_from_bytes(b: Seq<u8>) -> i16 {
        be_value(b) as u16 as i16
    }

    fn num_bytes() -> (r: u8) {
        2
    }

    fn to_bytes(&self) -> (r: Vec<u8>) {
        encode_be(*self as u16 as u64, 2)
    }

    fn from_bytes(bytes: &[u8]) -> (r: i16) {
        proof {
            lemma_be_value_bound(bytes@.take(2));
            lemma_pow_widths();
        }
        decode_be(bytes, 2) as u16 as i16
    }

    fn try_from_bytes(bytes: &[u8]) -> (r: Result<i16, DecodeError>) {
        if bytes.len() < 2 {
            Err(DecodeError::TooShort)
        } else {
            Ok(Self::from_bytes(bytes))
        }
    }

    proof fn lemma_decode_encode(v: i16) {
        lemma_pow_widths();
        lemma_be_value_of_bytes(v as u16 as nat, 2);
        assert(v as u16 as i16 == v) by (bit_vector);
    }

    proof fn lemma_encode_decode(b: Seq<u8>) {
        lemma_be_value_bound(b);
        lemma_pow_widths();
        lemma_be_bytes_of_value(b);
        let u = be_value(b) as u16;
        assert(u as i16 as u16 == u) by (bit_vector);
    }
}

impl Number for u32 {
    open spec fn spec_num_bytes() -> nat {
        4
    }

    /// The 4-byte big-endian form of the value.
    open spec fn spec_to_bytes(self) -> Seq<u8> {
        be_bytes(self as nat, 4)
    }

    /// Any bytes of this width encode a value.
    open spec fn spec_is_encoding(b: Seq<u8>) -> bool {
        true
    }

    /// The number whose big-endian form is `b`.
    open spec fn spec_from_bytes(b: Seq<u8>) -> u32 {
        be_value(b) as u32
    }

    fn num_bytes() -> (r: u8) {
        4
    }

    fn to_bytes(&self) -> (r: Vec<u8>) {
        encode_be(*self as u64, 4)
    }

    fn from_bytes(bytes: &[u8]) -> (r: u32) {
        proof {
            lemma_be_value_bound(bytes@.take(4));
            lemma_pow_widths();
        }
        decode_be(bytes, 4) as u32
    }

    fn try_from_bytes(bytes: &[u8]) -> (r: Result<u32, DecodeError>) {
        if bytes.len() < 4 {
            Err(DecodeError::TooShort)
        } else {
            Ok(Self::from_bytes(bytes))
        }
    }

    proof fn lemma_decode_encode(v: u32) {
        lemma_pow_widths();
        lemma_be_value_of_bytes(v as nat, 4);
    }

    proof fn lemma_encode_decode(b: Seq<u8>) {
        lemma_be_value_bound(b);
        lemma_pow_widths();
        lemma_be_bytes_of_value(b);
    }
}

impl Number for i32 {
    open spec fn spec_num_bytes() -> nat {
        4
    }

    /// The 4-byte big-endian form of the value's two's complement bits.
    open spec fn spec_to_bytes(self) -> Seq<u8> {
        be_bytes(self as u32 as nat, 4)
    }

    /// Any bytes of this width encode a value.
    open spec fn spec_is_encoding(b: Seq<u8>) -> bool {
        true
    }

    /// The number whose two's complement bits have the big-endian form `b`.
    open spec fn spec_from_bytes(b: Seq<u8>) -> i32 {
        be_value(b) as u32 as i32
    }

    fn num_bytes() -> (r: u8) {
        4
    }

    fn to_bytes(&self) -> (r: Vec<u8>) {
        encode_be(*self as u32 as u64, 4)
    }

    fn from_bytes(bytes: &[u8]) -> (r: i32) {
        proof {
            lemma_be_value_bound(bytes@.take(4));
            lemma_pow_widths();
        }
        decode_be(bytes, 4) as u32 as i32
    }

    fn try_from_bytes(bytes: &[u8]) -> (r: Result<i32, DecodeError>) {
        if bytes.len() < 4 {
            Err(DecodeError::TooShort)
        } else {
            Ok(Self::from_bytes(bytes))
        }
    }

    proof fn lemma_decode_encode(v: i32) {
        lemma_pow_widths();
        lemma_be_value_of_bytes(v as u32 as nat, 4);
        assert(v as u32 as i32 == v) by (bit_vector);
    }

    proof fn lemma_encode_decode(b: Seq<u8>) {
        lemma_be_value_bound(b);
        lemma_pow_widths();
        lemma_be_bytes_of_value(b);
        let u = be_value(b) as u32;
        assert(u as i32 as u32 == u) by (bit_vector);
    }
}

impl Number for u64 {
    open spec fn spec_num_bytes() -> nat {
        8
    }

    /// The 8-byte big-endian form of the value.
    open spec fn spec_to_bytes(self) -> Seq<u8> {
        be_bytes(self as nat, 8)
    }

    /// Any bytes of this width encode a value.
    open spec fn spec_is_encoding(b: Seq<u8>) -> bool {
        true
    }

    /// The number whose big-endian form is `b`.
    open spec fn spec_from_bytes(b: Seq<u8>) -> u64 {
        be_value(b) as u64
    }

    fn num_bytes() -> (r: u8) {
        8
    }

    fn to_bytes(&self) -> (r: Vec<u8>) {
        encode_be(*self as u64, 8)
    }

    fn from_bytes(bytes: &[u8]) -> (r: u64) {
        proof {
            lemma_be_value_bound(bytes@.take(8));
            lemma_pow_widths();
        }
        decode_be(bytes, 8) as u64
    }

    fn try_from_bytes(bytes: &[u8]) -> (r: Result<u64, DecodeError>) {
        if bytes.len() < 8 {
            Err(DecodeError::TooShort)
        } else {
            Ok(Self::from_bytes(bytes))
        }
    }

    proof fn lemma_decode_encode(v: u64) {
        lemma_pow_widths();
        lemma_be_value_of_bytes(v as nat, 8);
    }

    proof fn lemma_encode_decode(b: Seq<u8>) {
        lemma_be_value_bound(b);
        lemma_pow_widths();
        lemma_be_bytes_of_value(b);
    }
}

impl Number for i64 {
    open spec fn spec_num_bytes() -> nat {
        8
    }

    /// The 8-byte big-endian form of the value's two's complement bits.
    open spec fn spec_to_bytes(self) -> Seq<u8> {
        be_bytes(self as u64 as nat, 8)
    }

    /// Any bytes of this width encode a value.
    open spec fn spec_is_encoding(b: Seq<u8>) -> bool {
        true
    }

    /// The number whose two's complement bits have the big-endian form `b`.
    open spec fn spec_from_bytes(b: Seq<u8>) -> i64 {
        be_value(b) as u64 as i64
    }

    fn num_bytes() -> (r: u8) {
        8
    }

    fn to_bytes(&self) -> (r: Vec<u8>) {
        encode_be(*self as u64 as u64, 8)
    }

    fn from_bytes(bytes: &[u8]) -> (r: i64) {
        proof {
            lemma_be_value_bound(bytes@.take(8));
            lemma_pow_widths();
        }
        decode_be(bytes, 8) as u64 as i64
    }

    fn try_from_bytes(bytes: &[u8]) -> (r: Result<i64, DecodeError>) {
        if bytes.len() < 8 {
            Err(DecodeError::TooShort)
        } else {
            Ok(Self::from_bytes(bytes))
        }
    }

    proof fn lemma_decode_encode(v: i64) {
        lemma_pow_widths();
        lemma_be_value_of_bytes(v as u64 as nat, 8);
        assert(v as u64 as i64 == v) by (bit_vector);
    }

    proof fn lemma_encode_decode(b: Seq<u8>) {
        lemma_be_value_bound(b);
        lemma_pow_widths();
        lemma_be_bytes_of_value(b);
        let u = be_value(b) as u64;
        assert(u as i64 as u64 == u) by (bit_vector);
    }
}

impl Number for bool {
    open spec fn spec_num_bytes() -> nat {
        1
    }

    /// `[1]` for true, `[0]` for false.
    open spec fn spec_to_bytes(self) -> Seq<u8> {
        seq![if self { 1u8 } else { 0u8 }]
    }

    /// Only the flag bytes 0 and 1 encode a value.
    open spec fn spec_is_encoding(b: Seq<u8>) -> bool {
        b[0] == 0 || b[0] == 1
    }

    /// True exactly for the flag byte 1.
    open spec fn spec_from_bytes(b: Seq<u8>) -> bool {
        b[0] == 1
    }

    fn num_bytes() -> (r: u8) {
        1
    }

    fn to_bytes(&self) -> (r: Vec<u8>) {
        let flag: u8 = if *self { 1 } else { 0 };
        let r = vec![flag];
        assert(r@ =~= self.spec_to_bytes());
        r
    }

    fn from_bytes(bytes: &[u8]) -> (r: bool) {
        bytes[0] == 1
    }

    fn try_from_bytes(bytes: &[u8]) -> (r: Result<bool, DecodeError>) {
        if bytes.len() < 1 {
            Err(DecodeError::TooShort)
        } else if bytes[0] > 1 {
            Err(DecodeError::InvalidEncoding)
        } else {
            Ok(bytes[0] == 1)
        }
    }

    proof fn lemma_decode_encode(v: bool) {
    }

    proof fn lemma_encode_decode(b: Seq<u8>) {
        assert(Self::spec_from_bytes(b).spec_to_bytes() =~= b);
    }
}

} // verus!
