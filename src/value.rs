use vstd::bytes::*;
use vstd::prelude::*;

verus! {

/// A fixed-size, copyable value with no pointers of its own, stored in memory
/// as its little-endian bytes.
pub trait PlainValue: Sized + Copy {
    /// Number of bytes the value occupies.
    spec fn spec_size() -> nat;

    /// The bytes that stand for the value in memory.
    spec fn spec_to_bytes(self) -> Seq<u8>;

    /// The value that `b` stands for, when `b` holds `spec_size()` bytes.
    spec fn spec_from_bytes(b: Seq<u8>) -> Self;

    fn size() -> (r: usize)
        ensures
            r as nat == Self::spec_size(),
    ;

    fn to_bytes(&self) -> (r: Vec<u8>)
        ensures
            r@ == self.spec_to_bytes(),
            r@.len() == Self::spec_size(),
    ;

    fn from_bytes(b: &[u8]) -> (r: Self)
        requires
            b@.len() == Self::spec_size(),
        ensures
            r == Self::spec_from_bytes(b@),
    ;

    /// Encoding a value and decoding the bytes gives the value back.
    proof fn lemma_value_round_trip(v: Self)
        ensures
            v.spec_to_bytes().len() == Self::spec_size(),
            Self::spec_from_bytes(v.spec_to_bytes()) == v,
    ;

    /// Decoding bytes and encoding the value gives the bytes back.
    proof fn lemma_bytes_round_trip(b: Seq<u8>)
        requires
            b.len() == Self::spec_size(),
        ensures
            Self::spec_from_bytes(b).spec_to_bytes() == b,
    ;
}

impl PlainValue for u8 {
    open spec fn spec_size() -> nat {
        1
    }

    open spec fn spec_to_bytes(self) -> Seq<u8> {
        seq![self]
    }

    open spec fn spec_from_bytes(b: Seq<u8>) -> u8 {
        b[0]
    }

    fn size() -> (r: usize) {
        1
    }

    fn to_bytes(&self) -> (r: Vec<u8>) {
        let mut r: Vec<u8> = Vec::new();
        r.push(*self);
        r
    }

    fn from_bytes(b: &[u8]) -> (r: u8) {
        b[0]
    }

    proof fn lemma_value_round_trip(v: u8) {
    }

    proof fn lemma_bytes_round_trip(b: Seq<u8>) {
        assert(seq![b[0]] =~= b);
    }
}

impl PlainValue for u16 {
    open spec fn spec_size() -> nat {
        2
    }

    open spec fn spec_to_bytes(self) -> Seq<u8> {
        spec_u16_to_le_bytes(self)
    }

    open spec fn spec_from_bytes(b: Seq<u8>) -> u16 {
        spec_u16_from_le_bytes(b)
    }

    fn size() -> (r: usize) {
        2
    }

    fn to_bytes(&self) -> (r: Vec<u8>) {
        proof {
            lemma_auto_spec_u16_to_from_le_bytes();
        }
        u16_to_le_bytes(*self)
    }

    fn from_bytes(b: &[u8]) -> (r: u16) {
        u16_from_le_bytes(b)
    }

    proof fn lemma_value_round_trip(v: u16) {
        lemma_auto_spec_u16_to_from_le_bytes();
        assert(spec_u16_to_le_bytes(v).len() == 2);
    }

    proof fn lemma_bytes_round_trip(b: Seq<u8>) {
        lemma_auto_spec_u16_to_from_le_bytes();
    }
}

impl PlainValue for u32 {
    open spec fn spec_size() -> nat {
        4
    }

    open spec fn spec_to_bytes(self) -> Seq<u8> {
        spec_u32_to_le_bytes(self)
    }

    open spec fn spec_from_bytes(b: Seq<u8>) -> u32 {
        spec_u32_from_le_bytes(b)
    }

    fn size() -> (r: usize) {
        4
    }

    fn to_bytes(&self) -> (r: Vec<u8>) {
        proof {
            lemma_auto_spec_u32_to_from_le_bytes();
        }
        u32_to_le_bytes(*self)
    }

    fn from_bytes(b: &[u8]) -> (r: u32) {
        u32_from_le_bytes(b)
    }

    proof fn lemma_value_round_trip(v: u32) {
        lemma_auto_spec_u32_to_from_le_bytes();
        assert(spec_u32_to_le_bytes(v).len() == 4);
    }

    proof fn lemma_bytes_round_trip(b: Seq<u8>) {
        lemma_auto_spec_u32_to_from_le_bytes();
    }
}

impl PlainValue for u64 {
    open spec fn spec_size() -> nat {
        8
    }

    open spec fn spec_to_bytes(self) -> Seq<u8> {
        spec_u64_to_le_bytes(self)
    }

    open spec fn spec_from_bytes(b: Seq<u8>) -> u64 {
        spec_u64_from_le_bytes(b)
    }

    fn size() -> (r: usize) {
        8
    }

    fn to_bytes(&self) -> (r: Vec<u8>) {
        proof {
            lemma_auto_spec_u64_to_from_le_bytes();
        }
        u64_to_le_bytes(*self)
    }

    fn from_bytes(b: &[u8]) -> (r: u64) {
        u64_from_le_bytes(b)
    }

    proof fn lemma_value_round_trip(v: u64) {
        lemma_auto_spec_u64_to_from_le_bytes();
    }

    proof fn lemma_bytes_round_trip(b: Seq<u8>) {
        lemma_auto_spec_u64_to_from_le_bytes();
    }
}

/// The two's-complement bits of `v`.
pub open spec fn i8_bits(v: i8) -> u8 {
    if v >= 0 {
        v as u8
    } else {
        (v + 0x100) as u8
    }
}

/// The value whose two's-complement bits are `x`.
pub open spec fn i8_of_bits(x: u8) -> i8 {
    if x <= i8::MAX {
        x as i8
    } else {
        (x - 0x100) as i8
    }
}

fn i8_to_bits(v: i8) -> (r: u8)
    ensures
        r == i8_bits(v),
{
    if v >= 0 {
        v as u8
    } else {
        u8::MAX - ((-(v + 1)) as u8)
    }
}

fn i8_from_bits(x: u8) -> (r: i8)
    ensures
        r == i8_of_bits(x),
{
    if x <= i8::MAX as u8 {
        x as i8
    } else {
        -((u8::MAX - x) as i8) - 1
    }
}

impl PlainValue for i8 {
    open spec fn spec_size() -> nat {
        1
    }

    open spec fn spec_to_bytes(self) -> Seq<u8> {
        seq![i8_bits(self)]
    }

    open spec fn spec_from_bytes(b: Seq<u8>) -> i8 {
        i8_of_bits(b[0])
    }

    fn size() -> (r: usize) {
        1
    }

    fn to_bytes(&self) -> (r: Vec<u8>) {
        <u8 as PlainValue>::to_bytes(&i8_to_bits(*self))
    }

    fn from_bytes(b: &[u8]) -> (r: i8) {
        i8_from_bits(<u8 as PlainValue>::from_bytes(b))
    }

    proof fn lemma_value_round_trip(v: i8) {
        <u8 as PlainValue>::lemma_value_round_trip(i8_bits(v));
    }

    proof fn lemma_bytes_round_trip(b: Seq<u8>) {
        <u8 as PlainValue>::lemma_bytes_round_trip(b);
    }
}

/// The two's-complement bits of `v`.
pub open spec fn i16_bits(v: i16) -> u16 {
    if v >= 0 {
        v as u16
    } else {
        (v + 0x1_0000) as u16
    }
}

/// The value whose two's-complement bits are `x`.
pub open spec fn i16_of_bits(x: u16) -> i16 {
    if x <= i16::MAX {
        x as i16
    } else {
        (x - 0x1_0000) as i16
    }
}

fn i16_to_bits(v: i16) -> (r: u16)
    ensures
        r == i16_bits(v),
{
    if v >= 0 {
        v as u16
    } else {
        u16::MAX - ((-(v + 1)) as u16)
    }
}

fn i16_from_bits(x: u16) -> (r: i16)
    ensures
        r == i16_of_bits(x),
{
    if x <= i16::MAX as u16 {
        x as i16
    } else {
        -((u16::MAX - x) as i16) - 1
    }
}

impl PlainValue for i16 {
    open spec fn spec_size() -> nat {
        2
    }

    open spec fn spec_to_bytes(self) -> Seq<u8> {
        spec_u16_to_le_bytes(i16_bits(self))
    }

    open spec fn spec_from_bytes(b: Seq<u8>) -> i16 {
        i16_of_bits(spec_u16_from_le_bytes(b))
    }

    fn size() -> (r: usize) {
        2
    }

    fn to_bytes(&self) -> (r: Vec<u8>) {
        <u16 as PlainValue>::to_bytes(&i16_to_bits(*self))
    }

    fn from_bytes(b: &[u8]) -> (r: i16) {
        i16_from_bits(<u16 as PlainValue>::from_bytes(b))
    }

    proof fn lemma_value_round_trip(v: i16) {
        <u16 as PlainValue>::lemma_value_round_trip(i16_bits(v));
    }

    proof fn lemma_bytes_round_trip(b: Seq<u8>) {
        <u16 as PlainValue>::lemma_bytes_round_trip(b);
    }
}

/// The two's-complement bits of `v`.
pub open spec fn i32_bits(v: i32) -> u32 {
    if v >= 0 {
        v as u32
    } else {
        (v + 0x1_0000_0000) as u32
    }
}

/// The value whose two's-complement bits are `x`.
pub open spec fn i32_of_bits(x: u32) -> i32 {
    if x <= i32::MAX {
        x as i32
    } else {
        (x - 0x1_0000_0000) as i32
    }
}

fn i32_to_bits(v: i32) -> (r: u32)
    ensures
        r == i32_bits(v),
{
    if v >= 0 {
        v as u32
    } else {
        u32::MAX - ((-(v + 1)) as u32)
    }
}

fn i32_from_bits(x: u32) -> (r: i32)
    ensures
        r == i32_of_bits(x),
{
    if x <= i32::MAX as u32 {
        x as i32
    } else {
        -((u32::MAX - x) as i32) - 1
    }
}

impl PlainValue for i32 {
    open spec fn spec_size() -> nat {
        4
    }

    open spec fn spec_to_bytes(self) -> Seq<u8> {
        spec_u32_to_le_bytes(i32_bits(self))
    }

    open spec fn spec_from_bytes(b: Seq<u8>) -> i32 {
        i32_of_bits(spec_u32_from_le_bytes(b))
    }

    fn size() -> (r: usize) {
        4
    }

    fn to_bytes(&self) -> (r: Vec<u8>) {
        <u32 as PlainValue>::to_bytes(&i32_to_bits(*self))
    }

    fn from_bytes(b: &[u8]) -> (r: i32) {
        i32_from_bits(<u32 as PlainValue>::from_bytes(b))
    }

    proof fn lemma_value_round_trip(v: i32) {
        <u32 as PlainValue>::lemma_value_round_trip(i32_bits(v));
    }

    proof fn lemma_bytes_round_trip(b: Seq<u8>) {
        <u32 as PlainValue>::lemma_bytes_round_trip(b);
    }
}

/// The two's-complement bits of `v`.
pub open spec fn i64_bits(v: i64) -> u64 {
    if v >= 0 {
        v as u64
    } else {
        (v + 0x1_0000_0000_0000_0000) as u64
    }
}

/// The value whose two's-complement bits are `x`.
pub open spec fn i64_of_bits(x: u64) -> i64 {
    if x <= i64::MAX {
        x as i64
    } else {
        (x - 0x1_0000_0000_0000_0000) as i64
    }
}

fn i64_to_bits(v: i64) -> (r: u64)
    ensures
        r == i64_bits(v),
{
    if v >= 0 {
        v as u64
    } else {
        u64::MAX - ((-(v + 1)) as u64)
    }
}

fn i64_from_bits(x: u64) -> (r: i64)
    ensures
        r == i64_of_bits(x),
{
    if x <= i64::MAX as u64 {
        x as i64
    } else {
        -((u64::MAX - x) as i64) - 1
    }
}

impl PlainValue for i64 {
    open spec fn spec_size() -> nat {
        8
    }

    open spec fn spec_to_bytes(self) -> Seq<u8> {
        spec_u64_to_le_bytes(i64_bits(self))
    }

    open spec fn spec_from_bytes(b: Seq<u8>) -> i64 {
        i64_of_bits(spec_u64_from_le_bytes(b))
    }

    fn size() -> (r: usize) {
        8
    }

    fn to_bytes(&self) -> (r: Vec<u8>) {
        <u64 as PlainValue>::to_bytes(&i64_to_bits(*self))
    }

    fn from_bytes(b: &[u8]) -> (r: i64) {
        i64_from_bits(<u64 as PlainValue>::from_bytes(b))
    }

    proof fn lemma_value_round_trip(v: i64) {
        <u64 as PlainValue>::lemma_value_round_trip(i64_bits(v));
    }

    proof fn lemma_bytes_round_trip(b: Seq<u8>) {
        <u64 as PlainValue>::lemma_bytes_round_trip(b);
    }
}

} // verus!
