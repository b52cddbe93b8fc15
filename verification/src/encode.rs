//! Type-tagged binary encoding of primitive and string values.
//!
//! Every value is encoded as a one-byte type tag (0x00..=0x0B) followed by its
//! little-endian payload. Primitives are fixed-size; strings are length-prefixed
//! with a u16 LE length. A float is carried as the bits of its IEEE 754
//! representation.

use crate::le::put_le;
use vstd::prelude::*;
use vstd::slice::*;
use vstd::string::*;

verus! {

/// Bytes a string's length prefix occupies: a u16 LE count before the UTF-8.
pub const STR_LEN_PREFIX: usize = 2;

/// Type tag for `u64`.
pub const TAG_U64: u8 = 0x00;

/// Type tag for `i64`.
pub const TAG_I64: u8 = 0x01;

/// Type tag for a double-precision float.
pub const TAG_F64: u8 = 0x02;

/// Type tag for `u32`.
pub const TAG_U32: u8 = 0x03;

/// Type tag for `i32`.
pub const TAG_I32: u8 = 0x04;

/// Type tag for a single-precision float.
pub const TAG_F32: u8 = 0x05;

/// Type tag for `u16`.
pub const TAG_U16: u8 = 0x06;

/// Type tag for `i16`.
pub const TAG_I16: u8 = 0x07;

/// Type tag for `u8`.
pub const TAG_U8: u8 = 0x08;

/// Type tag for `i8`.
pub const TAG_I8: u8 = 0x09;

/// Type tag for `bool`.
pub const TAG_BOOL: u8 = 0x0A;

/// Type tag for `&str`, `String`, and `&String`.
pub const TAG_STR: u8 = 0x0B;

/// Number of distinct type tags (`0x00..=0x0B`).
pub const TAG_COUNT: usize = 12;

/// A logged value: what an argument stands for in a record.
pub enum Value {
    U64(u64),
    I64(i64),
    /// The bits of a double-precision float.
    F64(u64),
    U32(u32),
    I32(i32),
    /// The bits of a single-precision float.
    F32(u32),
    U16(u16),
    I16(i16),
    U8(u8),
    I8(i8),
    Bool(bool),
    /// The characters of a string.
    Str(Seq<char>),
}

impl Value {
    /// The type tag of the value.
    pub open spec fn tag(self) -> u8 {
        match self {
            Value::U64(_) => TAG_U64,
            Value::I64(_) => TAG_I64,
            Value::F64(_) => TAG_F64,
            Value::U32(_) => TAG_U32,
            Value::I32(_) => TAG_I32,
            Value::F32(_) => TAG_F32,
            Value::U16(_) => TAG_U16,
            Value::I16(_) => TAG_I16,
            Value::U8(_) => TAG_U8,
            Value::I8(_) => TAG_I8,
            Value::Bool(_) => TAG_BOOL,
            Value::Str(_) => TAG_STR,
        }
    }

    /// The encoded bytes of the value. A string's length prefix holds the
    /// lowest 16 bits of its length.
    pub open spec fn payload(self) -> Seq<u8> {
        match self {
            Value::U64(v) => crate::le::le(v as nat, 8),
            Value::I64(v) => crate::le::le(crate::le::twos(v as int, 8), 8),
            Value::F64(bits) => crate::le::le(bits as nat, 8),
            Value::U32(v) => crate::le::le(v as nat, 4),
            Value::I32(v) => crate::le::le(crate::le::twos(v as int, 4), 4),
            Value::F32(bits) => crate::le::le(bits as nat, 4),
            Value::U16(v) => crate::le::le(v as nat, 2),
            Value::I16(v) => crate::le::le(crate::le::twos(v as int, 2), 2),
            Value::U8(v) => seq![v],
            Value::I8(v) => crate::le::le(crate::le::twos(v as int, 1), 1),
            Value::Bool(v) => seq![
                if v {
                    1u8
                } else {
                    0u8
                },
            ],
            Value::Str(chars) => {
                let bytes = vstd::utf8::encode_utf8(chars);
                crate::le::le(bytes.len() % 0x1_0000, 2) + bytes
            },
        }
    }
}

/// The number of payload bytes of each type tag; a string's are counted by its
/// length prefix.
pub open spec fn fixed_size(tag: u8) -> nat {
    if tag <= TAG_F64 {
        8
    } else if tag <= TAG_F32 {
        4
    } else if tag <= TAG_I16 {
        2
    } else if tag <= TAG_BOOL {
        1
    } else {
        0
    }
}

/// Fixed encoded payload size for each type tag. Strings (0x0B) return 0; their
/// size comes from a u16 length prefix.
pub fn payload_size(tag: u8) -> (r: usize)
    ensures
        r == fixed_size(tag),
{
    if tag <= TAG_F64 {
        8
    } else if tag <= TAG_F32 {
        4
    } else if tag <= TAG_I16 {
        2
    } else if tag <= TAG_BOOL {
        1
    } else {
        0
    }
}

/// `n`, or the largest `usize` where it is larger than that.
pub open spec fn saturated(n: nat) -> usize {
    if n <= usize::MAX {
        n as usize
    } else {
        usize::MAX
    }
}

/// A value that can be encoded as a self-delimiting byte sequence with a type tag.
///
/// Primitives encode as their little-endian byte representation. Strings encode
/// as `[len: u16 LE][utf8 bytes]`.
pub trait Loggable: Send {
    /// The value that is encoded.
    spec fn value(&self) -> Value;

    /// Number of bytes this value occupies when encoded.
    fn encoded_size(&self) -> (r: usize)
        ensures
            r == saturated(self.value().payload().len()),
    ;

    /// Writes the encoded representation of this value to the front of `buf`.
    fn encode(&self, buf: &mut [u8])
        requires
            self.value().payload().len() <= old(buf)@.len(),
        ensures
            final(buf)@ == self.value().payload() + old(buf)@.skip(
                self.value().payload().len() as int,
            ),
    ;

    /// Type tag byte for this value (0x00..=0x0B).
    fn type_tag(&self) -> (r: u8)
        ensures
            r == self.value().tag(),
    ;
}

/// The bits of a double-precision float.
#[derive(Debug, Clone, Copy, PartialEq, Eq, Structural)]
pub struct F64Bits(pub u64);

/// The bits of a single-precision float.
#[derive(Debug, Clone, Copy, PartialEq, Eq, Structural)]
pub struct F32Bits(pub u32);

/// The payload of a value is as long as its tag says.
pub proof fn payload_len(v: Value)
    ensures
        v.tag() < TAG_STR ==> v.payload().len() == fixed_size(v.tag()),
        v matches Value::Str(chars) ==> v.payload().len() == 2 + vstd::utf8::encode_utf8(
            chars,
        ).len(),
{
    match v {
        Value::U64(n) => crate::le::le_len(n as nat, 8),
        Value::I64(n) => crate::le::le_len(crate::le::twos(n as int, 8), 8),
        Value::F64(n) => crate::le::le_len(n as nat, 8),
        Value::U32(n) => crate::le::le_len(n as nat, 4),
        Value::I32(n) => crate::le::le_len(crate::le::twos(n as int, 4), 4),
        Value::F32(n) => crate::le::le_len(n as nat, 4),
        Value::U16(n) => crate::le::le_len(n as nat, 2),
        Value::I16(n) => crate::le::le_len(crate::le::twos(n as int, 2), 2),
        Value::U8(n) => {},
        Value::I8(n) => crate::le::le_len(crate::le::twos(n as int, 1), 1),
        Value::Bool(n) => {},
        Value::Str(chars) => {
            crate::le::le_len(vstd::utf8::encode_utf8(chars).len() % 0x1_0000, 2);
        },
    }
}

proof fn i64_bits(v: i64)
    ensures
        (v as u64) as nat == crate::le::twos(v as int, 8),
{
    crate::le::pow256_values();
    assert(v >= 0 ==> (v as u64) == v) by (bit_vector);
    assert(v < 0 ==> (v as u64) == v + 0x1_0000_0000_0000_0000) by (bit_vector);
}

proof fn i32_bits(v: i32)
    ensures
        (v as u32) as nat == crate::le::twos(v as int, 4),
{
    crate::le::pow256_values();
    assert(v >= 0 ==> (v as u32) == v) by (bit_vector);
    assert(v < 0 ==> (v as u32) == v + 0x1_0000_0000) by (bit_vector);
}

proof fn i16_bits(v: i16)
    ensures
        (v as u16) as nat == crate::le::twos(v as int, 2),
{
    crate::le::pow256_values();
    assert(v >= 0 ==> (v as u16) == v) by (bit_vector);
    assert(v < 0 ==> (v as u16) == v + 0x1_0000) by (bit_vector);
}

proof fn i8_bits(v: i8)
    ensures
        (v as u8) as nat == crate::le::twos(v as int, 1),
{
    crate::le::pow256_values();
    assert(v >= 0 ==> (v as u8) == v) by (bit_vector);
    assert(v < 0 ==> (v as u8) == v + 0x100) by (bit_vector);
}

impl Loggable for u64 {
    open spec fn value(&self) -> Value {
        Value::U64(*self)
    }

    fn encoded_size(&self) -> (r: usize) {
        proof {
            payload_len(self.value());
        }
        8
    }

    fn encode(&self, buf: &mut [u8]) {
        proof {
            payload_len(self.value());
        }
        put_le(buf, *self, 8);
    }

    fn type_tag(&self) -> (r: u8) {
        TAG_U64
    }
}

impl Loggable for &u64 {
    open spec fn value(&self) -> Value {
        Value::U64(**self)
    }

    fn encoded_size(&self) -> (r: usize) {
        proof {
            payload_len(self.value());
        }
        8
    }

    fn encode(&self, buf: &mut [u8]) {
        proof {
            payload_len(self.value());
        }
        put_le(buf, **self, 8);
    }

    fn type_tag(&self) -> (r: u8) {
        TAG_U64
    }
}

impl Loggable for i64 {
    open spec fn value(&self) -> Value {
        Value::I64(*self)
    }

    fn encoded_size(&self) -> (r: usize) {
        proof {
            payload_len(self.value());
        }
        8
    }

    fn encode(&self, buf: &mut [u8]) {
        proof {
            payload_len(self.value());
            i64_bits(*self);
        }
        put_le(buf, *self as u64, 8);
    }

    fn type_tag(&self) -> (r: u8) {
        TAG_I64
    }
}

impl Loggable for &i64 {
    open spec fn value(&self) -> Value {
        Value::I64(**self)
    }

    fn encoded_size(&self) -> (r: usize) {
        proof {
            payload_len(self.value());
        }
        8
    }

    fn encode(&self, buf: &mut [u8]) {
        proof {
            payload_len(self.value());
            i64_bits(**self);
        }
        put_le(buf, **self as u64, 8);
    }

    fn type_tag(&self) -> (r: u8) {
        TAG_I64
    }
}

impl Loggable for F64Bits {
    open spec fn value(&self) -> Value {
        Value::F64(self.0)
    }

    fn encoded_size(&self) -> (r: usize) {
        proof {
            payload_len(self.value());
        }
        8
    }

    fn encode(&self, buf: &mut [u8]) {
        proof {
            payload_len(self.value());
        }
        put_le(buf, self.0, 8);
    }

    fn type_tag(&self) -> (r: u8) {
        TAG_F64
    }
}

impl Loggable for &F64Bits {
    open spec fn value(&self) -> Value {
        Value::F64(self.0)
    }

    fn encoded_size(&self) -> (r: usize) {
        proof {
            payload_len(self.value());
        }
        8
    }

    fn encode(&self, buf: &mut [u8]) {
        proof {
            payload_len(self.value());
        }
        put_le(buf, self.0, 8);
    }

    fn type_tag(&self) -> (r: u8) {
        TAG_F64
    }
}

impl Loggable for u32 {
    open spec fn value(&self) -> Value {
        Value::U32(*self)
    }

    fn encoded_size(&self) -> (r: usize) {
        proof {
            payload_len(self.value());
        }
        4
    }

    fn encode(&self, buf: &mut [u8]) {
        proof {
            payload_len(self.value());
        }
        put_le(buf, *self as u64, 4);
    }

    fn type_tag(&self) -> (r: u8) {
        TAG_U32
    }
}

impl Loggable for &u32 {
    open spec fn value(&self) -> Value {
        Value::U32(**self)
    }

    fn encoded_size(&self) -> (r: usize) {
        proof {
            payload_len(self.value());
        }
        4
    }

    fn encode(&self, buf: &mut [u8]) {
        proof {
            payload_len(self.value());
        }
        put_le(buf, **self as u64, 4);
    }

    fn type_tag(&self) -> (r: u8) {
        TAG_U32
    }
}

impl Loggable for i32 {
    open spec fn value(&self) -> Value {
        Value::I32(*self)
    }

    fn encoded_size(&self) -> (r: usize) {
        proof {
            payload_len(self.value());
        }
        4
    }

    fn encode(&self, buf: &mut [u8]) {
        proof {
            payload_len(self.value());
            i32_bits(*self);
        }
        put_le(buf, *self as u32 as u64, 4);
    }

    fn type_tag(&self) -> (r: u8) {
        TAG_I32
    }
}

impl Loggable for &i32 {
    open spec fn value(&self) -> Value {
        Value::I32(**self)
    }

    fn encoded_size(&self) -> (r: usize) {
        proof {
            payload_len(self.value());
        }
        4
    }

    fn encode(&self, buf: &mut [u8]) {
        proof {
            payload_len(self.value());
            i32_bits(**self);
        }
        put_le(buf, **self as u32 as u64, 4);
    }

    fn type_tag(&self) -> (r: u8) {
        TAG_I32
    }
}

impl Loggable for F32Bits {
    open spec fn value(&self) -> Value {
        Value::F32(self.0)
    }

    fn encoded_size(&self) -> (r: usize) {
        proof {
            payload_len(self.value());
        }
        4
    }

    fn encode(&self, buf: &mut [u8]) {
        proof {
            payload_len(self.value());
        }
        put_le(buf, self.0 as u64, 4);
    }

    fn type_tag(&self) -> (r: u8) {
        TAG_F32
    }
}

impl Loggable for &F32Bits {
    open spec fn value(&self) -> Value {
        Value::F32(self.0)
    }

    fn encoded_size(&self) -> (r: usize) {
        proof {
            payload_len(self.value());
        }
        4
    }

    fn encode(&self, buf: &mut [u8]) {
        proof {
            payload_len(self.value());
        }
        put_le(buf, self.0 as u64, 4);
    }

    fn type_tag(&self) -> (r: u8) {
        TAG_F32
    }
}

impl Loggable for u16 {
    open spec fn value(&self) -> Value {
        Value::U16(*self)
    }

    fn encoded_size(&self) -> (r: usize) {
        proof {
            payload_len(self.value());
        }
        2
    }

    fn encode(&self, buf: &mut [u8]) {
        proof {
            payload_len(self.value());
        }
        put_le(buf, *self as u64, 2);
    }

    fn type_tag(&self) -> (r: u8) {
        TAG_U16
    }
}

impl Loggable for &u16 {
    open spec fn value(&self) -> Value {
        Value::U16(**self)
    }

    fn encoded_size(&self) -> (r: usize) {
        proof {
            payload_len(self.value());
        }
        2
    }

    fn encode(&self, buf: &mut [u8]) {
        proof {
            payload_len(self.value());
        }
        put_le(buf, **self as u64, 2);
    }

    fn type_tag(&self) -> (r: u8) {
        TAG_U16
    }
}

impl Loggable for i16 {
    open spec fn value(&self) -> Value {
        Value::I16(*self)
    }

    fn encoded_size(&self) -> (r: usize) {
        proof {
            payload_len(self.value());
        }
        2
    }

    fn encode(&self, buf: &mut [u8]) {
        proof {
            payload_len(self.value());
            i16_bits(*self);
        }
        put_le(buf, *self as u16 as u64, 2);
    }

    fn type_tag(&self) -> (r: u8) {
        TAG_I16
    }
}

impl Loggable for &i16 {
    open spec fn value(&self) -> Value {
        Value::I16(**self)
    }

    fn encoded_size(&self) -> (r: usize) {
        proof {
            payload_len(self.value());
        }
        2
    }

    fn encode(&self, buf: &mut [u8]) {
        proof {
            payload_len(self.value());
            i16_bits(**self);
        }
        put_le(buf, **self as u16 as u64, 2);
    }

    fn type_tag(&self) -> (r: u8) {
        TAG_I16
    }
}

impl Loggable for u8 {
    open spec fn value(&self) -> Value {
        Value::U8(*self)
    }

    fn encoded_size(&self) -> (r: usize) {
        proof {
            payload_len(self.value());
        }
        1
    }

    fn encode(&self, buf: &mut [u8]) {
        proof {
            payload_len(self.value());
            crate::le::byte_le(*self);
        }
        put_le(buf, *self as u64, 1);
    }

    fn type_tag(&self) -> (r: u8) {
        TAG_U8
    }
}

impl Loggable for &u8 {
    open spec fn value(&self) -> Value {
        Value::U8(**self)
    }

    fn encoded_size(&self) -> (r: usize) {
        proof {
            payload_len(self.value());
        }
        1
    }

    fn encode(&self, buf: &mut [u8]) {
        proof {
            payload_len(self.value());
            crate::le::byte_le(**self);
        }
        put_le(buf, **self as u64, 1);
    }

    fn type_tag(&self) -> (r: u8) {
        TAG_U8
    }
}

impl Loggable for i8 {
    open spec fn value(&self) -> Value {
        Value::I8(*self)
    }

    fn encoded_size(&self) -> (r: usize) {
        proof {
            payload_len(self.value());
        }
        1
    }

    fn encode(&self, buf: &mut [u8]) {
        proof {
            payload_len(self.value());
            i8_bits(*self);
        }
        put_le(buf, *self as u8 as u64, 1);
    }

    fn type_tag(&self) -> (r: u8) {
        TAG_I8
    }
}

impl Loggable for &i8 {
    open spec fn value(&self) -> Value {
        Value::I8(**self)
    }

    fn encoded_size(&self) -> (r: usize) {
        proof {
            payload_len(self.value());
        }
        1
    }

    fn encode(&self, buf: &mut [u8]) {
        proof {
            payload_len(self.value());
            i8_bits(**self);
        }
        put_le(buf, **self as u8 as u64, 1);
    }

    fn type_tag(&self) -> (r: u8) {
        TAG_I8
    }
}

impl Loggable for bool {
    open spec fn value(&self) -> Value {
        Value::Bool(*self)
    }

    fn encoded_size(&self) -> (r: usize) {
        1
    }

    fn encode(&self, buf: &mut [u8]) {
        let b: u8 = if *self {
            1
        } else {
            0
        };
        proof {
            crate::le::byte_le(b);
        }
        put_le(buf, b as u64, 1);
    }

    fn type_tag(&self) -> (r: u8) {
        TAG_BOOL
    }
}

impl Loggable for &bool {
    open spec fn value(&self) -> Value {
        Value::Bool(**self)
    }

    fn encoded_size(&self) -> (r: usize) {
        1
    }

    fn encode(&self, buf: &mut [u8]) {
        let b: u8 = if **self {
            1
        } else {
            0
        };
        proof {
            crate::le::byte_le(b);
        }
        put_le(buf, b as u64, 1);
    }

    fn type_tag(&self) -> (r: u8) {
        TAG_BOOL
    }
}

/// Writes the length prefix and the bytes of `s` to the front of `buf`.
fn encode_str(s: &str, buf: &mut [u8])
    requires
        Value::Str(s@).payload().len() <= old(buf)@.len(),
    ensures
        final(buf)@ == Value::Str(s@).payload() + old(buf)@.skip(
            Value::Str(s@).payload().len() as int,
        ),
{
    let bytes: &[u8] = s.as_bytes();
    let n: usize = bytes.len();
    proof {
        payload_len(Value::Str(s@));
        crate::le::le_len((n % 0x1_0000) as nat, 2);
    }
    put_le(buf, (n % 0x1_0000) as u64, STR_LEN_PREFIX);
    let ghost prefixed = buf@;
    let room: usize = buf.len();
    let mut i: usize = 0;
    while i < n
        invariant
            i <= n == bytes@.len(),
            n + 2 <= room == prefixed.len(),
            buf@ == prefixed.take(2) + bytes@.take(i as int) + prefixed.skip(2 + i),
        decreases n - i,
    {
        buf[STR_LEN_PREFIX + i] = bytes[i];
        i = i + 1;
        assert(buf@ =~= prefixed.take(2) + bytes@.take(i as int) + prefixed.skip(2 + i));
    }
    assert(buf@ =~= Value::Str(s@).payload() + old(buf)@.skip(
        Value::Str(s@).payload().len() as int,
    ));
}

impl Loggable for &str {
    open spec fn value(&self) -> Value {
        Value::Str(self@)
    }

    fn encoded_size(&self) -> (r: usize) {
        proof {
            payload_len(self.value());
        }
        STR_LEN_PREFIX.saturating_add(self.as_bytes().len())
    }

    fn encode(&self, buf: &mut [u8]) {
        encode_str(self, buf);
    }

    fn type_tag(&self) -> (r: u8) {
        TAG_STR
    }
}

impl Loggable for String {
    open spec fn value(&self) -> Value {
        Value::Str(self@)
    }

    fn encoded_size(&self) -> (r: usize) {
        proof {
            payload_len(self.value());
        }
        STR_LEN_PREFIX.saturating_add(self.as_str().as_bytes().len())
    }

    fn encode(&self, buf: &mut [u8]) {
        encode_str(self.as_str(), buf);
    }

    fn type_tag(&self) -> (r: u8) {
        TAG_STR
    }
}

impl Loggable for &String {
    open spec fn value(&self) -> Value {
        Value::Str(self@)
    }

    fn encoded_size(&self) -> (r: usize) {
        proof {
            payload_len(self.value());
        }
        STR_LEN_PREFIX.saturating_add(self.as_str().as_bytes().len())
    }

    fn encode(&self, buf: &mut [u8]) {
        encode_str(self.as_str(), buf);
    }

    fn type_tag(&self) -> (r: u8) {
        TAG_STR
    }
}

/// A cons-list of [`Loggable`] references: `()` is the empty list and `(&H, T)`
/// prepends one argument to the tail `T`. A whole record's arguments form one
/// such list, sized and encoded by walking it in order. Each length is its own
/// type, so the list is variadic.
pub trait LoggableArgs: crate::sealed::Sealed {
    /// The logged values, in order.
    spec fn values(&self) -> Seq<Value>;

    /// The number of arguments.
    fn args_count(&self) -> (r: usize)
        ensures
            r == saturated(self.values().len()),
    ;

    /// Total encoded payload size of the arguments (the sum of each
    /// [`Loggable::encoded_size`]).
    fn args_encoded_size(&self) -> (r: usize)
        ensures
            r == saturated(payloads(self.values()).len()),
    ;

    /// Writes each argument's type tag at `buf[*tag]` and encoded payload at
    /// `buf[*pay]`, advancing both cursors.
    fn write_args(&self, buf: &mut [u8], tag: &mut usize, pay: &mut usize)
        requires
            *old(tag) + self.values().len() <= *old(pay),
            *old(pay) + payloads(self.values()).len() <= old(buf)@.len(),
        ensures
            *final(tag) == *old(tag) + self.values().len(),
            *final(pay) == *old(pay) + payloads(self.values()).len(),
            final(buf)@ == old(buf)@.take(*old(tag) as int) + tags(self.values())
                + old(buf)@.subrange(*final(tag) as int, *old(pay) as int) + payloads(
                self.values(),
            ) + old(buf)@.skip(*final(pay) as int),
    ;
}

/// The tags of `values`, in order.
pub open spec fn tags(values: Seq<Value>) -> Seq<u8> {
    values.map_values(|v: Value| v.tag())
}

/// The payloads of `values`, one after the other.
pub open spec fn payloads(values: Seq<Value>) -> Seq<u8>
    decreases values.len(),
{
    if values.len() == 0 {
        Seq::empty()
    } else {
        values[0].payload() + payloads(values.skip(1))
    }
}

impl LoggableArgs for () {
    open spec fn values(&self) -> Seq<Value> {
        Seq::empty()
    }

    fn args_count(&self) -> (r: usize) {
        0
    }

    fn args_encoded_size(&self) -> (r: usize) {
        0
    }

    fn write_args(&self, buf: &mut [u8], tag: &mut usize, pay: &mut usize) {
        assert(buf@ =~= old(buf)@.take(*tag as int) + tags(self.values()) + old(buf)@.subrange(
            *tag as int,
            *pay as int,
        ) + payloads(self.values()) + old(buf)@.skip(*pay as int));
    }
}

impl<H: Loggable, T: LoggableArgs> LoggableArgs for (&H, T) {
    open spec fn values(&self) -> Seq<Value> {
        seq![self.0.value()] + self.1.values()
    }

    fn args_count(&self) -> (r: usize) {
        self.1.args_count().saturating_add(1)
    }

    fn args_encoded_size(&self) -> (r: usize) {
        proof {
            assert(self.values().skip(1) =~= self.1.values());
        }
        self.0.encoded_size().saturating_add(self.1.args_encoded_size())
    }

    fn write_args(&self, buf: &mut [u8], tag: &mut usize, pay: &mut usize) {
        let ghost first = self.0.value();
        let ghost rest = self.1.values();
        let ghost t: int = *tag as int;
        let ghost p: int = *pay as int;
        proof {
            assert(self.values().skip(1) =~= rest);
        }
        buf[*tag] = self.0.type_tag();
        *tag = *tag + 1;
        let size: usize = self.0.encoded_size();
        let ghost tagged = buf@;
        {
            let (_, tail) = buf.split_at_mut(*pay);
            self.0.encode(tail);
        }
        let ghost stored = buf@;
        *pay = *pay + size;
        proof {
            assert(stored =~= old(buf)@.take(t) + seq![first.tag()] + old(buf)@.subrange(t + 1, p)
                + first.payload() + old(buf)@.skip(p + size));
        }
        self.1.write_args(buf, tag, pay);
        proof {
            assert(tags(self.values()) =~= seq![first.tag()] + tags(rest));
            assert(payloads(self.values()) =~= first.payload() + payloads(rest));
            assert(buf@ =~= old(buf)@.take(t) + tags(self.values()) + old(buf)@.subrange(
                *tag as int,
                p,
            ) + payloads(self.values()) + old(buf)@.skip(*pay as int));
        }
    }
}

} // verus!
