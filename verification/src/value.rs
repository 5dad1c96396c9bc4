//! The leaf values an EBML document can hold: signed and unsigned integers,
//! strings, dates, binary blobs, and floats.
//!
//! Integer and float values carry their stored width, because the encoded
//! form is width-preserving: a value read from three bytes is written back to
//! three bytes. When a value is built from a native integer instead, the
//! smallest width whose range contains it is chosen. Dates are a signed
//! 64-bit count of nanoseconds since 2001-01-01T00:00:00Z, the "millennium"
//! epoch. Floats are kept as their raw big-endian bytes: the 10-byte form has
//! no native type at all, and what arithmetic callers want to do with the
//! others is their business.

use vstd::prelude::*;

use crate::vint::{be_bytes_value, pow256, Size, VINT_MAX};

verus! {

/// Nanoseconds from 1970-01-01T00:00:00Z to 2001-01-01T00:00:00Z.
pub const UNIX_TO_MILLENNIUM_NANOS: i64 = 978_307_200_000_000_000;

/// Milliseconds from 1970-01-01T00:00:00Z to 2001-01-01T00:00:00Z.
pub const UNIX_TO_MILLENNIUM_MILLIS: i64 = 978_307_200_000;

/// Seconds from 1970-01-01T00:00:00Z to 2001-01-01T00:00:00Z.
pub const UNIX_TO_MILLENNIUM_SECONDS: i64 = 978_307_200;

/// The value of a byte string read as a big-endian two's-complement signed
/// integer; zero bytes denote zero.
pub open spec fn spec_int_from_bytes(s: Seq<u8>) -> int {
    if s.len() == 0 {
        0
    } else {
        (if s[0] >= 0x80 {
            s[0] - 256
        } else {
            s[0] as int
        }) * pow256((s.len() - 1) as nat) + be_bytes_value(s.skip(1))
    }
}

/// The smallest width in bytes whose two's-complement range contains `v`.
pub open spec fn int_min_width(v: int) -> int {
    if v == 0 {
        0
    } else if -0x80 <= v < 0x80 {
        1
    } else if -0x8000 <= v < 0x8000 {
        2
    } else if -0x80_0000 <= v < 0x80_0000 {
        3
    } else if -0x8000_0000 <= v < 0x8000_0000 {
        4
    } else if -0x80_0000_0000 <= v < 0x80_0000_0000 {
        5
    } else if -0x8000_0000_0000 <= v < 0x8000_0000_0000 {
        6
    } else if -0x80_0000_0000_0000 <= v < 0x80_0000_0000_0000 {
        7
    } else {
        8
    }
}

/// The smallest width in bytes whose unsigned range contains `v`.
pub open spec fn uint_min_width(v: int) -> int {
    if v == 0 {
        0
    } else if v < 0x100 {
        1
    } else if v < 0x1_0000 {
        2
    } else if v < 0x100_0000 {
        3
    } else if v < 0x1_0000_0000 {
        4
    } else if v < 0x100_0000_0000 {
        5
    } else if v < 0x1_0000_0000_0000 {
        6
    } else if v < 0x100_0000_0000_0000 {
        7
    } else {
        8
    }
}

/// A signed integer with a stored width of 0 to 8 bytes; width 0 can only
/// hold the value 0.
#[derive(Debug, Clone, Copy, PartialEq, Eq)]
pub enum IntValue {
    /// A 0-byte signed integer whose only possible value is 0.
    Int0,
    /// A 1-byte signed integer.
    Int1(i8),
    /// A 2-byte signed integer.
    Int2(i16),
    /// A 3-byte signed integer.
    Int3(i32),
    /// A 4-byte signed integer.
    Int4(i32),
    /// A 5-byte signed integer.
    Int5(i64),
    /// A 6-byte signed integer.
    Int6(i64),
    /// A 7-byte signed integer.
    Int7(i64),
    /// A 8-byte signed integer.
    Int8(i64),
}

impl IntValue {
    /// The stored width in bytes.
    pub open spec fn spec_width(self) -> int {
        match self {
            IntValue::Int0 => 0,
            IntValue::Int1(_) => 1,
            IntValue::Int2(_) => 2,
            IntValue::Int3(_) => 3,
            IntValue::Int4(_) => 4,
            IntValue::Int5(_) => 5,
            IntValue::Int6(_) => 6,
            IntValue::Int7(_) => 7,
            IntValue::Int8(_) => 8,
        }
    }

    /// The numeric value.
    pub open spec fn spec_repr(self) -> int {
        match self {
            IntValue::Int0 => 0,
            IntValue::Int1(x) => x as int,
            IntValue::Int2(x) => x as int,
            IntValue::Int3(x) => x as int,
            IntValue::Int4(x) => x as int,
            IntValue::Int5(x) => x as int,
            IntValue::Int6(x) => x as int,
            IntValue::Int7(x) => x as int,
            IntValue::Int8(x) => x as int,
        }
    }

    /// Builds the value from an 8-bit native integer at its minimal width.
    pub fn from_i8(data: i8) -> (r: IntValue)
        ensures
            r.spec_repr() == data as int,
            r.spec_width() == int_min_width(data as int),
    {
        if data == 0 {
            IntValue::Int0
        } else {
            IntValue::Int1(data)
        }
    }

    /// Builds the value from a 16-bit native integer at its minimal width.
    pub fn from_i16(data: i16) -> (r: IntValue)
        ensures
            r.spec_repr() == data as int,
            r.spec_width() == int_min_width(data as int),
    {
        if data > 0x7F || data < -0x80 {
            IntValue::Int2(data)
        } else {
            Self::from_i8(data as i8)
        }
    }

    /// Builds the value from a 32-bit native integer at its minimal width.
    pub fn from_i32(data: i32) -> (r: IntValue)
        ensures
            r.spec_repr() == data as int,
            r.spec_width() == int_min_width(data as int),
    {
        if data > 0x7F_FFFF || data < -0x80_0000 {
            IntValue::Int4(data)
        } else if data > 0x7FFF || data < -0x8000 {
            IntValue::Int3(data)
        } else {
            Self::from_i16(data as i16)
        }
    }

    /// Builds the value from a 64-bit native integer at its minimal width.
    pub fn from_i64(data: i64) -> (r: IntValue)
        ensures
            r.spec_repr() == data as int,
            r.spec_width() == int_min_width(data as int),
    {
        if data > 0x7F_FFFF_FFFF_FFFF || data < -0x80_0000_0000_0000 {
            IntValue::Int8(data)
        } else if data > 0x7FFF_FFFF_FFFF || data < -0x8000_0000_0000 {
            IntValue::Int7(data)
        } else if data > 0x7F_FFFF_FFFF || data < -0x80_0000_0000 {
            IntValue::Int6(data)
        } else if data > 0x7FFF_FFFF || data < -0x8000_0000 {
            IntValue::Int5(data)
        } else {
            Self::from_i32(data as i32)
        }
    }

    /// Decodes a big-endian two's-complement payload, preserving its width;
    /// `None` when the payload is longer than eight bytes.
    pub fn from_bytes(data: &Vec<u8>) -> (r: Option<IntValue>)
        ensures
            r is Some <==> data@.len() <= 8,
            r matches Some(v) ==> v.spec_width() == data@.len() && v.spec_repr()
                == spec_int_from_bytes(data@),
    {
        let n = data.len();
        if n > 8 {
            return None;
        }
        if n == 0 {
            return Some(IntValue::Int0);
        }
        let b0 = data[0];
        let mut acc: i64 = if b0 >= 0x80 {
            (b0 as i64) - 256
        } else {
            b0 as i64
        };
        let ghost sf: int = if b0 >= 0x80 {
            b0 - 256
        } else {
            b0 as int
        };
        let mut i: usize = 1;
        proof {
            assert(data@.subrange(1, 1) =~= Seq::<u8>::empty());
            reveal_with_fuel(be_bytes_value, 2);
            reveal_with_fuel(pow256, 2);
        }
        while i < n
            invariant
                1 <= i <= n <= 8,
                n == data@.len(),
                sf == (if data@[0] >= 0x80 {
                    data@[0] - 256
                } else {
                    data@[0] as int
                }),
                -128 <= sf <= 127,
                acc == sf * pow256((i - 1) as nat) + be_bytes_value(data@.subrange(1, i as int)),
                sf * pow256((i - 1) as nat) <= acc < (sf + 1) * pow256((i - 1) as nat),
            decreases n - i,
        {
            let b = data[i];
            proof {
                let p = pow256((i - 1) as nat);
                let q = pow256(i as nat);
                crate::vint::lemma_pow256_pos(i as nat);
                crate::vint::lemma_pow256_pos((i - 1) as nat);
                assert(q == 256 * p);
                assert(data@.subrange(1, i + 1) =~= data@.subrange(1, i as int).push(data@[i as int]));
                crate::vint::lemma_be_bytes_value_push(data@.subrange(1, i as int), data@[i as int]);
                assert((sf * p) * 256 == sf * q && ((sf + 1) * p) * 256 == (sf + 1) * q)
                    by (nonlinear_arith)
                    requires
                        q == 256 * p,
                ;
                assert(-128 * q <= sf * q && (sf + 1) * q <= 128 * q) by (nonlinear_arith)
                    requires
                        -128 <= sf <= 127,
                        q >= 0,
                ;
                reveal_with_fuel(pow256, 9);
            }
            acc = acc * 256 + (b as i64);
            i += 1;
        }
        proof {
            assert(data@.subrange(1, n as int) =~= data@.skip(1));
            crate::vint::lemma_be_bytes_value_bound(data@.skip(1));
            crate::vint::lemma_pow256_pos((n - 1) as nat);
            assert(-128 * pow256((n - 1) as nat) <= sf * pow256((n - 1) as nat) && (sf + 1)
                * pow256((n - 1) as nat) <= 128 * pow256((n - 1) as nat)) by (nonlinear_arith)
                requires
                    -128 <= sf <= 127,
                    pow256((n - 1) as nat) >= 0,
            ;
            reveal_with_fuel(pow256, 9);
        }
        Some(
            if n == 1 {
                IntValue::Int1(acc as i8)
            } else if n == 2 {
                IntValue::Int2(acc as i16)
            } else if n == 3 {
                IntValue::Int3(acc as i32)
            } else if n == 4 {
                IntValue::Int4(acc as i32)
            } else if n == 5 {
                IntValue::Int5(acc)
            } else if n == 6 {
                IntValue::Int6(acc)
            } else if n == 7 {
                IntValue::Int7(acc)
            } else {
                IntValue::Int8(acc)
            },
        )
    }

    /// The size of the encoded value in bytes, as a VINT.
    pub fn get_size(&self) -> (r: Size)
        ensures
            r.spec_get_value() == Some(self.spec_width() as u64),
    {
        let w: u8 = match *self {
            IntValue::Int0 => 0,
            IntValue::Int1(_) => 1,
            IntValue::Int2(_) => 2,
            IntValue::Int3(_) => 3,
            IntValue::Int4(_) => 4,
            IntValue::Int5(_) => 5,
            IntValue::Int6(_) => 6,
            IntValue::Int7(_) => 7,
            IntValue::Int8(_) => 8,
        };
        Size::from_u8(w)
    }

    /// The numeric value, widened to `i64`.
    pub fn to_repr(&self) -> (r: i64)
        ensures
            r as int == self.spec_repr(),
    {
        match *self {
            IntValue::Int0 => 0i64,
            IntValue::Int1(x) => x as i64,
            IntValue::Int2(x) => x as i64,
            IntValue::Int3(x) => x as i64,
            IntValue::Int4(x) => x as i64,
            IntValue::Int5(x) => x,
            IntValue::Int6(x) => x,
            IntValue::Int7(x) => x,
            IntValue::Int8(x) => x,
        }
    }
}

/// An unsigned integer with a stored width of 0 to 8 bytes; width 0 can only
/// hold the value 0.
#[derive(Debug, Clone, Copy, PartialEq, Eq)]
pub enum UintValue {
    /// A 0-byte unsigned integer whose only possible value is 0.
    Uint0,
    /// A 1-byte unsigned integer.
    Uint1(u8),
    /// A 2-byte unsigned integer.
    Uint2(u16),
    /// A 3-byte unsigned integer.
    Uint3(u32),
    /// A 4-byte unsigned integer.
    Uint4(u32),
    /// A 5-byte unsigned integer.
    Uint5(u64),
    /// A 6-byte unsigned integer.
    Uint6(u64),
    /// A 7-byte unsigned integer.
    Uint7(u64),
    /// A 8-byte unsigned integer.
    Uint8(u64),
}

impl UintValue {
    /// The stored width in bytes.
    pub open spec fn spec_width(self) -> int {
        match self {
            UintValue::Uint0 => 0,
            UintValue::Uint1(_) => 1,
            UintValue::Uint2(_) => 2,
            UintValue::Uint3(_) => 3,
            UintValue::Uint4(_) => 4,
            UintValue::Uint5(_) => 5,
            UintValue::Uint6(_) => 6,
            UintValue::Uint7(_) => 7,
            UintValue::Uint8(_) => 8,
        }
    }

    /// The numeric value.
    pub open spec fn spec_repr(self) -> int {
        match self {
            UintValue::Uint0 => 0,
            UintValue::Uint1(x) => x as int,
            UintValue::Uint2(x) => x as int,
            UintValue::Uint3(x) => x as int,
            UintValue::Uint4(x) => x as int,
            UintValue::Uint5(x) => x as int,
            UintValue::Uint6(x) => x as int,
            UintValue::Uint7(x) => x as int,
            UintValue::Uint8(x) => x as int,
        }
    }

    /// Builds the value from an 8-bit native integer at its minimal width.
    pub fn from_u8(data: u8) -> (r: UintValue)
        ensures
            r.spec_repr() == data as int,
            r.spec_width() == uint_min_width(data as int),
    {
        if data == 0 {
            UintValue::Uint0
        } else {
            UintValue::Uint1(data)
        }
    }

    /// Builds the value from a 16-bit native integer at its minimal width.
    pub fn from_u16(data: u16) -> (r: UintValue)
        ensures
            r.spec_repr() == data as int,
            r.spec_width() == uint_min_width(data as int),
    {
        if data > 0xFF {
            UintValue::Uint2(data)
        } else {
            Self::from_u8(data as u8)
        }
    }

    /// Builds the value from a 32-bit native integer at its minimal width.
    pub fn from_u32(data: u32) -> (r: UintValue)
        ensures
            r.spec_repr() == data as int,
            r.spec_width() == uint_min_width(data as int),
    {
        if data > 0xFF_FFFF {
            UintValue::Uint4(data)
        } else if data > 0xFFFF {
            UintValue::Uint3(data)
        } else {
            Self::from_u16(data as u16)
        }
    }

    /// Builds the value from a 64-bit native integer at its minimal width.
    pub fn from_u64(data: u64) -> (r: UintValue)
        ensures
            r.spec_repr() == data as int,
            r.spec_width() == uint_min_width(data as int),
    {
        if data > 0xFF_FFFF_FFFF_FFFF {
            UintValue::Uint8(data)
        } else if data > 0xFFFF_FFFF_FFFF {
            UintValue::Uint7(data)
        } else if data > 0xFF_FFFF_FFFF {
            UintValue::Uint6(data)
        } else if data > 0xFFFF_FFFF {
            UintValue::Uint5(data)
        } else {
            Self::from_u32(data as u32)
        }
    }

    /// Decodes a big-endian unsigned payload, preserving its width; `None`
    /// when the payload is longer than eight bytes.
    pub fn from_bytes(data: &Vec<u8>) -> (r: Option<UintValue>)
        ensures
            r is Some <==> data@.len() <= 8,
            r matches Some(v) ==> v.spec_width() == data@.len() && v.spec_repr()
                == be_bytes_value(data@),
    {
        let n = data.len();
        if n > 8 {
            return None;
        }
        let mut acc: u64 = 0;
        let mut i: usize = 0;
        proof {
            assert(data@.subrange(0, 0) =~= Seq::<u8>::empty());
            reveal_with_fuel(be_bytes_value, 2);
        }
        while i < n
            invariant
                0 <= i <= n <= 8,
                n == data@.len(),
                acc == be_bytes_value(data@.subrange(0, i as int)),
                acc < pow256(i as nat),
            decreases n - i,
        {
            let b = data[i];
            proof {
                assert(data@.subrange(0, i + 1) =~= data@.subrange(0, i as int).push(
                    data@[i as int],
                ));
                crate::vint::lemma_be_bytes_value_push(data@.subrange(0, i as int), data@[i as int]);
                assert(pow256((i + 1) as nat) == 256 * pow256(i as nat));
                reveal_with_fuel(pow256, 9);
            }
            acc = acc * 256 + (b as u64);
            i += 1;
        }
        proof {
            assert(data@.subrange(0, n as int) =~= data@);
            reveal_with_fuel(pow256, 9);
        }
        Some(
            if n == 0 {
                UintValue::Uint0
            } else if n == 1 {
                UintValue::Uint1(acc as u8)
            } else if n == 2 {
                UintValue::Uint2(acc as u16)
            } else if n == 3 {
                UintValue::Uint3(acc as u32)
            } else if n == 4 {
                UintValue::Uint4(acc as u32)
            } else if n == 5 {
                UintValue::Uint5(acc)
            } else if n == 6 {
                UintValue::Uint6(acc)
            } else if n == 7 {
                UintValue::Uint7(acc)
            } else {
                UintValue::Uint8(acc)
            },
        )
    }

    /// The size of the encoded value in bytes, as a VINT.
    pub fn get_size(&self) -> (r: Size)
        ensures
            r.spec_get_value() == Some(self.spec_width() as u64),
    {
        let w: u8 = match *self {
            UintValue::Uint0 => 0,
            UintValue::Uint1(_) => 1,
            UintValue::Uint2(_) => 2,
            UintValue::Uint3(_) => 3,
            UintValue::Uint4(_) => 4,
            UintValue::Uint5(_) => 5,
            UintValue::Uint6(_) => 6,
            UintValue::Uint7(_) => 7,
            UintValue::Uint8(_) => 8,
        };
        Size::from_u8(w)
    }

    /// The numeric value, widened to `u64`.
    pub fn to_repr(&self) -> (r: u64)
        ensures
            r as int == self.spec_repr(),
    {
        match *self {
            UintValue::Uint0 => 0u64,
            UintValue::Uint1(x) => x as u64,
            UintValue::Uint2(x) => x as u64,
            UintValue::Uint3(x) => x as u64,
            UintValue::Uint4(x) => x as u64,
            UintValue::Uint5(x) => x,
            UintValue::Uint6(x) => x,
            UintValue::Uint7(x) => x,
            UintValue::Uint8(x) => x,
        }
    }
}

/// A UTF-8 string, optionally followed by zero padding that counts toward the
/// encoded size but not the value.
#[derive(Debug, Clone, PartialEq, Eq)]
pub struct StringValue {
    data: String,
    padding_len: usize,
}

impl StringValue {
    /// The characters of the string.
    pub closed spec fn spec_data(self) -> Seq<char> {
        self.data@
    }

    /// The number of padding bytes.
    pub closed spec fn spec_padding(self) -> int {
        self.padding_len as int
    }

    /// The encoded size in bytes: the UTF-8 encoding plus the padding.
    pub open spec fn spec_encoded_len(self) -> int {
        vstd::utf8::encode_utf8(self.spec_data()).len() + self.spec_padding()
    }

    /// Wraps a string with no padding.
    pub fn from_string(data: String) -> (r: StringValue)
        ensures
            r.spec_data() == data@,
            r.spec_padding() == 0,
    {
        StringValue { data, padding_len: 0 }
    }

    /// Wraps a string followed by `padding_len` zero bytes. The padding is
    /// reflected in the size of the value but not its representation.
    pub fn with_padding(data: String, padding_len: usize) -> (r: StringValue)
        ensures
            r.spec_data() == data@,
            r.spec_padding() == padding_len as int,
    {
        StringValue { data, padding_len }
    }

    /// The size of the encoded value in bytes, as a VINT.
    pub fn get_size(&self) -> (r: Size)
        requires
            self.spec_encoded_len() <= VINT_MAX,
        ensures
            r.spec_get_value() == Some(self.spec_encoded_len() as u64),
    {
        let bytes = self.data.as_str().as_bytes().len();
        proof {
            assert(bytes as int == vstd::utf8::encode_utf8(self.data@).len());
        }
        match Size::from_u64((bytes as u64) + (self.padding_len as u64)) {
            Some(s) => s,
            None => unreached(),
        }
    }

    /// The string itself; the padding is dropped.
    pub fn to_repr(&self) -> (r: String)
        ensures
            r@ == self.spec_data(),
    {
        self.data.clone()
    }
}

/// A timestamp: nanoseconds since 2001-01-01T00:00:00Z, at nanosecond
/// precision, always stored in eight bytes.
#[derive(Debug, Clone, Copy, PartialEq, Eq, Structural)]
pub struct DateValue {
    nanos_since_millennium: i64,
}

impl DateValue {
    /// Nanoseconds since 2001-01-01T00:00:00Z.
    pub closed spec fn spec_nanos(self) -> int {
        self.nanos_since_millennium as int
    }

    /// Builds the value directly from a count of nanoseconds since
    /// 2001-01-01T00:00:00Z.
    pub fn from_nanos(nanos: i64) -> (r: DateValue)
        ensures
            r.spec_nanos() == nanos as int,
    {
        DateValue { nanos_since_millennium: nanos }
    }

    /// Builds the value from a count of milliseconds since the Unix epoch,
    /// returning `None` when the nanosecond count would overflow.
    pub fn from_unix_millis(millis: i64) -> (r: Option<DateValue>)
        ensures
            r is Some <==> -0x7FFF_FFFF_FFFF_FFFF <= (millis - UNIX_TO_MILLENNIUM_MILLIS)
                * 1_000_000 <= 0x7FFF_FFFF_FFFF_FFFF,
            r matches Some(d) ==> d.spec_nanos() == (millis - UNIX_TO_MILLENNIUM_MILLIS)
                * 1_000_000,
    {
        if millis < UNIX_TO_MILLENNIUM_MILLIS - 9_223_372_036_854 || millis
            > UNIX_TO_MILLENNIUM_MILLIS + 9_223_372_036_854 {
            None
        } else {
            Some(DateValue { nanos_since_millennium: (millis - UNIX_TO_MILLENNIUM_MILLIS)
                * 1_000_000 })
        }
    }

    /// Builds the value from a count of seconds since the Unix epoch,
    /// returning `None` when the nanosecond count would overflow.
    pub fn from_unix_seconds(seconds: i64) -> (r: Option<DateValue>)
        ensures
            r is Some <==> -0x7FFF_FFFF_FFFF_FFFF <= (seconds - UNIX_TO_MILLENNIUM_SECONDS)
                * 1_000_000_000 <= 0x7FFF_FFFF_FFFF_FFFF,
            r matches Some(d) ==> d.spec_nanos() == (seconds - UNIX_TO_MILLENNIUM_SECONDS)
                * 1_000_000_000,
    {
        if seconds < UNIX_TO_MILLENNIUM_SECONDS - 9_223_372_036 || seconds
            > UNIX_TO_MILLENNIUM_SECONDS + 9_223_372_036 {
            None
        } else {
            Some(DateValue { nanos_since_millennium: (seconds - UNIX_TO_MILLENNIUM_SECONDS)
                * 1_000_000_000 })
        }
    }

    /// Builds the value from a calendar date-time, returning `None` when its
    /// nanosecond count does not fit in 64 bits.
    pub fn from_datetime(datetime: &crate::datetime::DateTime) -> (r: Option<DateValue>)
        ensures
            r is Some <==> -0x8000_0000_0000_0000 <= datetime.spec_nanos()
                <= 0x7FFF_FFFF_FFFF_FFFF,
            r matches Some(d) ==> d.spec_nanos() == datetime.spec_nanos(),
    {
        match datetime.nanos_since_millennium() {
            Some(nanos) => Some(DateValue { nanos_since_millennium: nanos }),
            None => None,
        }
    }

    /// The calendar form of this timestamp.
    pub fn to_datetime(&self) -> (r: crate::datetime::DateTime)
        ensures
            r.spec_nanos() == self.spec_nanos(),
    {
        crate::datetime::DateTime::from_nanos(self.nanos_since_millennium)
    }

    /// The size of the encoded value in bytes, as a VINT: always 8.
    pub fn get_size(&self) -> (r: Size)
        ensures
            r.spec_get_value() == Some(8u64),
    {
        Size::from_u8(8)
    }

    /// Nanoseconds since the Unix epoch. Counts close to the end of the
    /// representable range have no Unix form in 64 bits and are excluded.
    pub fn to_repr(&self) -> (r: i64)
        requires
            self.spec_nanos() + UNIX_TO_MILLENNIUM_NANOS <= 0x7FFF_FFFF_FFFF_FFFF,
        ensures
            r as int == self.spec_nanos() + UNIX_TO_MILLENNIUM_NANOS,
    {
        self.nanos_since_millennium + UNIX_TO_MILLENNIUM_NANOS
    }

    /// Nanoseconds since the millennium epoch, the stored form.
    pub fn nanos_since_millennium(&self) -> (r: i64)
        ensures
            r as int == self.spec_nanos(),
    {
        self.nanos_since_millennium
    }
}

/// Relies on `String::from_utf8`: it succeeds exactly on valid UTF-8 input
/// and decodes it, as `vstd`'s own UTF-8 specification states it.
#[verifier::external_body]
pub(crate) fn string_from_utf8(v: Vec<u8>) -> (r: Option<String>)
    ensures
        r is Some <==> vstd::utf8::valid_utf8(v@),
        r matches Some(s) ==> s@ == vstd::utf8::decode_utf8(v@),
{
    String::from_utf8(v).ok()
}

/// Arbitrary binary data.
#[derive(Debug, Clone, PartialEq, Eq)]
pub struct BinaryValue {
    data: Vec<u8>,
}

impl BinaryValue {
    /// The bytes of the value.
    pub closed spec fn spec_data(self) -> Seq<u8> {
        self.data@
    }

    /// Wraps a byte vector.
    pub fn from_vec(data: Vec<u8>) -> (r: BinaryValue)
        ensures
            r.spec_data() == data@,
    {
        BinaryValue { data }
    }

    /// The size of the encoded value in bytes, as a VINT.
    pub fn get_size(&self) -> (r: Size)
        requires
            self.spec_data().len() <= VINT_MAX,
        ensures
            r.spec_get_value() == Some(self.spec_data().len() as u64),
    {
        match Size::from_u64(self.data.len() as u64) {
            Some(s) => s,
            None => unreached(),
        }
    }

    /// The bytes of the value.
    pub fn to_repr(&self) -> (r: Vec<u8>)
        ensures
            r@ == self.spec_data(),
    {
        self.data.clone()
    }
}

/// A floating-point value, kept as its raw big-endian bytes. Width 0 denotes
/// 0.0; widths 4 and 8 are the IEEE single and double encodings; width 10 is
/// the x86 extended form, which has no native type and stays opaque.
#[derive(Debug, Clone, PartialEq, Eq)]
pub struct FloatValue {
    data: Vec<u8>,
}

impl FloatValue {
    /// The stored bytes.
    pub closed spec fn spec_data(self) -> Seq<u8> {
        self.data@
    }

    /// The stored width in bytes: 0, 4, 8 or 10.
    pub open spec fn spec_width(self) -> int {
        self.spec_data().len() as int
    }

    /// Whether the stored width is one of the legal four.
    pub open spec fn wf(self) -> bool {
        self.spec_width() == 0 || self.spec_width() == 4 || self.spec_width() == 8
            || self.spec_width() == 10
    }

    /// Wraps a float payload, preserving its width; `None` when the length is
    /// not 0, 4, 8 or 10.
    pub fn from_bytes(data: Vec<u8>) -> (r: Option<FloatValue>)
        ensures
            r is Some <==> (data@.len() == 0 || data@.len() == 4 || data@.len() == 8 || data@.len()
                == 10),
            r matches Some(v) ==> v.spec_data() == data@ && v.wf(),
    {
        let n = data.len();
        if n == 0 || n == 4 || n == 8 || n == 10 {
            Some(FloatValue { data })
        } else {
            None
        }
    }

    /// The size of the encoded value in bytes, as a VINT.
    pub fn get_size(&self) -> (r: Size)
        requires
            self.wf(),
        ensures
            r.spec_get_value() == Some(self.spec_width() as u64),
    {
        Size::from_u8(self.data.len() as u8)
    }

    /// The raw big-endian bytes of the value.
    pub fn to_repr(&self) -> (r: Vec<u8>)
        ensures
            r@ == self.spec_data(),
    {
        self.data.clone()
    }
}

/// Any leaf value an element can hold, tagged by kind.
#[derive(Debug, Clone, PartialEq)]
pub enum Value {
    /// A signed integer.
    Int(IntValue),
    /// An unsigned integer.
    Uint(UintValue),
    /// A float, as raw bytes.
    Float(FloatValue),
    /// A timestamp.
    Date(DateValue),
    /// A UTF-8 string.
    Str(StringValue),
    /// Arbitrary bytes.
    Binary(BinaryValue),
}

} // verus!
