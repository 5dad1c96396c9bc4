//! Restrictions on the values an element may hold: range predicates per
//! value kind, composable by union and intersection.
//!
//! Each value kind has its own range-item vocabulary. A list of range items
//! of one kind is read as a union: a value matches the list when it matches
//! any item. String and binary ranges are special: they constrain every
//! Unicode scalar of the string, or every byte of the blob. A float value
//! never matches any restriction here: the 10-byte form cannot be evaluated
//! at all, and the others are deliberately left to the caller.

use vstd::prelude::*;

use crate::value::{BinaryValue, DateValue, IntValue, StringValue, UintValue, Value};

verus! {

/// An inclusive range of signed integers, possibly open on one end.
#[derive(Debug, Clone, Copy, PartialEq, Eq, Structural)]
pub enum IntRangeRestriction {
    /// The range consists of a single value.
    Single(i64),
    /// The range is unbounded on the left, with a maximum.
    OpenLeft {
        /// The maximum value.
        max: i64,
    },
    /// The range is unbounded on the right, with a minimum.
    OpenRight {
        /// The minimum value.
        min: i64,
    },
    /// The range is bounded on both sides.
    Closed {
        /// The minimum value.
        min: i64,
        /// The maximum value.
        max: i64,
    },
}

impl IntRangeRestriction {
    /// Whether `v` lies in the range.
    pub open spec fn spec_matches(self, v: int) -> bool {
        match self {
            IntRangeRestriction::Single(allowed) => v == allowed,
            IntRangeRestriction::OpenLeft { max } => v <= max,
            IntRangeRestriction::OpenRight { min } => min <= v,
            IntRangeRestriction::Closed { min, max } => min <= v && v <= max,
        }
    }

    /// Checks whether the value lies in the range.
    pub fn matches(&self, value: &IntValue) -> (r: bool)
        ensures
            r == self.spec_matches(value.spec_repr()),
    {
        let v = value.to_repr();
        match *self {
            IntRangeRestriction::Single(allowed) => v == allowed,
            IntRangeRestriction::OpenLeft { max } => v <= max,
            IntRangeRestriction::OpenRight { min } => min <= v,
            IntRangeRestriction::Closed { min, max } => min <= v && v <= max,
        }
    }
}

/// An inclusive range of unsigned integers; the implicit lower bound of the
/// open form is zero, so there is no left-open variant.
#[derive(Debug, Clone, Copy, PartialEq, Eq, Structural)]
pub enum UintRangeRestriction {
    /// The range consists of a single value.
    Single(u64),
    /// The range is bounded on both sides.
    Closed {
        /// The minimum value.
        min: u64,
        /// The maximum value.
        max: u64,
    },
    /// The range is unbounded on the right, with a minimum.
    OpenRight {
        /// The minimum value.
        min: u64,
    },
}

impl UintRangeRestriction {
    /// Whether `v` lies in the range.
    pub open spec fn spec_matches(self, v: int) -> bool {
        match self {
            UintRangeRestriction::Single(allowed) => v == allowed,
            UintRangeRestriction::Closed { min, max } => min <= v && v <= max,
            UintRangeRestriction::OpenRight { min } => min <= v,
        }
    }

    /// Checks whether the value lies in the range.
    pub fn matches(&self, value: &UintValue) -> (r: bool)
        ensures
            r == self.spec_matches(value.spec_repr()),
    {
        let v = value.to_repr();
        match *self {
            UintRangeRestriction::Single(allowed) => v == allowed,
            UintRangeRestriction::Closed { min, max } => min <= v && v <= max,
            UintRangeRestriction::OpenRight { min } => min <= v,
        }
    }
}

/// An inclusive range of dates, in nanoseconds since 2001-01-01T00:00:00Z.
#[derive(Debug, Clone, Copy, PartialEq, Eq, Structural)]
pub enum DateRangeRestriction {
    /// The range is unbounded on the left, with a maximum.
    OpenLeft {
        /// The maximum value.
        max: i64,
    },
    /// The range is unbounded on the right, with a minimum.
    OpenRight {
        /// The minimum value.
        min: i64,
    },
    /// The range is bounded on both sides.
    Closed {
        /// The minimum value.
        min: i64,
        /// The maximum value.
        max: i64,
    },
}

impl DateRangeRestriction {
    /// Whether the instant `v`, in millennium nanoseconds, lies in the range.
    pub open spec fn spec_matches(self, v: int) -> bool {
        match self {
            DateRangeRestriction::OpenLeft { max } => v <= max,
            DateRangeRestriction::OpenRight { min } => min <= v,
            DateRangeRestriction::Closed { min, max } => min <= v && v <= max,
        }
    }

    /// Checks whether the date lies in the range.
    pub fn matches(&self, value: &DateValue) -> (r: bool)
        ensures
            r == self.spec_matches(value.spec_nanos()),
    {
        let v = value.nanos_since_millennium();
        match *self {
            DateRangeRestriction::OpenLeft { max } => v <= max,
            DateRangeRestriction::OpenRight { min } => min <= v,
            DateRangeRestriction::Closed { min, max } => min <= v && v <= max,
        }
    }
}

/// An inclusive range of Unicode scalar values, applied to every character
/// of a string.
#[derive(Debug, Clone, Copy, PartialEq, Eq, Structural)]
pub enum StringRangeRestriction {
    /// The range consists of a single scalar.
    Single(char),
    /// The range is bounded on both sides.
    Closed {
        /// The minimum scalar.
        min: char,
        /// The maximum scalar.
        max: char,
    },
    /// The range is unbounded on the right, with a minimum.
    OpenRight {
        /// The minimum scalar.
        min: char,
    },
}

impl StringRangeRestriction {
    /// Whether the scalar `c` lies in the range.
    pub open spec fn spec_matches_char(self, c: char) -> bool {
        match self {
            StringRangeRestriction::Single(allowed) => c == allowed,
            StringRangeRestriction::Closed { min, max } => min as int <= c as int && c as int
                <= max as int,
            StringRangeRestriction::OpenRight { min } => min as int <= c as int,
        }
    }

    /// Whether every character of `s` lies in the range.
    pub open spec fn spec_matches(self, s: Seq<char>) -> bool {
        forall|i: int| 0 <= i < s.len() ==> self.spec_matches_char(#[trigger] s[i])
    }

    /// Checks whether every character of the string lies in the range.
    pub fn matches(&self, value: &StringValue) -> (r: bool)
        ensures
            r == self.spec_matches(value.spec_data()),
    {
        let data = value.to_repr();
        let st = data.as_str();
        let n = st.unicode_len();
        let mut i: usize = 0;
        while i < n
            invariant
                0 <= i <= n,
                n == st@.len(),
                st@ == value.spec_data(),
                forall|j: int| 0 <= j < i ==> self.spec_matches_char(#[trigger] st@[j]),
            decreases n - i,
        {
            let c = st.get_char(i);
            let ok = match *self {
                StringRangeRestriction::Single(allowed) => c == allowed,
                StringRangeRestriction::Closed { min, max } => min <= c && c <= max,
                StringRangeRestriction::OpenRight { min } => min <= c,
            };
            if !ok {
                return false;
            }
            i += 1;
        }
        true
    }
}

/// An inclusive range of byte values, applied to every byte of a binary
/// value.
#[derive(Debug, Clone, Copy, PartialEq, Eq, Structural)]
pub enum BinaryRangeRestriction {
    /// The range consists of a single byte value.
    Single(u8),
    /// The range is bounded on both sides.
    Closed {
        /// The minimum byte.
        min: u8,
        /// The maximum byte.
        max: u8,
    },
    /// The range is unbounded on the right, with a minimum.
    OpenRight {
        /// The minimum byte.
        min: u8,
    },
}

impl BinaryRangeRestriction {
    /// Whether the byte `b` lies in the range.
    pub open spec fn spec_matches_byte(self, b: u8) -> bool {
        match self {
            BinaryRangeRestriction::Single(allowed) => b == allowed,
            BinaryRangeRestriction::Closed { min, max } => min <= b && b <= max,
            BinaryRangeRestriction::OpenRight { min } => min <= b,
        }
    }
}

/// Whether some item of `items` admits the integer `v`.
pub open spec fn int_ranges_match(items: Seq<IntRangeRestriction>, v: int) -> bool {
    exists|k: int| 0 <= k < items.len() && (#[trigger] items[k]).spec_matches(v)
}

/// Whether some item of `items` admits the unsigned integer `v`.
pub open spec fn uint_ranges_match(items: Seq<UintRangeRestriction>, v: int) -> bool {
    exists|k: int| 0 <= k < items.len() && (#[trigger] items[k]).spec_matches(v)
}

/// Whether some item of `items` admits the instant `v`.
pub open spec fn date_ranges_match(items: Seq<DateRangeRestriction>, v: int) -> bool {
    exists|k: int| 0 <= k < items.len() && (#[trigger] items[k]).spec_matches(v)
}

/// Whether some item of `items` admits the byte `b`.
pub open spec fn byte_matched(items: Seq<BinaryRangeRestriction>, b: u8) -> bool {
    exists|k: int| 0 <= k < items.len() && (#[trigger] items[k]).spec_matches_byte(b)
}

/// Whether some item of `items` admits the character `c`.
pub open spec fn char_matched(items: Seq<StringRangeRestriction>, c: char) -> bool {
    exists|k: int| 0 <= k < items.len() && (#[trigger] items[k]).spec_matches_char(c)
}

/// Whether every byte of `s` is matched by some item of `items`: a list of
/// byte ranges is a union over ranges, applied byte by byte.
pub open spec fn binary_ranges_match(items: Seq<BinaryRangeRestriction>, s: Seq<u8>) -> bool {
    forall|i: int| 0 <= i < s.len() ==> byte_matched(items, #[trigger] s[i])
}

/// Whether every character of `s` is matched by some item of `items`.
pub open spec fn string_ranges_match(items: Seq<StringRangeRestriction>, s: Seq<char>) -> bool {
    forall|i: int| 0 <= i < s.len() ==> char_matched(items, #[trigger] s[i])
}

/// A list of range items of one kind, read as a union. For strings and
/// binaries the union applies character by character, or byte by byte: each
/// one must fall in some range of the list.
#[derive(Debug, Clone, PartialEq)]
pub enum RangeSet {
    /// Signed-integer ranges.
    Int(Vec<IntRangeRestriction>),
    /// Unsigned-integer ranges.
    Uint(Vec<UintRangeRestriction>),
    /// Date ranges.
    Date(Vec<DateRangeRestriction>),
    /// Per-character ranges over a string.
    Str(Vec<StringRangeRestriction>),
    /// Per-byte ranges over a binary value.
    Binary(Vec<BinaryRangeRestriction>),
}

impl RangeSet {
    /// Whether the value is of this set's kind and matches it. A float
    /// matches nothing: a range check involving a 10-byte float always
    /// fails, and the narrower floats are left to the caller.
    pub open spec fn spec_matches(self, v: Value) -> bool {
        match self {
            RangeSet::Int(items) => match v {
                Value::Int(iv) => int_ranges_match(items@, iv.spec_repr()),
                _ => false,
            },
            RangeSet::Uint(items) => match v {
                Value::Uint(uv) => uint_ranges_match(items@, uv.spec_repr()),
                _ => false,
            },
            RangeSet::Date(items) => match v {
                Value::Date(dv) => date_ranges_match(items@, dv.spec_nanos()),
                _ => false,
            },
            RangeSet::Str(items) => match v {
                Value::Str(sv) => string_ranges_match(items@, sv.spec_data()),
                _ => false,
            },
            RangeSet::Binary(items) => match v {
                Value::Binary(bv) => binary_ranges_match(items@, bv.spec_data()),
                _ => false,
            },
        }
    }

    /// Checks whether the value matches this set of ranges.
    pub fn matches(&self, value: &Value) -> (r: bool)
        ensures
            r == self.spec_matches(*value),
    {
        match self {
            RangeSet::Int(items) => {
                let iv = match value {
                    Value::Int(iv) => iv,
                    _ => {
                        return false;
                    },
                };
                let mut k: usize = 0;
                while k < items.len()
                    invariant
                        0 <= k <= items@.len(),
                        self.spec_matches(*value) == int_ranges_match(items@, iv.spec_repr()),
                        forall|j: int|
                            0 <= j < k ==> !(#[trigger] items@[j]).spec_matches(iv.spec_repr()),
                    decreases items@.len() - k,
                {
                    if items[k].matches(iv) {
                        proof {
                            assert(int_ranges_match(items@, iv.spec_repr()));
                        }
                        return true;
                    }
                    k += 1;
                }
                proof {
                    assert(!int_ranges_match(items@, iv.spec_repr()));
                }
                false
            },
            RangeSet::Uint(items) => {
                let uv = match value {
                    Value::Uint(uv) => uv,
                    _ => {
                        return false;
                    },
                };
                let mut k: usize = 0;
                while k < items.len()
                    invariant
                        0 <= k <= items@.len(),
                        self.spec_matches(*value) == uint_ranges_match(items@, uv.spec_repr()),
                        forall|j: int|
                            0 <= j < k ==> !(#[trigger] items@[j]).spec_matches(uv.spec_repr()),
                    decreases items@.len() - k,
                {
                    if items[k].matches(uv) {
                        proof {
                            assert(uint_ranges_match(items@, uv.spec_repr()));
                        }
                        return true;
                    }
                    k += 1;
                }
                proof {
                    assert(!uint_ranges_match(items@, uv.spec_repr()));
                }
                false
            },
            RangeSet::Date(items) => {
                let dv = match value {
                    Value::Date(dv) => dv,
                    _ => {
                        return false;
                    },
                };
                let mut k: usize = 0;
                while k < items.len()
                    invariant
                        0 <= k <= items@.len(),
                        self.spec_matches(*value) == date_ranges_match(items@, dv.spec_nanos()),
                        forall|j: int|
                            0 <= j < k ==> !(#[trigger] items@[j]).spec_matches(dv.spec_nanos()),
                    decreases items@.len() - k,
                {
                    if items[k].matches(dv) {
                        proof {
                            assert(date_ranges_match(items@, dv.spec_nanos()));
                        }
                        return true;
                    }
                    k += 1;
                }
                proof {
                    assert(!date_ranges_match(items@, dv.spec_nanos()));
                }
                false
            },
            RangeSet::Str(items) => {
                let sv = match value {
                    Value::Str(sv) => sv,
                    _ => {
                        return false;
                    },
                };
                let data = sv.to_repr();
                let st = data.as_str();
                let n = st.unicode_len();
                let mut i: usize = 0;
                while i < n
                    invariant
                        0 <= i <= n,
                        n == st@.len(),
                        st@ == sv.spec_data(),
                        self.spec_matches(*value) == string_ranges_match(items@, sv.spec_data()),
                        forall|j: int| 0 <= j < i ==> char_matched(items@, #[trigger] st@[j]),
                    decreases n - i,
                {
                    let c = st.get_char(i);
                    let mut hit = false;
                    let mut k: usize = 0;
                    while k < items.len()
                        invariant
                            0 <= k <= items@.len(),
                            hit ==> char_matched(items@, c),
                            !hit ==> forall|x: int|
                                0 <= x < k ==> !(#[trigger] items@[x]).spec_matches_char(c),
                        decreases items@.len() - k,
                    {
                        let ok = match items[k] {
                            StringRangeRestriction::Single(allowed) => c == allowed,
                            StringRangeRestriction::Closed { min, max } => min <= c && c <= max,
                            StringRangeRestriction::OpenRight { min } => min <= c,
                        };
                        if ok {
                            proof {
                                assert((items@[k as int]).spec_matches_char(c));
                                assert(char_matched(items@, c));
                            }
                            hit = true;
                        }
                        k += 1;
                    }
                    if !hit {
                        proof {
                            assert(!char_matched(items@, c));
                            assert(sv.spec_data()[i as int] == c);
                            assert(!char_matched(items@, sv.spec_data()[i as int]));
                            assert(!string_ranges_match(items@, sv.spec_data()));
                        }
                        return false;
                    }
                    i += 1;
                }
                proof {
                    assert forall|j: int| 0 <= j < sv.spec_data().len() implies char_matched(
                        items@,
                        #[trigger] sv.spec_data()[j],
                    ) by {
                        assert(sv.spec_data()[j] == st@[j]);
                        assert(char_matched(items@, st@[j]));
                    }
                    assert(string_ranges_match(items@, sv.spec_data()));
                }
                true
            },
            RangeSet::Binary(items) => {
                let bv = match value {
                    Value::Binary(bv) => bv,
                    _ => {
                        return false;
                    },
                };
                let data = bv.to_repr();
                let n = data.len();
                let mut i: usize = 0;
                while i < n
                    invariant
                        0 <= i <= n,
                        n == data@.len(),
                        data@ == bv.spec_data(),
                        self.spec_matches(*value) == binary_ranges_match(items@, bv.spec_data()),
                        forall|j: int| 0 <= j < i ==> byte_matched(items@, #[trigger] data@[j]),
                    decreases n - i,
                {
                    let b = data[i];
                    let mut hit = false;
                    let mut k: usize = 0;
                    while k < items.len()
                        invariant
                            0 <= k <= items@.len(),
                            hit ==> byte_matched(items@, b),
                            !hit ==> forall|x: int|
                                0 <= x < k ==> !(#[trigger] items@[x]).spec_matches_byte(b),
                        decreases items@.len() - k,
                    {
                        let ok = match items[k] {
                            BinaryRangeRestriction::Single(allowed) => b == allowed,
                            BinaryRangeRestriction::Closed { min, max } => min <= b && b <= max,
                            BinaryRangeRestriction::OpenRight { min } => min <= b,
                        };
                        if ok {
                            proof {
                                assert((items@[k as int]).spec_matches_byte(b));
                                assert(byte_matched(items@, b));
                            }
                            hit = true;
                        }
                        k += 1;
                    }
                    if !hit {
                        proof {
                            assert(!byte_matched(items@, b));
                            assert(bv.spec_data()[i as int] == b);
                            assert(!byte_matched(items@, bv.spec_data()[i as int]));
                            assert(!binary_ranges_match(items@, bv.spec_data()));
                        }
                        return false;
                    }
                    i += 1;
                }
                proof {
                    assert forall|j: int| 0 <= j < bv.spec_data().len() implies byte_matched(
                        items@,
                        #[trigger] bv.spec_data()[j],
                    ) by {
                        assert(bv.spec_data()[j] == data@[j]);
                        assert(byte_matched(items@, data@[j]));
                    }
                    assert(binary_ranges_match(items@, bv.spec_data()));
                }
                true
            },
        }
    }
}

/// An intersection of range sets: a value matches when it matches every
/// part.
#[derive(Debug, Clone, PartialEq)]
pub struct Intersecton {
    /// The range sets that must all match.
    pub parts: Vec<RangeSet>,
}

/// A union of range sets: a value matches when it matches any part.
#[derive(Debug, Clone, PartialEq)]
pub struct Union {
    /// The range sets of which one must match.
    pub parts: Vec<RangeSet>,
}

/// A restriction on the values of an element type: a single set of ranges,
/// or an intersection or union of such sets.
#[derive(Debug, Clone, PartialEq)]
pub enum Restriction {
    /// A single list of range items of one kind.
    Ranges(RangeSet),
    /// A value must match all of the parts.
    All(Intersecton),
    /// A value must match at least one of the parts.
    Any(Union),
}

impl Restriction {
    /// Whether the value satisfies the restriction.
    pub open spec fn spec_matches(self, v: Value) -> bool {
        match self {
            Restriction::Ranges(rs) => rs.spec_matches(v),
            Restriction::All(inter) => forall|k: int|
                0 <= k < inter.parts@.len() ==> (#[trigger] inter.parts@[k]).spec_matches(v),
            Restriction::Any(uni) => exists|k: int|
                0 <= k < uni.parts@.len() && (#[trigger] uni.parts@[k]).spec_matches(v),
        }
    }

    /// Checks whether the value satisfies the restriction.
    pub fn matches(&self, value: &Value) -> (r: bool)
        ensures
            r == self.spec_matches(*value),
    {
        match self {
            Restriction::Ranges(rs) => rs.matches(value),
            Restriction::All(inter) => {
                let mut k: usize = 0;
                while k < inter.parts.len()
                    invariant
                        0 <= k <= inter.parts@.len(),
                        self.spec_matches(*value) == (forall|j: int|
                            0 <= j < inter.parts@.len() ==> (#[trigger] inter.parts@[j]).spec_matches(
                                *value,
                            )),
                        forall|j: int|
                            0 <= j < k ==> (#[trigger] inter.parts@[j]).spec_matches(*value),
                    decreases inter.parts@.len() - k,
                {
                    if !inter.parts[k].matches(value) {
                        return false;
                    }
                    k += 1;
                }
                true
            },
            Restriction::Any(uni) => {
                let mut k: usize = 0;
                while k < uni.parts.len()
                    invariant
                        0 <= k <= uni.parts@.len(),
                        self.spec_matches(*value) == (exists|j: int|
                            0 <= j < uni.parts@.len() && (#[trigger] uni.parts@[j]).spec_matches(
                                *value,
                            )),
                        forall|j: int|
                            0 <= j < k ==> !(#[trigger] uni.parts@[j]).spec_matches(*value),
                    decreases uni.parts@.len() - k,
                {
                    if uni.parts[k].matches(value) {
                        proof {
                            assert(exists|k2: int|
                                0 <= k2 < uni.parts@.len() && (#[trigger] uni.parts@[k2]).spec_matches(
                                    *value,
                                ));
                        }
                        return true;
                    }
                    k += 1;
                }
                false
            },
        }
    }
}

} // verus!
