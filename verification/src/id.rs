//! EBML element IDs: VINTs of width 1 to 4 whose value must lie strictly
//! inside an inner range fixed by the width.
//!
//! The four width classes and their decoded value ranges:
//!
//! | Class | Width | Values                    |
//! |-------|-------|---------------------------|
//! | A     | 1     | `0x01 ..= 0x7E`           |
//! | B     | 2     | `0x7F ..= 0x3FFE`         |
//! | C     | 3     | `0x3FFF ..= 0x1F_FFFE`    |
//! | D     | 4     | `0x1F_FFFF ..= 0x0FFF_FFFE` |
//!
//! Widths 5 to 8 and the unknown-size sentinel are never valid IDs.

use vstd::prelude::*;

use crate::error::EbmlError;
use crate::peek::PeekableReader;
use crate::vint::{
    spec_vint_ok, spec_vint_unknown, spec_vint_value, vint_all_ones, width_of_head, Size,
};

verus! {

/// Whether `v` is a legal decoded ID value for width `w`: strictly between
/// zero (or the previous class's reserved top) and the reserved all-ones
/// value of the width.
pub open spec fn id_class_legal(w: int, v: int) -> bool {
    &&& 1 <= w <= 4
    &&& if w == 1 {
        1 <= v
    } else {
        vint_all_ones(w - 1) <= v
    }
    &&& v < vint_all_ones(w)
}

/// An EBML ID: a VINT of width 1 to 4 whose value lies in its width class.
/// An ID has no unknown-size state.
#[derive(Debug, Clone, Copy)]
pub struct Id {
    data: Size,
}

impl Id {
    /// The VINT carrying the ID.
    pub closed spec fn spec_size(self) -> Size {
        self.data
    }

    /// The byte width of the ID: 1 for class A through 4 for class D.
    pub open spec fn spec_width(self) -> int {
        self.spec_size().spec_width()
    }

    /// The decoded numeric value of the ID.
    pub open spec fn spec_value(self) -> int {
        self.spec_size().spec_data_value()
    }

    #[verifier::type_invariant]
    spec fn inv(self) -> bool {
        &&& !self.data.spec_is_unknown()
        &&& id_class_legal(self.spec_width(), self.spec_value())
    }

    /// Constructs a class A ID (width 1) from its decoded value; `None`
    /// outside `0x01 ..= 0x7E`.
    pub fn new_class_a(data: u8) -> (r: Option<Id>)
        ensures
            r is Some <==> id_class_legal(1, data as int),
            match r {
                Some(id) => id.spec_width() == 1 && id.spec_value() == data as int,
                None => data == 0 || data >= 0x7F,
            },
    {
        if data == 0u8 || data >= 0x7Fu8 {
            None
        } else {
            Some(Id { data: Size::from_u8(data) })
        }
    }

    /// Constructs a class B ID (width 2) from its decoded value; `None`
    /// outside `0x7F ..= 0x3FFE`.
    pub fn new_class_b(data: u16) -> (r: Option<Id>)
        ensures
            r is Some <==> id_class_legal(2, data as int),
            match r {
                Some(id) => id.spec_width() == 2 && id.spec_value() == data as int,
                None => data < 0x7F || data >= 0x3FFF,
            },
    {
        if data < 0x7Fu16 || data >= 0x3FFFu16 {
            None
        } else {
            Some(Id { data: Size::from_u16(data) })
        }
    }

    /// Constructs a class C ID (width 3) from its decoded value; `None`
    /// outside `0x3FFF ..= 0x1F_FFFE`.
    pub fn new_class_c(data: u32) -> (r: Option<Id>)
        ensures
            r is Some <==> id_class_legal(3, data as int),
            match r {
                Some(id) => id.spec_width() == 3 && id.spec_value() == data as int,
                None => data < 0x3FFF || data >= 0x1F_FFFF,
            },
    {
        if data < 0x3FFF || data >= 0x1F_FFFF {
            None
        } else {
            Some(Id { data: Size::from_u32(data) })
        }
    }

    /// Constructs a class D ID (width 4) from its decoded value; `None`
    /// outside `0x1F_FFFF ..= 0x0FFF_FFFE`.
    pub fn new_class_d(data: u32) -> (r: Option<Id>)
        ensures
            r is Some <==> id_class_legal(4, data as int),
            match r {
                Some(id) => id.spec_width() == 4 && id.spec_value() == data as int,
                None => data < 0x1F_FFFF || data >= 0x0FFF_FFFF,
            },
    {
        if data < 0x1F_FFFF || data >= 0x0FFF_FFFF {
            None
        } else {
            Some(Id { data: Size::from_u32(data) })
        }
    }

    /// Constructs an ID from its encoded representation: the full byte
    /// pattern including the marker bit, as it appears in a document or an
    /// EDTD source.
    pub fn from_encoded(data: u32) -> (r: Option<Id>)
        ensures
            r is Some <==> (0x81 <= data <= 0xFE || 0x407F <= data <= 0x7FFE || 0x20_3FFF <= data
                <= 0x3F_FFFE || 0x101F_FFFF <= data <= 0x1FFF_FFFE),
            match r {
                Some(id) => {
                    &&& (0x81 <= data <= 0xFE ==> id.spec_width() == 1 && id.spec_value() == data
                        - 0x80)
                    &&& (0x407F <= data <= 0x7FFE ==> id.spec_width() == 2 && id.spec_value()
                        == data - 0x4000)
                    &&& (0x20_3FFF <= data <= 0x3F_FFFE ==> id.spec_width() == 3
                        && id.spec_value() == data - 0x20_0000)
                    &&& (0x101F_FFFF <= data <= 0x1FFF_FFFE ==> id.spec_width() == 4
                        && id.spec_value() == data - 0x1000_0000)
                },
                None => true,
            },
    {
        if data >= 0x0000_0080 && data <= 0x0000_00FE {
            Self::new_class_a((data - 0x80) as u8)
        } else if data >= 0x0000_4000 && data <= 0x0000_7FFF {
            Self::new_class_b((data - 0x4000) as u16)
        } else if data >= 0x0020_0000 && data <= 0x003F_FFFF {
            Self::new_class_c(data - 0x20_0000)
        } else if data >= 0x1000_0000 && data <= 0x1FFF_FFFF {
            Self::new_class_d(data - 0x1000_0000)
        } else {
            None
        }
    }

    /// The width of the ID: 1 means class A, 2 class B, and so on.
    pub fn get_width(&self) -> (r: usize)
        ensures
            r == self.spec_width(),
            1 <= r <= 4,
    {
        proof {
            use_type_invariant(self);
        }
        self.data.get_width()
    }

    /// The decoded numeric value of the ID.
    pub fn get_value(&self) -> (r: u64)
        ensures
            r == self.spec_value(),
    {
        proof {
            use_type_invariant(self);
        }
        match self.data.get_value() {
            Some(v) => v,
            None => unreached(),
        }
    }

    /// Reads the ID at the cursor without consuming it. Beyond the failures
    /// of a bare VINT, fails with `IdOutOfRange` when the width is above 4,
    /// the VINT is the unknown-size sentinel, or the value lies outside its
    /// width class.
    pub fn peek(source: &PeekableReader) -> (r: Result<Id, EbmlError>)
        ensures
            ({
                let rem = source.remaining();
                &&& (r is Ok <==> spec_vint_ok(rem) && !spec_vint_unknown(rem) && id_class_legal(
                    width_of_head(rem[0]),
                    spec_vint_value(rem),
                ))
                &&& match r {
                    Ok(id) => {
                        &&& id.spec_width() == width_of_head(rem[0])
                        &&& id.spec_value() == spec_vint_value(rem)
                    },
                    Err(e) => e == if !spec_vint_ok(rem) {
                        if rem.len() > 0 && width_of_head(rem[0]) == 9 {
                            EbmlError::MalformedDocument
                        } else {
                            EbmlError::TruncatedInput
                        }
                    } else {
                        EbmlError::IdOutOfRange
                    },
                }
            }),
    {
        let size = match Size::peek(source) {
            Ok(s) => s,
            Err(e) => {
                return Err(e);
            },
        };
        let value = match size.get_value() {
            Some(v) => v,
            None => {
                return Err(EbmlError::IdOutOfRange);
            },
        };
        let w = size.get_width();
        let ok = match w {
            1 => value > 0x00 && value < 0x7F,
            2 => value >= 0x7F && value < 0x3FFF,
            3 => value >= 0x3FFF && value < 0x1F_FFFF,
            4 => value >= 0x1F_FFFF && value < 0x0FFF_FFFF,
            _ => false,
        };
        if ok {
            Ok(Id { data: size })
        } else {
            Err(EbmlError::IdOutOfRange)
        }
    }

    /// Reads an ID from a data source, consuming its bytes on success.
    /// Nothing is consumed on failure.
    pub fn load(source: &mut PeekableReader) -> (r: Result<Id, EbmlError>)
        ensures
            ({
                let rem = old(source).remaining();
                &&& (r is Ok <==> spec_vint_ok(rem) && !spec_vint_unknown(rem) && id_class_legal(
                    width_of_head(rem[0]),
                    spec_vint_value(rem),
                ))
                &&& match r {
                    Ok(id) => {
                        &&& id.spec_width() == width_of_head(rem[0])
                        &&& id.spec_value() == spec_vint_value(rem)
                        &&& final (source).remaining() == rem.skip(id.spec_width())
                    },
                    Err(e) => {
                        &&& *final (source) == *old(source)
                        &&& e == if !spec_vint_ok(rem) {
                            if rem.len() > 0 && width_of_head(rem[0]) == 9 {
                                EbmlError::MalformedDocument
                            } else {
                                EbmlError::TruncatedInput
                            }
                        } else {
                            EbmlError::IdOutOfRange
                        }
                    },
                }
            }),
    {
        match Self::peek(source) {
            Ok(id) => {
                let w = id.get_width();
                source.advance(w);
                Ok(id)
            },
            Err(e) => Err(e),
        }
    }
}

impl PartialEq for Id {
    /// IDs are equal when their decoded values are; equal values imply equal
    /// widths, since the width classes do not overlap.
    fn eq(&self, other: &Id) -> (r: bool) {
        self.get_value() == other.get_value()
    }
}

impl vstd::std_specs::cmp::PartialEqSpecImpl for Id {
    open spec fn obeys_eq_spec() -> bool {
        true
    }

    open spec fn eq_spec(&self, other: &Id) -> bool {
        self.spec_value() == other.spec_value()
    }
}

} // verus!
