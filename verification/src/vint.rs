//! The EBML variable-width unsigned integer (VINT), used to encode both the
//! sizes of elements and (with extra restrictions) their IDs.
//!
//! A VINT occupies 1 to 8 bytes. The number of leading zero bits of the first
//! byte, plus one, is the total byte width `w`; the next bit (the "marker") is
//! always set, and the remaining `7 * w` bits carry the value in big-endian
//! order. At every width the all-ones data pattern is reserved: it denotes the
//! "unknown size" sentinel, legal only as a container size. The greatest
//! encodable value is therefore `2^56 - 2`.

use vstd::prelude::*;
use vstd::std_specs::cmp::PartialEqSpec;
use vstd::std_specs::cmp::PartialOrdSpec;

verus! {

/// The greatest value a VINT can encode (`2^56 - 2`); the all-ones pattern
/// `2^56 - 1` is reserved for the unknown-size sentinel.
pub const VINT_MAX: u64 = 0x00FF_FFFF_FFFF_FFFE;

/// `256^n`: the weight of a byte `n` positions above the least significant.
pub open spec fn pow256(n: nat) -> int
    decreases n,
{
    if n == 0 {
        1
    } else {
        256 * pow256((n - 1) as nat)
    }
}

/// The value of a byte string read as a big-endian unsigned integer.
pub open spec fn be_bytes_value(s: Seq<u8>) -> int
    decreases s.len(),
{
    if s.len() == 0 {
        0
    } else {
        be_bytes_value(s.drop_last()) * 256 + s.last()
    }
}

/// The value of the marker bit of a VINT of width `w`, which is also the
/// number of distinct values the head byte's data bits can take.
pub open spec fn vint_marker(w: int) -> int {
    if w == 1 {
        0x80
    } else if w == 2 {
        0x40
    } else if w == 3 {
        0x20
    } else if w == 4 {
        0x10
    } else if w == 5 {
        0x08
    } else if w == 6 {
        0x04
    } else if w == 7 {
        0x02
    } else {
        0x01
    }
}

/// The reserved all-ones data value at width `w` (`2^(7w) - 1`).
pub open spec fn vint_all_ones(w: int) -> int {
    if w == 1 {
        0x7F
    } else if w == 2 {
        0x3FFF
    } else if w == 3 {
        0x1F_FFFF
    } else if w == 4 {
        0x0FFF_FFFF
    } else if w == 5 {
        0x07_FFFF_FFFF
    } else if w == 6 {
        0x03FF_FFFF_FFFF
    } else if w == 7 {
        0x01_FFFF_FFFF_FFFF
    } else {
        0xFF_FFFF_FFFF_FFFF
    }
}

/// The width, in bytes, of the VINT whose first byte is `head`: one more than
/// the number of leading zero bits. A zero head byte is malformed; it is given
/// the out-of-range width 9.
pub open spec fn width_of_head(head: u8) -> int {
    if head >= 0x80 {
        1
    } else if head >= 0x40 {
        2
    } else if head >= 0x20 {
        3
    } else if head >= 0x10 {
        4
    } else if head >= 0x08 {
        5
    } else if head >= 0x04 {
        6
    } else if head >= 0x02 {
        7
    } else if head >= 0x01 {
        8
    } else {
        9
    }
}

/// The smallest width whose data bits can hold `v` without being the reserved
/// all-ones pattern; the width chosen when encoding `v`.
pub open spec fn spec_min_width(v: int) -> int {
    if v < 0x7F {
        1
    } else if v < 0x3FFF {
        2
    } else if v < 0x1F_FFFF {
        3
    } else if v < 0x0FFF_FFFF {
        4
    } else if v < 0x07_FFFF_FFFF {
        5
    } else if v < 0x03FF_FFFF_FFFF {
        6
    } else if v < 0x01_FFFF_FFFF_FFFF {
        7
    } else {
        8
    }
}

/// An unsigned variable-width integer in `[0, 2^56 - 2]`, or the distinguished
/// "unknown size" sentinel. The value is held in its encoded form: the first
/// byte in `head` and the remaining `width - 1` bytes, big-endian, at the
/// start of `tail`.
///
/// The unknown sentinel equals only itself; every known value equals itself.
/// The unknown sentinel is not ordered with respect to any value, so `Size`
/// carries a partial order only.
#[derive(Debug, Clone, Copy)]
pub struct Size {
    head: u8,
    tail: [u8; 7],
}

impl Size {
    /// The first encoded byte.
    pub closed spec fn spec_head(self) -> u8 {
        self.head
    }

    /// The encoded bytes after the first; entries at and beyond `width - 1`
    /// are zero.
    pub closed spec fn spec_tail(self) -> Seq<u8> {
        self.tail@
    }

    /// The byte width of the encoding, between 1 and 8.
    pub open spec fn spec_width(self) -> int {
        width_of_head(self.spec_head())
    }

    #[verifier::type_invariant]
    spec fn inv(self) -> bool {
        &&& self.head != 0
        &&& forall|i: int|
            self.spec_width() - 1 <= i < 7 ==> #[trigger] self.spec_tail()[i] == 0
    }

    /// The data bits, one byte per entry: the head byte stripped of its marker
    /// followed by the `width - 1` tail bytes.
    pub open spec fn data_seq(self) -> Seq<u8> {
        seq![(self.spec_head() - vint_marker(self.spec_width())) as u8].add(
            self.spec_tail().take(self.spec_width() - 1),
        )
    }

    /// The numeric value of the data bits, whether or not they form the
    /// reserved pattern.
    pub open spec fn spec_data_value(self) -> int {
        be_bytes_value(self.data_seq())
    }

    /// True when the data bits are all ones: the reserved unknown-size
    /// sentinel at this width.
    pub open spec fn spec_is_unknown(self) -> bool {
        &&& self.spec_head() == 2 * vint_marker(self.spec_width()) - 1
        &&& forall|i: int|
            0 <= i < self.spec_width() - 1 ==> #[trigger] self.spec_tail()[i] == 0xFF
    }

    /// The value carried: `None` for the unknown-size sentinel.
    pub open spec fn spec_get_value(self) -> Option<u64> {
        if self.spec_is_unknown() {
            None
        } else {
            Some(self.spec_data_value() as u64)
        }
    }
}

/// `256^n` is positive.
pub(crate) proof fn lemma_pow256_pos(n: nat)
    ensures
        pow256(n) >= 1,
    decreases n,
{
    if n > 0 {
        lemma_pow256_pos((n - 1) as nat);
    }
}

/// `be_bytes_value` is non-negative and bounded by `256^len`.
pub(crate) proof fn lemma_be_bytes_value_bound(s: Seq<u8>)
    ensures
        0 <= be_bytes_value(s) < pow256(s.len()),
    decreases s.len(),
{
    reveal_with_fuel(be_bytes_value, 2);
    if s.len() > 0 {
        lemma_be_bytes_value_bound(s.drop_last());
    }
}

/// Appending a byte multiplies the value by 256 and adds the byte.
pub(crate) proof fn lemma_be_bytes_value_push(s: Seq<u8>, b: u8)
    ensures
        be_bytes_value(s.push(b)) == be_bytes_value(s) * 256 + b,
{
    reveal_with_fuel(be_bytes_value, 2);
    assert(s.push(b).drop_last() =~= s);
    assert(s.push(b).last() == b);
}

/// Prepending a byte adds it with the weight of the bytes it precedes.
proof fn lemma_be_bytes_value_cons(b: u8, s: Seq<u8>)
    ensures
        be_bytes_value(seq![b].add(s)) == b * pow256(s.len()) + be_bytes_value(s),
    decreases s.len(),
{
    reveal_with_fuel(be_bytes_value, 3);
    let c = seq![b].add(s);
    if s.len() == 0 {
        assert(c.drop_last() =~= Seq::<u8>::empty());
        assert(c.last() == b);
        assert(be_bytes_value(c) == b);
        assert(pow256(s.len()) == 1);
        assert(be_bytes_value(s) == 0);
    } else {
        lemma_be_bytes_value_cons(b, s.drop_last());
        assert(c.drop_last() =~= seq![b].add(s.drop_last()));
        assert(c.last() == s.last());
        assert(be_bytes_value(c) == (b * pow256((s.len() - 1) as nat) + be_bytes_value(
            s.drop_last(),
        )) * 256 + s.last());
        assert(b * pow256((s.len() - 1) as nat) * 256 == b * pow256(s.len())) by (nonlinear_arith)
            requires
                pow256(s.len()) == 256 * pow256((s.len() - 1) as nat),
        ;
        assert(be_bytes_value(s) == be_bytes_value(s.drop_last()) * 256 + s.last());
        assert(be_bytes_value(c) == b * pow256(s.len()) + be_bytes_value(s));
    }
}

/// A string of all-ones bytes has the greatest value of its length.
proof fn lemma_be_bytes_value_all_ones(s: Seq<u8>)
    requires
        forall|i: int| 0 <= i < s.len() ==> #[trigger] s[i] == 0xFF,
    ensures
        be_bytes_value(s) == pow256(s.len()) - 1,
    decreases s.len(),
{
    reveal_with_fuel(be_bytes_value, 2);
    if s.len() > 0 {
        lemma_be_bytes_value_all_ones(s.drop_last());
    }
}

/// The reserved value at width `w` is the greatest `7w`-bit value.
proof fn lemma_all_ones_form(w: int)
    requires
        1 <= w <= 8,
    ensures
        vint_all_ones(w) == vint_marker(w) * pow256((w - 1) as nat) - 1,
{
    reveal_with_fuel(pow256, 9);
}

/// A `Size` whose data bits form the reserved pattern has the all-ones value.
proof fn lemma_unknown_data_value(s: Size)
    requires
        s.inv(),
        1 <= s.spec_width() <= 8,
        s.spec_is_unknown(),
    ensures
        s.spec_data_value() == vint_all_ones(s.spec_width()),
{
    let w = s.spec_width();
    let m = vint_marker(w);
    let t = s.spec_tail().take(w - 1);
    lemma_be_bytes_value_all_ones(t);
    lemma_be_bytes_value_cons((s.spec_head() - m) as u8, t);
    lemma_all_ones_form(w);
    assert((m - 1) * pow256((w - 1) as nat) + pow256((w - 1) as nat) == m * pow256(
        (w - 1) as nat,
    )) by (nonlinear_arith);
}

impl Size {
    /// The width of this integer: the number of bytes its encoding occupies.
    pub fn get_width(&self) -> (r: usize)
        ensures
            r == self.spec_width(),
            1 <= r <= 8,
    {
        proof {
            use_type_invariant(self);
        }
        if self.head >= 0x80 {
            1
        } else if self.head >= 0x40 {
            2
        } else if self.head >= 0x20 {
            3
        } else if self.head >= 0x10 {
            4
        } else if self.head >= 0x08 {
            5
        } else if self.head >= 0x04 {
            6
        } else if self.head >= 0x02 {
            7
        } else {
            8
        }
    }

    /// The first encoded byte.
    pub fn head(&self) -> (r: u8)
        ensures
            r == self.spec_head(),
    {
        self.head
    }

    /// The encoded bytes after the first, zero-padded to seven entries.
    pub fn tail(&self) -> (r: [u8; 7])
        ensures
            r@ == self.spec_tail(),
    {
        self.tail
    }

    /// The unknown-size sentinel in its shortest form, the single byte `0xFF`.
    pub fn unknown() -> (r: Size)
        ensures
            r.spec_is_unknown(),
            r.spec_get_value() is None,
            r.spec_width() == 1,
            r.spec_head() == 0xFF,
    {
        let s = Size { head: 0xFF, tail: [0u8; 7] };
        proof {
            assert(s.spec_tail() =~= seq![0u8, 0u8, 0u8, 0u8, 0u8, 0u8, 0u8]);
        }
        s
    }

    /// The value as a `u64`, or `None` for the unknown-size sentinel.
    pub fn get_value(&self) -> (r: Option<u64>)
        ensures
            r == self.spec_get_value(),
            r matches Some(v) ==> v as int == self.spec_data_value(),
    {
        proof {
            use_type_invariant(self);
        }
        let w = self.get_width();
        let marker = marker_of_width(w);

        let mut tail_ff = true;
        let mut i: usize = 0;
        while i < w - 1
            invariant
                0 <= i <= w - 1,
                1 <= w <= 8,
                w == self.spec_width(),
                tail_ff <==> (forall|j: int| 0 <= j < i ==> #[trigger] self.spec_tail()[j] == 0xFF),
            decreases w - 1 - i,
        {
            let b = self.tail[i];
            proof {
                assert(self.spec_tail()[i as int] == b);
            }
            if b != 0xFF {
                tail_ff = false;
            } else {
                proof {
                    if tail_ff {
                        assert(forall|j: int|
                            0 <= j < i + 1 ==> #[trigger] self.spec_tail()[j] == 0xFF);
                    }
                }
            }
            i += 1;
        }
        if self.head == (marker - 1) + marker && tail_ff {
            return None;
        }

        proof {
            assert(vint_marker(w as int) <= self.spec_head() < 2 * vint_marker(w as int));
        }
        let mut value: u64 = (self.head - marker) as u64;
        let ghost data = self.data_seq();
        proof {
            assert(data.take(1) =~= seq![(self.spec_head() - vint_marker(
                self.spec_width(),
            )) as u8]);
            reveal_with_fuel(be_bytes_value, 2);
            assert(data.take(1).drop_last() =~= Seq::<u8>::empty());
            assert(be_bytes_value(data.take(1)) == value);
            reveal_with_fuel(pow256, 2);
        }
        let mut i: usize = 0;
        while i < w - 1
            invariant
                0 <= i <= w - 1,
                1 <= w <= 8,
                w == self.spec_width(),
                marker == vint_marker(w as int),
                self.inv(),
                data == self.data_seq(),
                value == be_bytes_value(data.take(1 + i)),
                value <= vint_marker(w as int) * pow256(i as nat) - 1,
            decreases w - 1 - i,
        {
            proof {
                assert(data.take(1 + i + 1) =~= data.take(1 + i).push(self.spec_tail()[i as int]));
                lemma_be_bytes_value_push(data.take(1 + i), self.spec_tail()[i as int]);
                assert((vint_marker(w as int) * pow256(i as nat) - 1) * 256 + 255 == vint_marker(
                    w as int,
                ) * pow256((i + 1) as nat) - 1) by (nonlinear_arith)
                    requires
                        pow256((i + 1) as nat) == 256 * pow256(i as nat),
                ;
                reveal_with_fuel(pow256, 9);
            }
            value = value * 256 + (self.tail[i] as u64);
            i += 1;
        }
        proof {
            assert(data.take(1 + (w - 1)) =~= data);
            if self.spec_is_unknown() {
                assert(false);
            }
        }
        Some(value)
    }

    /// Encodes `data` at the smallest width whose data bits are not the
    /// reserved all-ones pattern, failing when the value is above
    /// [`VINT_MAX`].
    pub fn from_u64(data: u64) -> (r: Option<Size>)
        ensures
            match r {
                Some(s) => {
                    &&& data <= VINT_MAX
                    &&& s.spec_get_value() == Some(data)
                    &&& s.spec_data_value() == data as int
                    &&& !s.spec_is_unknown()
                    &&& s.spec_width() == spec_min_width(data as int)
                },
                None => data > VINT_MAX,
            },
    {
        if data > VINT_MAX {
            return None;
        }
        let w: usize = if data < 0x7F {
            1
        } else if data < 0x3FFF {
            2
        } else if data < 0x1F_FFFF {
            3
        } else if data < 0x0FFF_FFFF {
            4
        } else if data < 0x07_FFFF_FFFF {
            5
        } else if data < 0x03FF_FFFF_FFFF {
            6
        } else if data < 0x01_FFFF_FFFF_FFFF {
            7
        } else {
            8
        };
        let marker = marker_of_width(w);

        let mut tail = [0u8; 7];
        let mut rem: u64 = data;
        let mut i: usize = w - 1;
        proof {
            assert(tail@.subrange(w - 1, w - 1) =~= Seq::<u8>::empty());
        }
        while i > 0
            invariant
                0 <= i <= w - 1,
                1 <= w <= 8,
                w == spec_min_width(data as int),
                data < vint_all_ones(w as int),
                rem * pow256((w - 1 - i) as nat) + be_bytes_value(
                    tail@.subrange(i as int, w - 1),
                ) == data,
                rem <= data,
                forall|j: int| 0 <= j < 7 && !(i <= j < w - 1) ==> #[trigger] tail@[j] == 0,
            decreases i,
        {
            let b: u8 = (rem % 256) as u8;
            let ghost old_tail = tail@;
            let ghost old_rem = rem;
            tail[i - 1] = b;
            rem = rem / 256;
            proof {
                assert(tail@.subrange(i as int, w - 1) =~= old_tail.subrange(i as int, w - 1));
                assert(tail@.subrange(i - 1, w - 1) =~= seq![b].add(
                    tail@.subrange(i as int, w - 1),
                ));
                lemma_be_bytes_value_cons(b, tail@.subrange(i as int, w - 1));
                assert(rem * pow256((w - i) as nat) + b * pow256((w - 1 - i) as nat) == old_rem
                    * pow256((w - 1 - i) as nat)) by (nonlinear_arith)
                    requires
                        old_rem == rem * 256 + b,
                        pow256((w - i) as nat) == 256 * pow256((w - 1 - i) as nat),
                ;
            }
            i -= 1;
        }
        proof {
            lemma_all_ones_form(w as int);
            lemma_be_bytes_value_bound(tail@.subrange(0, w - 1));
            assert(rem < vint_marker(w as int)) by (nonlinear_arith)
                requires
                    rem * pow256((w - 1) as nat) + be_bytes_value(tail@.subrange(0, w - 1))
                        == data,
                    0 <= be_bytes_value(tail@.subrange(0, w - 1)),
                    data < vint_marker(w as int) * pow256((w - 1) as nat) - 1,
                    pow256((w - 1) as nat) >= 1,
                    rem >= 0,
            ;
            reveal_with_fuel(pow256, 9);
        }
        let head: u8 = marker + (rem as u8);
        let s = Size { head, tail };
        proof {
            assert(s.spec_width() == w);
            assert(s.data_seq() =~= seq![(rem as u64) as u8].add(tail@.subrange(0, w - 1)));
            lemma_be_bytes_value_cons((rem as u64) as u8, tail@.subrange(0, w - 1));
            assert(s.spec_data_value() == data);
            if s.spec_is_unknown() {
                lemma_unknown_data_value(s);
                lemma_all_ones_form(w as int);
            }
        }
        Some(s)
    }

    /// Encodes a byte-sized value; always succeeds.
    pub fn from_u8(data: u8) -> (r: Size)
        ensures
            r.spec_get_value() == Some(data as u64),
            r.spec_data_value() == data as int,
            !r.spec_is_unknown(),
            r.spec_width() == spec_min_width(data as int),
    {
        match Self::from_u64(data as u64) {
            Some(s) => s,
            None => unreached(),
        }
    }

    /// Encodes a 16-bit value; always succeeds.
    pub fn from_u16(data: u16) -> (r: Size)
        ensures
            r.spec_get_value() == Some(data as u64),
            r.spec_data_value() == data as int,
            !r.spec_is_unknown(),
            r.spec_width() == spec_min_width(data as int),
    {
        match Self::from_u64(data as u64) {
            Some(s) => s,
            None => unreached(),
        }
    }

    /// Encodes a 32-bit value; always succeeds.
    pub fn from_u32(data: u32) -> (r: Size)
        ensures
            r.spec_get_value() == Some(data as u64),
            r.spec_data_value() == data as int,
            !r.spec_is_unknown(),
            r.spec_width() == spec_min_width(data as int),
    {
        match Self::from_u64(data as u64) {
            Some(s) => s,
            None => unreached(),
        }
    }
}

/// Whether the bytes of `rem` begin with a complete, well-formed VINT: a
/// non-zero head byte and at least as many bytes as it announces.
pub open spec fn spec_vint_ok(rem: Seq<u8>) -> bool {
    &&& rem.len() > 0
    &&& width_of_head(rem[0]) <= 8
    &&& rem.len() >= width_of_head(rem[0])
}

/// The data bits of the VINT at the start of `rem`, as one byte per entry.
pub open spec fn spec_vint_data_seq(rem: Seq<u8>) -> Seq<u8> {
    let w = width_of_head(rem[0]);
    seq![(rem[0] - vint_marker(w)) as u8].add(rem.subrange(1, w))
}

/// The numeric value of the data bits of the VINT at the start of `rem`.
pub open spec fn spec_vint_value(rem: Seq<u8>) -> int {
    be_bytes_value(spec_vint_data_seq(rem))
}

/// Whether the VINT at the start of `rem` is the unknown-size sentinel.
pub open spec fn spec_vint_unknown(rem: Seq<u8>) -> bool {
    let w = width_of_head(rem[0]);
    &&& rem[0] == 2 * vint_marker(w) - 1
    &&& forall|i: int| 1 <= i < w ==> #[trigger] rem[i] == 0xFF
}

impl Size {
    /// Reads the `Size` at the cursor without consuming it. Fails with
    /// `TruncatedInput` when fewer bytes remain than the head byte announces,
    /// and with `MalformedDocument` on an all-zero head byte.
    pub fn peek(source: &crate::peek::PeekableReader) -> (r: Result<
        Size,
        crate::error::EbmlError,
    >)
        ensures
            r is Ok <==> spec_vint_ok(source.remaining()),
            match r {
                Ok(s) => {
                    let rem = source.remaining();
                    &&& s.spec_width() == width_of_head(rem[0])
                    &&& s.spec_head() == rem[0]
                    &&& s.spec_data_value() == spec_vint_value(rem)
                    &&& s.spec_is_unknown() == spec_vint_unknown(rem)
                },
                Err(e) => {
                    let rem = source.remaining();
                    e == if rem.len() > 0 && width_of_head(rem[0]) == 9 {
                        crate::error::EbmlError::MalformedDocument
                    } else {
                        crate::error::EbmlError::TruncatedInput
                    }
                },
            },
    {
        let buf = source.peek8();
        if buf.len() == 0 {
            return Err(crate::error::EbmlError::TruncatedInput);
        }
        let head = buf[0];
        if head == 0 {
            return Err(crate::error::EbmlError::MalformedDocument);
        }
        let w = width_from_head(head);
        if buf.len() < w {
            return Err(crate::error::EbmlError::TruncatedInput);
        }
        let mut tail = [0u8; 7];
        let mut i: usize = 1;
        while i < w
            invariant
                1 <= i <= w <= 8,
                w <= buf@.len(),
                buf@ == source.remaining().take(buf@.len() as int),
                head == source.remaining()[0],
                w == width_of_head(head),
                forall|j: int| 0 <= j < i - 1 ==> #[trigger] tail@[j] == buf@[j + 1],
                forall|j: int| i - 1 <= j < 7 ==> #[trigger] tail@[j] == 0,
            decreases w - i,
        {
            let b = buf[i];
            tail[i - 1] = b;
            i += 1;
        }
        let s = Size { head, tail };
        proof {
            let rem = source.remaining();
            assert(s.spec_tail().take(w - 1) =~= rem.subrange(1, w as int));
            assert(s.data_seq() =~= spec_vint_data_seq(rem));
            if spec_vint_unknown(rem) {
                assert forall|j: int| 0 <= j < w - 1 implies #[trigger] s.spec_tail()[j]
                    == 0xFF by {
                    assert(s.spec_tail()[j] == buf@[j + 1]);
                    assert(rem[j + 1] == 0xFF);
                }
                assert(s.spec_is_unknown());
            }
            if s.spec_is_unknown() {
                assert forall|i: int| 1 <= i < w implies #[trigger] rem[i] == 0xFF by {
                    assert(s.spec_tail()[i - 1] == buf@[i]);
                    assert(s.spec_tail()[i - 1] == 0xFF);
                }
                assert(spec_vint_unknown(rem));
            }
            assert(s.spec_is_unknown() == spec_vint_unknown(rem));
        }
        Ok(s)
    }

    /// Reads a `Size` from a data source, consuming its bytes on success and
    /// nothing on failure.
    pub fn load(source: &mut crate::peek::PeekableReader) -> (r: Result<
        Size,
        crate::error::EbmlError,
    >)
        ensures
            r is Ok <==> spec_vint_ok(old(source).remaining()),
            match r {
                Ok(s) => {
                    let rem = old(source).remaining();
                    &&& s.spec_width() == width_of_head(rem[0])
                    &&& s.spec_head() == rem[0]
                    &&& s.spec_data_value() == spec_vint_value(rem)
                    &&& s.spec_is_unknown() == spec_vint_unknown(rem)
                    &&& final (source).remaining() == rem.skip(s.spec_width())
                    &&& final (source).spec_pos() == old(source).spec_pos() + s.spec_width()
                },
                Err(e) => {
                    let rem = old(source).remaining();
                    &&& *final (source) == *old(source)
                    &&& e == if rem.len() > 0 && width_of_head(rem[0]) == 9 {
                        crate::error::EbmlError::MalformedDocument
                    } else {
                        crate::error::EbmlError::TruncatedInput
                    }
                },
            },
    {
        match Self::peek(source) {
            Ok(s) => {
                let w = s.get_width();
                source.advance(w);
                Ok(s)
            },
            Err(e) => Err(e),
        }
    }
}

/// The width of the VINT whose first byte is `head`: one more than the
/// number of leading zero bits.
pub(crate) fn width_from_head(head: u8) -> (r: usize)
    requires
        head != 0,
    ensures
        r == width_of_head(head),
        1 <= r <= 8,
{
    if head >= 0x80 {
        1
    } else if head >= 0x40 {
        2
    } else if head >= 0x20 {
        3
    } else if head >= 0x10 {
        4
    } else if head >= 0x08 {
        5
    } else if head >= 0x04 {
        6
    } else if head >= 0x02 {
        7
    } else {
        8
    }
}

/// The marker-bit value for a VINT of width `w`.
fn marker_of_width(w: usize) -> (r: u8)
    requires
        1 <= w <= 8,
    ensures
        r == vint_marker(w as int),
{
    if w == 1 {
        0x80
    } else if w == 2 {
        0x40
    } else if w == 3 {
        0x20
    } else if w == 4 {
        0x10
    } else if w == 5 {
        0x08
    } else if w == 6 {
        0x04
    } else if w == 7 {
        0x02
    } else {
        0x01
    }
}

/// The law of the unknown-size sentinel: it equals itself, whatever the
/// width it was written at, and nothing else; and it is not ordered with
/// respect to anything, itself included. Known sizes are equal exactly when
/// their values are, and ordered by value, so `Size` carries a partial
/// order only.
pub proof fn lemma_unknown_size_partial_order(a: Size, b: Size)
    requires
        a.spec_head() != 0,
        b.spec_head() != 0,
    ensures
        a.spec_is_unknown() && b.spec_is_unknown() ==> a.eq_spec(&b),
        a.spec_is_unknown() != b.spec_is_unknown() ==> !a.eq_spec(&b),
        a.spec_is_unknown() || b.spec_is_unknown() ==> a.partial_cmp_spec(&b) is None,
        !a.spec_is_unknown() && !b.spec_is_unknown() ==> (a.eq_spec(&b) <==> a.spec_data_value()
            == b.spec_data_value()),
{
    lemma_be_bytes_value_bound(a.data_seq());
    lemma_be_bytes_value_bound(b.data_seq());
    assert(a.data_seq().len() <= 8);
    assert(b.data_seq().len() <= 8);
    lemma_pow256_le(a.data_seq().len(), 8);
    lemma_pow256_le(b.data_seq().len(), 8);
    reveal_with_fuel(pow256, 9);
}

/// `256^n` grows with `n`.
proof fn lemma_pow256_le(a: nat, b: nat)
    requires
        a <= b,
    ensures
        pow256(a) <= pow256(b),
    decreases b,
{
    lemma_pow256_pos(a);
    if a < b {
        lemma_pow256_le(a, (b - 1) as nat);
    }
}

impl PartialEq for Size {
    /// Two known sizes are equal when their values are; the unknown sentinel
    /// is equal only to itself.
    fn eq(&self, other: &Size) -> (r: bool) {
        match (self.get_value(), other.get_value()) {
            (Some(a), Some(b)) => a == b,
            (None, None) => true,
            _ => false,
        }
    }
}

impl vstd::std_specs::cmp::PartialEqSpecImpl for Size {
    open spec fn obeys_eq_spec() -> bool {
        true
    }

    open spec fn eq_spec(&self, other: &Size) -> bool {
        self.spec_get_value() == other.spec_get_value()
    }
}

impl PartialOrd for Size {
    /// Known sizes are ordered by value; the unknown sentinel is not ordered
    /// with respect to anything, itself included.
    fn partial_cmp(&self, other: &Size) -> (r: Option<core::cmp::Ordering>) {
        match (self.get_value(), other.get_value()) {
            (Some(a), Some(b)) => {
                if a < b {
                    Some(core::cmp::Ordering::Less)
                } else if a == b {
                    Some(core::cmp::Ordering::Equal)
                } else {
                    Some(core::cmp::Ordering::Greater)
                }
            },
            _ => None,
        }
    }
}

impl vstd::std_specs::cmp::PartialOrdSpecImpl for Size {
    open spec fn obeys_partial_cmp_spec() -> bool {
        true
    }

    open spec fn partial_cmp_spec(&self, other: &Size) -> Option<core::cmp::Ordering> {
        match (self.spec_get_value(), other.spec_get_value()) {
            (Some(a), Some(b)) => if a < b {
                Some(core::cmp::Ordering::Less)
            } else if a == b {
                Some(core::cmp::Ordering::Equal)
            } else {
                Some(core::cmp::Ordering::Greater)
            },
            _ => None,
        }
    }
}

} // verus!
