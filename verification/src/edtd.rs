//! A recursive-descent parser for the EDTD textual schema format (the EBML
//! Document Type Definition).
//!
//! The lexical rules: line comments `// …` to the end of the line, block
//! comments `/* … */`, whitespace separators; identifiers of letters, digits
//! and underscores not starting with a digit; decimal integer literals with
//! an optional leading minus, bounded by 64 bits; float literals with an
//! optional fraction and exponent, kept as their source text; date literals
//! `YYYYMMDDThh:mm:ss` with an optional fraction, the year exactly four
//! digits; hex binary literals `0x…` allowing interior whitespace; and
//! quoted string literals taking any UTF-8 verbatim.
//!
//! Every parser takes the input bytes and a position, and returns the parsed
//! value with the position after it, or a diagnostic with the byte offset at
//! which the expected production failed. Errors report the attempted
//! production; alternatives backtrack.

use vstd::prelude::*;

use crate::datetime::DateTime;
use crate::id::Id;
use crate::schema::Cardinality;

verus! {

/// What the parser was looking for when it failed.
#[derive(Debug, Clone, Copy, PartialEq, Eq, Structural)]
pub enum Expected {
    /// A line or block comment.
    Comment,
    /// An identifier.
    Name,
    /// An element ID in hex.
    IdLiteral,
    /// A type keyword or type name.
    TypeName,
    /// An integer literal.
    IntLiteral,
    /// An unsigned integer literal.
    UintLiteral,
    /// A float literal.
    FloatLiteral,
    /// A date literal.
    DateLiteral,
    /// A binary literal: hex bytes or a quoted string.
    BinaryLiteral,
    /// A quoted string holding valid UTF-8.
    StringLiteral,
    /// A range item.
    RangeItem,
    /// A `parent:`, `level:`, `card:`, `size:` or `ordered:` clause body.
    PropertyClause,
    /// A header statement `name := value ;`.
    Statement,
    /// A `name := type …` declaration.
    Declaration,
    /// A fixed token such as `:=`, `;` or a keyword.
    Token,
}

/// A parse diagnostic: the byte offset at which the failure was noticed and
/// the production expected there.
#[derive(Debug, Clone, Copy, PartialEq, Eq, Structural)]
pub struct EdtdError {
    /// The byte offset into the input.
    pub offset: usize,
    /// What was expected at the offset.
    pub expected: Expected,
}

/// A float literal, kept as its source text; the core stores no native
/// floats, so turning the text into a number is the caller's business.
#[derive(Debug, Clone, PartialEq, Eq)]
pub struct FloatLit {
    /// The text of the literal, such as `-1.25e3`.
    pub text: String,
}

/// Whether `b` is an ASCII decimal digit.
pub open spec fn is_digit(b: u8) -> bool {
    0x30 <= b <= 0x39
}

/// Whether `b` may start an identifier.
pub open spec fn is_name_start(b: u8) -> bool {
    (0x41 <= b <= 0x5A) || (0x61 <= b <= 0x7A) || b == 0x5F
}

/// Whether `b` may continue an identifier.
pub open spec fn is_name_char(b: u8) -> bool {
    is_name_start(b) || is_digit(b)
}

/// Whether `b` is an ASCII hex digit.
pub open spec fn is_hex_digit(b: u8) -> bool {
    is_digit(b) || (0x41 <= b <= 0x46) || (0x61 <= b <= 0x66)
}

/// Whether `b` is a whitespace separator.
pub open spec fn is_space(b: u8) -> bool {
    b == 0x20 || b == 0x09 || b == 0x0A || b == 0x0D
}

/// The numeric value of a hex digit.
pub open spec fn hex_digit_value(b: u8) -> int {
    if is_digit(b) {
        b - 0x30
    } else if 0x41 <= b <= 0x46 {
        b - 0x41 + 10
    } else {
        b - 0x61 + 10
    }
}

/// The value of a string of decimal digits.
pub open spec fn dec_value(s: Seq<u8>) -> int
    decreases s.len(),
{
    if s.len() == 0 {
        0
    } else {
        dec_value(s.drop_last()) * 10 + (s.last() - 0x30)
    }
}

/// The hex digits of `s` in order, as nibble values, ignoring every other
/// byte.
pub open spec fn hex_nibbles(s: Seq<u8>) -> Seq<u8>
    decreases s.len(),
{
    if s.len() == 0 {
        Seq::empty()
    } else if is_hex_digit(s.last()) {
        hex_nibbles(s.drop_last()).push((hex_digit_value(s.last())) as u8)
    } else {
        hex_nibbles(s.drop_last())
    }
}

/// `dec_value` of a digit string grows with its length.
proof fn lemma_dec_value_prefix(s: Seq<u8>, i: int)
    requires
        0 <= i <= s.len(),
        forall|j: int| 0 <= j < s.len() ==> is_digit(#[trigger] s[j]),
    ensures
        dec_value(s) >= dec_value(s.take(i)),
        dec_value(s.take(i)) >= 0,
    decreases s.len() - i,
{
    reveal_with_fuel(dec_value, 2);
    if i == s.len() {
        assert(s.take(i) =~= s);
        lemma_dec_value_nonneg(s);
    } else {
        lemma_dec_value_prefix(s, i + 1);
        assert(s.take(i + 1).drop_last() =~= s.take(i));
        assert(dec_value(s.take(i + 1)) == dec_value(s.take(i)) * 10 + (s[i] - 0x30));
        lemma_dec_value_nonneg(s.take(i));
    }
}

/// `dec_value` is non-negative on digit strings.
proof fn lemma_dec_value_nonneg(s: Seq<u8>)
    requires
        forall|j: int| 0 <= j < s.len() ==> is_digit(#[trigger] s[j]),
    ensures
        dec_value(s) >= 0,
    decreases s.len(),
{
    if s.len() > 0 {
        assert(forall|j: int| 0 <= j < s.drop_last().len() ==> is_digit(#[trigger] s.drop_last()[j]));
        lemma_dec_value_nonneg(s.drop_last());
    }
}

/// Turns ASCII bytes into the string of the same characters.
fn ascii_to_string(v: Vec<u8>) -> (r: String)
    requires
        forall|i: int| 0 <= i < v@.len() ==> #[trigger] v@[i] < 0x80,
    ensures
        r@.len() == v@.len(),
        forall|i: int| 0 <= i < v@.len() ==> #[trigger] r@[i] == v@[i] as char,
{
    proof {
        let chars = Seq::new(v@.len(), |i: int| v@[i] as char);
        assert(vstd::utf8::is_ascii_chars(chars));
        vstd::utf8::is_ascii_chars_encode_utf8(chars);
        assert(vstd::utf8::encode_utf8(chars) =~= v@);
        vstd::utf8::encode_utf8_valid_utf8(chars);
        vstd::utf8::encode_utf8_decode_utf8(chars);
    }
    match crate::value::string_from_utf8(v) {
        Some(s) => s,
        None => unreached(),
    }
}

/// Whether the byte at `i` is a decimal digit.
fn at_digit(input: &Vec<u8>, i: usize) -> (r: bool)
    requires
        i < input@.len(),
    ensures
        r == is_digit(input@[i as int]),
{
    let b = input[i];
    b >= 0x30 && b <= 0x39
}

/// Whether the byte at `i` can continue an identifier.
fn at_name_char(input: &Vec<u8>, i: usize) -> (r: bool)
    requires
        i < input@.len(),
    ensures
        r == is_name_char(input@[i as int]),
{
    let b = input[i];
    (b >= 0x41 && b <= 0x5A) || (b >= 0x61 && b <= 0x7A) || b == 0x5F || (b >= 0x30 && b <= 0x39)
}

/// Whether the byte at `i` is a hex digit.
fn at_hex_digit(input: &Vec<u8>, i: usize) -> (r: bool)
    requires
        i < input@.len(),
    ensures
        r == is_hex_digit(input@[i as int]),
{
    let b = input[i];
    (b >= 0x30 && b <= 0x39) || (b >= 0x41 && b <= 0x46) || (b >= 0x61 && b <= 0x66)
}

/// Whether the byte at `i` can appear in a float literal.
fn at_float_char(input: &Vec<u8>, i: usize) -> (r: bool)
    requires
        i < input@.len(),
    ensures
        r == is_float_char(input@[i as int]),
{
    let b = input[i];
    (b >= 0x30 && b <= 0x39) || b == 0x2B || b == 0x2D || b == 0x2E || b == 0x65
}

/// Whether the byte at `i` is a hex digit or whitespace.
fn at_hex_or_space(input: &Vec<u8>, i: usize) -> (r: bool)
    requires
        i < input@.len(),
    ensures
        r == (is_hex_digit(input@[i as int]) || is_space(input@[i as int])),
{
    let b = input[i];
    (b >= 0x30 && b <= 0x39) || (b >= 0x41 && b <= 0x46) || (b >= 0x61 && b <= 0x66) || b == 0x20
        || b == 0x09 || b == 0x0A || b == 0x0D
}

/// Where the run of decimal digits starting at `pos` ends.
pub open spec fn spec_digit_run_end(s: Seq<u8>, pos: int) -> int
    recommends
        0 <= pos <= s.len(),
    decreases s.len() - pos,
    when 0 <= pos <= s.len()
{
    if pos == s.len() || !is_digit(s[pos]) {
        pos
    } else {
        spec_digit_run_end(s, pos + 1)
    }
}

/// The digit run's end does not move when the cursor walks into the run.
proof fn lemma_digit_run_end_step(s: Seq<u8>, pos: int, i: int)
    requires
        0 <= pos <= i <= s.len(),
        forall|j: int| pos <= j < i ==> is_digit(#[trigger] s[j]),
    ensures
        spec_digit_run_end(s, pos) == spec_digit_run_end(s, i),
    decreases i - pos,
{
    if pos < i {
        lemma_digit_run_end_step(s, pos + 1, i);
    }
}

/// The run's end lies within the input, past only digits.
proof fn lemma_digit_run_end_bounds(s: Seq<u8>, pos: int)
    requires
        0 <= pos <= s.len(),
    ensures
        pos <= spec_digit_run_end(s, pos) <= s.len(),
        forall|j: int| pos <= j < spec_digit_run_end(s, pos) ==> is_digit(#[trigger] s[j]),
    decreases s.len() - pos,
{
    if !(pos == s.len() || !is_digit(s[pos])) {
        lemma_digit_run_end_bounds(s, pos + 1);
    }
}

/// The end of the maximal run of decimal digits starting at `pos`.
fn scan_digits(input: &Vec<u8>, pos: usize) -> (r: usize)
    requires
        pos <= input@.len(),
    ensures
        r == spec_digit_run_end(input@, pos as int),
        pos <= r <= input@.len(),
        forall|i: int| pos <= i < r ==> is_digit(#[trigger] input@[i]),
        r < input@.len() ==> !is_digit(input@[r as int]),
{
    let mut i = pos;
    while i < input.len() && at_digit(input, i)
        invariant
            pos <= i <= input@.len(),
            forall|j: int| pos <= j < i ==> is_digit(#[trigger] input@[j]),
        decreases input@.len() - i,
    {
        i += 1;
    }
    proof {
        lemma_digit_run_end_step(input@, pos as int, i as int);
    }
    i
}

/// Whether an unsigned decimal literal that fits 64 bits stands at `pos`.
pub open spec fn spec_uint_lit_ok(s: Seq<u8>, pos: int) -> bool {
    &&& spec_digit_run_end(s, pos) > pos
    &&& dec_value(s.subrange(pos, spec_digit_run_end(s, pos))) <= u64::MAX
}

/// Where the unsigned decimal literal at `pos` ends.
pub open spec fn spec_uint_lit_end(s: Seq<u8>, pos: int) -> int {
    spec_digit_run_end(s, pos)
}

/// The value of the unsigned decimal literal at `pos`.
pub open spec fn spec_uint_lit_value(s: Seq<u8>, pos: int) -> int {
    dec_value(s.subrange(pos, spec_digit_run_end(s, pos)))
}

/// Whether a minus sign opens the literal at `pos`.
pub open spec fn spec_int_lit_neg(s: Seq<u8>, pos: int) -> bool {
    pos < s.len() && s[pos] == 0x2D
}

/// Where the digits of the signed decimal literal at `pos` start.
pub open spec fn spec_int_lit_start(s: Seq<u8>, pos: int) -> int {
    if spec_int_lit_neg(s, pos) {
        pos + 1
    } else {
        pos
    }
}

/// Where the signed decimal literal at `pos` ends.
pub open spec fn spec_int_lit_end(s: Seq<u8>, pos: int) -> int {
    spec_digit_run_end(s, spec_int_lit_start(s, pos))
}

/// Whether a signed decimal literal that fits 64 bits stands at `pos`.
pub open spec fn spec_int_lit_ok(s: Seq<u8>, pos: int) -> bool {
    let start = spec_int_lit_start(s, pos);
    let e = spec_digit_run_end(s, start);
    &&& e > start
    &&& dec_value(s.subrange(start, e)) <= (if spec_int_lit_neg(s, pos) {
        0x8000_0000_0000_0000int
    } else {
        0x7FFF_FFFF_FFFF_FFFFint
    })
}

/// The value of the signed decimal literal at `pos`.
pub open spec fn spec_int_lit_value(s: Seq<u8>, pos: int) -> int {
    let m = dec_value(s.subrange(spec_int_lit_start(s, pos), spec_int_lit_end(s, pos)));
    if spec_int_lit_neg(s, pos) {
        -m
    } else {
        m
    }
}

/// Parses a run of decimal digits as a `u64`. It succeeds exactly when a
/// digit stands at the cursor and the whole run's value fits 64 bits; the
/// run is always taken whole.
pub fn uint_v(input: &Vec<u8>, pos: usize) -> (r: Result<(u64, usize), EdtdError>)
    requires
        pos <= input@.len(),
    ensures
        r is Ok <==> (spec_digit_run_end(input@, pos as int) > pos && dec_value(
            input@.subrange(pos as int, spec_digit_run_end(input@, pos as int)),
        ) <= u64::MAX),
        match r {
            Ok((v, p)) => {
                &&& p == spec_digit_run_end(input@, pos as int)
                &&& pos < p <= input@.len()
                &&& forall|i: int| pos <= i < p ==> is_digit(#[trigger] input@[i])
                &&& (p < input@.len() ==> !is_digit(input@[p as int]))
                &&& v == dec_value(input@.subrange(pos as int, p as int))
            },
            Err(e) => e.offset == pos && e.expected == Expected::UintLiteral,
        },
    {
    let end = scan_digits(input, pos);
    if end == pos {
        return Err(EdtdError { offset: pos, expected: Expected::UintLiteral });
    }
    let mut acc: u64 = 0;
    let mut i = pos;
    proof {
        assert(input@.subrange(pos as int, pos as int) =~= Seq::<u8>::empty());
    }
    while i < end
        invariant
            pos <= i <= end <= input@.len(),
            end == spec_digit_run_end(input@, pos as int),
            forall|j: int| pos <= j < end ==> is_digit(#[trigger] input@[j]),
            acc == dec_value(input@.subrange(pos as int, i as int)),
        decreases end - i,
    {
        let b = input[i];
        proof {
            assert(input@.subrange(pos as int, i + 1).drop_last() =~= input@.subrange(
                pos as int,
                i as int,
            ));
            assert(input@.subrange(pos as int, i + 1).last() == input@[i as int]);
        }
        if acc > 0x1999_9999_9999_9999 || (acc == 0x1999_9999_9999_9999 && b > 0x35) {
            proof {
                let run = input@.subrange(pos as int, end as int);
                assert(run.take(i + 1 - pos) =~= input@.subrange(pos as int, i + 1));
                assert(dec_value(input@.subrange(pos as int, i + 1)) == acc * 10 + (
                input@[i as int] - 0x30));
                assert(dec_value(input@.subrange(pos as int, i + 1)) > u64::MAX);
                lemma_dec_value_prefix(run, i + 1 - pos);
                assert(dec_value(run) > u64::MAX);
            }
            return Err(EdtdError { offset: pos, expected: Expected::UintLiteral });
        }
        acc = acc * 10 + ((b - 0x30) as u64);
        i += 1;
    }
    proof {
        assert(input@.subrange(pos as int, end as int) =~= input@.subrange(pos as int, end as int));
    }
    Ok((acc, end))
}

/// Parses a decimal integer literal with an optional leading minus as an
/// `i64`. It succeeds exactly when a digit run follows the optional sign
/// and the signed value fits 64 bits.
pub fn int_v(input: &Vec<u8>, pos: usize) -> (r: Result<(i64, usize), EdtdError>)
    requires
        pos <= input@.len(),
    ensures
        r is Ok <==> ({
            let neg = pos < input@.len() && input@[pos as int] == 0x2D;
            let start = if neg {
                pos + 1
            } else {
                pos as int
            };
            let e = spec_digit_run_end(input@, start);
            &&& e > start
            &&& dec_value(input@.subrange(start, e)) <= (if neg {
                0x8000_0000_0000_0000int
            } else {
                0x7FFF_FFFF_FFFF_FFFFint
            })
        }),
        match r {
            Ok((v, p)) => {
                &&& pos < p <= input@.len()
                &&& (if input@[pos as int] == 0x2D {
                    &&& p == spec_digit_run_end(input@, pos + 1)
                    &&& v == -dec_value(input@.subrange(pos + 1, p as int))
                } else {
                    &&& p == spec_digit_run_end(input@, pos as int)
                    &&& v == dec_value(input@.subrange(pos as int, p as int))
                })
            },
            Err(e) => e.offset == pos && e.expected == Expected::IntLiteral,
        },
{
    if pos < input.len() && input[pos] == 0x2D {
        match uint_v(input, pos + 1) {
            Ok((m, p)) => {
                if m > 0x8000_0000_0000_0000 {
                    Err(EdtdError { offset: pos, expected: Expected::IntLiteral })
                } else if m == 0x8000_0000_0000_0000 {
                    Ok((i64::MIN, p))
                } else {
                    Ok((-(m as i64), p))
                }
            },
            Err(_) => Err(EdtdError { offset: pos, expected: Expected::IntLiteral }),
        }
    } else {
        match uint_v(input, pos) {
            Ok((m, p)) => {
                if m > 0x7FFF_FFFF_FFFF_FFFF {
                    Err(EdtdError { offset: pos, expected: Expected::IntLiteral })
                } else {
                    Ok((m as i64, p))
                }
            },
            Err(_) => Err(EdtdError { offset: pos, expected: Expected::IntLiteral }),
        }
    }
}

/// The index just past the first newline at or after `i`, or one past the
/// input's end when no newline follows.
pub open spec fn spec_line_end(s: Seq<u8>, i: int) -> int
    decreases s.len() - i,
    when 0 <= i <= s.len()
{
    if i == s.len() {
        s.len() as int + 1
    } else if s[i] == 0x0A {
        i + 1
    } else {
        spec_line_end(s, i + 1)
    }
}

/// The index just past the first `*/` at or after `i`, or one past the
/// input's end when none follows.
pub open spec fn spec_block_end(s: Seq<u8>, i: int) -> int
    decreases s.len() - i,
    when 0 <= i <= s.len()
{
    if i + 2 > s.len() {
        s.len() as int + 1
    } else if s[i] == 0x2A && s[i + 1] == 0x2F {
        i + 2
    } else {
        spec_block_end(s, i + 1)
    }
}

/// Whether a complete line comment stands at `pos`.
pub open spec fn spec_lcomment_ok(s: Seq<u8>, pos: int) -> bool {
    &&& pos + 2 <= s.len()
    &&& s[pos] == 0x2F
    &&& s[pos + 1] == 0x2F
    &&& spec_line_end(s, pos + 2) <= s.len()
}

/// Whether a complete block comment stands at `pos`.
pub open spec fn spec_bcomment_ok(s: Seq<u8>, pos: int) -> bool {
    &&& pos + 2 <= s.len()
    &&& s[pos] == 0x2F
    &&& s[pos + 1] == 0x2A
    &&& spec_block_end(s, pos + 2) <= s.len()
}

/// Whether a complete comment of either kind stands at `pos`.
pub open spec fn spec_comment_ok(s: Seq<u8>, pos: int) -> bool {
    spec_lcomment_ok(s, pos) || spec_bcomment_ok(s, pos)
}

/// The index just past the comment at `pos`.
pub open spec fn spec_comment_end(s: Seq<u8>, pos: int) -> int {
    if spec_lcomment_ok(s, pos) {
        spec_line_end(s, pos + 2)
    } else {
        spec_block_end(s, pos + 2)
    }
}

/// The end of the run of whitespace and comments starting at `pos`.
pub open spec fn spec_sep_end(s: Seq<u8>, pos: int) -> int
    decreases s.len() - pos,
    when 0 <= pos <= s.len()
{
    if pos == s.len() {
        pos
    } else if is_space(s[pos]) {
        spec_sep_end(s, pos + 1)
    } else if spec_comment_ok(s, pos) && pos < spec_comment_end(s, pos) <= s.len() {
        spec_sep_end(s, spec_comment_end(s, pos))
    } else {
        pos
    }
}

/// Bounds of the newline scan: it moves forward and stops within one place
/// past the end; when it stops inside, a newline stands just before it and
/// none earlier.
proof fn lemma_line_end_bounds(s: Seq<u8>, i: int)
    requires
        0 <= i <= s.len(),
    ensures
        i + 1 <= spec_line_end(s, i) <= s.len() + 1,
        spec_line_end(s, i) <= s.len() ==> s[spec_line_end(s, i) - 1] == 0x0A,
    decreases s.len() - i,
{
    if !(i == s.len() || s[i] == 0x0A) {
        lemma_line_end_bounds(s, i + 1);
    }
}

/// The newline scan does not move while it walks over non-newline bytes.
proof fn lemma_line_end_step(s: Seq<u8>, i: int, j: int)
    requires
        0 <= i <= j <= s.len(),
        forall|k: int| i <= k < j ==> #[trigger] s[k] != 0x0A,
    ensures
        spec_line_end(s, i) == spec_line_end(s, j),
    decreases j - i,
{
    if i < j {
        lemma_line_end_step(s, i + 1, j);
    }
}

/// Bounds of the `*/` scan, as for the newline scan.
proof fn lemma_block_end_bounds(s: Seq<u8>, i: int)
    requires
        0 <= i <= s.len(),
    ensures
        i + 1 <= spec_block_end(s, i) <= s.len() + 1,
        spec_block_end(s, i) <= s.len() ==> i + 2 <= spec_block_end(s, i) && s[spec_block_end(
            s,
            i,
        ) - 2] == 0x2A && s[spec_block_end(s, i) - 1] == 0x2F,
    decreases s.len() - i,
{
    if !(i + 2 > s.len() || (s[i] == 0x2A && s[i + 1] == 0x2F)) {
        lemma_block_end_bounds(s, i + 1);
    }
}

/// The `*/` scan does not move while it walks over other bytes.
proof fn lemma_block_end_step(s: Seq<u8>, i: int, j: int)
    requires
        0 <= i <= j <= s.len(),
        forall|k: int| i <= k < j ==> !(#[trigger] s[k] == 0x2A && k + 1 < s.len() && s[k + 1] == 0x2F),
    ensures
        spec_block_end(s, i) == spec_block_end(s, j),
    decreases j - i,
{
    if i < j {
        lemma_block_end_step(s, i + 1, j);
    }
}

/// A comment ends after its opening pair and within the input.
proof fn lemma_comment_end_bounds(s: Seq<u8>, pos: int)
    requires
        0 <= pos <= s.len(),
        spec_comment_ok(s, pos),
    ensures
        pos + 2 < spec_comment_end(s, pos) <= s.len(),
{
    if spec_lcomment_ok(s, pos) {
        lemma_line_end_bounds(s, pos + 2);
    } else {
        lemma_block_end_bounds(s, pos + 2);
    }
}

/// Consumes a line comment `// …` through the line's end, returning the
/// bytes between.
pub fn lcomment(input: &Vec<u8>, pos: usize) -> (r: Result<(Vec<u8>, usize), EdtdError>)
    requires
        pos <= input@.len(),
    ensures
        r is Ok <==> spec_lcomment_ok(input@, pos as int),
        match r {
            Ok((v, p)) => {
                &&& pos + 2 <= p <= input@.len()
                &&& p == spec_line_end(input@, pos + 2)
                &&& input@[pos as int] == 0x2F && input@[pos + 1] == 0x2F
                &&& input@[p - 1] == 0x0A
                &&& v@ == input@.subrange(pos + 2, p - 1)
            },
            Err(e) => e.offset == pos && e.expected == Expected::Comment,
        },
{
    if input.len() - pos < 2 || input[pos] != 0x2F || input[pos + 1] != 0x2F {
        return Err(EdtdError { offset: pos, expected: Expected::Comment });
    }
    let mut i = pos + 2;
    let mut out: Vec<u8> = Vec::new();
    proof {
        assert(out@ =~= input@.subrange(pos + 2, pos + 2));
    }
    while i < input.len() && input[i] != 0x0A
        invariant
            pos + 2 <= i <= input@.len(),
            out@ =~= input@.subrange(pos + 2, i as int),
            forall|j: int| pos + 2 <= j < i ==> #[trigger] input@[j] != 0x0A,
        decreases input@.len() - i,
    {
        out.push(input[i]);
        proof {
            assert(input@.subrange(pos + 2, i + 1) =~= input@.subrange(pos + 2, i as int).push(
                input@[i as int],
            ));
        }
        i += 1;
    }
    proof {
        lemma_line_end_step(input@, pos + 2, i as int);
    }
    if i == input.len() {
        return Err(EdtdError { offset: pos, expected: Expected::Comment });
    }
    Ok((out, i + 1))
}

/// Consumes a block comment `/* … */`, returning the bytes between.
pub fn bcomment(input: &Vec<u8>, pos: usize) -> (r: Result<(Vec<u8>, usize), EdtdError>)
    requires
        pos <= input@.len(),
    ensures
        r is Ok <==> spec_bcomment_ok(input@, pos as int),
        match r {
            Ok((v, p)) => {
                &&& pos + 4 <= p <= input@.len()
                &&& p == spec_block_end(input@, pos + 2)
                &&& input@[pos as int] == 0x2F && input@[pos + 1] == 0x2A
                &&& input@[p - 2] == 0x2A && input@[p - 1] == 0x2F
                &&& v@ == input@.subrange(pos + 2, p - 2)
            },
            Err(e) => e.offset == pos && e.expected == Expected::Comment,
        },
{
    if input.len() - pos < 2 || input[pos] != 0x2F || input[pos + 1] != 0x2A {
        return Err(EdtdError { offset: pos, expected: Expected::Comment });
    }
    let mut i = pos + 2;
    let mut out: Vec<u8> = Vec::new();
    proof {
        assert(out@ =~= input@.subrange(pos + 2, pos + 2));
    }
    while input.len() - i >= 2 && !(input[i] == 0x2A && input[i + 1] == 0x2F)
        invariant
            pos + 2 <= i,
            i <= input@.len(),
            out@ =~= input@.subrange(pos + 2, i as int),
            forall|j: int|
                pos + 2 <= j < i ==> !(#[trigger] input@[j] == 0x2A && j + 1 < input@.len()
                    && input@[j + 1] == 0x2F),
        decreases input@.len() - i,
    {
        out.push(input[i]);
        proof {
            assert(input@.subrange(pos + 2, i + 1) =~= input@.subrange(pos + 2, i as int).push(
                input@[i as int],
            ));
        }
        i += 1;
    }
    proof {
        lemma_block_end_step(input@, pos + 2, i as int);
    }
    if input.len() - i < 2 {
        return Err(EdtdError { offset: pos, expected: Expected::Comment });
    }
    Ok((out, i + 2))
}

/// Consumes either kind of comment.
pub fn comment(input: &Vec<u8>, pos: usize) -> (r: Result<(Vec<u8>, usize), EdtdError>)
    requires
        pos <= input@.len(),
    ensures
        r is Ok <==> spec_comment_ok(input@, pos as int),
        match r {
            Ok((v, p)) => pos + 2 <= p <= input@.len() && p == spec_comment_end(
                input@,
                pos as int,
            ),
            Err(e) => e.offset == pos && e.expected == Expected::Comment,
        },
{
    match lcomment(input, pos) {
        Ok(r) => Ok(r),
        Err(_) => bcomment(input, pos),
    }
}

/// Consumes any run of whitespace and comments; comments are whitespace.
/// Always succeeds, possibly consuming nothing.
pub fn sep(input: &Vec<u8>, pos: usize) -> (r: usize)
    requires
        pos <= input@.len(),
    ensures
        pos <= r <= input@.len(),
        r == spec_sep_end(input@, pos as int),
        pos < input@.len() && is_space(input@[pos as int]) ==> r > pos,
{
    let mut i = pos;
    loop
        invariant
            pos <= i <= input@.len(),
            spec_sep_end(input@, pos as int) == spec_sep_end(input@, i as int),
        decreases input@.len() - i,
    {
        if i >= input.len() {
            proof {
                assert(spec_sep_end(input@, i as int) == i);
            }
            return i;
        }
        let b = input[i];
        if b == 0x20 || b == 0x09 || b == 0x0A || b == 0x0D {
            proof {
                assert(spec_sep_end(input@, i as int) == spec_sep_end(input@, i + 1));
            }
            i += 1;
        } else if b == 0x2F {
            match comment(input, i) {
                Ok((_, p)) => {
                    proof {
                        lemma_comment_end_bounds(input@, i as int);
                        assert(!is_space(input@[i as int]));
                        assert(spec_sep_end(input@, i as int) == spec_sep_end(input@, p as int));
                    }
                    i = p;
                },
                Err(_) => {
                    proof {
                        assert(spec_sep_end(input@, i as int) == i);
                    }
                    return i;
                },
            }
        } else {
            proof {
                assert(!spec_comment_ok(input@, i as int));
                assert(spec_sep_end(input@, i as int) == i);
            }
            return i;
        }
    }
}

/// Where the run of identifier characters starting at `pos` ends.
pub open spec fn spec_name_end(s: Seq<u8>, pos: int) -> int
    recommends
        0 <= pos <= s.len(),
    decreases s.len() - pos,
    when 0 <= pos <= s.len()
{
    if pos == s.len() || !is_name_char(s[pos]) {
        pos
    } else {
        spec_name_end(s, pos + 1)
    }
}

/// The identifier run's end does not move when the cursor walks into the run.
proof fn lemma_name_end_step(s: Seq<u8>, pos: int, i: int)
    requires
        0 <= pos <= i <= s.len(),
        forall|j: int| pos <= j < i ==> is_name_char(#[trigger] s[j]),
    ensures
        spec_name_end(s, pos) == spec_name_end(s, i),
    decreases i - pos,
{
    if pos < i {
        lemma_name_end_step(s, pos + 1, i);
    }
}

/// Parses an identifier: a letter or underscore followed by letters, digits
/// and underscores, as many as there are.
pub fn name(input: &Vec<u8>, pos: usize) -> (r: Result<(String, usize), EdtdError>)
    requires
        pos <= input@.len(),
    ensures
        r is Ok <==> pos < input@.len() && is_name_start(input@[pos as int]),
        match r {
            Ok((nm, p)) => {
                &&& pos < p <= input@.len()
                &&& p == spec_name_end(input@, pos as int)
                &&& is_name_start(input@[pos as int])
                &&& forall|i: int| pos <= i < p ==> is_name_char(#[trigger] input@[i])
                &&& (p < input@.len() ==> !is_name_char(input@[p as int]))
                &&& nm@.len() == p - pos
                &&& forall|i: int| 0 <= i < nm@.len() ==> #[trigger] nm@[i] == input@[pos + i] as char
            },
            Err(e) => {
                &&& e.offset == pos && e.expected == Expected::Name
                &&& (pos == input@.len() || !is_name_start(input@[pos as int]))
            },
        },
{
    if pos >= input.len() {
        return Err(EdtdError { offset: pos, expected: Expected::Name });
    }
    let b0 = input[pos];
    if !((b0 >= 0x41 && b0 <= 0x5A) || (b0 >= 0x61 && b0 <= 0x7A) || b0 == 0x5F) {
        return Err(EdtdError { offset: pos, expected: Expected::Name });
    }
    let mut i = pos;
    let mut out: Vec<u8> = Vec::new();
    proof {
        assert(out@ =~= input@.subrange(pos as int, pos as int));
    }
    while i < input.len() && at_name_char(input, i)
        invariant
            pos <= i <= input@.len(),
            out@ =~= input@.subrange(pos as int, i as int),
            forall|j: int| pos <= j < i ==> is_name_char(#[trigger] input@[j]),
        decreases input@.len() - i,
    {
        out.push(input[i]);
        proof {
            assert(input@.subrange(pos as int, i + 1) =~= input@.subrange(pos as int, i as int).push(
                input@[i as int],
            ));
        }
        i += 1;
    }
    proof {
        lemma_name_end_step(input@, pos as int, i as int);
    }
    let nm = ascii_to_string(out);
    Ok((nm, i))
}

/// Where the run of hex digits starting at `pos` ends.
pub open spec fn spec_hex_run_end(s: Seq<u8>, pos: int) -> int
    recommends
        0 <= pos <= s.len(),
    decreases s.len() - pos,
    when 0 <= pos <= s.len()
{
    if pos == s.len() || !is_hex_digit(s[pos]) {
        pos
    } else {
        spec_hex_run_end(s, pos + 1)
    }
}

/// The hex run's end does not move when the cursor walks into the run.
proof fn lemma_hex_run_end_step(s: Seq<u8>, pos: int, i: int)
    requires
        0 <= pos <= i <= s.len(),
        forall|j: int| pos <= j < i ==> is_hex_digit(#[trigger] s[j]),
    ensures
        spec_hex_run_end(s, pos) == spec_hex_run_end(s, i),
    decreases i - pos,
{
    if pos < i {
        lemma_hex_run_end_step(s, pos + 1, i);
    }
}

/// The value of a string of hex digits.
pub open spec fn spec_hex_value(s: Seq<u8>) -> int
    decreases s.len(),
{
    if s.len() == 0 {
        0
    } else {
        spec_hex_value(s.drop_last()) * 16 + hex_digit_value(s.last())
    }
}

/// Whether the encoded value `v` is a legal ID pattern of some width.
pub open spec fn spec_id_encoded_ok(v: int) -> bool {
    (0x81 <= v <= 0xFE) || (0x407F <= v <= 0x7FFE) || (0x20_3FFF <= v <= 0x3F_FFFE) || (0x101F_FFFF
        <= v <= 0x1FFF_FFFE)
}

/// The decoded ID value of the legal encoded pattern `v`: the pattern
/// stripped of its marker bit.
pub open spec fn spec_id_decoded(v: int) -> int {
    if v <= 0xFE {
        v - 0x80
    } else if v <= 0x7FFE {
        v - 0x4000
    } else if v <= 0x3F_FFFE {
        v - 0x20_0000
    } else {
        v - 0x1000_0000
    }
}

/// Parses an element ID written as hex digits of its encoded form.
pub fn id(input: &Vec<u8>, pos: usize) -> (r: Result<(Id, usize), EdtdError>)
    requires
        pos <= input@.len(),
    ensures
        r is Ok <==> ({
            let he = spec_hex_run_end(input@, pos as int);
            &&& pos < he && he - pos <= 8
            &&& spec_id_encoded_ok(spec_hex_value(input@.subrange(pos as int, he)))
        }),
        match r {
            Ok((v, p)) => {
                let he = spec_hex_run_end(input@, pos as int);
                &&& pos < p <= input@.len()
                &&& p == he
                &&& forall|i: int| pos <= i < p ==> is_hex_digit(#[trigger] input@[i])
                &&& (p < input@.len() ==> !is_hex_digit(input@[p as int]))
                &&& v.spec_value() == spec_id_decoded(
                    spec_hex_value(input@.subrange(pos as int, he)),
                )
            },
            Err(e) => e.offset == pos && e.expected == Expected::IdLiteral,
        },
{
    let mut end = pos;
    while end < input.len() && at_hex_digit(input, end)
        invariant
            pos <= end <= input@.len(),
            forall|j: int| pos <= j < end ==> is_hex_digit(#[trigger] input@[j]),
        decreases input@.len() - end,
    {
        end += 1;
    }
    proof {
        lemma_hex_run_end_step(input@, pos as int, end as int);
    }
    if end == pos || end - pos > 8 {
        return Err(EdtdError { offset: pos, expected: Expected::IdLiteral });
    }
    let mut i = pos;
    let mut acc: u32 = 0;
    proof {
        assert(input@.subrange(pos as int, pos as int) =~= Seq::<u8>::empty());
    }
    while i < end
        invariant
            pos <= i <= end <= input@.len(),
            end - pos <= 8,
            forall|j: int| pos <= j < end ==> is_hex_digit(#[trigger] input@[j]),
            acc < 0x1000_0000 || i == end,
            i < end ==> acc < pow16((i - pos) as nat),
            acc == spec_hex_value(input@.subrange(pos as int, i as int)),
        decreases end - i,
    {
        let b = input[i];
        let d: u32 = if b >= 0x61 {
            (b - 0x61 + 10) as u32
        } else if b >= 0x41 {
            (b - 0x41 + 10) as u32
        } else {
            (b - 0x30) as u32
        };
        proof {
            reveal_with_fuel(pow16, 10);
            lemma_pow16_monotone((i - pos) as nat, 7);
            assert(input@.subrange(pos as int, i + 1).drop_last() =~= input@.subrange(
                pos as int,
                i as int,
            ));
            assert(input@.subrange(pos as int, i + 1).last() == input@[i as int]);
            assert(d == hex_digit_value(input@[i as int]));
        }
        acc = acc * 16 + d;
        i += 1;
        proof {
            if i < end {
                lemma_pow16_monotone((i - pos) as nat, 8);
            }
        }
    }
    match Id::from_encoded(acc) {
        Some(v) => Ok((v, end)),
        None => Err(EdtdError { offset: pos, expected: Expected::IdLiteral }),
    }
}

/// `16^n`.
pub open spec fn pow16(n: nat) -> int
    decreases n,
{
    if n == 0 {
        1
    } else {
        16 * pow16((n - 1) as nat)
    }
}

/// `16^n` grows with `n`.
proof fn lemma_pow16_monotone(a: nat, b: nat)
    requires
        a <= b,
    ensures
        pow16(a) <= pow16(b),
        pow16(a) >= 1,
    decreases b,
{
    if a < b {
        lemma_pow16_monotone(a, (b - 1) as nat);
    } else if a > 0 {
        lemma_pow16_monotone((a - 1) as nat, (b - 1) as nat);
    }
}

/// Whether the characters of `tok`, read as ASCII bytes, stand at `pos`.
pub open spec fn spec_token_at(s: Seq<u8>, pos: int, tok: Seq<char>) -> bool {
    &&& pos + tok.len() <= s.len()
    &&& forall|i: int| 0 <= i < tok.len() ==> s[pos + i] == (#[trigger] tok[i]) as u8
}

/// Matches the fixed token `tok`, which must be ASCII, at `pos`.
fn tag(input: &Vec<u8>, pos: usize, tok: &str) -> (r: Result<usize, EdtdError>)
    requires
        pos <= input@.len(),
        vstd::string::is_ascii(tok),
    ensures
        r is Ok <==> spec_token_at(input@, pos as int, tok@),
        match r {
            Ok(p) => pos <= p <= input@.len() && p == pos + tok@.len(),
            Err(e) => e.offset == pos && e.expected == Expected::Token,
        },
{
    let tb = tok.as_bytes();
    proof {
        broadcast use vstd::string::is_ascii_spec_bytes;

        assert(tb@ =~= Seq::new(tok@.len(), |i: int| tok@[i] as u8));
    }
    let n = tb.len();
    if n > input.len() - pos {
        return Err(EdtdError { offset: pos, expected: Expected::Token });
    }
    let mut i: usize = 0;
    while i < n
        invariant
            0 <= i <= n,
            n == tb@.len(),
            n == tok@.len(),
            pos + n <= input@.len(),
            input@.len() <= usize::MAX,
            forall|j: int| 0 <= j < n ==> tb@[j] == (#[trigger] tok@[j]) as u8,
            forall|j: int| 0 <= j < i ==> input@[pos + j] == (#[trigger] tok@[j]) as u8,
        decreases n - i,
    {
        if input[pos + i] != tb[i] {
            proof {
                assert(input@[pos + i] != (tok@[i as int]) as u8);
            }
            return Err(EdtdError { offset: pos, expected: Expected::Token });
        }
        i += 1;
    }
    Ok(pos + n)
}

/// Matches the single byte `b` at `pos`.
fn expect_byte(input: &Vec<u8>, pos: usize, b: u8) -> (r: Result<usize, EdtdError>)
    requires
        pos <= input@.len(),
    ensures
        match r {
            Ok(p) => p == pos + 1 && p <= input@.len() && input@[pos as int] == b,
            Err(e) => e.offset == pos && e.expected == Expected::Token && (pos == input@.len()
                || input@[pos as int] != b),
        },
{
    if pos < input.len() && input[pos] == b {
        Ok(pos + 1)
    } else {
        Err(EdtdError { offset: pos, expected: Expected::Token })
    }
}

/// Matches the two bytes `b1 b2` at `pos`.
fn expect_two(input: &Vec<u8>, pos: usize, b1: u8, b2: u8) -> (r: Result<usize, EdtdError>)
    requires
        pos <= input@.len(),
    ensures
        r is Ok <==> pos + 2 <= input@.len() && input@[pos as int] == b1 && input@[pos + 1] == b2,
        match r {
            Ok(p) => p == pos + 2 && p <= input@.len() && input@[pos as int] == b1 && input@[pos
                + 1] == b2,
            Err(e) => e.offset == pos && e.expected == Expected::Token,
        },
{
    if input.len() - pos >= 2 && input[pos] == b1 && input[pos + 1] == b2 {
        Ok(pos + 2)
    } else {
        Err(EdtdError { offset: pos, expected: Expected::Token })
    }
}

/// `10^n`.

/// `10^n`.
pub open spec fn pow10(n: nat) -> int
    decreases n,
{
    if n == 0 {
        1
    } else {
        10 * pow10((n - 1) as nat)
    }
}

/// The nanoseconds denoted by the fraction digits `s`: the first nine
/// digits, padded with zeros on the right; further digits are ignored.
pub open spec fn frac_nanos(s: Seq<u8>) -> int {
    if s.len() >= 9 {
        dec_value(s.take(9))
    } else {
        dec_value(s) * pow10((9 - s.len()) as nat)
    }
}

/// Whether `b` can appear in a float literal.
pub open spec fn is_float_char(b: u8) -> bool {
    is_digit(b) || b == 0x2B || b == 0x2D || b == 0x2E || b == 0x65
}

/// Parses exactly `k` decimal digits.
fn fixed_digits(input: &Vec<u8>, pos: usize, k: usize) -> (r: Result<u64, EdtdError>)
    requires
        pos <= input@.len(),
        k <= 8,
    ensures
        r is Ok <==> (pos + k <= input@.len() && forall|i: int|
            pos <= i < pos + k ==> is_digit(#[trigger] input@[i])),
        match r {
            Ok(v) => {
                &&& v == dec_value(input@.subrange(pos as int, pos + k))
                &&& 0 <= v < pow10(k as nat)
            },
            Err(e) => e.offset == pos && e.expected == Expected::UintLiteral,
        },
{
    if k > input.len() - pos {
        return Err(EdtdError { offset: pos, expected: Expected::UintLiteral });
    }
    let mut acc: u64 = 0;
    let mut i: usize = 0;
    proof {
        assert(input@.subrange(pos as int, pos as int) =~= Seq::<u8>::empty());
    }
    while i < k
        invariant
            0 <= i <= k <= 8,
            pos + k <= input@.len(),
            input@.len() <= usize::MAX,
            forall|j: int| pos <= j < pos + i ==> is_digit(#[trigger] input@[j]),
            acc == dec_value(input@.subrange(pos as int, pos + i)),
            acc <= 99_999_999,
        decreases k - i,
    {
        let b = input[pos + i];
        if b < 0x30 || b > 0x39 {
            proof {
                assert(!is_digit(input@[pos + i]));
            }
            return Err(EdtdError { offset: pos, expected: Expected::UintLiteral });
        }
        proof {
            assert(input@.subrange(pos as int, pos + i + 1).drop_last() =~= input@.subrange(
                pos as int,
                pos + i,
            ));
            assert(input@.subrange(pos as int, pos + i + 1).last() == input@[pos + i]);
            lemma_dec_value_nonneg(input@.subrange(pos as int, pos + i));
        }
        acc = acc * 10 + ((b - 0x30) as u64);
        proof {
            if acc > 99_999_999 {
                reveal_with_fuel(pow10, 10);
                lemma_dec_value_bound(input@.subrange(pos as int, pos + i + 1));
                assert(false);
            }
        }
        i += 1;
    }
    proof {
        lemma_dec_value_bound(input@.subrange(pos as int, pos + k));
    }
    Ok(acc)
}

/// A digit string of length `n` is below `10^n`.
proof fn lemma_dec_value_bound(s: Seq<u8>)
    requires
        forall|j: int| 0 <= j < s.len() ==> is_digit(#[trigger] s[j]),
    ensures
        0 <= dec_value(s) < pow10(s.len()),
    decreases s.len(),
{
    reveal_with_fuel(pow10, 2);
    if s.len() > 0 {
        assert(forall|j: int| 0 <= j < s.drop_last().len() ==> is_digit(#[trigger] s.drop_last()[j]));
        lemma_dec_value_bound(s.drop_last());
    }
}

/// Where the run of float characters starting at `pos` ends.
pub open spec fn spec_float_run_end(s: Seq<u8>, pos: int) -> int
    recommends
        0 <= pos <= s.len(),
    decreases s.len() - pos,
    when 0 <= pos <= s.len()
{
    if pos == s.len() || !is_float_char(s[pos]) {
        pos
    } else {
        spec_float_run_end(s, pos + 1)
    }
}

/// The float run's end does not move when the cursor walks into the run.
proof fn lemma_float_run_end_step(s: Seq<u8>, pos: int, i: int)
    requires
        0 <= pos <= i <= s.len(),
        forall|j: int| pos <= j < i ==> is_float_char(#[trigger] s[j]),
    ensures
        spec_float_run_end(s, pos) == spec_float_run_end(s, i),
    decreases i - pos,
{
    if pos < i {
        lemma_float_run_end_step(s, pos + 1, i);
    }
}

/// A digit run that starts inside the float run ends within it.
proof fn lemma_digit_run_le(s: Seq<u8>, i: int, end: int)
    requires
        0 <= i <= end <= s.len(),
        end == s.len() || !is_float_char(s[end]),
    ensures
        spec_digit_run_end(s, i) <= end,
{
    lemma_digit_run_end_bounds(s, i);
    if spec_digit_run_end(s, i) > end {
        assert(is_digit(s[end]));
    }
}

/// Whether the maximal float-character run at `pos` has the shape of a
/// float literal: an optional sign, digits with an optional point and
/// fraction (at least one digit on one side), and an optional exponent with
/// at least one digit that reaches the run's end.
pub open spec fn spec_float_lit_ok(s: Seq<u8>, pos: int) -> bool {
    let end = spec_float_run_end(s, pos);
    let i0 = if pos < end && (s[pos] == 0x2B || s[pos] == 0x2D) {
        pos + 1
    } else {
        pos
    };
    let d1 = spec_digit_run_end(s, i0);
    let had_int = d1 > i0;
    let j = if d1 < end && s[d1] == 0x2E {
        spec_digit_run_end(s, d1 + 1)
    } else {
        d1
    };
    let had_frac = d1 < end && s[d1] == 0x2E && spec_digit_run_end(s, d1 + 1) > d1 + 1;
    &&& end > pos
    &&& (had_int || had_frac)
    &&& (if j < end {
        let k0 = if j + 1 < end && (s[j + 1] == 0x2B || s[j + 1] == 0x2D) {
            j + 2
        } else {
            j + 1
        };
        &&& s[j] == 0x65
        &&& spec_digit_run_end(s, k0) > k0
        &&& spec_digit_run_end(s, k0) == end
    } else {
        true
    })
}

/// Parses a float literal: an optional sign, digits with an optional
/// fraction (or a bare fraction), and an optional exponent. The literal is
/// returned as its text; it fails when the maximal run of float characters
/// at the cursor is not of that shape, as when two dots meet.
pub fn float_v(input: &Vec<u8>, pos: usize) -> (r: Result<(FloatLit, usize), EdtdError>)
    requires
        pos <= input@.len(),
    ensures
        r is Ok <==> spec_float_lit_ok(input@, pos as int),
        match r {
            Ok((f, p)) => {
                &&& pos < p <= input@.len()
                &&& p == spec_float_run_end(input@, pos as int)
                &&& (p < input@.len() ==> !is_float_char(input@[p as int]))
                &&& forall|i: int| pos <= i < p ==> is_float_char(#[trigger] input@[i])
                &&& f.text@.len() == p - pos
                &&& forall|i: int|
                    0 <= i < f.text@.len() ==> #[trigger] f.text@[i] == input@[pos + i] as char
            },
            Err(e) => e.offset == pos && e.expected == Expected::FloatLiteral,
        },
{
    // The maximal run of float characters; the whole run must parse.
    let mut end = pos;
    while end < input.len() && at_float_char(input, end)
        invariant
            pos <= end <= input@.len(),
            forall|j: int| pos <= j < end ==> is_float_char(#[trigger] input@[j]),
        decreases input@.len() - end,
    {
        end += 1;
    }
    proof {
        lemma_float_run_end_step(input@, pos as int, end as int);
    }
    if end == pos {
        return Err(EdtdError { offset: pos, expected: Expected::FloatLiteral });
    }
    // Grammar check within the run.
    let mut i = pos;
    if i < end && (input[i] == 0x2B || input[i] == 0x2D) {
        i += 1;
    }
    let d1 = scan_digits(input, i);
    proof {
        lemma_digit_run_le(input@, i as int, end as int);
    }
    let digits_end = if d1 > end {
        end
    } else {
        d1
    };
    let had_int = digits_end > i;
    let mut j = digits_end;
    let mut had_frac = false;
    if j < end && input[j] == 0x2E {
        j += 1;
        let d2 = scan_digits(input, j);
        proof {
            lemma_digit_run_le(input@, j as int, end as int);
        }
        let frac_end = if d2 > end {
            end
        } else {
            d2
        };
        had_frac = frac_end > j;
        j = frac_end;
    }
    if !had_int && !had_frac {
        return Err(EdtdError { offset: pos, expected: Expected::FloatLiteral });
    }
    if j < end {
        if input[j] != 0x65 {
            return Err(EdtdError { offset: pos, expected: Expected::FloatLiteral });
        }
        j += 1;
        if j < end && (input[j] == 0x2B || input[j] == 0x2D) {
            j += 1;
        }
        let d3 = scan_digits(input, j);
        proof {
            lemma_digit_run_le(input@, j as int, end as int);
        }
        let exp_end = if d3 > end {
            end
        } else {
            d3
        };
        if exp_end == j {
            return Err(EdtdError { offset: pos, expected: Expected::FloatLiteral });
        }
        j = exp_end;
    }
    if j != end {
        return Err(EdtdError { offset: pos, expected: Expected::FloatLiteral });
    }
    let mut out: Vec<u8> = Vec::new();
    let mut q = pos;
    proof {
        assert(out@ =~= input@.subrange(pos as int, pos as int));
    }
    while q < end
        invariant
            pos <= q <= end <= input@.len(),
            forall|x: int| pos <= x < end ==> is_float_char(#[trigger] input@[x]),
            out@ =~= input@.subrange(pos as int, q as int),
        decreases end - q,
    {
        out.push(input[q]);
        proof {
            assert(input@.subrange(pos as int, q + 1) =~= input@.subrange(pos as int, q as int).push(
                input@[q as int],
            ));
        }
        q += 1;
    }
    let text = ascii_to_string(out);
    Ok((FloatLit { text }, end))
}

/// Whether the bytes at `pos` begin with the calendar shape of a date
/// literal: eight digits then `T`.
pub open spec fn spec_calendar_shape(input: Seq<u8>, pos: int) -> bool {
    &&& pos + 9 <= input.len()
    &&& forall|i: int| pos <= i < pos + 8 ==> is_digit(#[trigger] input[i])
    &&& input[pos + 8] == 0x54
}

/// Whether a full calendar date literal stands at `pos` and its fields are
/// a real date and time: the eight digits and `T`, then `hh:mm:ss` with the
/// hour, minute and second in range and the day legal in its month.
pub open spec fn spec_calendar_literal_ok(s: Seq<u8>, pos: int) -> bool {
    &&& spec_calendar_shape(s, pos)
    &&& pos + 17 <= s.len()
    &&& (forall|i: int| pos + 9 <= i < pos + 11 ==> is_digit(#[trigger] s[i]))
    &&& s[pos + 11] == 0x3A
    &&& (forall|i: int| pos + 12 <= i < pos + 14 ==> is_digit(#[trigger] s[i]))
    &&& s[pos + 14] == 0x3A
    &&& (forall|i: int| pos + 15 <= i < pos + 17 ==> is_digit(#[trigger] s[i]))
    &&& crate::datetime::valid_date(
        dec_value(s.subrange(pos, pos + 4)),
        dec_value(s.subrange(pos + 4, pos + 6)),
        dec_value(s.subrange(pos + 6, pos + 8)),
    )
    &&& dec_value(s.subrange(pos + 9, pos + 11)) < 24
    &&& dec_value(s.subrange(pos + 12, pos + 14)) < 60
    &&& dec_value(s.subrange(pos + 15, pos + 17)) < 60
}

/// Where a calendar date literal at `pos` ends: after the fraction when a
/// dot with at least one digit follows the seconds, after the seconds
/// otherwise.
pub open spec fn spec_calendar_literal_end(s: Seq<u8>, pos: int) -> int {
    if pos + 17 < s.len() && s[pos + 17] == 0x2E && spec_digit_run_end(s, pos + 18) > pos + 18 {
        spec_digit_run_end(s, pos + 18)
    } else {
        pos + 17
    }
}

/// Whether `dt` is the date the literal at `pos` denotes and `p` its end:
/// the calendar fields read digit by digit with the fraction as
/// nanoseconds, or an integer read as nanoseconds since the millennium.
pub open spec fn spec_date_at(s: Seq<u8>, pos: int, dt: DateTime, p: int) -> bool {
    &&& (spec_calendar_shape(s, pos) ==> {
        &&& p == spec_calendar_literal_end(s, pos)
        &&& dt.spec_year() == dec_value(s.subrange(pos, pos + 4))
        &&& dt.spec_month() == dec_value(s.subrange(pos + 4, pos + 6))
        &&& dt.spec_day() == dec_value(s.subrange(pos + 6, pos + 8))
        &&& dt.spec_hour() == dec_value(s.subrange(pos + 9, pos + 11))
        &&& dt.spec_minute() == dec_value(s.subrange(pos + 12, pos + 14))
        &&& dt.spec_second() == dec_value(s.subrange(pos + 15, pos + 17))
        &&& (p > pos + 17 ==> dt.spec_nano() == frac_nanos(s.subrange(pos + 18, p)))
        &&& (p == pos + 17 ==> dt.spec_nano() == 0)
    })
    &&& (!spec_calendar_shape(s, pos) ==> {
        &&& p == spec_int_lit_end(s, pos)
        &&& dt.spec_nanos() == spec_int_lit_value(s, pos)
    })
}

/// Whether a date literal of either form stands at `pos`.
pub open spec fn spec_date_lit_ok(s: Seq<u8>, pos: int) -> bool {
    if spec_calendar_shape(s, pos) {
        spec_calendar_literal_ok(s, pos)
    } else {
        spec_int_lit_ok(s, pos)
    }
}

/// Where the date literal at `pos` ends.
pub open spec fn spec_date_lit_end(s: Seq<u8>, pos: int) -> int {
    if spec_calendar_shape(s, pos) {
        spec_calendar_literal_end(s, pos)
    } else {
        spec_int_lit_end(s, pos)
    }
}

/// Parses a date: either a calendar literal `YYYYMMDDThh:mm:ss` with an
/// optional fraction parsed as nanoseconds, or an integer literal read as
/// nanoseconds since 2001-01-01T00:00:00.
pub fn date_v(input: &Vec<u8>, pos: usize) -> (r: Result<(DateTime, usize), EdtdError>)
    requires
        pos <= input@.len(),
    ensures
        r is Ok <==> (if spec_calendar_shape(input@, pos as int) {
            spec_calendar_literal_ok(input@, pos as int)
        } else {
            ({
                let neg = pos < input@.len() && input@[pos as int] == 0x2D;
                let start = if neg {
                    pos + 1
                } else {
                    pos as int
                };
                let e = spec_digit_run_end(input@, start);
                &&& e > start
                &&& dec_value(input@.subrange(start, e)) <= (if neg {
                    0x8000_0000_0000_0000int
                } else {
                    0x7FFF_FFFF_FFFF_FFFFint
                })
            })
        }),
        match r {
            Ok((dt, p)) => {
                &&& pos < p <= input@.len()
                &&& spec_date_at(input@, pos as int, dt, p as int)
            },
            Err(e) => e.offset == pos && e.expected == Expected::DateLiteral,
        },
{
    let calendar = input.len() - pos >= 9 && {
        let mut k: usize = 0;
        let mut all = true;
        while k < 8
            invariant
                0 <= k <= 8,
                pos + 9 <= input@.len(),
                input@.len() <= usize::MAX,
                all == (forall|i: int| pos <= i < pos + k ==> is_digit(#[trigger] input@[i])),
            decreases 8 - k,
        {
            let b = input[pos + k];
            if b < 0x30 || b > 0x39 {
                all = false;
            } else {
                proof {
                    if all {
                        assert(forall|i: int|
                            pos <= i < pos + k + 1 ==> is_digit(#[trigger] input@[i]));
                    }
                }
            }
            k += 1;
        }
        all && input[pos + 8] == 0x54
    };
    if !calendar {
        let (v, p) = match int_v(input, pos) {
            Ok(r) => r,
            Err(_) => {
                return Err(EdtdError { offset: pos, expected: Expected::DateLiteral });
            },
        };
        return Ok((DateTime::from_nanos(v), p));
    }
    let year = match fixed_digits(input, pos, 4) {
        Ok(v) => v,
        Err(_) => {
            return Err(EdtdError { offset: pos, expected: Expected::DateLiteral });
        },
    };
    let month = match fixed_digits(input, pos + 4, 2) {
        Ok(v) => v,
        Err(_) => unreached(),
    };
    let day = match fixed_digits(input, pos + 6, 2) {
        Ok(v) => v,
        Err(_) => unreached(),
    };
    let mut p = pos + 9;
    let hour = match fixed_digits(input, p, 2) {
        Ok(v) => v,
        Err(_) => {
            return Err(EdtdError { offset: pos, expected: Expected::DateLiteral });
        },
    };
    p = p + 2;
    if p >= input.len() || input[p] != 0x3A {
        return Err(EdtdError { offset: pos, expected: Expected::DateLiteral });
    }
    p = p + 1;
    let minute = match fixed_digits(input, p, 2) {
        Ok(v) => v,
        Err(_) => {
            return Err(EdtdError { offset: pos, expected: Expected::DateLiteral });
        },
    };
    p = p + 2;
    if p >= input.len() || input[p] != 0x3A {
        return Err(EdtdError { offset: pos, expected: Expected::DateLiteral });
    }
    p = p + 1;
    let second = match fixed_digits(input, p, 2) {
        Ok(v) => v,
        Err(_) => {
            return Err(EdtdError { offset: pos, expected: Expected::DateLiteral });
        },
    };
    p = p + 2;
    let mut nano: u64 = 0;
    if p < input.len() && input[p] == 0x2E {
        let fe = scan_digits(input, p + 1);
        if fe > p + 1 {
            let mut k: usize = 0;
            let fstart = p + 1;
            let flen = fe - fstart;
            let ghost frac = input@.subrange(fstart as int, fe as int);
            proof {
                assert(frac.take(0) =~= Seq::<u8>::empty());
            }
            while k < 9
                invariant
                    0 <= k <= 9,
                    1 <= flen,
                    fstart + flen == fe <= input@.len(),
                    input@.len() <= usize::MAX,
                    frac == input@.subrange(fstart as int, fe as int),
                    frac.len() == flen,
                    forall|i: int| fstart <= i < fe ==> is_digit(#[trigger] input@[i]),
                    nano <= pow10(k as nat) - 1,
                    nano == (if k <= flen {
                        dec_value(frac.take(k as int))
                    } else {
                        dec_value(frac) * pow10((k - flen) as nat)
                    }),
                decreases 9 - k,
            {
                proof {
                    reveal_with_fuel(pow10, 11);
                    if k < flen {
                        assert(frac.take(k + 1).drop_last() =~= frac.take(k as int));
                        assert(frac.take(k + 1).last() == frac[k as int]);
                        assert(frac[k as int] == input@[fstart + k]);
                    } else {
                        assert(frac.take(flen as int) =~= frac);
                        assert(dec_value(frac) * pow10((k - flen) as nat) * 10 == dec_value(frac)
                            * pow10((k + 1 - flen) as nat)) by (nonlinear_arith)
                            requires
                                k >= flen,
                                pow10((k + 1 - flen) as nat) == 10 * pow10((k - flen) as nat),
                        ;
                    }
                }
                let d: u64 = if k < flen {
                    (input[fstart + k] - 0x30) as u64
                } else {
                    0
                };
                nano = nano * 10 + d;
                k += 1;
            }
            proof {
                reveal_with_fuel(pow10, 11);
                if flen >= 9 {
                    assert(nano == frac_nanos(input@.subrange(fstart as int, fe as int)));
                } else {
                    assert(nano == frac_nanos(input@.subrange(fstart as int, fe as int)));
                }
            }
            p = fe;
        }
    }
    proof {
        reveal_with_fuel(pow10, 11);
    }
    match DateTime::new(
        year as i32,
        month as u8,
        day as u8,
        hour as u8,
        minute as u8,
        second as u8,
        nano as u32,
    ) {
        Some(dt) => Ok((dt, p)),
        None => Err(EdtdError { offset: pos, expected: Expected::DateLiteral }),
    }
}

/// Where the run of hex digits and whitespace starting at `pos` ends.
pub open spec fn spec_hex_space_end(s: Seq<u8>, pos: int) -> int
    recommends
        0 <= pos <= s.len(),
    decreases s.len() - pos,
    when 0 <= pos <= s.len()
{
    if pos == s.len() || !(is_hex_digit(s[pos]) || is_space(s[pos])) {
        pos
    } else {
        spec_hex_space_end(s, pos + 1)
    }
}

/// The hex run's end does not move when the cursor walks into the run.
proof fn lemma_hex_space_end_step(s: Seq<u8>, pos: int, i: int)
    requires
        0 <= pos <= i <= s.len(),
        forall|j: int| pos <= j < i ==> is_hex_digit(#[trigger] s[j]) || is_space(s[j]),
    ensures
        spec_hex_space_end(s, pos) == spec_hex_space_end(s, i),
    decreases i - pos,
{
    if pos < i {
        lemma_hex_space_end_step(s, pos + 1, i);
    }
}

/// The index just past the first `"` at or after `i`, or one past the
/// input's end when none follows.
pub open spec fn spec_quote_end(s: Seq<u8>, i: int) -> int
    decreases s.len() - i,
    when 0 <= i <= s.len()
{
    if i == s.len() {
        s.len() as int + 1
    } else if s[i] == 0x22 {
        i + 1
    } else {
        spec_quote_end(s, i + 1)
    }
}

/// The quote scan does not move while it walks over other bytes.
proof fn lemma_quote_end_step(s: Seq<u8>, i: int, j: int)
    requires
        0 <= i <= j <= s.len(),
        forall|k: int| i <= k < j ==> #[trigger] s[k] != 0x22,
    ensures
        spec_quote_end(s, i) == spec_quote_end(s, j),
    decreases j - i,
{
    if i < j {
        lemma_quote_end_step(s, i + 1, j);
    }
}

/// Whether a complete binary literal stands at `pos`: `0x` and a hex run
/// holding an even count of digits, or a closed quoted string.
pub open spec fn spec_binary_literal_ok(s: Seq<u8>, pos: int) -> bool {
    if pos + 2 <= s.len() && s[pos] == 0x30 && s[pos + 1] == 0x78 {
        hex_nibbles(s.subrange(pos + 2, spec_hex_space_end(s, pos + 2))).len() % 2 == 0
    } else if pos < s.len() && s[pos] == 0x22 {
        spec_quote_end(s, pos + 1) <= s.len()
    } else {
        false
    }
}

/// Where the binary literal at `pos` ends.
pub open spec fn spec_binary_literal_end(s: Seq<u8>, pos: int) -> int {
    if pos + 2 <= s.len() && s[pos] == 0x30 && s[pos + 1] == 0x78 {
        spec_hex_space_end(s, pos + 2)
    } else {
        spec_quote_end(s, pos + 1)
    }
}

/// The bytes the binary literal at `pos` denotes: its hex digits two to a
/// byte, or the quoted bytes verbatim.
pub open spec fn spec_binary_lit_bytes(s: Seq<u8>, pos: int) -> Seq<u8> {
    let p = spec_binary_literal_end(s, pos);
    if pos + 2 <= s.len() && s[pos] == 0x30 && s[pos + 1] == 0x78 {
        let ns = hex_nibbles(s.subrange(pos + 2, p));
        Seq::new(ns.len() / 2, |k: int| (ns[2 * k] * 16 + ns[2 * k + 1]) as u8)
    } else {
        s.subrange(pos + 1, p - 1)
    }
}

/// Parses a binary literal: either `0x` followed by hex digits with
/// interior whitespace, two digits to a byte, or a quoted string taken
/// verbatim.
pub fn binary_v(input: &Vec<u8>, pos: usize) -> (r: Result<(Vec<u8>, usize), EdtdError>)
    requires
        pos <= input@.len(),
    ensures
        r is Ok <==> spec_binary_literal_ok(input@, pos as int),
        match r {
            Ok((v, p)) => {
                &&& pos < p <= input@.len()
                &&& p == spec_binary_literal_end(input@, pos as int)
                &&& v@ == spec_binary_lit_bytes(input@, pos as int)
                &&& (input@[pos as int] == 0x30 && pos + 1 < input@.len() && input@[pos + 1] == 0x78
                    ==> {
                    let ns = hex_nibbles(input@.subrange(pos + 2, p as int));
                    &&& ns.len() % 2 == 0
                    &&& v@.len() == ns.len() / 2
                    &&& forall|k: int|
                        0 <= k < v@.len() ==> #[trigger] v@[k] == ns[2 * k] * 16 + ns[2 * k + 1]
                })
                &&& (input@[pos as int] == 0x22 ==> {
                    &&& input@[p - 1] == 0x22
                    &&& v@ == input@.subrange(pos + 1, p - 1)
                    &&& forall|i: int| pos + 1 <= i < p - 1 ==> #[trigger] input@[i] != 0x22
                })
            },
            Err(e) => e.offset == pos && e.expected == Expected::BinaryLiteral,
        },
{
    if input.len() - pos >= 2 && input[pos] == 0x30 && input[pos + 1] == 0x78 {
        let mut i = pos + 2;
        let mut nibs: Vec<u8> = Vec::new();
        proof {
            assert(hex_nibbles(input@.subrange(pos + 2, pos + 2)) =~= Seq::<u8>::empty());
            assert(nibs@ =~= hex_nibbles(input@.subrange(pos + 2, pos + 2)));
        }
        while i < input.len() && at_hex_or_space(input, i)
            invariant
                pos + 2 <= i <= input@.len(),
                nibs@ =~= hex_nibbles(input@.subrange(pos + 2, i as int)),
                forall|x: int| 0 <= x < nibs@.len() ==> #[trigger] nibs@[x] < 16,
                forall|j: int|
                    pos + 2 <= j < i ==> is_hex_digit(#[trigger] input@[j]) || is_space(input@[j]),
            decreases input@.len() - i,
        {
            let b = input[i];
            proof {
                assert(input@.subrange(pos + 2, i + 1).drop_last() =~= input@.subrange(
                    pos + 2,
                    i as int,
                ));
                assert(input@.subrange(pos + 2, i + 1).last() == input@[i as int]);
            }
            if (b >= 0x30 && b <= 0x39) || (b >= 0x41 && b <= 0x46) || (b >= 0x61 && b <= 0x66) {
                let d: u8 = if b >= 0x61 {
                    b - 0x61 + 10
                } else if b >= 0x41 {
                    b - 0x41 + 10
                } else {
                    b - 0x30
                };
                nibs.push(d);
            }
            i += 1;
        }
        proof {
            lemma_hex_space_end_step(input@, pos + 2, i as int);
        }
        if nibs.len() % 2 != 0 {
            return Err(EdtdError { offset: pos, expected: Expected::BinaryLiteral });
        }
        let mut out: Vec<u8> = Vec::new();
        let mut k: usize = 0;
        while k < nibs.len() / 2
            invariant
                0 <= k <= nibs@.len() / 2,
                nibs@.len() % 2 == 0,
                forall|x: int| 0 <= x < nibs@.len() ==> #[trigger] nibs@[x] < 16,
                out@.len() == k,
                forall|x: int|
                    0 <= x < k ==> #[trigger] out@[x] == nibs@[2 * x] * 16 + nibs@[2 * x + 1],
            decreases nibs@.len() / 2 - k,
        {
            let hi = nibs[2 * k];
            let lo = nibs[2 * k + 1];
            out.push(hi * 16 + lo);
            k += 1;
        }
        proof {
            assert(out@ =~= spec_binary_lit_bytes(input@, pos as int));
        }
        Ok((out, i))
    } else if pos < input.len() && input[pos] == 0x22 {
        let mut i = pos + 1;
        let mut out: Vec<u8> = Vec::new();
        proof {
            assert(out@ =~= input@.subrange(pos + 1, pos + 1));
        }
        while i < input.len() && input[i] != 0x22
            invariant
                pos + 1 <= i <= input@.len(),
                out@ =~= input@.subrange(pos + 1, i as int),
                forall|x: int| pos + 1 <= x < i ==> #[trigger] input@[x] != 0x22,
            decreases input@.len() - i,
        {
            out.push(input[i]);
            proof {
                assert(input@.subrange(pos + 1, i + 1) =~= input@.subrange(pos + 1, i as int).push(
                    input@[i as int],
                ));
            }
            i += 1;
        }
        proof {
            lemma_quote_end_step(input@, pos + 1, i as int);
        }
        if i == input.len() {
            // The closing quote never came.
            return Err(EdtdError { offset: pos, expected: Expected::BinaryLiteral });
        }
        proof {
            assert(out@ =~= spec_binary_lit_bytes(input@, pos as int));
        }
        Ok((out, i + 1))
    } else {
        Err(EdtdError { offset: pos, expected: Expected::BinaryLiteral })
    }
}

/// A type in a declaration: one of the six value kinds, a container, or a
/// reference to a declared type name.
#[derive(Debug, Clone, PartialEq, Eq)]
pub enum Type {
    /// A signed integer type.
    Int,
    /// An unsigned integer type.
    Uint,
    /// A float type.
    Float,
    /// A string type.
    Str,
    /// A date type.
    Date,
    /// A binary type.
    Binary,
    /// A container type.
    Container,
    /// A reference to a declared type, by name.
    Name(String),
}

/// A nesting-level restriction: an inclusive interval, possibly unbounded
/// on the right.
#[derive(Debug, Clone, Copy, PartialEq, Eq, Structural)]
pub enum Level {
    /// Bounded on both sides.
    Bounded {
        /// The least allowed level.
        start: u64,
        /// The greatest allowed level.
        end: u64,
    },
    /// Unbounded on the right.
    Open {
        /// The least allowed level.
        start: u64,
    },
}

/// One item of an integer range, inclusive on closed ends.
#[derive(Debug, Clone, Copy, PartialEq, Eq, Structural)]
pub enum IntRangeItem {
    /// A single value.
    Single(i64),
    /// Unbounded on the right.
    From {
        /// The least value.
        start: i64,
    },
    /// Unbounded on the left.
    To {
        /// The greatest value.
        end: i64,
    },
    /// Bounded on both sides.
    Bounded {
        /// The least value.
        start: i64,
        /// The greatest value.
        end: i64,
    },
}

/// One item of an unsigned range; there is no left-open form, since the
/// implicit lower bound is zero.
#[derive(Debug, Clone, Copy, PartialEq, Eq, Structural)]
pub enum UintRangeItem {
    /// A single value.
    Single(u64),
    /// Unbounded on the right.
    From {
        /// The least value.
        start: u64,
    },
    /// Bounded on both sides.
    Bounded {
        /// The least value.
        start: u64,
        /// The greatest value.
        end: u64,
    },
}

/// One item of a string range, over Unicode scalar values.
#[derive(Debug, Clone, Copy, PartialEq, Eq, Structural)]
pub enum StringRangeItem {
    /// A single scalar value.
    Single(u32),
    /// Unbounded on the right.
    From {
        /// The least scalar value.
        start: u32,
    },
    /// Bounded on both sides.
    Bounded {
        /// The least scalar value.
        start: u32,
        /// The greatest scalar value.
        end: u32,
    },
}

/// One item of a binary range, over byte values.
#[derive(Debug, Clone, Copy, PartialEq, Eq, Structural)]
pub enum BinaryRangeItem {
    /// A single byte value.
    Single(u8),
    /// Unbounded on the right.
    From {
        /// The least byte value.
        start: u8,
    },
    /// Bounded on both sides.
    Bounded {
        /// The least byte value.
        start: u8,
        /// The greatest byte value.
        end: u8,
    },
}

impl UintRangeItem {
    /// The same range over single bytes, when every endpoint fits one.
    pub fn to_binary_range_item(&self) -> (r: Option<BinaryRangeItem>)
        ensures
            match *self {
                UintRangeItem::Single(x) => r == (if x <= 0xFF {
                    Some(BinaryRangeItem::Single(x as u8))
                } else {
                    None::<BinaryRangeItem>
                }),
                UintRangeItem::From { start } => r == (if start <= 0xFF {
                    Some(BinaryRangeItem::From { start: start as u8 })
                } else {
                    None::<BinaryRangeItem>
                }),
                UintRangeItem::Bounded { start, end } => r == (if start <= 0xFF && end <= 0xFF {
                    Some(BinaryRangeItem::Bounded { start: start as u8, end: end as u8 })
                } else {
                    None::<BinaryRangeItem>
                }),
            },
    {
        match *self {
            UintRangeItem::Single(x) => {
                if x <= 0xFF {
                    Some(BinaryRangeItem::Single(x as u8))
                } else {
                    None
                }
            },
            UintRangeItem::From { start } => {
                if start <= 0xFF {
                    Some(BinaryRangeItem::From { start: start as u8 })
                } else {
                    None
                }
            },
            UintRangeItem::Bounded { start, end } => {
                if start <= 0xFF && end <= 0xFF {
                    Some(BinaryRangeItem::Bounded { start: start as u8, end: end as u8 })
                } else {
                    None
                }
            },
        }
    }

    /// The same range over Unicode scalar values, when every endpoint is at
    /// most `0x10FFFF`.
    pub fn to_string_range_item(&self) -> (r: Option<StringRangeItem>)
        ensures
            match *self {
                UintRangeItem::Single(x) => r == (if x <= 0x10_FFFF {
                    Some(StringRangeItem::Single(x as u32))
                } else {
                    None::<StringRangeItem>
                }),
                UintRangeItem::From { start } => r == (if start <= 0x10_FFFF {
                    Some(StringRangeItem::From { start: start as u32 })
                } else {
                    None::<StringRangeItem>
                }),
                UintRangeItem::Bounded { start, end } => r == (if start <= 0x10_FFFF && end
                    <= 0x10_FFFF {
                    Some(StringRangeItem::Bounded { start: start as u32, end: end as u32 })
                } else {
                    None::<StringRangeItem>
                }),
            },
    {
        match *self {
            UintRangeItem::Single(x) => {
                if x <= 0x10_FFFF {
                    Some(StringRangeItem::Single(x as u32))
                } else {
                    None
                }
            },
            UintRangeItem::From { start } => {
                if start <= 0x10_FFFF {
                    Some(StringRangeItem::From { start: start as u32 })
                } else {
                    None
                }
            },
            UintRangeItem::Bounded { start, end } => {
                if start <= 0x10_FFFF && end <= 0x10_FFFF {
                    Some(StringRangeItem::Bounded { start: start as u32, end: end as u32 })
                } else {
                    None
                }
            },
        }
    }
}

/// One item of a float range; each endpoint carries an inclusive flag.
#[derive(Debug, Clone, PartialEq, Eq)]
pub enum FloatRangeItem {
    /// Unbounded on the left.
    To {
        /// The greatest value.
        end: FloatLit,
        /// Whether the end is included.
        include_end: bool,
    },
    /// Unbounded on the right.
    From {
        /// The least value.
        start: FloatLit,
        /// Whether the start is included.
        include_start: bool,
    },
    /// Bounded on both sides.
    Bounded {
        /// The least value.
        start: FloatLit,
        /// Whether the start is included.
        include_start: bool,
        /// The greatest value.
        end: FloatLit,
        /// Whether the end is included.
        include_end: bool,
    },
}

/// One item of a date range.
#[derive(Debug, Clone, Copy, PartialEq, Eq, Structural)]
pub enum DateRangeItem {
    /// Unbounded on the right.
    From {
        /// The earliest instant.
        start: DateTime,
    },
    /// Unbounded on the left.
    To {
        /// The latest instant.
        end: DateTime,
    },
    /// Bounded on both sides.
    Bounded {
        /// The earliest instant.
        start: DateTime,
        /// The latest instant.
        end: DateTime,
    },
}

/// A property clause of a declaration.
#[derive(Debug, Clone, PartialEq)]
pub enum Property {
    /// The containers that may hold the declared type.
    Parent(Vec<String>),
    /// A nesting-level restriction.
    Level(Level),
    /// A cardinality.
    Cardinality(Cardinality),
    /// Allowed encoded sizes.
    Size(Vec<UintRangeItem>),
    /// Whether child order is significant.
    Ordered(bool),
    /// A default signed integer.
    IntDefault(i64),
    /// A signed integer range.
    IntRange(Vec<IntRangeItem>),
    /// A default unsigned integer.
    UintDefault(u64),
    /// An unsigned integer range.
    UintRange(Vec<UintRangeItem>),
    /// A default float.
    FloatDefault(FloatLit),
    /// A float range.
    FloatRange(Vec<FloatRangeItem>),
    /// A default date.
    DateDefault(DateTime),
    /// A date range.
    DateRange(Vec<DateRangeItem>),
    /// A default string.
    StringDefault(String),
    /// A string range.
    StringRange(Vec<StringRangeItem>),
    /// A default binary value.
    BinaryDefault(Vec<u8>),
    /// A binary range.
    BinaryRange(Vec<BinaryRangeItem>),
}

/// One statement of a `declare header` block.
#[derive(Debug, Clone, PartialEq)]
pub enum HeaderStatement {
    /// A signed integer value.
    Int {
        /// The statement's name.
        name: String,
        /// Its value.
        value: i64,
    },
    /// An unsigned integer value.
    Uint {
        /// The statement's name.
        name: String,
        /// Its value.
        value: u64,
    },
    /// A float value.
    Float {
        /// The statement's name.
        name: String,
        /// Its value, as literal text.
        value: FloatLit,
    },
    /// A date value.
    Date {
        /// The statement's name.
        name: String,
        /// Its value.
        value: DateTime,
    },
    /// A string value.
    Str {
        /// The statement's name.
        name: String,
        /// Its value.
        value: String,
    },
    /// A binary value.
    Binary {
        /// The statement's name.
        name: String,
        /// Its value.
        value: Vec<u8>,
    },
    /// A reference to another name.
    Named {
        /// The statement's name.
        name: String,
        /// The name it refers to.
        value: String,
    },
}

/// A new-type declaration: a value type refined by an optional default and
/// an optional range.
#[derive(Debug, Clone, PartialEq)]
pub enum NewType {
    /// A signed integer type.
    Int {
        /// The declared name.
        name: String,
        /// The default value, if declared.
        default: Option<i64>,
        /// The allowed range, if declared.
        range: Option<Vec<IntRangeItem>>,
    },
    /// An unsigned integer type.
    Uint {
        /// The declared name.
        name: String,
        /// The default value, if declared.
        default: Option<u64>,
        /// The allowed range, if declared.
        range: Option<Vec<UintRangeItem>>,
    },
    /// A float type.
    Float {
        /// The declared name.
        name: String,
        /// The default value, if declared.
        default: Option<FloatLit>,
        /// The allowed range, if declared.
        range: Option<Vec<FloatRangeItem>>,
    },
    /// A date type.
    Date {
        /// The declared name.
        name: String,
        /// The default value, if declared.
        default: Option<DateTime>,
        /// The allowed range, if declared.
        range: Option<Vec<DateRangeItem>>,
    },
    /// A string type.
    Str {
        /// The declared name.
        name: String,
        /// The default value, if declared.
        default: Option<String>,
        /// The allowed range, if declared.
        range: Option<Vec<StringRangeItem>>,
    },
    /// A binary type.
    Binary {
        /// The declared name.
        name: String,
        /// The default value, if declared.
        default: Option<Vec<u8>>,
        /// The allowed range, if declared.
        range: Option<Vec<BinaryRangeItem>>,
    },
}

impl NewType {
    /// Whether the property is a default or range of this type's kind.
    pub open spec fn accepts(self, val: Property) -> bool {
        match self {
            NewType::Int { .. } => val matches Property::IntDefault(_) || val matches
                Property::IntRange(_),
            NewType::Uint { .. } => val matches Property::UintDefault(_) || val matches
                Property::UintRange(_),
            NewType::Float { .. } => val matches Property::FloatDefault(_) || val matches
                Property::FloatRange(_),
            NewType::Date { .. } => val matches Property::DateDefault(_) || val matches
                Property::DateRange(_),
            NewType::Str { .. } => val matches Property::StringDefault(_) || val matches
                Property::StringRange(_),
            NewType::Binary { .. } => val matches Property::BinaryDefault(_) || val matches
                Property::BinaryRange(_),
        }
    }

    /// Applies a default or range property of the matching kind, replacing
    /// any earlier one; the name and the other field are kept.
    pub fn update(&mut self, val: Property)
        requires
            old(self).accepts(val),
        ensures
            match (*old(self), val) {
                (NewType::Int { name, default, range }, Property::IntDefault(x)) => *final (self)
                    == (NewType::Int { name, default: Some(x), range }),
                (NewType::Int { name, default, range }, Property::IntRange(x)) => *final (self)
                    == (NewType::Int { name, default, range: Some(x) }),
                (NewType::Uint { name, default, range }, Property::UintDefault(x)) => *final (self)
                    == (NewType::Uint { name, default: Some(x), range }),
                (NewType::Uint { name, default, range }, Property::UintRange(x)) => *final (self)
                    == (NewType::Uint { name, default, range: Some(x) }),
                (NewType::Float { name, default, range }, Property::FloatDefault(x)) => *final (
                self) == (NewType::Float { name, default: Some(x), range }),
                (NewType::Float { name, default, range }, Property::FloatRange(x)) => *final (self)
                    == (NewType::Float { name, default, range: Some(x) }),
                (NewType::Date { name, default, range }, Property::DateDefault(x)) => *final (self)
                    == (NewType::Date { name, default: Some(x), range }),
                (NewType::Date { name, default, range }, Property::DateRange(x)) => *final (self)
                    == (NewType::Date { name, default, range: Some(x) }),
                (NewType::Str { name, default, range }, Property::StringDefault(x)) => *final (
                self) == (NewType::Str { name, default: Some(x), range }),
                (NewType::Str { name, default, range }, Property::StringRange(x)) => *final (self)
                    == (NewType::Str { name, default, range: Some(x) }),
                (NewType::Binary { name, default, range }, Property::BinaryDefault(x)) => *final (
                self) == (NewType::Binary { name, default: Some(x), range }),
                (NewType::Binary { name, default, range }, Property::BinaryRange(x)) => *final (
                self) == (NewType::Binary { name, default, range: Some(x) }),
                _ => false,
            },
    {
        match val {
            Property::IntDefault(x) => {
                match self {
                    NewType::Int { default, .. } => *default = Some(x),
                    _ => (),
                }
            },
            Property::IntRange(x) => {
                match self {
                    NewType::Int { range, .. } => *range = Some(x),
                    _ => (),
                }
            },
            Property::UintDefault(x) => {
                match self {
                    NewType::Uint { default, .. } => *default = Some(x),
                    _ => (),
                }
            },
            Property::UintRange(x) => {
                match self {
                    NewType::Uint { range, .. } => *range = Some(x),
                    _ => (),
                }
            },
            Property::FloatDefault(x) => {
                match self {
                    NewType::Float { default, .. } => *default = Some(x),
                    _ => (),
                }
            },
            Property::FloatRange(x) => {
                match self {
                    NewType::Float { range, .. } => *range = Some(x),
                    _ => (),
                }
            },
            Property::DateDefault(x) => {
                match self {
                    NewType::Date { default, .. } => *default = Some(x),
                    _ => (),
                }
            },
            Property::DateRange(x) => {
                match self {
                    NewType::Date { range, .. } => *range = Some(x),
                    _ => (),
                }
            },
            Property::StringDefault(x) => {
                match self {
                    NewType::Str { default, .. } => *default = Some(x),
                    _ => (),
                }
            },
            Property::StringRange(x) => {
                match self {
                    NewType::Str { range, .. } => *range = Some(x),
                    _ => (),
                }
            },
            Property::BinaryDefault(x) => {
                match self {
                    NewType::Binary { default, .. } => *default = Some(x),
                    _ => (),
                }
            },
            Property::BinaryRange(x) => {
                match self {
                    NewType::Binary { range, .. } => *range = Some(x),
                    _ => (),
                }
            },
            _ => (),
        }
    }
}

/// Parses a type: one of the seven keywords, or a declared type name. A
/// keyword is matched as a prefix, as the grammar's alternation does.
pub fn type_(input: &Vec<u8>, pos: usize) -> (r: Result<(Type, usize), EdtdError>)
    requires
        pos <= input@.len(),
    ensures
        r is Ok <==> (spec_token_at(input@, pos as int, "int"@) || spec_token_at(
            input@,
            pos as int,
            "uint"@,
        ) || spec_token_at(input@, pos as int, "float"@) || spec_token_at(
            input@,
            pos as int,
            "string"@,
        ) || spec_token_at(input@, pos as int, "date"@) || spec_token_at(
            input@,
            pos as int,
            "binary"@,
        ) || spec_token_at(input@, pos as int, "container"@) || (pos < input@.len()
            && is_name_start(input@[pos as int]))),
        match r {
            Ok((t, p)) => {
                let s = input@;
                &&& pos <= p <= s.len()
                &&& (if spec_token_at(s, pos as int, "int"@) {
                    t == Type::Int && p == pos + 3
                } else if spec_token_at(s, pos as int, "uint"@) {
                    t == Type::Uint && p == pos + 4
                } else if spec_token_at(s, pos as int, "float"@) {
                    t == Type::Float && p == pos + 5
                } else if spec_token_at(s, pos as int, "string"@) {
                    t == Type::Str && p == pos + 6
                } else if spec_token_at(s, pos as int, "date"@) {
                    t == Type::Date && p == pos + 4
                } else if spec_token_at(s, pos as int, "binary"@) {
                    t == Type::Binary && p == pos + 6
                } else if spec_token_at(s, pos as int, "container"@) {
                    t == Type::Container && p == pos + 9
                } else {
                    &&& t matches Type::Name(nm)
                    &&& p == spec_name_end(s, pos as int)
                    &&& nm@.len() == p - pos
                    &&& (forall|i: int| 0 <= i < nm@.len() ==> #[trigger] nm@[i] == s[pos + i] as char)
                })
            },
            Err(e) => e.offset == pos && e.expected == Expected::TypeName,
        },
{
    proof {
        reveal_strlit("int");
        reveal_strlit("uint");
        reveal_strlit("float");
        reveal_strlit("string");
        reveal_strlit("date");
        reveal_strlit("binary");
        reveal_strlit("container");
    }
    match tag(input, pos, "int") {
        Ok(p) => {
            return Ok((Type::Int, p));
        },
        Err(_) => {},
    }
    match tag(input, pos, "uint") {
        Ok(p) => {
            return Ok((Type::Uint, p));
        },
        Err(_) => {},
    }
    match tag(input, pos, "float") {
        Ok(p) => {
            return Ok((Type::Float, p));
        },
        Err(_) => {},
    }
    match tag(input, pos, "string") {
        Ok(p) => {
            return Ok((Type::Str, p));
        },
        Err(_) => {},
    }
    match tag(input, pos, "date") {
        Ok(p) => {
            return Ok((Type::Date, p));
        },
        Err(_) => {},
    }
    match tag(input, pos, "binary") {
        Ok(p) => {
            return Ok((Type::Binary, p));
        },
        Err(_) => {},
    }
    match tag(input, pos, "container") {
        Ok(p) => {
            return Ok((Type::Container, p));
        },
        Err(_) => {},
    }
    match name(input, pos) {
        Ok((nm, p)) => Ok((Type::Name(nm), p)),
        Err(_) => Err(EdtdError { offset: pos, expected: Expected::TypeName }),
    }
}

/// Parses a comma-separated, non-empty list of names. The list ends before
/// the first separator-and-comma not followed by a name.
pub fn parents(input: &Vec<u8>, pos: usize) -> (r: Result<(Vec<String>, usize), EdtdError>)
    requires
        pos <= input@.len(),
    ensures
        r is Ok <==> pos < input@.len() && is_name_start(input@[pos as int]),
        match r {
            Ok((v, p)) => {
                &&& pos < p <= input@.len() && v@.len() >= 1
                &&& v@[0]@.len() == spec_name_end(input@, pos as int) - pos
                &&& (forall|i: int|
                    0 <= i < v@[0]@.len() ==> #[trigger] v@[0]@[i] == input@[pos + i] as char)
            },
            Err(e) => e.offset == pos && e.expected == Expected::Name,
        },
{
    let (first, mut q) = match name(input, pos) {
        Ok(r) => r,
        Err(e) => {
            return Err(e);
        },
    };
    let mut out: Vec<String> = Vec::new();
    out.push(first);
    loop
        invariant
            pos < q <= input@.len(),
            out@.len() >= 1,
            out@[0]@.len() == spec_name_end(input@, pos as int) - pos,
            forall|i: int|
                0 <= i < out@[0]@.len() ==> #[trigger] out@[0]@[i] == input@[pos + i] as char,
        decreases input@.len() - q,
    {
        let q2 = sep(input, q);
        let q3 = match expect_byte(input, q2, 0x2C) {
            Ok(p) => p,
            Err(_) => {
                break ;
            },
        };
        let q4 = sep(input, q3);
        match name(input, q4) {
            Ok((nm, p)) => {
                out.push(nm);
                q = p;
            },
            Err(_) => {
                break ;
            },
        }
    }
    Ok((out, q))
}

/// Parses a `parent: name, … ;` clause.
pub fn parent(input: &Vec<u8>, pos: usize) -> (r: Result<(Vec<String>, usize), EdtdError>)
    requires
        pos <= input@.len(),
    ensures
        match r {
            Ok((v, p)) => {
                let s = input@;
                let v0 = spec_clause_value_pos(s, pos as int, "parent"@);
                &&& pos < p <= s.len() && v@.len() >= 1 && s[p - 1] == 0x3B
                &&& spec_clause_open_ok(s, pos as int, "parent"@)
                &&& v0 < s.len() && is_name_start(s[v0])
                &&& v@[0]@.len() == spec_name_end(s, v0) - v0
                &&& (forall|i: int|
                    0 <= i < v@[0]@.len() ==> #[trigger] v@[0]@[i] == s[v0 + i] as char)
            },
            Err(_) => true,
        },
{
    proof {
        reveal_strlit("parent");
    }
    let p1 = match tag(input, pos, "parent") {
        Ok(p) => p,
        Err(e) => {
            return Err(e);
        },
    };
    let p2 = sep(input, p1);
    let p3 = match expect_byte(input, p2, 0x3A) {
        Ok(p) => p,
        Err(e) => {
            return Err(e);
        },
    };
    let p4 = sep(input, p3);
    let (v, p5) = match parents(input, p4) {
        Ok(r) => r,
        Err(e) => {
            return Err(e);
        },
    };
    let p6 = sep(input, p5);
    let p7 = match expect_byte(input, p6, 0x3B) {
        Ok(p) => p,
        Err(e) => {
            return Err(e);
        },
    };
    Ok((v, p7))
}

/// Parses a `level: a..b ;` or `level: a.. ;` clause.
pub fn level(input: &Vec<u8>, pos: usize) -> (r: Result<(Level, usize), EdtdError>)
    requires
        pos <= input@.len(),
    ensures
        r is Ok <==> ({
            let s = input@;
            let v0 = spec_clause_value_pos(s, pos as int, "level"@);
            let de = spec_uint_lit_end(s, v0);
            &&& spec_clause_open_ok(s, pos as int, "level"@)
            &&& spec_uint_lit_ok(s, v0)
            &&& de + 2 <= s.len() && s[de] == 0x2E && s[de + 1] == 0x2E
            &&& (if spec_uint_lit_ok(s, de + 2) {
                spec_semi_after(s, spec_uint_lit_end(s, de + 2))
            } else {
                spec_semi_after(s, de + 2)
            })
        }),
        match r {
            Ok((lvl, p)) => {
                let s = input@;
                let v0 = spec_clause_value_pos(s, pos as int, "level"@);
                let de = spec_uint_lit_end(s, v0);
                &&& pos < p <= s.len() && s[p - 1] == 0x3B
                &&& (if spec_uint_lit_ok(s, de + 2) {
                    &&& lvl matches Level::Bounded { start, end }
                    &&& start == spec_uint_lit_value(s, v0)
                    &&& end == spec_uint_lit_value(s, de + 2)
                    &&& p == spec_sep_end(s, spec_uint_lit_end(s, de + 2)) + 1
                } else {
                    &&& lvl matches Level::Open { start }
                    &&& start == spec_uint_lit_value(s, v0)
                    &&& p == spec_sep_end(s, de + 2) + 1
                })
            },
            Err(_) => true,
        },
{
    proof {
        reveal_strlit("level");
    }
    let p1 = match tag(input, pos, "level") {
        Ok(p) => p,
        Err(e) => {
            return Err(e);
        },
    };
    let p2 = sep(input, p1);
    let p3 = match expect_byte(input, p2, 0x3A) {
        Ok(p) => p,
        Err(e) => {
            return Err(e);
        },
    };
    let p4 = sep(input, p3);
    let (start, p5) = match uint_v(input, p4) {
        Ok(r) => r,
        Err(e) => {
            return Err(e);
        },
    };
    let p6 = match expect_two(input, p5, 0x2E, 0x2E) {
        Ok(p) => p,
        Err(e) => {
            return Err(e);
        },
    };
    let (lvl, p7) = match uint_v(input, p6) {
        Ok((end, p)) => (Level::Bounded { start, end }, p),
        Err(_) => (Level::Open { start }, p6),
    };
    let p8 = sep(input, p7);
    let p9 = match expect_byte(input, p8, 0x3B) {
        Ok(p) => p,
        Err(e) => {
            return Err(e);
        },
    };
    Ok((lvl, p9))
}

/// Parses a `card: …;` clause: `*`, `?`, `1` or `+`.
pub fn cardinality(input: &Vec<u8>, pos: usize) -> (r: Result<(Cardinality, usize), EdtdError>)
    requires
        pos <= input@.len(),
    ensures
        r is Ok <==> ({
            let v0 = spec_clause_value_pos(input@, pos as int, "card"@);
            &&& spec_clause_open_ok(input@, pos as int, "card"@)
            &&& v0 < input@.len()
            &&& (input@[v0] == 0x2A || input@[v0] == 0x3F || input@[v0] == 0x31 || input@[v0]
                == 0x2B)
            &&& spec_semi_after(input@, v0 + 1)
        }),
        match r {
            Ok((card, p)) => {
                let v0 = spec_clause_value_pos(input@, pos as int, "card"@);
                &&& pos < p <= input@.len() && input@[p - 1] == 0x3B
                &&& p == spec_sep_end(input@, v0 + 1) + 1
                &&& card == (if input@[v0] == 0x2A {
                    Cardinality::ZeroOrMany
                } else if input@[v0] == 0x3F {
                    Cardinality::ZeroOrOne
                } else if input@[v0] == 0x31 {
                    Cardinality::ExactlyOne
                } else {
                    Cardinality::OneOrMany
                })
            },
            Err(_) => true,
        },
{
    proof {
        reveal_strlit("card");
    }
    let p1 = match tag(input, pos, "card") {
        Ok(p) => p,
        Err(e) => {
            return Err(e);
        },
    };
    let p2 = sep(input, p1);
    let p3 = match expect_byte(input, p2, 0x3A) {
        Ok(p) => p,
        Err(e) => {
            return Err(e);
        },
    };
    let p4 = sep(input, p3);
    if p4 >= input.len() {
        return Err(EdtdError { offset: p4, expected: Expected::PropertyClause });
    }
    let card = match input[p4] {
        0x2A => Cardinality::ZeroOrMany,
        0x3F => Cardinality::ZeroOrOne,
        0x31 => Cardinality::ExactlyOne,
        0x2B => Cardinality::OneOrMany,
        _ => {
            return Err(EdtdError { offset: p4, expected: Expected::PropertyClause });
        },
    };
    let p5 = sep(input, p4 + 1);
    let p6 = match expect_byte(input, p5, 0x3B) {
        Ok(p) => p,
        Err(e) => {
            return Err(e);
        },
    };
    Ok((card, p6))
}

/// Whether the opening `key sep : sep` of a property clause stands at `pos`.
pub open spec fn spec_clause_open_ok(s: Seq<u8>, pos: int, key: Seq<char>) -> bool {
    let a = spec_sep_end(s, pos + key.len());
    &&& spec_token_at(s, pos, key)
    &&& a < s.len() && s[a] == 0x3A
}

/// Where the value after the opening of a property clause starts.
pub open spec fn spec_clause_value_pos(s: Seq<u8>, pos: int, key: Seq<char>) -> int {
    spec_sep_end(s, spec_sep_end(s, pos + key.len()) + 1)
}

/// Whether a clause-closing `sep ;` stands at `q`.
pub open spec fn spec_semi_after(s: Seq<u8>, q: int) -> bool {
    spec_sep_end(s, q) < s.len() && s[spec_sep_end(s, q)] == 0x3B
}

/// Parses the `key sep : sep` opening of a property clause.
fn clause_open(input: &Vec<u8>, pos: usize, key: &str) -> (r: Result<usize, EdtdError>)
    requires
        pos <= input@.len(),
        vstd::string::is_ascii(key),
    ensures
        r is Ok <==> spec_clause_open_ok(input@, pos as int, key@),
        match r {
            Ok(p) => pos <= p <= input@.len() && p == spec_clause_value_pos(
                input@,
                pos as int,
                key@,
            ),
            Err(_) => true,
        },
{
    let p1 = match tag(input, pos, key) {
        Ok(p) => p,
        Err(e) => {
            return Err(e);
        },
    };
    let p2 = sep(input, p1);
    let p3 = match expect_byte(input, p2, 0x3A) {
        Ok(p) => p,
        Err(e) => {
            return Err(e);
        },
    };
    Ok(sep(input, p3))
}

/// Parses the `sep ;` close of a property clause.
fn clause_close(input: &Vec<u8>, pos: usize) -> (r: Result<usize, EdtdError>)
    requires
        pos <= input@.len(),
    ensures
        r is Ok <==> (spec_sep_end(input@, pos as int) < input@.len() && input@[spec_sep_end(
            input@,
            pos as int,
        )] == 0x3B),
        match r {
            Ok(p) => pos < p <= input@.len() && input@[p - 1] == 0x3B && p == spec_sep_end(
                input@,
                pos as int,
            ) + 1,
            Err(_) => true,
        },
{
    let p1 = sep(input, pos);
    match expect_byte(input, p1, 0x3B) {
        Ok(p) => Ok(p),
        Err(e) => Err(e),
    }
}

/// Whether `..` stands at `pos`.
pub open spec fn spec_dotdot_at(s: Seq<u8>, pos: int) -> bool {
    pos + 2 <= s.len() && s[pos] == 0x2E && s[pos + 1] == 0x2E
}

/// Whether one item of an integer range stands at `pos`.
pub open spec fn spec_int_item_ok(s: Seq<u8>, pos: int) -> bool {
    if spec_dotdot_at(s, pos) {
        spec_int_lit_ok(s, pos + 2)
    } else {
        spec_int_lit_ok(s, pos)
    }
}

/// Whether `it` is the integer range item at `pos` and `p` its end: a
/// left-open `..b`, a single value, a right-open `a..`, or `a..b`.
pub open spec fn spec_int_item_at(s: Seq<u8>, pos: int, it: IntRangeItem, p: int) -> bool {
    if spec_dotdot_at(s, pos) {
        &&& it matches IntRangeItem::To { end } && end == spec_int_lit_value(s, pos + 2)
        &&& p == spec_int_lit_end(s, pos + 2)
    } else {
        let de = spec_int_lit_end(s, pos);
        if spec_dotdot_at(s, de) {
            if spec_int_lit_ok(s, de + 2) {
                &&& it matches IntRangeItem::Bounded { start, end } && start == spec_int_lit_value(
                    s,
                    pos,
                ) && end == spec_int_lit_value(s, de + 2)
                &&& p == spec_int_lit_end(s, de + 2)
            } else {
                &&& it matches IntRangeItem::From { start } && start == spec_int_lit_value(s, pos)
                &&& p == de + 2
            }
        } else {
            &&& it matches IntRangeItem::Single(x) && x == spec_int_lit_value(s, pos)
            &&& p == de
        }
    }
}

/// Where the integer range item at `pos` ends.
pub open spec fn spec_int_item_end(s: Seq<u8>, pos: int) -> int {
    if spec_dotdot_at(s, pos) {
        spec_int_lit_end(s, pos + 2)
    } else {
        let de = spec_int_lit_end(s, pos);
        if spec_dotdot_at(s, de) {
            if spec_int_lit_ok(s, de + 2) {
                spec_int_lit_end(s, de + 2)
            } else {
                de + 2
            }
        } else {
            de
        }
    }
}

/// Parses one item of an integer range.
fn int_range_item(input: &Vec<u8>, pos: usize) -> (r: Result<(IntRangeItem, usize), EdtdError>)
    requires
        pos <= input@.len(),
    ensures
        r is Ok <==> spec_int_item_ok(input@, pos as int),
        match r {
            Ok((it, p)) => pos < p <= input@.len() && spec_int_item_at(
                input@,
                pos as int,
                it,
                p as int,
            ),
            Err(_) => true,
        },
{
    match expect_two(input, pos, 0x2E, 0x2E) {
        Ok(p1) => {
            match int_v(input, p1) {
                Ok((end, p2)) => {
                    return Ok((IntRangeItem::To { end }, p2));
                },
                Err(e) => {
                    return Err(e);
                },
            }
        },
        Err(_) => {},
    }
    let (start, p1) = match int_v(input, pos) {
        Ok(r) => r,
        Err(e) => {
            return Err(e);
        },
    };
    match expect_two(input, p1, 0x2E, 0x2E) {
        Ok(p2) => {
            match int_v(input, p2) {
                Ok((end, p3)) => Ok((IntRangeItem::Bounded { start, end }, p3)),
                Err(_) => Ok((IntRangeItem::From { start }, p2)),
            }
        },
        Err(_) => Ok((IntRangeItem::Single(start), p1)),
    }
}

/// Whether `it` is the unsigned range item at `pos` and `p` its end: a
/// single value, a right-open `a..`, or `a..b`.
pub open spec fn spec_uint_item_at(s: Seq<u8>, pos: int, it: UintRangeItem, p: int) -> bool {
    let de = spec_uint_lit_end(s, pos);
    if spec_dotdot_at(s, de) {
        if spec_uint_lit_ok(s, de + 2) {
            &&& it matches UintRangeItem::Bounded { start, end } && start == spec_uint_lit_value(
                s,
                pos,
            ) && end == spec_uint_lit_value(s, de + 2)
            &&& p == spec_uint_lit_end(s, de + 2)
        } else {
            &&& it matches UintRangeItem::From { start } && start == spec_uint_lit_value(s, pos)
            &&& p == de + 2
        }
    } else {
        &&& it matches UintRangeItem::Single(x) && x == spec_uint_lit_value(s, pos)
        &&& p == de
    }
}

/// Where the unsigned range item at `pos` ends.
pub open spec fn spec_uint_item_end(s: Seq<u8>, pos: int) -> int {
    let de = spec_uint_lit_end(s, pos);
    if spec_dotdot_at(s, de) {
        if spec_uint_lit_ok(s, de + 2) {
            spec_uint_lit_end(s, de + 2)
        } else {
            de + 2
        }
    } else {
        de
    }
}

/// Parses one item of an unsigned range.
fn uint_range_item(input: &Vec<u8>, pos: usize) -> (r: Result<(UintRangeItem, usize), EdtdError>)
    requires
        pos <= input@.len(),
    ensures
        r is Ok <==> spec_uint_lit_ok(input@, pos as int),
        match r {
            Ok((it, p)) => pos < p <= input@.len() && spec_uint_item_at(
                input@,
                pos as int,
                it,
                p as int,
            ),
            Err(_) => true,
        },
{
    let (start, p1) = match uint_v(input, pos) {
        Ok(r) => r,
        Err(e) => {
            return Err(e);
        },
    };
    match expect_two(input, p1, 0x2E, 0x2E) {
        Ok(p2) => {
            match uint_v(input, p2) {
                Ok((end, p3)) => Ok((UintRangeItem::Bounded { start, end }, p3)),
                Err(_) => Ok((UintRangeItem::From { start }, p2)),
            }
        },
        Err(_) => Ok((UintRangeItem::Single(start), p1)),
    }
}

/// Parses one item of a float range.
fn float_range_item(input: &Vec<u8>, pos: usize) -> (r: Result<(FloatRangeItem, usize), EdtdError>)
    requires
        pos <= input@.len(),
    ensures
        match r {
            Ok((_, p)) => pos < p <= input@.len(),
            Err(_) => true,
        },
{
    match expect_byte(input, pos, 0x3C) {
        Ok(p1) => {
            let (include_end, p2) = match expect_byte(input, p1, 0x3D) {
                Ok(p) => (true, p),
                Err(_) => (false, p1),
            };
            return match float_v(input, p2) {
                Ok((end, p3)) => Ok((FloatRangeItem::To { end, include_end }, p3)),
                Err(e) => Err(e),
            };
        },
        Err(_) => {},
    }
    match expect_byte(input, pos, 0x3E) {
        Ok(p1) => {
            let (include_start, p2) = match expect_byte(input, p1, 0x3D) {
                Ok(p) => (true, p),
                Err(_) => (false, p1),
            };
            return match float_v(input, p2) {
                Ok((start, p3)) => Ok((FloatRangeItem::From { start, include_start }, p3)),
                Err(e) => Err(e),
            };
        },
        Err(_) => {},
    }
    let (start, p1) = match float_v(input, pos) {
        Ok(r) => r,
        Err(e) => {
            return Err(e);
        },
    };
    let p2 = match expect_byte(input, p1, 0x3C) {
        Ok(p) => p,
        Err(e) => {
            return Err(e);
        },
    };
    let (include_start, p3) = match expect_byte(input, p2, 0x3D) {
        Ok(p) => (true, p),
        Err(_) => (false, p2),
    };
    let p4 = match expect_two(input, p3, 0x2E, 0x2E) {
        Ok(p) => p,
        Err(e) => {
            return Err(e);
        },
    };
    let p5 = match expect_byte(input, p4, 0x3C) {
        Ok(p) => p,
        Err(e) => {
            return Err(e);
        },
    };
    let (include_end, p6) = match expect_byte(input, p5, 0x3D) {
        Ok(p) => (true, p),
        Err(_) => (false, p5),
    };
    match float_v(input, p6) {
        Ok((end, p7)) => Ok(
            (FloatRangeItem::Bounded { start, include_start, end, include_end }, p7),
        ),
        Err(e) => Err(e),
    }
}

/// Parses one item of a date range.
fn date_range_item(input: &Vec<u8>, pos: usize) -> (r: Result<(DateRangeItem, usize), EdtdError>)
    requires
        pos <= input@.len(),
    ensures
        match r {
            Ok((_, p)) => pos < p <= input@.len(),
            Err(_) => true,
        },
{
    match expect_two(input, pos, 0x2E, 0x2E) {
        Ok(p1) => {
            return match date_v(input, p1) {
                Ok((end, p2)) => Ok((DateRangeItem::To { end }, p2)),
                Err(e) => Err(e),
            };
        },
        Err(_) => {},
    }
    let (start, p1) = match date_v(input, pos) {
        Ok(r) => r,
        Err(e) => {
            return Err(e);
        },
    };
    let p2 = match expect_two(input, p1, 0x2E, 0x2E) {
        Ok(p) => p,
        Err(e) => {
            return Err(e);
        },
    };
    match date_v(input, p2) {
        Ok((end, p3)) => Ok((DateRangeItem::Bounded { start, end }, p3)),
        Err(_) => Ok((DateRangeItem::From { start }, p2)),
    }
}

/// Parses a `def: <int> ;` property.
pub fn int_def(input: &Vec<u8>, pos: usize) -> (r: Result<(Property, usize), EdtdError>)
    requires
        pos <= input@.len(),
    ensures
        r is Ok <==> ({
            let v0 = spec_clause_value_pos(input@, pos as int, "def"@);
            &&& spec_clause_open_ok(input@, pos as int, "def"@)
            &&& spec_int_lit_ok(input@, v0)
            &&& spec_semi_after(input@, spec_int_lit_end(input@, v0))
        }),
        match r {
            Ok((prop, p)) => {
                let v0 = spec_clause_value_pos(input@, pos as int, "def"@);
                &&& pos < p <= input@.len() && input@[p - 1] == 0x3B
                &&& p == spec_sep_end(input@, spec_int_lit_end(input@, v0)) + 1
                &&& prop matches Property::IntDefault(v)
                &&& v == spec_int_lit_value(input@, v0)
            },
            Err(_) => true,
        },
{
    proof {
        reveal_strlit("def");
    }
    let p1 = match clause_open(input, pos, "def") {
        Ok(p) => p,
        Err(e) => {
            return Err(e);
        },
    };
    let (v, p2) = match int_v(input, p1) {
        Ok(r) => r,
        Err(e) => {
            return Err(e);
        },
    };
    match clause_close(input, p2) {
        Ok(p3) => Ok((Property::IntDefault(v), p3)),
        Err(e) => Err(e),
    }
}

/// Parses a `def: <uint> ;` property.
pub fn uint_def(input: &Vec<u8>, pos: usize) -> (r: Result<(Property, usize), EdtdError>)
    requires
        pos <= input@.len(),
    ensures
        r is Ok <==> ({
            let v0 = spec_clause_value_pos(input@, pos as int, "def"@);
            &&& spec_clause_open_ok(input@, pos as int, "def"@)
            &&& spec_uint_lit_ok(input@, v0)
            &&& spec_semi_after(input@, spec_uint_lit_end(input@, v0))
        }),
        match r {
            Ok((prop, p)) => {
                let v0 = spec_clause_value_pos(input@, pos as int, "def"@);
                &&& pos < p <= input@.len() && input@[p - 1] == 0x3B
                &&& p == spec_sep_end(input@, spec_uint_lit_end(input@, v0)) + 1
                &&& prop matches Property::UintDefault(v)
                &&& v == spec_uint_lit_value(input@, v0)
            },
            Err(_) => true,
        },
{
    proof {
        reveal_strlit("def");
    }
    let p1 = match clause_open(input, pos, "def") {
        Ok(p) => p,
        Err(e) => {
            return Err(e);
        },
    };
    let (v, p2) = match uint_v(input, p1) {
        Ok(r) => r,
        Err(e) => {
            return Err(e);
        },
    };
    match clause_close(input, p2) {
        Ok(p3) => Ok((Property::UintDefault(v), p3)),
        Err(e) => Err(e),
    }
}

/// Parses a `def: <float> ;` property.
pub fn float_def(input: &Vec<u8>, pos: usize) -> (r: Result<(Property, usize), EdtdError>)
    requires
        pos <= input@.len(),
    ensures
        r is Ok <==> ({
            let v0 = spec_clause_value_pos(input@, pos as int, "def"@);
            &&& spec_clause_open_ok(input@, pos as int, "def"@)
            &&& spec_float_lit_ok(input@, v0)
            &&& spec_semi_after(input@, spec_float_run_end(input@, v0))
        }),
        match r {
            Ok((prop, p)) => {
                let v0 = spec_clause_value_pos(input@, pos as int, "def"@);
                let fe = spec_float_run_end(input@, v0);
                &&& pos < p <= input@.len() && input@[p - 1] == 0x3B
                &&& p == spec_sep_end(input@, fe) + 1
                &&& prop matches Property::FloatDefault(f)
                &&& f.text@.len() == fe - v0
                &&& (forall|i: int|
                    0 <= i < f.text@.len() ==> #[trigger] f.text@[i] == input@[v0 + i] as char)
            },
            Err(_) => true,
        },
{
    proof {
        reveal_strlit("def");
    }
    let p1 = match clause_open(input, pos, "def") {
        Ok(p) => p,
        Err(e) => {
            return Err(e);
        },
    };
    let (v, p2) = match float_v(input, p1) {
        Ok(r) => r,
        Err(e) => {
            return Err(e);
        },
    };
    match clause_close(input, p2) {
        Ok(p3) => Ok((Property::FloatDefault(v), p3)),
        Err(e) => Err(e),
    }
}

/// Parses a `def: <date> ;` property.
pub fn date_def(input: &Vec<u8>, pos: usize) -> (r: Result<(Property, usize), EdtdError>)
    requires
        pos <= input@.len(),
    ensures
        r is Ok <==> ({
            let v0 = spec_clause_value_pos(input@, pos as int, "def"@);
            &&& spec_clause_open_ok(input@, pos as int, "def"@)
            &&& spec_date_lit_ok(input@, v0)
            &&& spec_semi_after(input@, spec_date_lit_end(input@, v0))
        }),
        match r {
            Ok((prop, p)) => {
                let v0 = spec_clause_value_pos(input@, pos as int, "def"@);
                &&& pos < p <= input@.len() && input@[p - 1] == 0x3B
                &&& p == spec_sep_end(input@, spec_date_lit_end(input@, v0)) + 1
                &&& prop matches Property::DateDefault(dt)
                &&& spec_date_at(input@, v0, dt, spec_date_lit_end(input@, v0))
            },
            Err(_) => true,
        },
{
    proof {
        reveal_strlit("def");
    }
    let p1 = match clause_open(input, pos, "def") {
        Ok(p) => p,
        Err(e) => {
            return Err(e);
        },
    };
    let (v, p2) = match date_v(input, p1) {
        Ok(r) => r,
        Err(e) => {
            return Err(e);
        },
    };
    match clause_close(input, p2) {
        Ok(p3) => Ok((Property::DateDefault(v), p3)),
        Err(e) => Err(e),
    }
}

/// Parses a `def: <string> ;` property: a binary literal that must hold
/// valid UTF-8.
pub fn string_def(input: &Vec<u8>, pos: usize) -> (r: Result<(Property, usize), EdtdError>)
    requires
        pos <= input@.len(),
    ensures
        r is Ok <==> ({
            let v0 = spec_clause_value_pos(input@, pos as int, "def"@);
            &&& spec_clause_open_ok(input@, pos as int, "def"@)
            &&& spec_binary_literal_ok(input@, v0)
            &&& vstd::utf8::valid_utf8(spec_binary_lit_bytes(input@, v0))
            &&& spec_semi_after(input@, spec_binary_literal_end(input@, v0))
        }),
        match r {
            Ok((prop, p)) => {
                let v0 = spec_clause_value_pos(input@, pos as int, "def"@);
                &&& pos < p <= input@.len() && input@[p - 1] == 0x3B
                &&& p == spec_sep_end(input@, spec_binary_literal_end(input@, v0)) + 1
                &&& prop matches Property::StringDefault(st)
                &&& st@ == vstd::utf8::decode_utf8(spec_binary_lit_bytes(input@, v0))
            },
            Err(_) => true,
        },
{
    proof {
        reveal_strlit("def");
    }
    let p1 = match clause_open(input, pos, "def") {
        Ok(p) => p,
        Err(e) => {
            return Err(e);
        },
    };
    let (v, p2) = match binary_v(input, p1) {
        Ok(r) => r,
        Err(e) => {
            return Err(e);
        },
    };
    let st = match crate::value::string_from_utf8(v) {
        Some(st) => st,
        None => {
            return Err(EdtdError { offset: p1, expected: Expected::StringLiteral });
        },
    };
    match clause_close(input, p2) {
        Ok(p3) => Ok((Property::StringDefault(st), p3)),
        Err(e) => Err(e),
    }
}

/// Parses a `def: <binary> ;` property.
pub fn binary_def(input: &Vec<u8>, pos: usize) -> (r: Result<(Property, usize), EdtdError>)
    requires
        pos <= input@.len(),
    ensures
        r is Ok <==> ({
            let v0 = spec_clause_value_pos(input@, pos as int, "def"@);
            &&& spec_clause_open_ok(input@, pos as int, "def"@)
            &&& spec_binary_literal_ok(input@, v0)
            &&& spec_semi_after(input@, spec_binary_literal_end(input@, v0))
        }),
        match r {
            Ok((prop, p)) => {
                let v0 = spec_clause_value_pos(input@, pos as int, "def"@);
                &&& pos < p <= input@.len() && input@[p - 1] == 0x3B
                &&& p == spec_sep_end(input@, spec_binary_literal_end(input@, v0)) + 1
                &&& prop matches Property::BinaryDefault(v)
                &&& v@ == spec_binary_lit_bytes(input@, v0)
            },
            Err(_) => true,
        },
{
    proof {
        reveal_strlit("def");
    }
    let p1 = match clause_open(input, pos, "def") {
        Ok(p) => p,
        Err(e) => {
            return Err(e);
        },
    };
    let (v, p2) = match binary_v(input, p1) {
        Ok(r) => r,
        Err(e) => {
            return Err(e);
        },
    };
    match clause_close(input, p2) {
        Ok(p3) => Ok((Property::BinaryDefault(v), p3)),
        Err(e) => Err(e),
    }
}

/// Parses a `range: item, … ;` property over signed integers.
pub fn int_range(input: &Vec<u8>, pos: usize) -> (r: Result<(Property, usize), EdtdError>)
    requires
        pos <= input@.len(),
    ensures
        match r {
            Ok((prop, p)) => {
                let v0 = spec_clause_value_pos(input@, pos as int, "range"@);
                &&& pos < p <= input@.len() && input@[p - 1] == 0x3B
                &&& spec_clause_open_ok(input@, pos as int, "range"@)
                &&& prop matches Property::IntRange(items)
                &&& items@.len() >= 1
                &&& spec_int_item_at(input@, v0, items@[0], spec_int_item_end(input@, v0))
            },
            Err(_) => true,
        },
{
    proof {
        reveal_strlit("range");
    }
    let p1 = match clause_open(input, pos, "range") {
        Ok(p) => p,
        Err(e) => {
            return Err(e);
        },
    };
    let (first, mut q) = match int_range_item(input, p1) {
        Ok(r) => r,
        Err(e) => {
            return Err(e);
        },
    };
    let mut items: Vec<IntRangeItem> = Vec::new();
    items.push(first);
    loop
        invariant
            pos < q <= input@.len(),
            items@.len() >= 1,
            spec_int_item_at(
                input@,
                spec_clause_value_pos(input@, pos as int, "range"@),
                items@[0],
                spec_int_item_end(input@, spec_clause_value_pos(input@, pos as int, "range"@)),
            ),
            spec_clause_open_ok(input@, pos as int, "range"@),
        decreases input@.len() - q,
    {
        let q2 = sep(input, q);
        let q3 = match expect_byte(input, q2, 0x2C) {
            Ok(p) => p,
            Err(_) => {
                break ;
            },
        };
        let q4 = sep(input, q3);
        match int_range_item(input, q4) {
            Ok((it, p)) => {
                items.push(it);
                q = p;
            },
            Err(_) => {
                break ;
            },
        }
    }
    match clause_close(input, q) {
        Ok(p3) => Ok((Property::IntRange(items), p3)),
        Err(e) => Err(e),
    }
}

/// Parses a `range: item, … ;` property over unsigned integers.
pub fn uint_range(input: &Vec<u8>, pos: usize) -> (r: Result<(Property, usize), EdtdError>)
    requires
        pos <= input@.len(),
    ensures
        match r {
            Ok((prop, p)) => {
                let v0 = spec_clause_value_pos(input@, pos as int, "range"@);
                &&& pos < p <= input@.len() && input@[p - 1] == 0x3B
                &&& spec_clause_open_ok(input@, pos as int, "range"@)
                &&& prop matches Property::UintRange(items)
                &&& items@.len() >= 1
                &&& spec_uint_item_at(input@, v0, items@[0], spec_uint_item_end(input@, v0))
            },
            Err(_) => true,
        },
{
    proof {
        reveal_strlit("range");
    }
    let p1 = match clause_open(input, pos, "range") {
        Ok(p) => p,
        Err(e) => {
            return Err(e);
        },
    };
    let (first, mut q) = match uint_range_item(input, p1) {
        Ok(r) => r,
        Err(e) => {
            return Err(e);
        },
    };
    let mut items: Vec<UintRangeItem> = Vec::new();
    items.push(first);
    loop
        invariant
            pos < q <= input@.len(),
            items@.len() >= 1,
            spec_uint_item_at(
                input@,
                spec_clause_value_pos(input@, pos as int, "range"@),
                items@[0],
                spec_uint_item_end(input@, spec_clause_value_pos(input@, pos as int, "range"@)),
            ),
            spec_clause_open_ok(input@, pos as int, "range"@),
        decreases input@.len() - q,
    {
        let q2 = sep(input, q);
        let q3 = match expect_byte(input, q2, 0x2C) {
            Ok(p) => p,
            Err(_) => {
                break ;
            },
        };
        let q4 = sep(input, q3);
        match uint_range_item(input, q4) {
            Ok((it, p)) => {
                items.push(it);
                q = p;
            },
            Err(_) => {
                break ;
            },
        }
    }
    match clause_close(input, q) {
        Ok(p3) => Ok((Property::UintRange(items), p3)),
        Err(e) => Err(e),
    }
}

/// Parses a `range: item, … ;` property over floats.
pub fn float_range(input: &Vec<u8>, pos: usize) -> (r: Result<(Property, usize), EdtdError>)
    requires
        pos <= input@.len(),
    ensures
        match r {
            Ok((prop, p)) => {
                &&& pos < p <= input@.len() && input@[p - 1] == 0x3B
                &&& spec_clause_open_ok(input@, pos as int, "range"@)
                &&& prop matches Property::FloatRange(items)
                &&& items@.len() >= 1
            },
            Err(_) => true,
        },
{
    proof {
        reveal_strlit("range");
    }
    let p1 = match clause_open(input, pos, "range") {
        Ok(p) => p,
        Err(e) => {
            return Err(e);
        },
    };
    let (first, mut q) = match float_range_item(input, p1) {
        Ok(r) => r,
        Err(e) => {
            return Err(e);
        },
    };
    let mut items: Vec<FloatRangeItem> = Vec::new();
    items.push(first);
    loop
        invariant
            pos < q <= input@.len(),
            items@.len() >= 1,
            spec_clause_open_ok(input@, pos as int, "range"@),
        decreases input@.len() - q,
    {
        let q2 = sep(input, q);
        let q3 = match expect_byte(input, q2, 0x2C) {
            Ok(p) => p,
            Err(_) => {
                break ;
            },
        };
        let q4 = sep(input, q3);
        match float_range_item(input, q4) {
            Ok((it, p)) => {
                items.push(it);
                q = p;
            },
            Err(_) => {
                break ;
            },
        }
    }
    match clause_close(input, q) {
        Ok(p3) => Ok((Property::FloatRange(items), p3)),
        Err(e) => Err(e),
    }
}

/// Parses a `range: item, … ;` property over dates.
pub fn date_range(input: &Vec<u8>, pos: usize) -> (r: Result<(Property, usize), EdtdError>)
    requires
        pos <= input@.len(),
    ensures
        match r {
            Ok((prop, p)) => {
                &&& pos < p <= input@.len() && input@[p - 1] == 0x3B
                &&& spec_clause_open_ok(input@, pos as int, "range"@)
                &&& prop matches Property::DateRange(items)
                &&& items@.len() >= 1
            },
            Err(_) => true,
        },
{
    proof {
        reveal_strlit("range");
    }
    let p1 = match clause_open(input, pos, "range") {
        Ok(p) => p,
        Err(e) => {
            return Err(e);
        },
    };
    let (first, mut q) = match date_range_item(input, p1) {
        Ok(r) => r,
        Err(e) => {
            return Err(e);
        },
    };
    let mut items: Vec<DateRangeItem> = Vec::new();
    items.push(first);
    loop
        invariant
            pos < q <= input@.len(),
            items@.len() >= 1,
            spec_clause_open_ok(input@, pos as int, "range"@),
        decreases input@.len() - q,
    {
        let q2 = sep(input, q);
        let q3 = match expect_byte(input, q2, 0x2C) {
            Ok(p) => p,
            Err(_) => {
                break ;
            },
        };
        let q4 = sep(input, q3);
        match date_range_item(input, q4) {
            Ok((it, p)) => {
                items.push(it);
                q = p;
            },
            Err(_) => {
                break ;
            },
        }
    }
    match clause_close(input, q) {
        Ok(p3) => Ok((Property::DateRange(items), p3)),
        Err(e) => Err(e),
    }
}

/// Parses a string range: an unsigned range whose items are reread as
/// Unicode scalar ranges; an endpoint above `0x10FFFF` fails.
pub fn string_range(input: &Vec<u8>, pos: usize) -> (r: Result<(Property, usize), EdtdError>)
    requires
        pos <= input@.len(),
    ensures
        match r {
            Ok((prop, p)) => {
                &&& pos < p <= input@.len() && input@[p - 1] == 0x3B
                &&& prop matches Property::StringRange(items)
                &&& items@.len() >= 1
            },
            Err(_) => true,
        },
{
    let (prop, p) = match uint_range(input, pos) {
        Ok(r) => r,
        Err(e) => {
            return Err(e);
        },
    };
    let items = match prop {
        Property::UintRange(items) => items,
        _ => {
            return Err(EdtdError { offset: pos, expected: Expected::RangeItem });
        },
    };
    let mut out: Vec<StringRangeItem> = Vec::new();
    let mut i: usize = 0;
    while i < items.len()
        invariant
            0 <= i <= items@.len(),
            out@.len() == i,
        decreases items@.len() - i,
    {
        match items[i].to_string_range_item() {
            Some(it) => out.push(it),
            None => {
                return Err(EdtdError { offset: pos, expected: Expected::RangeItem });
            },
        }
        i += 1;
    }
    Ok((Property::StringRange(out), p))
}

/// Parses a binary range: an unsigned range whose items are reread as byte
/// ranges; an endpoint above `0xFF` fails.
pub fn binary_range(input: &Vec<u8>, pos: usize) -> (r: Result<(Property, usize), EdtdError>)
    requires
        pos <= input@.len(),
    ensures
        match r {
            Ok((prop, p)) => {
                &&& pos < p <= input@.len() && input@[p - 1] == 0x3B
                &&& prop matches Property::BinaryRange(items)
                &&& items@.len() >= 1
            },
            Err(_) => true,
        },
{
    let (prop, p) = match uint_range(input, pos) {
        Ok(r) => r,
        Err(e) => {
            return Err(e);
        },
    };
    let items = match prop {
        Property::UintRange(items) => items,
        _ => {
            return Err(EdtdError { offset: pos, expected: Expected::RangeItem });
        },
    };
    let mut out: Vec<BinaryRangeItem> = Vec::new();
    let mut i: usize = 0;
    while i < items.len()
        invariant
            0 <= i <= items@.len(),
            out@.len() == i,
        decreases items@.len() - i,
    {
        match items[i].to_binary_range_item() {
            Some(it) => out.push(it),
            None => {
                return Err(EdtdError { offset: pos, expected: Expected::RangeItem });
            },
        }
        i += 1;
    }
    Ok((Property::BinaryRange(out), p))
}

/// Parses a `size: item, … ;` property: the allowed encoded sizes as
/// unsigned ranges.
pub fn size(input: &Vec<u8>, pos: usize) -> (r: Result<(Property, usize), EdtdError>)
    requires
        pos <= input@.len(),
    ensures
        match r {
            Ok((prop, p)) => {
                let v0 = spec_clause_value_pos(input@, pos as int, "size"@);
                &&& pos < p <= input@.len() && input@[p - 1] == 0x3B
                &&& spec_clause_open_ok(input@, pos as int, "size"@)
                &&& prop matches Property::Size(items)
                &&& items@.len() >= 1
                &&& spec_uint_item_at(input@, v0, items@[0], spec_uint_item_end(input@, v0))
            },
            Err(_) => true,
        },
{
    proof {
        reveal_strlit("size");
    }
    let p1 = match clause_open(input, pos, "size") {
        Ok(p) => p,
        Err(e) => {
            return Err(e);
        },
    };
    let (first, mut q) = match uint_range_item(input, p1) {
        Ok(r) => r,
        Err(e) => {
            return Err(e);
        },
    };
    let mut items: Vec<UintRangeItem> = Vec::new();
    items.push(first);
    loop
        invariant
            pos < q <= input@.len(),
            items@.len() >= 1,
            spec_uint_item_at(
                input@,
                spec_clause_value_pos(input@, pos as int, "size"@),
                items@[0],
                spec_uint_item_end(input@, spec_clause_value_pos(input@, pos as int, "size"@)),
            ),
            spec_clause_open_ok(input@, pos as int, "size"@),
        decreases input@.len() - q,
    {
        let q2 = sep(input, q);
        let q3 = match expect_byte(input, q2, 0x2C) {
            Ok(p) => p,
            Err(_) => {
                break ;
            },
        };
        let q4 = sep(input, q3);
        match uint_range_item(input, q4) {
            Ok((it, p)) => {
                items.push(it);
                q = p;
            },
            Err(_) => {
                break ;
            },
        }
    }
    match clause_close(input, q) {
        Ok(p3) => Ok((Property::Size(items), p3)),
        Err(e) => Err(e),
    }
}

/// Parses an `ordered: yes|no|1|0 ;` property.
pub fn ordered(input: &Vec<u8>, pos: usize) -> (r: Result<(Property, usize), EdtdError>)
    requires
        pos <= input@.len(),
    ensures
        r is Ok <==> ({
            let s = input@;
            let v0 = spec_clause_value_pos(s, pos as int, "ordered"@);
            &&& spec_clause_open_ok(s, pos as int, "ordered"@)
            &&& (if spec_token_at(s, v0, "yes"@) {
                spec_semi_after(s, v0 + 3)
            } else if v0 < s.len() && s[v0] == 0x31 {
                spec_semi_after(s, v0 + 1)
            } else if spec_token_at(s, v0, "no"@) {
                spec_semi_after(s, v0 + 2)
            } else if v0 < s.len() && s[v0] == 0x30 {
                spec_semi_after(s, v0 + 1)
            } else {
                false
            })
        }),
        match r {
            Ok((prop, p)) => {
                let s = input@;
                let v0 = spec_clause_value_pos(s, pos as int, "ordered"@);
                &&& pos < p <= s.len() && s[p - 1] == 0x3B
                &&& prop matches Property::Ordered(b)
                &&& (if spec_token_at(s, v0, "yes"@) {
                    b == true && p == spec_sep_end(s, v0 + 3) + 1
                } else if v0 < s.len() && s[v0] == 0x31 {
                    b == true && p == spec_sep_end(s, v0 + 1) + 1
                } else if spec_token_at(s, v0, "no"@) {
                    b == false && p == spec_sep_end(s, v0 + 2) + 1
                } else {
                    b == false && p == spec_sep_end(s, v0 + 1) + 1
                })
            },
            Err(_) => true,
        },
{
    proof {
        reveal_strlit("ordered");
    }
    let p1 = match clause_open(input, pos, "ordered") {
        Ok(p) => p,
        Err(e) => {
            return Err(e);
        },
    };
    proof {
        reveal_strlit("yes");
        reveal_strlit("no");
    }
    let (value, p2) = match tag(input, p1, "yes") {
        Ok(p) => (true, p),
        Err(_) => match expect_byte(input, p1, 0x31) {
            Ok(p) => (true, p),
            Err(_) => match tag(input, p1, "no") {
                Ok(p) => (false, p),
                Err(_) => match expect_byte(input, p1, 0x30) {
                    Ok(p) => (false, p),
                    Err(e) => {
                        return Err(e);
                    },
                },
            },
        },
    };
    match clause_close(input, p2) {
        Ok(p3) => Ok((Property::Ordered(value), p3)),
        Err(e) => Err(e),
    }
}

/// The name a header statement was declared under.
pub open spec fn spec_statement_name(st: HeaderStatement) -> Seq<char> {
    match st {
        HeaderStatement::Int { name, .. } => name@,
        HeaderStatement::Uint { name, .. } => name@,
        HeaderStatement::Float { name, .. } => name@,
        HeaderStatement::Date { name, .. } => name@,
        HeaderStatement::Str { name, .. } => name@,
        HeaderStatement::Binary { name, .. } => name@,
        HeaderStatement::Named { name, .. } => name@,
    }
}

/// Whether a header statement's opening stands at `pos`: a name, then
/// `:=` after optional separators.
pub open spec fn spec_stmt_head_ok(s: Seq<u8>, pos: int) -> bool {
    let a = spec_sep_end(s, spec_name_end(s, pos));
    &&& pos < s.len() && is_name_start(s[pos])
    &&& a + 2 <= s.len() && s[a] == 0x3A && s[a + 1] == 0x3D
}

/// Where the value of a header statement at `pos` starts: after the name,
/// the `:=` and the separators around it.
pub open spec fn spec_stmt_value_pos(s: Seq<u8>, pos: int) -> int {
    spec_sep_end(s, spec_sep_end(s, spec_name_end(s, pos)) + 2)
}

/// Parses one header statement, `name := value ;`. Every statement ends
/// with a semicolon. A bare positive integer reads as unsigned before
/// signed, and a quoted value reads as a string when it is valid UTF-8 and
/// as binary otherwise; a date literal is tried before either.
pub fn header_statement(input: &Vec<u8>, pos: usize) -> (r: Result<
    (HeaderStatement, usize),
    EdtdError,
>)
    requires
        pos <= input@.len(),
    ensures
        match r {
            Ok((st, p)) => {
                &&& pos < p <= input@.len() && input@[p - 1] == 0x3B
                &&& pos < input@.len() && is_name_start(input@[pos as int])
                &&& spec_statement_name(st).len() == spec_name_end(input@, pos as int) - pos
                &&& forall|i: int|
                    0 <= i < spec_statement_name(st).len() ==> #[trigger] spec_statement_name(
                        st,
                    )[i] == input@[pos + i] as char
            },
            Err(_) => true,
        },
        ({
            let s = input@;
            let v0 = spec_stmt_value_pos(s, pos as int);
            let de = spec_digit_run_end(s, v0);
            let c = spec_sep_end(s, de);
            (spec_stmt_head_ok(s, pos as int) && de > v0 && dec_value(s.subrange(v0, de))
                <= u64::MAX && c < s.len() && s[c] == 0x3B) ==> ({
                &&& r matches Ok((st, p))
                &&& p == c + 1
                &&& st matches HeaderStatement::Uint { value, .. }
                &&& value == dec_value(s.subrange(v0, de))
            })
        }),
        ({
            let s = input@;
            let v0 = spec_stmt_value_pos(s, pos as int);
            let de = spec_digit_run_end(s, v0 + 1);
            let c = spec_sep_end(s, de);
            (spec_stmt_head_ok(s, pos as int) && v0 < s.len() && s[v0] == 0x2D && de > v0 + 1
                && dec_value(s.subrange(v0 + 1, de)) <= 0x8000_0000_0000_0000 && c < s.len() && s[c]
                == 0x3B) ==> ({
                &&& r matches Ok((st, p))
                &&& p == c + 1
                &&& st matches HeaderStatement::Int { value, .. }
                &&& value == -dec_value(s.subrange(v0 + 1, de))
            })
        }),
{
    let (nm, p1) = match name(input, pos) {
        Ok(r) => r,
        Err(e) => {
            return Err(e);
        },
    };
    let p2 = sep(input, p1);
    let p3 = match expect_two(input, p2, 0x3A, 0x3D) {
        Ok(p) => p,
        Err(e) => {
            return Err(e);
        },
    };
    let p4 = sep(input, p3);
    match uint_v(input, p4) {
        Ok((v, q)) => {
            match clause_close(input, q) {
                Ok(p) => {
                    return Ok((HeaderStatement::Uint { name: nm, value: v }, p));
                },
                Err(_) => {},
            }
        },
        Err(_) => {},
    }
    match int_v(input, p4) {
        Ok((v, q)) => {
            match clause_close(input, q) {
                Ok(p) => {
                    return Ok((HeaderStatement::Int { name: nm, value: v }, p));
                },
                Err(_) => {},
            }
        },
        Err(_) => {},
    }
    match float_v(input, p4) {
        Ok((v, q)) => {
            match clause_close(input, q) {
                Ok(p) => {
                    return Ok((HeaderStatement::Float { name: nm, value: v }, p));
                },
                Err(_) => {},
            }
        },
        Err(_) => {},
    }
    match date_v(input, p4) {
        Ok((v, q)) => {
            match clause_close(input, q) {
                Ok(p) => {
                    return Ok((HeaderStatement::Date { name: nm, value: v }, p));
                },
                Err(_) => {},
            }
        },
        Err(_) => {},
    }
    match binary_v(input, p4) {
        Ok((v, q)) => {
            match clause_close(input, q) {
                Ok(p) => {
                    match crate::value::string_from_utf8(v) {
                        Some(st) => {
                            return Ok((HeaderStatement::Str { name: nm, value: st }, p));
                        },
                        None => {},
                    }
                },
                Err(_) => {},
            }
        },
        Err(_) => {},
    }
    match binary_v(input, p4) {
        Ok((v, q)) => {
            match clause_close(input, q) {
                Ok(p) => {
                    return Ok((HeaderStatement::Binary { name: nm, value: v }, p));
                },
                Err(_) => {},
            }
        },
        Err(_) => {},
    }
    match name(input, p4) {
        Ok((v, q)) => {
            match clause_close(input, q) {
                Ok(p) => {
                    return Ok((HeaderStatement::Named { name: nm, value: v }, p));
                },
                Err(_) => {},
            }
        },
        Err(_) => {},
    }
    Err(EdtdError { offset: p4, expected: Expected::Statement })
}

/// Parses a `declare header {` opening followed by one or more header
/// statements; the statements run to the first thing that is not one.
pub fn hblock(input: &Vec<u8>, pos: usize) -> (r: Result<(Vec<HeaderStatement>, usize), EdtdError>)
    requires
        pos <= input@.len(),
    ensures
        match r {
            Ok((v, p)) => {
                let s = input@;
                let p2 = spec_sep_end(s, pos + 7);
                let p4 = spec_sep_end(s, p2 + 6);
                let p6 = spec_sep_end(s, p4 + 1);
                &&& pos < p <= s.len() && v@.len() >= 1
                &&& spec_token_at(s, pos as int, "declare"@)
                &&& spec_token_at(s, p2, "header"@)
                &&& p4 < s.len() && s[p4] == 0x7B
                &&& p6 < s.len() && is_name_start(s[p6])
                &&& spec_statement_name(v@[0]).len() == spec_name_end(s, p6) - p6
                &&& (forall|i: int|
                    0 <= i < spec_statement_name(v@[0]).len() ==> #[trigger] spec_statement_name(
                        v@[0],
                    )[i] == s[p6 + i] as char)
            },
            Err(_) => true,
        },
{
    proof {
        reveal_strlit("declare");
        reveal_strlit("header");
    }
    let p1 = match tag(input, pos, "declare") {
        Ok(p) => p,
        Err(e) => {
            return Err(e);
        },
    };
    let p2 = sep(input, p1);
    let p3 = match tag(input, p2, "header") {
        Ok(p) => p,
        Err(e) => {
            return Err(e);
        },
    };
    let p4 = sep(input, p3);
    let p5 = match expect_byte(input, p4, 0x7B) {
        Ok(p) => p,
        Err(e) => {
            return Err(e);
        },
    };
    let p6 = sep(input, p5);
    let (first, mut q) = match header_statement(input, p6) {
        Ok(r) => r,
        Err(e) => {
            return Err(e);
        },
    };
    let mut out: Vec<HeaderStatement> = Vec::new();
    out.push(first);
    loop
        invariant
            pos < q <= input@.len(),
            out@.len() >= 1,
            out@[0] == first,
        decreases input@.len() - q,
    {
        let q2 = sep(input, q);
        match header_statement(input, q2) {
            Ok((st, p)) => {
                out.push(st);
                q = p;
            },
            Err(_) => {
                break ;
            },
        }
    }
    Ok((out, q))
}

/// The name a new-type was declared under.
pub open spec fn spec_newtype_name(nt: NewType) -> Seq<char> {
    match nt {
        NewType::Int { name, .. } => name@,
        NewType::Uint { name, .. } => name@,
        NewType::Float { name, .. } => name@,
        NewType::Date { name, .. } => name@,
        NewType::Str { name, .. } => name@,
        NewType::Binary { name, .. } => name@,
    }
}

/// Whether two new-types are of the same value kind.
pub open spec fn spec_newtype_same_kind(a: NewType, b: NewType) -> bool {
    match (a, b) {
        (NewType::Int { .. }, NewType::Int { .. }) => true,
        (NewType::Uint { .. }, NewType::Uint { .. }) => true,
        (NewType::Float { .. }, NewType::Float { .. }) => true,
        (NewType::Date { .. }, NewType::Date { .. }) => true,
        (NewType::Str { .. }, NewType::Str { .. }) => true,
        (NewType::Binary { .. }, NewType::Binary { .. }) => true,
        _ => false,
    }
}

/// Parses the optional `[ property … ]` body of a value-type declaration,
/// folding each property into the new type. The body must hold at least one
/// property; each must be a `def:` or `range:` clause of the declared kind.
fn dtype_properties(input: &Vec<u8>, pos: usize, base: NewType) -> (r: Result<
    (NewType, usize),
    EdtdError,
>)
    requires
        pos <= input@.len(),
    ensures
        match r {
            Ok((nt, p)) => {
                &&& pos <= p <= input@.len()
                &&& spec_newtype_name(nt) == spec_newtype_name(base)
                &&& spec_newtype_same_kind(nt, base)
            },
            Err(_) => true,
        },
{
    let p1 = match expect_byte(input, pos, 0x5B) {
        Ok(p) => p,
        Err(e) => {
            return Err(e);
        },
    };
    let mut q = sep(input, p1);
    let mut nt = base;
    let mut got_one = false;
    loop
        invariant
            pos <= q <= input@.len(),
            spec_newtype_name(nt) == spec_newtype_name(base),
            spec_newtype_same_kind(nt, base),
        decreases input@.len() - q,
    {
        let attempt: Result<(Property, usize), EdtdError> = match &nt {
            NewType::Int { .. } => match int_range(input, q) {
                Ok(r) => Ok(r),
                Err(_) => int_def(input, q),
            },
            NewType::Uint { .. } => match uint_range(input, q) {
                Ok(r) => Ok(r),
                Err(_) => uint_def(input, q),
            },
            NewType::Float { .. } => match float_range(input, q) {
                Ok(r) => Ok(r),
                Err(_) => float_def(input, q),
            },
            NewType::Date { .. } => match date_range(input, q) {
                Ok(r) => Ok(r),
                Err(_) => date_def(input, q),
            },
            NewType::Str { .. } => match string_range(input, q) {
                Ok(r) => Ok(r),
                Err(_) => string_def(input, q),
            },
            NewType::Binary { .. } => match binary_range(input, q) {
                Ok(r) => Ok(r),
                Err(_) => binary_def(input, q),
            },
        };
        match attempt {
            Ok((prop, p)) => {
                proof {
                    assert(nt.accepts(prop));
                }
                nt.update(prop);
                got_one = true;
                q = sep(input, p);
            },
            Err(e) => {
                if !got_one {
                    return Err(e);
                }
                break ;
            },
        }
    }
    let p2 = match expect_byte(input, q, 0x5D) {
        Ok(p) => p,
        Err(e) => {
            return Err(e);
        },
    };
    let p3 = sep(input, p2);
    match expect_byte(input, p3, 0x3B) {
        Ok(p) => Ok((nt, p)),
        Err(_) => Ok((nt, p3)),
    }
}

/// Parses a declaration `name := type [ properties ];` for the six value
/// types; the property body is optional, and the trailing semicolon after
/// it too. Container declarations and references to declared type names
/// take no property body here and are reported as unsupported.
pub fn dtype(input: &Vec<u8>, pos: usize) -> (r: Result<(NewType, usize), EdtdError>)
    requires
        pos <= input@.len(),
    ensures
        match r {
            Ok((nt, p)) => {
                let s = input@;
                let t0 = spec_stmt_value_pos(s, pos as int);
                &&& pos < p <= s.len()
                &&& spec_stmt_head_ok(s, pos as int)
                &&& spec_newtype_name(nt).len() == spec_name_end(s, pos as int) - pos
                &&& (forall|i: int|
                    0 <= i < spec_newtype_name(nt).len() ==> #[trigger] spec_newtype_name(nt)[i]
                        == s[pos + i] as char)
                &&& (if spec_token_at(s, t0, "int"@) {
                    nt matches NewType::Int { .. }
                } else if spec_token_at(s, t0, "uint"@) {
                    nt matches NewType::Uint { .. }
                } else if spec_token_at(s, t0, "float"@) {
                    nt matches NewType::Float { .. }
                } else if spec_token_at(s, t0, "string"@) {
                    nt matches NewType::Str { .. }
                } else if spec_token_at(s, t0, "date"@) {
                    nt matches NewType::Date { .. }
                } else if spec_token_at(s, t0, "binary"@) {
                    nt matches NewType::Binary { .. }
                } else {
                    false
                })
            },
            Err(_) => true,
        },
{
    let (nm, p1) = match name(input, pos) {
        Ok(r) => r,
        Err(e) => {
            return Err(e);
        },
    };
    let p2 = sep(input, p1);
    let p3 = match expect_two(input, p2, 0x3A, 0x3D) {
        Ok(p) => p,
        Err(e) => {
            return Err(e);
        },
    };
    let p4 = sep(input, p3);
    let (ty, p5) = match type_(input, p4) {
        Ok(r) => r,
        Err(e) => {
            return Err(e);
        },
    };
    let p6 = sep(input, p5);
    let base: NewType = match ty {
        Type::Int => NewType::Int { name: nm, default: None, range: None },
        Type::Uint => NewType::Uint { name: nm, default: None, range: None },
        Type::Float => NewType::Float { name: nm, default: None, range: None },
        Type::Date => NewType::Date { name: nm, default: None, range: None },
        Type::Str => NewType::Str { name: nm, default: None, range: None },
        Type::Binary => NewType::Binary { name: nm, default: None, range: None },
        Type::Container => {
            return Err(EdtdError { offset: p4, expected: Expected::Declaration });
        },
        Type::Name(_) => {
            return Err(EdtdError { offset: p4, expected: Expected::Declaration });
        },
    };
    if p6 < input.len() && input[p6] == 0x5B {
        dtype_properties(input, p6, base)
    } else {
        Ok((base, p6))
    }
}

/// A parsed EDTD source: the header statements of its `declare header`
/// blocks and its new-type declarations, in order.
#[derive(Debug, Clone, PartialEq)]
pub struct EdtdDocument {
    /// The header statements, across all header blocks.
    pub headers: Vec<HeaderStatement>,
    /// The new-type declarations.
    pub types: Vec<NewType>,
}

/// Parses a whole EDTD source: any mix of `declare header { … }` blocks and
/// type declarations, separated by whitespace and comments.
pub fn parse_edtd(input: &Vec<u8>) -> (r: Result<EdtdDocument, EdtdError>)
    ensures
        spec_sep_end(input@, 0) == input@.len() ==> ({
            &&& r matches Ok(doc)
            &&& doc.headers@.len() == 0
            &&& doc.types@.len() == 0
        }),
{
    let mut headers: Vec<HeaderStatement> = Vec::new();
    let mut types: Vec<NewType> = Vec::new();
    let mut q = sep(input, 0);
    loop
        invariant
            q <= input@.len(),
            spec_sep_end(input@, 0) == input@.len() ==> headers@.len() == 0 && types@.len() == 0
                && q == input@.len(),
        decreases input@.len() - q,
    {
        if q >= input.len() {
            break ;
        }
        match hblock(input, q) {
            Ok((stmts, p)) => {
                let mut i: usize = 0;
                while i < stmts.len()
                    invariant
                        0 <= i <= stmts@.len(),
                    decreases stmts@.len() - i,
                {
                    headers.push(stmts[i].clone());
                    i += 1;
                }
                let p2 = sep(input, p);
                match expect_byte(input, p2, 0x7D) {
                    Ok(p3) => {
                        q = sep(input, p3);
                    },
                    Err(e) => {
                        return Err(e);
                    },
                }
            },
            Err(_) => {
                match dtype(input, q) {
                    Ok((nt, p)) => {
                        types.push(nt);
                        q = sep(input, p);
                    },
                    Err(e) => {
                        return Err(e);
                    },
                }
            },
        }
    }
    Ok(EdtdDocument { headers, types })
}

} // verus!
