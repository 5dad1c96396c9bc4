//! The schema-driven streaming reader: a validating pull parser that walks a
//! document as a tree of typed elements and emits one event per step.
//!
//! The reader keeps a stack of open containers. At each step it either
//! closes the innermost container whose declared extent is exhausted,
//! resolves the next ID against that container's legal children, opens a
//! child container, or decodes and validates a leaf value. A container
//! declared with the unknown-size sentinel ends at the first ID that is not
//! legal as one of its children — that ID is left unconsumed for the outer
//! scope — or at the end of the input. Every error is terminal.

use vstd::prelude::*;

use crate::error::EbmlError;
use crate::id::Id;
use crate::peek::PeekableReader;
use crate::schema::{ChildKind, ChildOrder, Schema, ValueKind};
use crate::value::{
    spec_int_from_bytes, BinaryValue, DateValue, FloatValue, IntValue, StringValue, UintValue,
    Value,
};
use crate::vint::{be_bytes_value, spec_vint_ok, spec_vint_unknown, spec_vint_value, width_of_head, Size};

verus! {

/// The declared size of a container: a byte count, or the unknown-size
/// sentinel.
#[derive(Debug, Clone, Copy, PartialEq, Eq, Structural)]
pub enum SizeInfo {
    /// The container declared this many bytes of content.
    Known(u64),
    /// The container declared the unknown-size sentinel.
    Unknown,
}

/// One step of the event stream a reader produces.
#[derive(Debug, Clone, PartialEq)]
pub enum Event {
    /// A container opened: its index into the schema's container list, its
    /// declared size, and whether the schema declares its child order
    /// significant.
    BeginContainer {
        /// Index into the schema's container list.
        container: usize,
        /// The declared size of the content.
        size: SizeInfo,
        /// True when the container's child order is significant, so
        /// consumers may rely on the order of the events within it.
        ordered: bool,
    },
    /// A leaf element and its decoded, validated value.
    Value {
        /// Index into the schema's element list.
        element: usize,
        /// The decoded value.
        value: Value,
    },
    /// The container most recently opened and not yet closed has ended.
    EndContainer {
        /// Index into the schema's container list.
        container: usize,
    },
    /// Reading failed; the reader emits nothing further.
    Error {
        /// What went wrong.
        kind: EbmlError,
    },
}

/// The bytes of `s` with every trailing zero byte removed.
pub open spec fn trim_trailing_zeros(s: Seq<u8>) -> Seq<u8>
    decreases s.len(),
{
    if s.len() == 0 || s.last() != 0 {
        s
    } else {
        trim_trailing_zeros(s.drop_last())
    }
}

/// Whether a payload of bytes is decodable as a value of the given kind:
/// integers take at most eight bytes, a float one of its four widths, a date
/// exactly eight bytes, and a string must be valid UTF-8 once its zero
/// padding is dropped.
pub open spec fn spec_value_decodable(kind: ValueKind, s: Seq<u8>) -> bool {
    match kind {
        ValueKind::Int => s.len() <= 8,
        ValueKind::Uint => s.len() <= 8,
        ValueKind::Float => s.len() == 0 || s.len() == 4 || s.len() == 8 || s.len() == 10,
        ValueKind::Date => s.len() == 8,
        ValueKind::Str => vstd::utf8::valid_utf8(trim_trailing_zeros(s)),
        ValueKind::Binary => true,
    }
}

/// What a decodable payload of bytes means as a value of the given kind.
pub open spec fn spec_decoded_value(kind: ValueKind, s: Seq<u8>, v: Value) -> bool {
    match kind {
        ValueKind::Int => v matches Value::Int(iv) && iv.spec_width() == s.len()
            && iv.spec_repr() == spec_int_from_bytes(s),
        ValueKind::Uint => v matches Value::Uint(uv) && uv.spec_width() == s.len()
            && uv.spec_repr() == be_bytes_value(s),
        ValueKind::Float => v matches Value::Float(fv) && fv.spec_data() == s,
        ValueKind::Date => v matches Value::Date(dv) && dv.spec_nanos() == spec_int_from_bytes(s),
        ValueKind::Str => v matches Value::Str(sv) && sv.spec_data() == vstd::utf8::decode_utf8(
            trim_trailing_zeros(s),
        ) && sv.spec_padding() == s.len() - trim_trailing_zeros(s).len(),
        ValueKind::Binary => v matches Value::Binary(bv) && bv.spec_data() == s,
    }
}

/// The error a VINT read at `rem` reports: a zero head byte is a malformed
/// document, anything else missing is truncation.
pub open spec fn spec_vint_error(rem: Seq<u8>) -> EbmlError {
    if rem.len() > 0 && width_of_head(rem[0]) == 9 {
        EbmlError::MalformedDocument
    } else {
        EbmlError::TruncatedInput
    }
}

/// Whether a complete, legal element ID stands at the start of `rem`.
pub open spec fn spec_id_at(rem: Seq<u8>) -> bool {
    &&& spec_vint_ok(rem)
    &&& !spec_vint_unknown(rem)
    &&& crate::id::id_class_legal(width_of_head(rem[0]), spec_vint_value(rem))
}

/// The error an ID read at `rem` reports when no legal ID stands there.
pub open spec fn spec_id_error(rem: Seq<u8>) -> EbmlError {
    if !spec_vint_ok(rem) {
        spec_vint_error(rem)
    } else {
        EbmlError::IdOutOfRange
    }
}

/// Whether the cursor has reached a container's known extent.
pub open spec fn spec_bound_reached(bound: Option<u64>, pos: int) -> bool {
    bound matches Some(b) && pos >= b
}

/// What closing the innermost container must produce: its end event, or the
/// error for a missing required child.
pub open spec fn spec_close_forced(r: Option<Event>) -> bool {
    r matches Some(ev) && ((ev matches Event::EndContainer { .. }) || (ev matches Event::Error {
        kind,
    } && kind == EbmlError::MissingRequiredChild))
}

/// What reading a container's size at `rem2` (the bytes after its ID, with
/// the cursor at `pos1`) must produce under the enclosing extent
/// `parent_bound`: a size error, a malformed-document error when the
/// declared content would overrun, or the begin event.
pub open spec fn spec_open_forced(
    rem2: Seq<u8>,
    pos1: int,
    parent_bound: Option<u64>,
    r: Option<Event>,
) -> bool {
    let pos2 = pos1 + width_of_head(rem2[0]);
    let v = spec_vint_value(rem2);
    if !spec_vint_ok(rem2) {
        r matches Some(Event::Error { kind }) && kind == spec_vint_error(rem2)
    } else if !spec_vint_unknown(rem2) && (pos2 + v > u64::MAX || (parent_bound matches Some(b)
        && pos2 + v > b)) {
        r matches Some(Event::Error { kind }) && kind == EbmlError::MalformedDocument
    } else {
        r matches Some(Event::BeginContainer { .. })
    }
}

/// Whether every value the payload decodes to, as the given kind, satisfies
/// the restriction; the decoded view determines the answer.
pub open spec fn spec_restriction_passes(
    rst: crate::restrictions::Restriction,
    kind: ValueKind,
    payload: Seq<u8>,
) -> bool {
    forall|v: Value| #[trigger] spec_decoded_value(kind, payload, v) ==> rst.spec_matches(v)
}

/// A range set cannot tell two values of one decoded view apart.
proof fn lemma_rangeset_view(
    rs: crate::restrictions::RangeSet,
    kind: ValueKind,
    payload: Seq<u8>,
    v1: Value,
    v2: Value,
)
    requires
        spec_decoded_value(kind, payload, v1),
        spec_decoded_value(kind, payload, v2),
    ensures
        rs.spec_matches(v1) == rs.spec_matches(v2),
{
}

/// A restriction cannot tell two values of one decoded view apart.
proof fn lemma_restriction_view(
    rst: crate::restrictions::Restriction,
    kind: ValueKind,
    payload: Seq<u8>,
    v1: Value,
    v2: Value,
)
    requires
        spec_decoded_value(kind, payload, v1),
        spec_decoded_value(kind, payload, v2),
    ensures
        rst.spec_matches(v1) == rst.spec_matches(v2),
{
    match rst {
        crate::restrictions::Restriction::Ranges(rs) => {
            lemma_rangeset_view(rs, kind, payload, v1, v2);
        },
        crate::restrictions::Restriction::All(inter) => {
            assert forall|k: int| 0 <= k < inter.parts@.len() implies (
            #[trigger] inter.parts@[k]).spec_matches(v1) == inter.parts@[k].spec_matches(v2) by {
                lemma_rangeset_view(inter.parts@[k], kind, payload, v1, v2);
            }
        },
        crate::restrictions::Restriction::Any(uni) => {
            assert forall|k: int| 0 <= k < uni.parts@.len() implies (
            #[trigger] uni.parts@[k]).spec_matches(v1) == uni.parts@[k].spec_matches(v2) by {
                lemma_rangeset_view(uni.parts@[k], kind, payload, v1, v2);
            }
        },
    }
}

/// What decoding a leaf element of type `e` must produce, given the bytes
/// after its ID, the cursor position there, and the enclosing extent: the
/// exact error for a bad size, an overrun, a truncation, an undecodable
/// payload or a violated restriction, and otherwise the value event.
pub open spec fn spec_value_forced(
    s: Schema,
    e: int,
    rem2: Seq<u8>,
    pos1: int,
    bound: Option<u64>,
    r: Option<Event>,
) -> bool {
    let szw = width_of_head(rem2[0]);
    let pos2 = pos1 + szw;
    let v = spec_vint_value(rem2);
    let after = rem2.skip(szw);
    let vkind = s.spec_elements()[e].kind;
    if !spec_vint_ok(rem2) {
        r matches Some(Event::Error { kind }) && kind == spec_vint_error(rem2)
    } else if spec_vint_unknown(rem2) {
        r matches Some(Event::Error { kind }) && kind == EbmlError::MalformedDocument
    } else if bound matches Some(b) && (pos2 + v > u64::MAX || pos2 + v > b) {
        r matches Some(Event::Error { kind }) && kind == EbmlError::MalformedDocument
    } else if v > after.len() {
        r matches Some(Event::Error { kind }) && kind == EbmlError::TruncatedInput
    } else if !spec_value_decodable(vkind, after.take(v)) {
        r matches Some(Event::Error { kind }) && kind == EbmlError::MalformedDocument
    } else if s.spec_elements()[e].restriction matches Some(rst) && !spec_restriction_passes(
        rst,
        vkind,
        after.take(v),
    ) {
        r matches Some(Event::Error { kind }) && kind == EbmlError::RestrictionViolated
    } else {
        r matches Some(Event::Value { .. })
    }
}

/// Decodes a payload as a value of the element's declared kind.
fn decode_value(kind: &ValueKind, payload: Vec<u8>) -> (r: Result<Value, EbmlError>)
    ensures
        r is Ok <==> spec_value_decodable(*kind, payload@),
        match r {
            Ok(v) => spec_decoded_value(*kind, payload@, v),
            Err(e) => e == EbmlError::MalformedDocument,
        },
{
    match kind {
        ValueKind::Int => {
            match IntValue::from_bytes(&payload) {
                Some(iv) => Ok(Value::Int(iv)),
                None => Err(EbmlError::MalformedDocument),
            }
        },
        ValueKind::Uint => {
            match UintValue::from_bytes(&payload) {
                Some(uv) => Ok(Value::Uint(uv)),
                None => Err(EbmlError::MalformedDocument),
            }
        },
        ValueKind::Float => {
            match FloatValue::from_bytes(payload) {
                Some(fv) => Ok(Value::Float(fv)),
                None => Err(EbmlError::MalformedDocument),
            }
        },
        ValueKind::Date => {
            if payload.len() != 8 {
                return Err(EbmlError::MalformedDocument);
            }
            match IntValue::from_bytes(&payload) {
                Some(iv) => Ok(Value::Date(DateValue::from_nanos(iv.to_repr()))),
                None => Err(EbmlError::MalformedDocument),
            }
        },
        ValueKind::Str => {
            let mut body = payload;
            let ghost orig = body@;
            let total = body.len();
            let mut padding: usize = 0;
            while body.len() > 0 && body[body.len() - 1] == 0
                invariant
                    body@.len() + padding == total,
                    total == orig.len(),
                    trim_trailing_zeros(orig) == trim_trailing_zeros(body@),
                decreases body@.len(),
            {
                proof {
                    assert(body@.last() == 0);
                    assert(trim_trailing_zeros(body@) == trim_trailing_zeros(body@.drop_last()));
                }
                body.pop();
                padding += 1;
            }
            proof {
                assert(trim_trailing_zeros(body@) == body@);
            }
            match crate::value::string_from_utf8(body) {
                Some(st) => Ok(
                    Value::Str(StringValue::with_padding(st, padding)),
                ),
                None => Err(EbmlError::MalformedDocument),
            }
        },
        ValueKind::Binary => Ok(Value::Binary(BinaryValue::from_vec(payload))),
    }
}

/// One open container during reading.
struct Frame {
    /// Index into the schema's container list.
    container: usize,
    /// The absolute offset at which the container's content must end, when
    /// one is known; an unknown-size container inherits its parent's bound.
    bound: Option<u64>,
    /// Whether the container itself was declared with the unknown size, so
    /// an ID that is not a legal child closes it.
    unknown: bool,
    /// For each element type of the schema, whether it has occurred in this
    /// container so far.
    occurred: Vec<bool>,
}

/// A pull reader over one document: a byte source, a schema, and the stack
/// of open containers.
pub struct Reader {
    source: PeekableReader,
    schema: Schema,
    stack: Vec<Frame>,
    started: bool,
    done: bool,
}

impl Reader {
    /// The schema the reader validates against.
    pub closed spec fn spec_schema(self) -> Schema {
        self.schema
    }

    /// The bytes not yet consumed.
    pub closed spec fn spec_remaining(self) -> Seq<u8> {
        self.source.remaining()
    }

    /// How many containers are open.
    pub closed spec fn spec_depth(self) -> int {
        self.stack@.len() as int
    }

    /// Whether the reader has stopped for good, after an error.
    pub closed spec fn spec_done(self) -> bool {
        self.done
    }

    /// Whether the first event has been produced.
    pub closed spec fn spec_started(self) -> bool {
        self.started
    }

    /// The container index of the innermost open container.
    pub closed spec fn spec_top_container(self) -> int {
        self.stack@.last().container as int
    }

    /// Whether the innermost open container was declared with unknown size.
    pub closed spec fn spec_top_unknown(self) -> bool {
        self.stack@.last().unknown
    }

    /// Whether the element type at index `e` has occurred in the innermost
    /// open container.
    pub closed spec fn spec_top_occurred(self, e: int) -> bool {
        self.stack@.last().occurred@[e]
    }

    /// The absolute offset at which the innermost open container's content
    /// must end, when one is known.
    pub closed spec fn spec_top_bound(self) -> Option<u64> {
        self.stack@.last().bound
    }

    /// The cursor's position: how many bytes have been consumed.
    pub closed spec fn spec_position(self) -> int {
        self.source.spec_pos()
    }

    /// An upper bound on the work left: strictly decreases with every event
    /// produced, so a loop that pulls events until `None` terminates.
    pub open spec fn spec_measure(self) -> int {
        2 * self.spec_remaining().len() + self.spec_depth() + if self.spec_done() {
            0int
        } else {
            1int
        }
    }

    /// Validity of the reader: the schema is well-formed and every frame
    /// points into it.
    pub closed spec fn wf(self) -> bool {
        &&& self.schema.wf()
        &&& forall|i: int|
            0 <= i < self.stack@.len() ==> (#[trigger] self.stack@[i]).container
                < self.schema.spec_containers().len()
        &&& forall|i: int|
            0 <= i < self.stack@.len() ==> (#[trigger] self.stack@[i]).occurred@.len()
                == self.schema.spec_elements().len()
    }

    /// Builds a reader over a whole document held in memory.
    pub fn new(data: Vec<u8>, schema: Schema) -> (r: Result<Reader, EbmlError>)
        ensures
            match r {
                Ok(rd) => {
                    &&& rd.wf()
                    &&& rd.spec_schema() == schema
                    &&& rd.spec_remaining() == data@
                    &&& rd.spec_depth() == 0
                    &&& rd.spec_position() == 0
                    &&& !rd.spec_done()
                    &&& !rd.spec_started()
                },
                Err(e) => e == EbmlError::SchemaConflict && !schema.wf(),
            },
    {
        if !schema.is_wf() {
            return Err(EbmlError::SchemaConflict);
        }
        Ok(
            Reader {
                source: PeekableReader::new(data),
                schema,
                stack: Vec::new(),
                started: false,
                done: false,
            },
        )
    }

    /// A fresh occurrence table, one entry per element type, all false.
    fn fresh_occurrences(&self) -> (r: Vec<bool>)
        ensures
            r@.len() == self.spec_schema().spec_elements().len(),
            forall|i: int| 0 <= i < r@.len() ==> !(#[trigger] r@[i]),
    {
        let n = self.schema.element_count();
        let mut out: Vec<bool> = Vec::new();
        let mut i: usize = 0;
        while i < n
            invariant
                0 <= i <= n,
                out@.len() == i,
                forall|j: int| 0 <= j < i ==> !(#[trigger] out@[j]),
            decreases n - i,
        {
            out.push(false);
            i += 1;
        }
        out
    }

    /// Closes the innermost open container: verifies that every child the
    /// schema requires in it has occurred, pops it, and reports its end, or
    /// the first missing required child.
    fn close_top(&mut self) -> (r: Event)
        requires
            old(self).wf(),
            old(self).spec_depth() > 0,
        ensures
            final (self).wf(),
            final (self).spec_schema() == old(self).spec_schema(),
            final (self).spec_remaining() == old(self).spec_remaining(),
            final (self).spec_started() == old(self).spec_started(),
            match r {
                Event::EndContainer { container } => {
                    &&& container as int == old(self).spec_top_container()
                    &&& final (self).spec_depth() == old(self).spec_depth() - 1
                    &&& final (self).spec_done() == old(self).spec_done()
                    &&& forall|e: int|
                        0 <= e < old(self).spec_schema().spec_elements().len() && old(
                            self,
                        ).spec_schema().spec_required_child(
                            e,
                            old(self).spec_top_container(),
                            old(self).spec_depth(),
                        ) ==> old(self).spec_top_occurred(e)
                },
                Event::Error { kind } => {
                    &&& kind == EbmlError::MissingRequiredChild
                    &&& final (self).spec_done()
                    &&& final (self).spec_depth() == old(self).spec_depth() - 1
                    &&& exists|e: int|
                        0 <= e < old(self).spec_schema().spec_elements().len() && (
                        #[trigger] old(self).spec_schema().spec_required_child(
                            e,
                            old(self).spec_top_container(),
                            old(self).spec_depth(),
                        )) && !old(self).spec_top_occurred(e)
                },
                _ => false,
            },
    {
        let ghost orig: Reader = *old(self);
        let level: u64 = self.stack.len() as u64;
        let frame = match self.stack.pop() {
            Some(f) => f,
            None => unreached(),
        };
        let n = self.schema.element_count();
        let mut e: usize = 0;
        while e < n
            invariant
                0 <= e <= n,
                n == self.spec_schema().spec_elements().len(),
                frame.container < self.spec_schema().spec_containers().len(),
                frame.occurred@.len() == n,
                level == orig.spec_depth(),
                orig == *old(self),
                orig.spec_depth() > 0,
                frame == orig.stack@.last(),
                forall|x: int|
                    0 <= x < e && #[trigger] self.spec_schema().spec_required_child(
                        x,
                        frame.container as int,
                        level as int,
                    ) ==> frame.occurred@[x],
                self.wf(),
                self.spec_schema() == orig.spec_schema(),
                self.source == orig.source,
                self.started == orig.started,
                self.done == orig.done,
                self.stack@ == orig.stack@.drop_last(),
            decreases n - e,
        {
            let et = self.schema.element(e);
            if et.cardinality.requires_one() {
                let parent_matches = match et.parent {
                    crate::schema::AllowedParent::Container(p) => p == frame.container,
                    crate::schema::AllowedParent::AnyContainer => false,
                };
                if parent_matches && crate::schema::level_ok(&et.min_level, &et.max_level, level) {
                    if !frame.occurred[e] {
                        self.done = true;
                        proof {
                            assert(orig.spec_schema().spec_required_child(
                                e as int,
                                orig.spec_top_container(),
                                orig.spec_depth(),
                            ));
                            assert(!orig.spec_top_occurred(e as int));
                            assert(self.spec_depth() == orig.spec_depth() - 1);
                        }
                        return Event::Error { kind: EbmlError::MissingRequiredChild };
                    }
                }
            }
            proof {
                assert(forall|x: int|
                    0 <= x < e + 1 && #[trigger] self.spec_schema().spec_required_child(
                        x,
                        frame.container as int,
                        level as int,
                    ) ==> frame.occurred@[x]);
            }
            e += 1;
        }
        Event::EndContainer { container: frame.container }
    }

    /// Reads the declared size at the cursor and pushes a frame for the
    /// container at index `c`, reporting its beginning, or the error that
    /// stops the reader.
    fn open_container(&mut self, c: usize, parent_bound: Option<u64>) -> (r: Event)
        requires
            old(self).wf(),
            c < old(self).spec_schema().spec_containers().len(),
            !old(self).spec_done(),
        ensures
            final (self).wf(),
            final (self).spec_schema() == old(self).spec_schema(),
            final (self).spec_measure() < old(self).spec_measure(),
            old(self).spec_started() ==> final (self).spec_started(),
            spec_open_forced(
                old(self).spec_remaining(),
                old(self).spec_position(),
                parent_bound,
                Some(r),
            ),
            match r {
                Event::BeginContainer { container, size, ordered } => {
                    let s = old(self).spec_schema();
                    let rem = old(self).spec_remaining();
                    &&& container == c
                    &&& final (self).spec_depth() == old(self).spec_depth() + 1
                    &&& final (self).spec_top_container() == c as int
                    &&& !final (self).spec_done()
                    &&& final (self).spec_started()
                    &&& ordered == (s.spec_containers()[c as int].child_order
                        == ChildOrder::Significant)
                    &&& spec_vint_ok(rem)
                    &&& size == (if spec_vint_unknown(rem) {
                        SizeInfo::Unknown
                    } else {
                        SizeInfo::Known(spec_vint_value(rem) as u64)
                    })
                    &&& final (self).spec_remaining() == rem.skip(width_of_head(rem[0]))
                    &&& final (self).spec_top_unknown() == spec_vint_unknown(rem)
                    &&& final (self).spec_top_bound() == (if spec_vint_unknown(rem) {
                        parent_bound
                    } else {
                        Some(
                            (old(self).spec_position() + width_of_head(rem[0]) + spec_vint_value(
                                rem,
                            )) as u64,
                        )
                    })
                    &&& (forall|e: int|
                        0 <= e < s.spec_elements().len() ==> !(final (self)).spec_top_occurred(e))
                },
                Event::Error { kind } => final (self).spec_done() && (kind
                    == EbmlError::TruncatedInput || kind == EbmlError::MalformedDocument),
                _ => false,
            },
    {
        let size = match Size::load(&mut self.source) {
            Ok(s) => s,
            Err(err) => {
                self.done = true;
                return Event::Error { kind: err };
            },
        };
        let (info, bound, unknown) = match size.get_value() {
            Some(v) => {
                let pos: u64 = self.source.position() as u64;
                let overrun = match parent_bound {
                    Some(b) => v > u64::MAX - pos || pos + v > b,
                    None => false,
                };
                if overrun {
                    // The declared content would run past the enclosing
                    // container's extent.
                    self.done = true;
                    return Event::Error { kind: EbmlError::MalformedDocument };
                }
                if v > u64::MAX - pos {
                    self.done = true;
                    return Event::Error { kind: EbmlError::MalformedDocument };
                }
                (SizeInfo::Known(v), Some(pos + v), false)
            },
            None => (SizeInfo::Unknown, parent_bound, true),
        };
        let occurred = self.fresh_occurrences();
        let co = self.schema.container(c).child_order;
        let ordered = match co {
            ChildOrder::Significant => true,
            ChildOrder::Insignificant => false,
        };
        self.stack.push(Frame { container: c, bound, unknown, occurred });
        self.started = true;
        Event::BeginContainer { container: c, size: info, ordered }
    }

    /// Produces the next event of the stream, or `None` once the document
    /// has ended cleanly or an error has been reported.
    ///
    /// The first event of a document is `BeginContainer` for the schema's
    /// root, or an error. Begin and end events are balanced: a begin pushes
    /// a container, its end pops it, a value leaves the depth alone, and an
    /// error is terminal. A container is only reported ended after every
    /// child the schema requires in it has occurred, and a value is only
    /// reported after it has satisfied its element's restriction.
    #[verifier::rlimit(60)]
    pub fn next_event(&mut self) -> (r: Option<Event>)
        requires
            old(self).wf(),
        ensures
            final (self).wf(),
            final (self).spec_schema() == old(self).spec_schema(),
            old(self).spec_started() ==> final (self).spec_started(),
            r is None <==> (old(self).spec_done() || (old(self).spec_started() && old(
                self,
            ).spec_depth() == 0 && old(self).spec_remaining().len() == 0)),
            r is None ==> *final (self) == *old(self),
            r is Some ==> final (self).spec_measure() < old(self).spec_measure(),
            match r {
                None => true,
                Some(ev) => match ev {
                    Event::BeginContainer { container, size, ordered } => {
                        let s = old(self).spec_schema();
                        let rem = old(self).spec_remaining();
                        let rem2 = rem.skip(width_of_head(rem[0]));
                        &&& container < s.spec_containers().len()
                        &&& final (self).spec_depth() == old(self).spec_depth() + 1
                        &&& final (self).spec_top_container() == container as int
                        &&& !final (self).spec_done()
                        &&& final (self).spec_started()
                        &&& ordered == (s.spec_containers()[container as int].child_order
                            == ChildOrder::Significant)
                        &&& spec_vint_ok(rem)
                        &&& spec_vint_value(rem) == s.spec_containers()[container as int].id.spec_value()
                        &&& (old(self).spec_depth() == 0 ==> container as int == s.spec_root())
                        &&& (old(self).spec_depth() > 0 ==> s.spec_container_legal(
                            container as int,
                            old(self).spec_top_container(),
                            old(self).spec_depth(),
                        ))
                        &&& spec_vint_ok(rem2)
                        &&& size == (if spec_vint_unknown(rem2) {
                            SizeInfo::Unknown
                        } else {
                            SizeInfo::Known(spec_vint_value(rem2) as u64)
                        })
                        &&& final (self).spec_remaining() == rem2.skip(width_of_head(rem2[0]))
                        &&& final (self).spec_top_unknown() == spec_vint_unknown(rem2)
                        &&& (forall|e: int|
                            0 <= e < s.spec_elements().len() ==> !(final (self)).spec_top_occurred(
                                e,
                            ))
                    },
                    Event::Value { element, value } => {
                        let s = old(self).spec_schema();
                        let rem = old(self).spec_remaining();
                        let rem2 = rem.skip(width_of_head(rem[0]));
                        let payload = rem2.skip(width_of_head(rem2[0])).take(
                            spec_vint_value(rem2),
                        );
                        &&& element < s.spec_elements().len()
                        &&& old(self).spec_depth() > 0
                        &&& final (self).spec_depth() == old(self).spec_depth()
                        &&& final (self).spec_top_container() == old(self).spec_top_container()
                        &&& !final (self).spec_done()
                        &&& spec_vint_ok(rem)
                        &&& spec_vint_value(rem) == s.spec_elements()[element as int].id.spec_value()
                        &&& s.spec_element_legal(
                            element as int,
                            old(self).spec_top_container(),
                            old(self).spec_depth(),
                        )
                        &&& value_has_kind(value, s.spec_elements()[element as int].kind)
                        &&& (s.spec_elements()[element as int].restriction matches Some(rst)
                            ==> rst.spec_matches(value))
                        &&& spec_vint_ok(rem2) && !spec_vint_unknown(rem2)
                        &&& spec_value_decodable(s.spec_elements()[element as int].kind, payload)
                        &&& spec_decoded_value(s.spec_elements()[element as int].kind, payload, value)
                        &&& final (self).spec_top_occurred(element as int)
                        &&& final (self).spec_remaining() == rem2.skip(width_of_head(rem2[0])).skip(
                            spec_vint_value(rem2),
                        )
                        &&& final (self).spec_top_unknown() == old(self).spec_top_unknown()
                        &&& final (self).spec_top_bound() == old(self).spec_top_bound()
                        &&& (forall|e2: int|
                            0 <= e2 < s.spec_elements().len() && e2 != element as int ==> (final (
                            self)).spec_top_occurred(e2) == old(self).spec_top_occurred(e2))
                    },
                    Event::EndContainer { container } => {
                        let s = old(self).spec_schema();
                        &&& old(self).spec_depth() > 0
                        &&& container as int == old(self).spec_top_container()
                        &&& final (self).spec_depth() == old(self).spec_depth() - 1
                        &&& !final (self).spec_done()
                        &&& final (self).spec_remaining() == old(self).spec_remaining()
                        &&& forall|e: int|
                            0 <= e < s.spec_elements().len() && #[trigger] s.spec_required_child(
                                e,
                                container as int,
                                old(self).spec_depth(),
                            ) ==> old(self).spec_top_occurred(e)
                    },
                    Event::Error { kind } => {
                        &&& final (self).spec_done()
                        &&& (kind == EbmlError::WrongId ==> old(self).spec_depth() == 0)
                        &&& (kind == EbmlError::UnexpectedChild ==> old(self).spec_depth() > 0
                            && !old(self).spec_top_unknown())
                        &&& (kind == EbmlError::RestrictionViolated ==> old(self).spec_depth()
                            > 0)
                        &&& (kind == EbmlError::MissingRequiredChild ==> old(self).spec_depth() > 0
                            && exists|e: int|
                            0 <= e < old(self).spec_schema().spec_elements().len() && (
                            #[trigger] old(self).spec_schema().spec_required_child(
                                e,
                                old(self).spec_top_container(),
                                old(self).spec_depth(),
                            )) && !old(self).spec_top_occurred(e))
                    },
                },
            },
            !old(self).spec_done() ==> ({
                let s = old(self).spec_schema();
                let rem = old(self).spec_remaining();
                let depth = old(self).spec_depth();
                let pos = old(self).spec_position();
                let idw = width_of_head(rem[0]);
                let idv = spec_vint_value(rem);
                let bound = old(self).spec_top_bound();
                let top = old(self).spec_top_container();
                let unk = old(self).spec_top_unknown();
                &&& (depth == 0 && rem.len() == 0 && !old(self).spec_started() ==> ({
                    &&& r matches Some(Event::Error { kind })
                    &&& kind == EbmlError::TruncatedInput
                }))
                &&& (depth == 0 && rem.len() > 0 && !spec_id_at(rem) ==> ({
                    &&& r matches Some(Event::Error { kind })
                    &&& kind == spec_id_error(rem)
                }))
                &&& (depth == 0 && spec_id_at(rem) && idv != s.spec_containers()[s.spec_root()].id.spec_value()
                    ==> ({
                    &&& r matches Some(Event::Error { kind })
                    &&& kind == EbmlError::WrongId
                }))
                &&& (depth == 0 && spec_id_at(rem) && idv == s.spec_containers()[s.spec_root()].id.spec_value()
                    ==> spec_open_forced(rem.skip(idw), pos + idw, None, r))
                &&& (depth > 0 && spec_bound_reached(bound, pos) ==> spec_close_forced(r))
                &&& (depth > 0 && !spec_bound_reached(bound, pos) && unk && rem.len() == 0
                    ==> spec_close_forced(r))
                &&& (depth > 0 && !spec_bound_reached(bound, pos) && !(unk && rem.len() == 0)
                    && !spec_id_at(rem) ==> ({
                    &&& r matches Some(Event::Error { kind })
                    &&& kind == spec_id_error(rem)
                }))
                &&& (depth > 0 && !spec_bound_reached(bound, pos) && spec_id_at(rem)
                    && !s.spec_some_element(idv, top, depth) && !s.spec_some_container(
                    idv,
                    top,
                    depth,
                ) ==> (if unk {
                    spec_close_forced(r)
                } else {
                    ({
                        &&& r matches Some(Event::Error { kind })
                        &&& kind == EbmlError::UnexpectedChild
                    })
                }))
                &&& (depth > 0 && !spec_bound_reached(bound, pos) && spec_id_at(rem)
                    && s.spec_some_element(idv, top, depth) ==> forall|e: int|
                    0 <= e < s.spec_elements().len() && #[trigger] s.spec_elements()[e].id.spec_value()
                        == idv && s.spec_element_legal(e, top, depth) ==> spec_value_forced(
                        s,
                        e,
                        rem.skip(idw),
                        pos + idw,
                        bound,
                        r,
                    ))
                &&& (depth > 0 && !spec_bound_reached(bound, pos) && spec_id_at(rem)
                    && !s.spec_some_element(idv, top, depth) && s.spec_some_container(
                    idv,
                    top,
                    depth,
                ) ==> spec_open_forced(rem.skip(idw), pos + idw, bound, r))
            }),
    {
        if self.done {
            return None;
        }
        if self.stack.len() == 0 {
            if self.source.remaining_len() == 0 {
                if self.started {
                    return None;
                }
                self.done = true;
                return Some(Event::Error { kind: EbmlError::TruncatedInput });
            }
            // Expect the root container's ID.
            let id = match Id::peek(&self.source) {
                Ok(id) => id,
                Err(e) => {
                    self.done = true;
                    return Some(Event::Error { kind: e });
                },
            };
            let root = self.schema.root_index();
            if id.get_value() != self.schema.container(root).id.get_value() {
                self.done = true;
                return Some(Event::Error { kind: EbmlError::WrongId });
            }
            let idw = id.get_width();
            self.source.advance(idw);
            return Some(self.open_container(root, None));
        }
        let last = self.stack.len() - 1;
        let top_container = self.stack[last].container;
        let top_bound = self.stack[last].bound;
        let top_unknown = self.stack[last].unknown;
        let pos: u64 = self.source.position() as u64;

        // A finite extent that is exhausted closes the container; so does
        // the end of the input for an unknown-size container.
        match top_bound {
            Some(b) => {
                if pos >= b {
                    return Some(self.close_top());
                }
            },
            None => {},
        }
        if top_unknown && self.source.remaining_len() == 0 {
            return Some(self.close_top());
        }

        let id = match Id::peek(&self.source) {
            Ok(id) => id,
            Err(e) => {
                self.done = true;
                return Some(Event::Error { kind: e });
            },
        };
        let level: u64 = self.stack.len() as u64;
        match self.schema.lookup_child_by_id(top_container, id.get_value(), level) {
            ChildKind::NotAChild => {
                if top_unknown {
                    // The first ID that is not a legal child terminates an
                    // unknown-size container; it is not consumed.
                    Some(self.close_top())
                } else {
                    self.done = true;
                    Some(Event::Error { kind: EbmlError::UnexpectedChild })
                }
            },
            ChildKind::Container(c) => {
                let idw = id.get_width();
                self.source.advance(idw);
                Some(self.open_container(c, top_bound))
            },
            ChildKind::Element(e) => {
                proof {
                    // The schema's IDs are unique, so `e` is the only
                    // element type the ID can resolve to.
                    assert forall|e2: int|
                        0 <= e2 < self.schema.spec_elements().len()
                            && #[trigger] self.schema.spec_elements()[e2].id.spec_value()
                            == id.spec_value() && self.schema.spec_element_legal(
                            e2,
                            top_container as int,
                            level as int,
                        ) implies e2 == e as int by {}
                }
                let idw = id.get_width();
                self.source.advance(idw);
                let size = match Size::load(&mut self.source) {
                    Ok(s) => s,
                    Err(err) => {
                        self.done = true;
                        return Some(Event::Error { kind: err });
                    },
                };
                let payload_len = match size.get_value() {
                    Some(v) => v,
                    None => {
                        // Only a container may declare the unknown size.
                        self.done = true;
                        return Some(Event::Error { kind: EbmlError::MalformedDocument });
                    },
                };
                let pos2: u64 = self.source.position() as u64;
                match top_bound {
                    Some(b) => {
                        if payload_len > u64::MAX - pos2 || pos2 + payload_len > b {
                            // The payload would run past the enclosing
                            // container's declared extent.
                            self.done = true;
                            return Some(Event::Error { kind: EbmlError::MalformedDocument });
                        }
                    },
                    None => {},
                }
                if payload_len > self.source.remaining_len() as u64 {
                    self.done = true;
                    return Some(Event::Error { kind: EbmlError::TruncatedInput });
                }
                let ghost rem = old(self).spec_remaining();
                let ghost rem2 = rem.skip(width_of_head(rem[0]));
                proof {
                    assert(self.spec_remaining() =~= rem2.skip(width_of_head(rem2[0])));
                }
                let payload = match self.source.read(payload_len as usize) {
                    Some(p) => p,
                    None => unreached(),
                };
                proof {
                    assert(payload@ =~= rem2.skip(width_of_head(rem2[0])).take(
                        spec_vint_value(rem2),
                    ));
                }
                let value = match decode_value(&self.schema.element(e).kind, payload) {
                    Ok(v) => v,
                    Err(err) => {
                        self.done = true;
                        return Some(Event::Error { kind: err });
                    },
                };
                match &self.schema.element(e).restriction {
                    Some(rst) => {
                        if !rst.matches(&value) {
                            self.done = true;
                            return Some(Event::Error { kind: EbmlError::RestrictionViolated });
                        }
                        proof {
                            // Every value with this payload's view satisfies
                            // the restriction, since the one decoded does.
                            let k = self.schema.spec_elements()[e as int].kind;
                            let pl = rem2.skip(width_of_head(rem2[0])).take(spec_vint_value(rem2));
                            assert forall|v2: Value| #[trigger] spec_decoded_value(
                                k,
                                pl,
                                v2,
                            ) implies rst.spec_matches(v2) by {
                                lemma_restriction_view(*rst, k, pl, v2, value);
                            }
                            assert(spec_restriction_passes(*rst, k, pl));
                        }
                    },
                    None => {},
                }
                let mut frame = match self.stack.pop() {
                    Some(f) => f,
                    None => unreached(),
                };
                frame.occurred[e] = true;
                self.stack.push(frame);
                Some(Event::Value { element: e, value })
            },
        }
    }
}

/// Whether the value is of the given kind.
pub open spec fn value_has_kind(v: Value, k: ValueKind) -> bool {
    match k {
        ValueKind::Int => v matches Value::Int(_),
        ValueKind::Uint => v matches Value::Uint(_),
        ValueKind::Float => v matches Value::Float(_),
        ValueKind::Date => v matches Value::Date(_),
        ValueKind::Str => v matches Value::Str(_),
        ValueKind::Binary => v matches Value::Binary(_),
    }
}

/// How an event changes the nesting depth: a begin opens a container, its
/// end closes one, and the rest leave the depth alone.
pub open spec fn spec_event_depth_delta(e: Event) -> int {
    match e {
        Event::BeginContainer { .. } => 1,
        Event::EndContainer { .. } => -1,
        _ => 0,
    }
}

/// The nesting depth after a stream of events.
pub open spec fn spec_events_depth(s: Seq<Event>) -> int
    decreases s.len(),
{
    if s.len() == 0 {
        0
    } else {
        spec_events_depth(s.drop_last()) + spec_event_depth_delta(s.last())
    }
}

/// What the first event of a document's stream must be: the error for an
/// empty input, a bad ID or a wrong root, and otherwise the root container
/// opening as its declared size directs.
pub open spec fn spec_first_event_forced(data: Seq<u8>, s: Schema, ev: Event) -> bool {
    let idw = width_of_head(data[0]);
    if data.len() == 0 {
        ev matches Event::Error { kind } && kind == EbmlError::TruncatedInput
    } else if !spec_id_at(data) {
        ev matches Event::Error { kind } && kind == spec_id_error(data)
    } else if spec_vint_value(data) != s.spec_containers()[s.spec_root()].id.spec_value() {
        ev matches Event::Error { kind } && kind == EbmlError::WrongId
    } else {
        spec_open_forced(data.skip(idw), idw, None, Some(ev))
    }
}

/// Reads a whole document, collecting the event stream; it fails only on a
/// schema that contradicts itself.
///
/// The stream is never empty and is well-nested: no prefix closes more
/// containers than it opened, only the last event can be an error, and a
/// stream that does not end in an error closes every container it opened.
/// The first event is fixed by the input's first bytes: the root container
/// opening, or the exact error.
pub fn decode_document(data: Vec<u8>, schema: Schema) -> (r: Result<Vec<Event>, EbmlError>)
    ensures
        r matches Err(e) ==> e == EbmlError::SchemaConflict && !schema.wf(),
        r matches Ok(events) ==> {
            &&& events@.len() >= 1
            &&& spec_first_event_forced(data@, schema, events@[0])
            &&& forall|i: int| 0 <= i <= events@.len() ==> spec_events_depth(#[trigger] events@.take(i)) >= 0
            &&& forall|i: int|
                0 <= i < events@.len() - 1 ==> !((#[trigger] events@[i]) matches Event::Error { .. })
            &&& (!(events@.last() matches Event::Error { .. }) ==> spec_events_depth(events@) == 0)
        },
{
    let mut reader = match Reader::new(data, schema) {
        Ok(rd) => rd,
        Err(e) => {
            return Err(e);
        },
    };
    let mut events: Vec<Event> = Vec::new();
    proof {
        assert(events@.take(0) =~= Seq::<Event>::empty());
    }
    loop
        invariant
            reader.wf(),
            !reader.spec_done() ==> spec_events_depth(events@) == reader.spec_depth(),
            forall|i: int| 0 <= i <= events@.len() ==> spec_events_depth(#[trigger] events@.take(i)) >= 0,
            !reader.spec_done() ==> forall|i: int|
                0 <= i < events@.len() ==> !((#[trigger] events@[i]) matches Event::Error { .. }),
            reader.spec_done() ==> events@.len() >= 1 && (events@.last() matches Event::Error {
                ..
            }) && forall|i: int|
                0 <= i < events@.len() - 1 ==> !((#[trigger] events@[i]) matches Event::Error {
                    ..
                }),
            events@.len() == 0 ==> !reader.spec_done() && !reader.spec_started()
                && reader.spec_remaining() == data@ && reader.spec_depth() == 0
                && reader.spec_position() == 0 && reader.spec_schema() == schema,
            events@.len() >= 1 ==> spec_first_event_forced(data@, schema, events@[0]),
            reader.spec_started() || reader.spec_done() || events@.len() == 0,
        ensures
            events@.len() >= 1,
            !(events@.last() matches Event::Error { .. }) ==> spec_events_depth(events@) == 0,
        decreases reader.spec_measure(),
    {
        let ghost pre = events@;
        let ghost pre_reader = reader;
        match reader.next_event() {
            Some(ev) => {
                let ghost pushed = ev;
                events.push(ev);
                proof {
                    assert(events@.drop_last() =~= pre);
                    assert forall|i: int| 0 <= i <= events@.len() implies spec_events_depth(
                        #[trigger] events@.take(i),
                    ) >= 0 by {
                        if i < events@.len() {
                            assert(events@.take(i) =~= pre.take(i));
                        } else {
                            assert(events@.take(i) =~= events@);
                        }
                    }
                    match pushed {
                        Event::BeginContainer { .. } => {
                            assert(reader.spec_started());
                        },
                        Event::Error { .. } => {
                            assert(reader.spec_done());
                        },
                        _ => {
                            assert(pre_reader.spec_depth() > 0);
                            if pre.len() == 0 {
                                assert(spec_events_depth(pre) == 0);
                            }
                            assert(pre.len() > 0);
                            assert(pre_reader.spec_started());
                            assert(reader.spec_started());
                        },
                    }
                }
            },
            None => {
                break ;
            },
        }
    }
    Ok(events)
}

} // verus!
