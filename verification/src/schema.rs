//! The schema model: runtime descriptions of the element and container
//! types a document may contain, and the standard EBML header types that are
//! part of every schema.
//!
//! A schema lists container types and element (leaf) types, each with a
//! name, an ID, a cardinality, a parent constraint and nesting-level bounds;
//! elements also carry a value kind, an optional default and an optional
//! value restriction. A child is legal under a parent container at a nesting
//! level exactly when its parent constraint names that container or is the
//! wildcard, and the level lies within its bounds.

use vstd::prelude::*;

use crate::error::EbmlError;
use crate::id::Id;
use crate::restrictions::Restriction;
use crate::value::Value;

verus! {

/// How many times an element or container may occur within one scope.
#[derive(Debug, Clone, Copy, PartialEq, Eq, Structural)]
pub enum Cardinality {
    /// Any number of occurrences, including none.
    ZeroOrMany,
    /// At most one occurrence.
    ZeroOrOne,
    /// Exactly one occurrence.
    ExactlyOne,
    /// At least one occurrence.
    OneOrMany,
}

impl Cardinality {
    /// Whether this cardinality demands at least one occurrence.
    pub open spec fn spec_requires_one(self) -> bool {
        self == Cardinality::ExactlyOne || self == Cardinality::OneOrMany
    }

    /// Whether this cardinality demands at least one occurrence.
    pub fn requires_one(&self) -> (r: bool)
        ensures
            r == self.spec_requires_one(),
    {
        match *self {
            Cardinality::ExactlyOne => true,
            Cardinality::OneOrMany => true,
            _ => false,
        }
    }
}

/// Whether the order of a container's children carries meaning.
#[derive(Debug, Clone, Copy, PartialEq, Eq, Structural)]
pub enum ChildOrder {
    /// The order of children is significant.
    Significant,
    /// The order of children carries no meaning.
    Insignificant,
}

/// The parent constraint of a type: a specific container of the schema,
/// named by its index, or the wildcard that admits any parent.
#[derive(Debug, Clone, Copy, PartialEq, Eq, Structural)]
pub enum AllowedParent {
    /// Any container may be the parent.
    AnyContainer,
    /// Only the container at this index of the schema's container list.
    Container(usize),
}

/// A bound on the nesting level, where `None` is the wildcard.
pub type LevelBound = Option<u64>;

/// The six kinds of leaf value.
#[derive(Debug, Clone, Copy, PartialEq, Eq, Structural)]
pub enum ValueKind {
    /// A signed integer.
    Int,
    /// An unsigned integer.
    Uint,
    /// A float.
    Float,
    /// A timestamp.
    Date,
    /// A UTF-8 string.
    Str,
    /// Arbitrary bytes.
    Binary,
}

/// Whether nesting level `level` satisfies the bounds `min` and `max`,
/// where `None` is unconstrained.
pub open spec fn spec_level_ok(min: LevelBound, max: LevelBound, level: int) -> bool {
    &&& (min matches Some(lo) ==> lo <= level)
    &&& (max matches Some(hi) ==> level <= hi)
}

/// Whether nesting level `level` satisfies the bounds `min` and `max`.
pub fn level_ok(min: &LevelBound, max: &LevelBound, level: u64) -> (r: bool)
    ensures
        r == spec_level_ok(*min, *max, level as int),
{
    let lo_ok = match min {
        Some(lo) => *lo <= level,
        None => true,
    };
    let hi_ok = match max {
        Some(hi) => level <= *hi,
        None => true,
    };
    lo_ok && hi_ok
}

/// The schema description of a leaf element type.
#[derive(Debug, Clone)]
pub struct ElementType {
    /// The symbolic name; unique within a schema.
    pub name: String,
    /// The element's ID; unique within a schema.
    pub id: Id,
    /// The kind of value the element holds.
    pub kind: ValueKind,
    /// How often the element may occur in a legal scope.
    pub cardinality: Cardinality,
    /// Which container may hold the element.
    pub parent: AllowedParent,
    /// The least nesting level at which the element may occur.
    pub min_level: LevelBound,
    /// The greatest nesting level at which the element may occur.
    pub max_level: LevelBound,
    /// The value assumed when the element is absent, if any.
    pub default: Option<Value>,
    /// A restriction its values must satisfy, if any.
    pub restriction: Option<Restriction>,
}

/// The schema description of a container type.
#[derive(Debug, Clone)]
pub struct ContainerType {
    /// The symbolic name; unique within a schema.
    pub name: String,
    /// The container's ID; unique within a schema.
    pub id: Id,
    /// How often the container may occur in a legal scope.
    pub cardinality: Cardinality,
    /// Whether the order of the children carries meaning.
    pub child_order: ChildOrder,
    /// Which container may hold this one.
    pub parent: AllowedParent,
    /// The least nesting level at which the container may occur.
    pub min_level: LevelBound,
    /// The greatest nesting level at which the container may occur.
    pub max_level: LevelBound,
}

/// What an ID resolves to among the children legal in some scope.
#[derive(Debug, Clone, Copy, PartialEq, Eq, Structural)]
pub enum ChildKind {
    /// A leaf element: the index into the schema's element list.
    Element(usize),
    /// A container: the index into the schema's container list.
    Container(usize),
    /// No type with this ID is legal here.
    NotAChild,
}

/// A document-type schema: the container and element types a document may
/// use, rooted at one container (for EBML proper, the `EBML` header).
#[derive(Debug, Clone)]
pub struct Schema {
    containers: Vec<ContainerType>,
    elements: Vec<ElementType>,
    root: usize,
}

impl Schema {
    /// The container types.
    pub closed spec fn spec_containers(self) -> Seq<ContainerType> {
        self.containers@
    }

    /// The element types.
    pub closed spec fn spec_elements(self) -> Seq<ElementType> {
        self.elements@
    }

    /// The index of the root container.
    pub closed spec fn spec_root(self) -> int {
        self.root as int
    }

    /// Well-formedness: the root exists, parent constraints point at
    /// containers of the schema, and IDs and names are unique across both
    /// lists.
    pub open spec fn wf(self) -> bool {
        schema_parts_wf(self.spec_containers(), self.spec_elements(), self.spec_root())
    }
}

/// The well-formedness conditions on a schema's parts: the root index names
/// a container, parent constraints point at containers of the list, and IDs
/// and names are unique across both lists.
pub open spec fn schema_parts_wf(cs: Seq<ContainerType>, es: Seq<ElementType>, root: int) -> bool {
    &&& root < cs.len()
    &&& forall|i: int|
            0 <= i < cs.len() ==> ((#[trigger] cs[i].parent) matches AllowedParent::Container(p)
                ==> p < cs.len())
        &&& forall|i: int|
            0 <= i < es.len() ==> ((#[trigger] es[i].parent) matches AllowedParent::Container(p)
                ==> p < cs.len())
        &&& forall|i: int, j: int|
            0 <= i < cs.len() && 0 <= j < cs.len() && i != j ==> #[trigger] cs[i].id.spec_value()
                != #[trigger] cs[j].id.spec_value()
        &&& forall|i: int, j: int|
            0 <= i < es.len() && 0 <= j < es.len() && i != j ==> #[trigger] es[i].id.spec_value()
                != #[trigger] es[j].id.spec_value()
        &&& forall|i: int, j: int|
            0 <= i < cs.len() && 0 <= j < es.len() ==> #[trigger] cs[i].id.spec_value()
                != #[trigger] es[j].id.spec_value()
        &&& forall|i: int, j: int|
            0 <= i < cs.len() && 0 <= j < cs.len() && i != j ==> #[trigger] cs[i].name@
                != #[trigger] cs[j].name@
        &&& forall|i: int, j: int|
            0 <= i < es.len() && 0 <= j < es.len() && i != j ==> #[trigger] es[i].name@
                != #[trigger] es[j].name@
        &&& forall|i: int, j: int|
            0 <= i < cs.len() && 0 <= j < es.len() ==> #[trigger] cs[i].name@
                != #[trigger] es[j].name@
}

impl Schema {
    /// Whether the element at index `e` is a legal child of the container at
    /// index `c`, at nesting level `level`.
    pub open spec fn spec_element_legal(self, e: int, c: int, level: int) -> bool {
        let et = self.spec_elements()[e];
        &&& (et.parent == AllowedParent::AnyContainer || et.parent == AllowedParent::Container(
            c as usize,
        ))
        &&& spec_level_ok(et.min_level, et.max_level, level)
    }

    /// Whether the container at index `x` is a legal child of the container
    /// at index `c`, at nesting level `level`.
    pub open spec fn spec_container_legal(self, x: int, c: int, level: int) -> bool {
        let ct = self.spec_containers()[x];
        &&& (ct.parent == AllowedParent::AnyContainer || ct.parent == AllowedParent::Container(
            c as usize,
        ))
        &&& spec_level_ok(ct.min_level, ct.max_level, level)
    }

    /// Whether the element at index `e` is required to occur at least once
    /// in a scope of the container at index `c` whose children sit at
    /// nesting level `level`: its cardinality demands one, that container is
    /// its declared parent, and the level is within its bounds.
    pub open spec fn spec_required_child(self, e: int, c: int, level: int) -> bool {
        let et = self.spec_elements()[e];
        &&& et.cardinality.spec_requires_one()
        &&& et.parent == AllowedParent::Container(c as usize)
        &&& spec_level_ok(et.min_level, et.max_level, level)
    }

    /// Builds a schema from its parts, checking well-formedness; clashes of
    /// IDs or out-of-range indices are a [`EbmlError::SchemaConflict`].
    pub fn new(containers: Vec<ContainerType>, elements: Vec<ElementType>, root: usize) -> (r:
        Result<Schema, EbmlError>)
        ensures
            r is Ok <==> schema_parts_wf(containers@, elements@, root as int),
            match r {
                Ok(s) => {
                    &&& s.wf()
                    &&& s.spec_containers() == containers@
                    &&& s.spec_elements() == elements@
                    &&& s.spec_root() == root as int
                },
                Err(e) => e == EbmlError::SchemaConflict && !schema_parts_wf(
                    containers@,
                    elements@,
                    root as int,
                ),
            },
    {
        let s = Schema { containers, elements, root };
        if s.is_wf() {
            Ok(s)
        } else {
            Err(EbmlError::SchemaConflict)
        }
    }

    /// Checks the well-formedness conditions.
    pub fn is_wf(&self) -> (r: bool)
        ensures
            r == self.wf(),
    {
        let cs_len = self.containers.len();
        let es_len = self.elements.len();
        if self.root >= cs_len {
            return false;
        }
        let mut i: usize = 0;
        while i < cs_len
            invariant
                0 <= i <= cs_len,
                cs_len == self.spec_containers().len(),
                es_len == self.spec_elements().len(),
                forall|x: int|
                    0 <= x < i ==> ((#[trigger] self.spec_containers()[x].parent) matches
                        AllowedParent::Container(p) ==> p < cs_len),
            decreases cs_len - i,
        {
            match self.containers[i].parent {
                AllowedParent::Container(p) => {
                    if p >= cs_len {
                        return false;
                    }
                },
                AllowedParent::AnyContainer => {},
            }
            i += 1;
        }
        let mut i: usize = 0;
        while i < es_len
            invariant
                0 <= i <= es_len,
                cs_len == self.spec_containers().len(),
                es_len == self.spec_elements().len(),
                forall|x: int|
                    0 <= x < i ==> ((#[trigger] self.spec_elements()[x].parent) matches
                        AllowedParent::Container(p) ==> p < cs_len),
            decreases es_len - i,
        {
            match self.elements[i].parent {
                AllowedParent::Container(p) => {
                    if p >= cs_len {
                        return false;
                    }
                },
                AllowedParent::AnyContainer => {},
            }
            i += 1;
        }
        let mut i: usize = 0;
        while i < cs_len
            invariant
                0 <= i <= cs_len,
                cs_len == self.spec_containers().len(),
                es_len == self.spec_elements().len(),
                forall|x: int, y: int|
                    0 <= x < i && 0 <= y < cs_len && x != y
                        ==> #[trigger] self.spec_containers()[x].id.spec_value()
                        != #[trigger] self.spec_containers()[y].id.spec_value(),
                forall|x: int, y: int|
                    0 <= x < i && 0 <= y < es_len
                        ==> #[trigger] self.spec_containers()[x].id.spec_value()
                        != #[trigger] self.spec_elements()[y].id.spec_value(),
            decreases cs_len - i,
        {
            let my_id = self.containers[i].id.get_value();
            let mut j: usize = 0;
            while j < cs_len
                invariant
                    0 <= j <= cs_len,
                    i < cs_len,
                    cs_len == self.spec_containers().len(),
                    my_id == self.spec_containers()[i as int].id.spec_value(),
                    forall|y: int|
                        0 <= y < j && y != i ==> #[trigger] self.spec_containers()[y].id.spec_value()
                            != my_id,
                decreases cs_len - j,
            {
                if j != i && self.containers[j].id.get_value() == my_id {
                    return false;
                }
                j += 1;
            }
            let mut j: usize = 0;
            while j < es_len
                invariant
                    0 <= j <= es_len,
                    i < cs_len,
                    cs_len == self.spec_containers().len(),
                    es_len == self.spec_elements().len(),
                    my_id == self.spec_containers()[i as int].id.spec_value(),
                    forall|y: int|
                        0 <= y < j ==> #[trigger] self.spec_elements()[y].id.spec_value() != my_id,
                decreases es_len - j,
            {
                if self.elements[j].id.get_value() == my_id {
                    return false;
                }
                j += 1;
            }
            i += 1;
        }
        let mut i: usize = 0;
        while i < es_len
            invariant
                0 <= i <= es_len,
                cs_len == self.spec_containers().len(),
                es_len == self.spec_elements().len(),
                forall|x: int, y: int|
                    0 <= x < i && 0 <= y < es_len && x != y
                        ==> #[trigger] self.spec_elements()[x].id.spec_value()
                        != #[trigger] self.spec_elements()[y].id.spec_value(),
            decreases es_len - i,
        {
            let my_id = self.elements[i].id.get_value();
            let mut j: usize = 0;
            while j < es_len
                invariant
                    0 <= j <= es_len,
                    i < es_len,
                    es_len == self.spec_elements().len(),
                    my_id == self.spec_elements()[i as int].id.spec_value(),
                    forall|y: int|
                        0 <= y < j && y != i ==> #[trigger] self.spec_elements()[y].id.spec_value()
                            != my_id,
                decreases es_len - j,
            {
                if j != i && self.elements[j].id.get_value() == my_id {
                    return false;
                }
                j += 1;
            }
            i += 1;
        }
        let mut i: usize = 0;
        while i < cs_len
            invariant
                0 <= i <= cs_len,
                cs_len == self.spec_containers().len(),
                es_len == self.spec_elements().len(),
                forall|x: int, y: int|
                    0 <= x < i && 0 <= y < cs_len && x != y
                        ==> #[trigger] self.spec_containers()[x].name@
                        != #[trigger] self.spec_containers()[y].name@,
                forall|x: int, y: int|
                    0 <= x < i && 0 <= y < es_len ==> #[trigger] self.spec_containers()[x].name@
                        != #[trigger] self.spec_elements()[y].name@,
            decreases cs_len - i,
        {
            let mut j: usize = 0;
            while j < cs_len
                invariant
                    0 <= j <= cs_len,
                    i < cs_len,
                    cs_len == self.spec_containers().len(),
                    forall|y: int|
                        0 <= y < j && y != i ==> #[trigger] self.spec_containers()[y].name@
                            != self.spec_containers()[i as int].name@,
                decreases cs_len - j,
            {
                if j != i && self.containers[j].name == self.containers[i].name {
                    return false;
                }
                j += 1;
            }
            let mut j: usize = 0;
            while j < es_len
                invariant
                    0 <= j <= es_len,
                    i < cs_len,
                    cs_len == self.spec_containers().len(),
                    es_len == self.spec_elements().len(),
                    forall|y: int|
                        0 <= y < j ==> #[trigger] self.spec_elements()[y].name@
                            != self.spec_containers()[i as int].name@,
                decreases es_len - j,
            {
                if self.elements[j].name == self.containers[i].name {
                    return false;
                }
                j += 1;
            }
            i += 1;
        }
        let mut i: usize = 0;
        while i < es_len
            invariant
                0 <= i <= es_len,
                es_len == self.spec_elements().len(),
                forall|x: int, y: int|
                    0 <= x < i && 0 <= y < es_len && x != y
                        ==> #[trigger] self.spec_elements()[x].name@
                        != #[trigger] self.spec_elements()[y].name@,
            decreases es_len - i,
        {
            let mut j: usize = 0;
            while j < es_len
                invariant
                    0 <= j <= es_len,
                    i < es_len,
                    es_len == self.spec_elements().len(),
                    forall|y: int|
                        0 <= y < j && y != i ==> #[trigger] self.spec_elements()[y].name@
                            != self.spec_elements()[i as int].name@,
                decreases es_len - j,
            {
                if j != i && self.elements[j].name == self.elements[i].name {
                    return false;
                }
                j += 1;
            }
            i += 1;
        }
        true
    }

    /// How many container types the schema has.
    pub fn container_count(&self) -> (r: usize)
        ensures
            r == self.spec_containers().len(),
    {
        self.containers.len()
    }

    /// How many element types the schema has.
    pub fn element_count(&self) -> (r: usize)
        ensures
            r == self.spec_elements().len(),
    {
        self.elements.len()
    }

    /// The container type at `i`.
    pub fn container(&self, i: usize) -> (r: &ContainerType)
        requires
            i < self.spec_containers().len(),
        ensures
            *r == self.spec_containers()[i as int],
    {
        &self.containers[i]
    }

    /// The element type at `i`.
    pub fn element(&self, i: usize) -> (r: &ElementType)
        requires
            i < self.spec_elements().len(),
        ensures
            *r == self.spec_elements()[i as int],
    {
        &self.elements[i]
    }

    /// The index of the root container.
    pub fn root_index(&self) -> (r: usize)
        ensures
            r == self.spec_root(),
    {
        self.root
    }

    /// Whether some element type carries the ID and is legal under the
    /// container at index `c` at nesting level `level`.
    pub open spec fn spec_some_element(self, idv: int, c: int, level: int) -> bool {
        exists|e: int|
            0 <= e < self.spec_elements().len() && #[trigger] self.spec_elements()[e].id.spec_value()
                == idv && self.spec_element_legal(e, c, level)
    }

    /// Whether some container type carries the ID and is legal under the
    /// container at index `c` at nesting level `level`.
    pub open spec fn spec_some_container(self, idv: int, c: int, level: int) -> bool {
        exists|x: int|
            0 <= x < self.spec_containers().len()
                && #[trigger] self.spec_containers()[x].id.spec_value() == idv
                && self.spec_container_legal(x, c, level)
    }

    /// Resolves an ID against the container at index `parent`, for a child
    /// at nesting level `level`: the element type carrying the ID if one
    /// exists and is legal there, else the container type likewise, and
    /// `NotAChild` when there is neither.
    pub fn lookup_child_by_id(&self, parent: usize, id_value: u64, level: u64) -> (r: ChildKind)
        requires
            self.wf(),
            parent < self.spec_containers().len(),
        ensures
            self.spec_some_element(id_value as int, parent as int, level as int) ==> r matches
                ChildKind::Element(_),
            !self.spec_some_element(id_value as int, parent as int, level as int)
                && self.spec_some_container(id_value as int, parent as int, level as int)
                ==> r matches ChildKind::Container(_),
            match r {
                ChildKind::Element(e) => {
                    &&& e < self.spec_elements().len()
                    &&& self.spec_elements()[e as int].id.spec_value() == id_value
                    &&& self.spec_element_legal(e as int, parent as int, level as int)
                },
                ChildKind::Container(c) => {
                    &&& c < self.spec_containers().len()
                    &&& self.spec_containers()[c as int].id.spec_value() == id_value
                    &&& self.spec_container_legal(c as int, parent as int, level as int)
                },
                ChildKind::NotAChild => {
                    &&& forall|e: int|
                        0 <= e < self.spec_elements().len() ==> !(
                        #[trigger] self.spec_elements()[e].id.spec_value() == id_value
                            && self.spec_element_legal(e, parent as int, level as int))
                    &&& forall|c: int|
                        0 <= c < self.spec_containers().len() ==> !(
                        #[trigger] self.spec_containers()[c].id.spec_value() == id_value
                            && self.spec_container_legal(c, parent as int, level as int))
                },
            },
    {
        let mut e: usize = 0;
        while e < self.elements.len()
            invariant
                0 <= e <= self.spec_elements().len(),
                parent < self.spec_containers().len(),
                forall|x: int|
                    0 <= x < e ==> !(#[trigger] self.spec_elements()[x].id.spec_value() == id_value
                        && self.spec_element_legal(x, parent as int, level as int)),
            decreases self.spec_elements().len() - e,
        {
            let et = &self.elements[e];
            if et.id.get_value() == id_value {
                let parent_ok = match et.parent {
                    AllowedParent::AnyContainer => true,
                    AllowedParent::Container(p) => p == parent,
                };
                if parent_ok && level_ok(&et.min_level, &et.max_level, level) {
                    return ChildKind::Element(e);
                }
            }
            e += 1;
        }
        let mut c: usize = 0;
        while c < self.containers.len()
            invariant
                0 <= c <= self.spec_containers().len(),
                parent < self.spec_containers().len(),
                forall|x: int|
                    0 <= x < self.spec_elements().len() ==> !(
                    #[trigger] self.spec_elements()[x].id.spec_value() == id_value
                        && self.spec_element_legal(x, parent as int, level as int)),
                forall|x: int|
                    0 <= x < c ==> !(#[trigger] self.spec_containers()[x].id.spec_value()
                        == id_value && self.spec_container_legal(x, parent as int, level as int)),
            decreases self.spec_containers().len() - c,
        {
            let ct = &self.containers[c];
            if ct.id.get_value() == id_value {
                let parent_ok = match ct.parent {
                    AllowedParent::AnyContainer => true,
                    AllowedParent::Container(p) => p == parent,
                };
                if parent_ok && level_ok(&ct.min_level, &ct.max_level, level) {
                    return ChildKind::Container(c);
                }
            }
            c += 1;
        }
        ChildKind::NotAChild
    }
}

/// The greatest nesting level used in place of "no maximum" for the
/// standard types, which the format leaves unbounded on the right.
pub const MAX_STANDARD_LEVEL: u64 = 8192;

/// The shape shared by the two standard header containers: any parent, any
/// level up to the standard bound, order significant.
pub open spec fn spec_is_std_container(ct: ContainerType, name: Seq<char>, idv: int) -> bool {
    &&& ct.name@ == name
    &&& ct.id.spec_value() == idv
    &&& ct.cardinality == Cardinality::ZeroOrMany
    &&& ct.child_order == ChildOrder::Significant
    &&& ct.parent == AllowedParent::AnyContainer
    &&& ct.min_level == Some(0u64)
    &&& ct.max_level == Some(MAX_STANDARD_LEVEL)
}

/// The shape shared by the unsigned members of the standard header: at most
/// one occurrence, the header container as parent, no level bounds, no
/// restriction, and the given default.
pub open spec fn spec_is_std_uint_element(
    et: ElementType,
    name: Seq<char>,
    idv: int,
    default: int,
) -> bool {
    &&& et.name@ == name
    &&& et.id.spec_value() == idv
    &&& et.kind == ValueKind::Uint
    &&& et.cardinality == Cardinality::ZeroOrOne
    &&& et.parent == AllowedParent::Container(0)
    &&& et.min_level is None
    &&& et.max_level is None
    &&& et.default matches Some(v) && v matches Value::Uint(uv) && uv.spec_repr() == default
    &&& et.restriction is None
}

/// An element of the standard header with an unsigned default value and the
/// header container as its parent.
fn std_uint_element(name: &str, encoded_id: u32, default: u8) -> (r: Option<ElementType>)
    ensures
        r matches Some(et) ==> et.kind == ValueKind::Uint,
        0x407F <= encoded_id <= 0x7FFE ==> ({
            &&& r matches Some(et)
            &&& spec_is_std_uint_element(et, name@, encoded_id - 0x4000, default as int)
        }),
{
    let id = match Id::from_encoded(encoded_id) {
        Some(id) => id,
        None => {
            return None;
        },
    };
    Some(
        ElementType {
            name: name.to_owned(),
            id,
            kind: ValueKind::Uint,
            cardinality: Cardinality::ZeroOrOne,
            parent: AllowedParent::Container(0),
            min_level: None,
            max_level: None,
            default: Some(Value::Uint(crate::value::UintValue::from_u8(default))),
            restriction: None,
        },
    )
}

/// The standard schema that every EBML document shares: the `EBML` header
/// container and its members, the CRC-32 types and `Void`, with the IDs the
/// format fixes for them. The root is the `EBML` container.
pub fn standard_schema() -> (r: Option<Schema>)
    ensures
        r matches Some(s) && ({
            let cs = s.spec_containers();
            let es = s.spec_elements();
            &&& s.wf()
            &&& s.spec_root() == 0
            &&& cs.len() == 2
            &&& spec_is_std_container(cs[0], "EBML"@, 0x0A45_DFA3)
            &&& spec_is_std_container(cs[1], "CRC32"@, 0x43)
            &&& es.len() == 9
            &&& spec_is_std_uint_element(es[0], "EBMLVersion"@, 0x286, 1)
            &&& spec_is_std_uint_element(es[1], "EBMLReadVersion"@, 0x2F7, 1)
            &&& spec_is_std_uint_element(es[2], "EBMLMaxIDWidth"@, 0x2F2, 4)
            &&& spec_is_std_uint_element(es[3], "EBMLMaxSizeWidth"@, 0x2F3, 8)
            &&& es[4].name@ == "DocType"@
            &&& es[4].id.spec_value() == 0x282
            &&& es[4].kind == ValueKind::Binary
            &&& es[4].cardinality == Cardinality::ZeroOrOne
            &&& es[4].parent == AllowedParent::Container(0)
            &&& es[4].min_level is None && es[4].max_level is None && es[4].default is None
            &&& es[4].restriction matches Some(rst) && rst matches Restriction::Ranges(rs) && rs
                matches crate::restrictions::RangeSet::Binary(items) && items@ =~= seq![
                (crate::restrictions::BinaryRangeRestriction::Closed { min: 0x20u8, max: 0x7Eu8 }),
            ]
            &&& spec_is_std_uint_element(es[5], "DocTypeVersion"@, 0x287, 1)
            &&& spec_is_std_uint_element(es[6], "DocTypeReadVersion"@, 0x285, 1)
            &&& es[7].name@ == "CRC32Value"@
            &&& es[7].id.spec_value() == 0x2FE
            &&& es[7].kind == ValueKind::Binary
            &&& es[7].cardinality == Cardinality::ZeroOrOne
            &&& es[7].parent == AllowedParent::Container(0)
            &&& es[7].min_level is None && es[7].max_level is None && es[7].default is None
            &&& es[7].restriction is None
            &&& es[8].name@ == "Void"@
            &&& es[8].id.spec_value() == 0x6C
            &&& es[8].kind == ValueKind::Binary
            &&& es[8].cardinality == Cardinality::ZeroOrMany
            &&& es[8].parent == AllowedParent::AnyContainer
            &&& es[8].min_level == Some(1u64)
            &&& es[8].max_level == Some(MAX_STANDARD_LEVEL)
            &&& es[8].default is None && es[8].restriction is None
        }),
{
    let ebml_id = match Id::from_encoded(0x1A45_DFA3) {
        Some(id) => id,
        None => {
            return None;
        },
    };
    let crc32_id = match Id::from_encoded(0xC3) {
        Some(id) => id,
        None => {
            return None;
        },
    };
    let mut containers: Vec<ContainerType> = Vec::new();
    containers.push(
        ContainerType {
            name: "EBML".to_owned(),
            id: ebml_id,
            cardinality: Cardinality::ZeroOrMany,
            child_order: ChildOrder::Significant,
            parent: AllowedParent::AnyContainer,
            min_level: Some(0),
            max_level: Some(MAX_STANDARD_LEVEL),
            },
    );
    containers.push(
        ContainerType {
            name: "CRC32".to_owned(),
            id: crc32_id,
            cardinality: Cardinality::ZeroOrMany,
            child_order: ChildOrder::Significant,
            parent: AllowedParent::AnyContainer,
            min_level: Some(0),
            max_level: Some(MAX_STANDARD_LEVEL),
        },
    );
    let mut elements: Vec<ElementType> = Vec::new();
    match std_uint_element("EBMLVersion", 0x4286, 1) {
        Some(et) => elements.push(et),
        None => {
            return None;
        },
    }
    match std_uint_element("EBMLReadVersion", 0x42F7, 1) {
        Some(et) => elements.push(et),
        None => {
            return None;
        },
    }
    match std_uint_element("EBMLMaxIDWidth", 0x42F2, 4) {
        Some(et) => elements.push(et),
        None => {
            return None;
        },
    }
    match std_uint_element("EBMLMaxSizeWidth", 0x42F3, 8) {
        Some(et) => elements.push(et),
        None => {
            return None;
        },
    }
    let doctype_id = match Id::from_encoded(0x4282) {
        Some(id) => id,
        None => {
            return None;
        },
    };
    let mut doctype_ranges: Vec<crate::restrictions::BinaryRangeRestriction> = Vec::new();
    doctype_ranges.push(crate::restrictions::BinaryRangeRestriction::Closed { min: 0x20, max: 0x7E });
    elements.push(
        ElementType {
            name: "DocType".to_owned(),
            id: doctype_id,
            kind: ValueKind::Binary,
            cardinality: Cardinality::ZeroOrOne,
            parent: AllowedParent::Container(0),
            min_level: None,
            max_level: None,
            default: None,
            restriction: Some(
                Restriction::Ranges(crate::restrictions::RangeSet::Binary(doctype_ranges)),
            ),
        },
    );
    match std_uint_element("DocTypeVersion", 0x4287, 1) {
        Some(et) => elements.push(et),
        None => {
            return None;
        },
    }
    match std_uint_element("DocTypeReadVersion", 0x4285, 1) {
        Some(et) => elements.push(et),
        None => {
            return None;
        },
    }
    let crc32_value_id = match Id::from_encoded(0x42FE) {
        Some(id) => id,
        None => {
            return None;
        },
    };
    elements.push(
        ElementType {
            name: "CRC32Value".to_owned(),
            id: crc32_value_id,
            kind: ValueKind::Binary,
            cardinality: Cardinality::ZeroOrOne,
            parent: AllowedParent::Container(0),
            min_level: None,
            max_level: None,
            default: None,
            restriction: None,
        },
    );
    let void_id = match Id::from_encoded(0xEC) {
        Some(id) => id,
        None => {
            return None;
        },
    };
    elements.push(
        ElementType {
            name: "Void".to_owned(),
            id: void_id,
            kind: ValueKind::Binary,
            cardinality: Cardinality::ZeroOrMany,
            parent: AllowedParent::AnyContainer,
            min_level: Some(1),
            max_level: Some(MAX_STANDARD_LEVEL),
            default: None,
            restriction: None,
        },
    );
    proof {
        reveal_strlit("EBML");
        reveal_strlit("CRC32");
        reveal_strlit("EBMLVersion");
        reveal_strlit("EBMLReadVersion");
        reveal_strlit("EBMLMaxIDWidth");
        reveal_strlit("EBMLMaxSizeWidth");
        reveal_strlit("DocType");
        reveal_strlit("DocTypeVersion");
        reveal_strlit("DocTypeReadVersion");
        reveal_strlit("CRC32Value");
        reveal_strlit("Void");
        // The only same-length name pairs differ in their first character.
        assert("EBML"@[0] != "Void"@[0]);
        assert("EBMLMaxIDWidth"@[0] != "DocTypeVersion"@[0]);
        let cs = containers@;
        let es = elements@;
        assert(cs.len() == 2 && es.len() == 9);
        assert(spec_is_std_container(cs[0], "EBML"@, 0x0A45_DFA3));
        assert(spec_is_std_container(cs[1], "CRC32"@, 0x43));
        assert(spec_is_std_uint_element(es[0], "EBMLVersion"@, 0x286, 1));
        assert(spec_is_std_uint_element(es[1], "EBMLReadVersion"@, 0x2F7, 1));
        assert(spec_is_std_uint_element(es[2], "EBMLMaxIDWidth"@, 0x2F2, 4));
        assert(spec_is_std_uint_element(es[3], "EBMLMaxSizeWidth"@, 0x2F3, 8));
        assert(es[4].id.spec_value() == 0x282 && es[4].name@ == "DocType"@ && es[4].parent
            == AllowedParent::Container(0));
        assert(spec_is_std_uint_element(es[5], "DocTypeVersion"@, 0x287, 1));
        assert(spec_is_std_uint_element(es[6], "DocTypeReadVersion"@, 0x285, 1));
        assert(es[7].id.spec_value() == 0x2FE && es[7].name@ == "CRC32Value"@ && es[7].parent
            == AllowedParent::Container(0));
        assert(es[8].id.spec_value() == 0x6C && es[8].name@ == "Void"@ && es[8].parent
            == AllowedParent::AnyContainer);
        assert("EBML"@.len() == 4 && "CRC32"@.len() == 5 && "EBMLVersion"@.len() == 11
            && "EBMLReadVersion"@.len() == 15 && "EBMLMaxIDWidth"@.len() == 14
            && "EBMLMaxSizeWidth"@.len() == 16 && "DocType"@.len() == 7 && "DocTypeVersion"@.len()
            == 14 && "DocTypeReadVersion"@.len() == 18 && "CRC32Value"@.len() == 10
            && "Void"@.len() == 4);
        assert forall|i: int, j: int| 0 <= i < 2 && 0 <= j < 2 && i != j implies cs[i].id.spec_value()
            != cs[j].id.spec_value() by {}
        assert forall|i: int, j: int|
            0 <= i < 9 && 0 <= j < 9 && i != j implies es[i].id.spec_value()
            != es[j].id.spec_value() by {}
        assert forall|i: int, j: int| 0 <= i < 2 && 0 <= j < 9 implies cs[i].id.spec_value()
            != es[j].id.spec_value() by {}
        assert forall|i: int, j: int| 0 <= i < 2 && 0 <= j < 2 && i != j implies cs[i].name@
            != cs[j].name@ by {}
        assert forall|i: int, j: int| 0 <= i < 9 && 0 <= j < 9 && i != j implies es[i].name@
            != es[j].name@ by {}
        assert forall|i: int, j: int| 0 <= i < 2 && 0 <= j < 9 implies cs[i].name@ != es[j].name@
            by {}
        assert(schema_parts_wf(containers@, elements@, 0));
    }
    match Schema::new(containers, elements, 0) {
        Ok(s) => Some(s),
        Err(_) => None,
    }
}

} // verus!
