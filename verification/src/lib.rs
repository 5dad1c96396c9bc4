//! Tools for reading documents in the Extensible Binary Markup Language
//! format. EBML is a tree-structured binary format in which every node is
//! `ID || SIZE || DATA`; it is best known as the substrate of the Matroska
//! media container. The crate provides the variable-width integer codec that
//! underpins every EBML document, a value model for the six leaf kinds, a
//! schema model with the standard header elements, a schema-driven streaming
//! reader, and a parser for the EBML Document Type Definition (EDTD) textual
//! schema format.

pub mod datetime;
pub mod edtd;
mod error;
mod id;
mod peek;
mod reader;
mod restrictions;
mod schema;
mod value;
mod vint;

pub use datetime::DateTime;
pub use error::EbmlError;
pub use error::EbmlResult;
pub use id::Id;
pub use peek::PeekableReader;
pub use reader::decode_document;
pub use reader::Event;
pub use reader::Reader;
pub use reader::SizeInfo;
pub use schema::standard_schema;
pub use schema::AllowedParent;
pub use schema::Cardinality;
pub use schema::ChildKind;
pub use schema::ChildOrder;
pub use schema::ContainerType;
pub use schema::ElementType;
pub use schema::LevelBound;
pub use schema::Schema;
pub use schema::ValueKind;
pub use schema::MAX_STANDARD_LEVEL;
pub use restrictions::BinaryRangeRestriction;
pub use restrictions::DateRangeRestriction;
pub use restrictions::IntRangeRestriction;
pub use restrictions::Intersecton;
pub use restrictions::RangeSet;
pub use restrictions::Restriction;
pub use restrictions::StringRangeRestriction;
pub use restrictions::UintRangeRestriction;
pub use restrictions::Union;
pub use vint::lemma_unknown_size_partial_order;
pub use vint::Size;
pub use vint::VINT_MAX;
pub use value::BinaryValue;
pub use value::DateValue;
pub use value::FloatValue;
pub use value::IntValue;
pub use value::StringValue;
pub use value::UintValue;
pub use value::Value;
