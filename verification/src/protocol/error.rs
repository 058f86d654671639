//! What can go wrong in reading and resolving a protocol.
use vstd::prelude::*;

verus! {

/// An error in a protocol document or in its definitions.
#[derive(Debug)]
pub enum Error {
    /// An enum names one variant twice.
    DuplicateVariant { duplicate: String, src: String },
    /// A message names one field twice.
    DuplicateField { duplicate: String, src: String },
    /// An element of a field lacks an attribute.
    MissingAttributeInField { name: String, src: String },
    /// An element lacks an attribute.
    MissingAttribute { name: String, src: String },
    /// An element has a tag that is not allowed where it stands.
    UnknownTag(String),
    /// A definition uses a type that is not defined.
    MissingType(String),
    /// A definition defines a type whose name is taken.
    AlreadyDefined(String),
    /// The document is not well-formed XML.
    MalformedXml,
    /// A message has more than one chunk.
    DuplicateChunk(String),
    /// The version of a message is not a number from 0 to 255.
    InvalidVersion { version: String, src: String },
    /// A field of a message has a type with no size of its own.
    UnsizedType { ty: String, src: String },
    /// The fields of a message do not fit in its bytes.
    MessageTooLarge(String),
}

/// An error, with its texts as character sequences.
pub enum ErrorView {
    DuplicateVariant { duplicate: Seq<char>, src: Seq<char> },
    DuplicateField { duplicate: Seq<char>, src: Seq<char> },
    MissingAttributeInField { name: Seq<char>, src: Seq<char> },
    MissingAttribute { name: Seq<char>, src: Seq<char> },
    UnknownTag(Seq<char>),
    MissingType(Seq<char>),
    AlreadyDefined(Seq<char>),
    MalformedXml,
    DuplicateChunk(Seq<char>),
    InvalidVersion { version: Seq<char>, src: Seq<char> },
    UnsizedType { ty: Seq<char>, src: Seq<char> },
    MessageTooLarge(Seq<char>),
}

impl View for Error {
    type V = ErrorView;

    open spec fn view(&self) -> ErrorView {
        match self {
            Error::DuplicateVariant { duplicate, src } => ErrorView::DuplicateVariant {
                duplicate: duplicate@,
                src: src@,
            },
            Error::DuplicateField { duplicate, src } => ErrorView::DuplicateField {
                duplicate: duplicate@,
                src: src@,
            },
            Error::MissingAttributeInField { name, src } => ErrorView::MissingAttributeInField {
                name: name@,
                src: src@,
            },
            Error::MissingAttribute { name, src } => ErrorView::MissingAttribute {
                name: name@,
                src: src@,
            },
            Error::UnknownTag(t) => ErrorView::UnknownTag(t@),
            Error::MissingType(t) => ErrorView::MissingType(t@),
            Error::AlreadyDefined(t) => ErrorView::AlreadyDefined(t@),
            Error::MalformedXml => ErrorView::MalformedXml,
            Error::DuplicateChunk(t) => ErrorView::DuplicateChunk(t@),
            Error::InvalidVersion { version, src } => ErrorView::InvalidVersion {
                version: version@,
                src: src@,
            },
            Error::UnsizedType { ty, src } => ErrorView::UnsizedType { ty: ty@, src: src@ },
            Error::MessageTooLarge(t) => ErrorView::MessageTooLarge(t@),
        }
    }
}

} // verus!
