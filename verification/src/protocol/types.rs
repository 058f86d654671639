//! Type handles, by which generated code names a type, and resolved types,
//! which know their layout.
use vstd::prelude::*;
use vstd::string::*;

use crate::protocol::primitive::PrimitiveType;
use crate::protocol::resolved::{Enum, EnumView, Message, MessageView, Wrapper, WrapperView};
use crate::protocol::text::{decimal, decimal_string};

verus! {

/// How generated code names the type of a field.
#[derive(Debug)]
pub enum TypeHandle {
    U8,
    U16,
    U32,
    U64,
    U128,
    I8,
    I16,
    I32,
    I64,
    I128,
    F32,
    F64,
    Char,
    Bool,
    String,
    ByteArray(usize),
    Other(String),
}

/// A type handle, with the name of another type as a character sequence.
pub enum TypeHandleView {
    U8,
    U16,
    U32,
    U64,
    U128,
    I8,
    I16,
    I32,
    I64,
    I128,
    F32,
    F64,
    Char,
    Bool,
    String,
    ByteArray(nat),
    Other(Seq<char>),
}

impl View for TypeHandle {
    type V = TypeHandleView;

    open spec fn view(&self) -> TypeHandleView {
        match self {
            TypeHandle::U8 => TypeHandleView::U8,
            TypeHandle::U16 => TypeHandleView::U16,
            TypeHandle::U32 => TypeHandleView::U32,
            TypeHandle::U64 => TypeHandleView::U64,
            TypeHandle::U128 => TypeHandleView::U128,
            TypeHandle::I8 => TypeHandleView::I8,
            TypeHandle::I16 => TypeHandleView::I16,
            TypeHandle::I32 => TypeHandleView::I32,
            TypeHandle::I64 => TypeHandleView::I64,
            TypeHandle::I128 => TypeHandleView::I128,
            TypeHandle::F32 => TypeHandleView::F32,
            TypeHandle::F64 => TypeHandleView::F64,
            TypeHandle::Char => TypeHandleView::Char,
            TypeHandle::Bool => TypeHandleView::Bool,
            TypeHandle::String => TypeHandleView::String,
            TypeHandle::ByteArray(size) => TypeHandleView::ByteArray(*size as nat),
            TypeHandle::Other(o) => TypeHandleView::Other(o@),
        }
    }
}

impl TypeHandleView {
    /// The type as generated code writes it.
    pub open spec fn display(self) -> Seq<char> {
        match self {
            TypeHandleView::U8 => "u8"@,
            TypeHandleView::U16 => "u16"@,
            TypeHandleView::U32 => "u32"@,
            TypeHandleView::U64 => "u64"@,
            TypeHandleView::U128 => "u128"@,
            TypeHandleView::I8 => "i8"@,
            TypeHandleView::I16 => "i16"@,
            TypeHandleView::I32 => "i32"@,
            TypeHandleView::I64 => "i64"@,
            TypeHandleView::I128 => "i128"@,
            TypeHandleView::F32 => "f32"@,
            TypeHandleView::F64 => "f64"@,
            TypeHandleView::Char => "char"@,
            TypeHandleView::Bool => "bool"@,
            TypeHandleView::String => "String"@,
            TypeHandleView::ByteArray(size) => byte_array_name(size),
            TypeHandleView::Other(o) => o,
        }
    }
}

impl TypeHandle {
    /// The type as generated code writes it: `u8`, `[u8; 4]`, `Color`, ...
    pub fn to_string(&self) -> (r: String)
        ensures
            r@ == self@.display(),
    {
        match self {
            TypeHandle::U8 => String::from_str("u8"),
            TypeHandle::U16 => String::from_str("u16"),
            TypeHandle::U32 => String::from_str("u32"),
            TypeHandle::U64 => String::from_str("u64"),
            TypeHandle::U128 => String::from_str("u128"),
            TypeHandle::I8 => String::from_str("i8"),
            TypeHandle::I16 => String::from_str("i16"),
            TypeHandle::I32 => String::from_str("i32"),
            TypeHandle::I64 => String::from_str("i64"),
            TypeHandle::I128 => String::from_str("i128"),
            TypeHandle::F32 => String::from_str("f32"),
            TypeHandle::F64 => String::from_str("f64"),
            TypeHandle::Char => String::from_str("char"),
            TypeHandle::Bool => String::from_str("bool"),
            TypeHandle::String => String::from_str("String"),
            TypeHandle::ByteArray(size) => byte_array_string(*size),
            TypeHandle::Other(o) => o.clone(),
        }
    }
}

/// The name of a byte array of `size` bytes: `[u8; size]`.
pub open spec fn byte_array_name(size: nat) -> Seq<char> {
    "[u8; "@ + decimal(size) + "]"@
}

fn byte_array_string(size: usize) -> (r: String)
    ensures
        r@ == byte_array_name(size as nat),
{
    let mut s = String::from_str("[u8; ");
    let d = decimal_string(size);
    s.append(d.as_str());
    s.append("]");
    s
}

/// A type that a protocol's definitions can use, with what is known of its
/// layout.
#[derive(Debug)]
pub enum ResolvedType {
    Char,
    Bool,
    F32,
    F64,
    String,
    Primitive(PrimitiveType),
    Enum(Enum),
    Wrapper(Wrapper),
    ByteArray(usize),
    /// The bytes of a message that its earlier fields leave.
    Remainder,
    Message(Message),
}

/// A resolved type, with its names as character sequences.
pub enum ResolvedTypeView {
    Char,
    Bool,
    F32,
    F64,
    String,
    Primitive(PrimitiveType),
    Enum(EnumView),
    Wrapper(WrapperView),
    ByteArray(nat),
    Remainder,
    Message(MessageView),
}

impl View for ResolvedType {
    type V = ResolvedTypeView;

    open spec fn view(&self) -> ResolvedTypeView {
        match self {
            ResolvedType::Char => ResolvedTypeView::Char,
            ResolvedType::Bool => ResolvedTypeView::Bool,
            ResolvedType::F32 => ResolvedTypeView::F32,
            ResolvedType::F64 => ResolvedTypeView::F64,
            ResolvedType::String => ResolvedTypeView::String,
            ResolvedType::Primitive(p) => ResolvedTypeView::Primitive(*p),
            ResolvedType::Enum(e) => ResolvedTypeView::Enum(e@),
            ResolvedType::Wrapper(w) => ResolvedTypeView::Wrapper(w@),
            ResolvedType::ByteArray(n) => ResolvedTypeView::ByteArray(*n as nat),
            ResolvedType::Remainder => ResolvedTypeView::Remainder,
            ResolvedType::Message(m) => ResolvedTypeView::Message(m@),
        }
    }
}

impl ResolvedTypeView {
    /// Whether the type has a size of its own, so that a field can hold it.
    pub open spec fn is_sized(self) -> bool {
        !(self is Remainder) && !(self is Message)
    }

    /// The name under which the type is known.
    pub open spec fn name(self) -> Seq<char> {
        match self {
            ResolvedTypeView::Char => "char"@,
            ResolvedTypeView::Bool => "bool"@,
            ResolvedTypeView::F32 => "f32"@,
            ResolvedTypeView::F64 => "f64"@,
            ResolvedTypeView::String => "String"@,
            ResolvedTypeView::Primitive(p) => p.spec_name(),
            ResolvedTypeView::Enum(e) => e.name,
            ResolvedTypeView::Wrapper(w) => w.name,
            ResolvedTypeView::ByteArray(n) => byte_array_name(n),
            ResolvedTypeView::Remainder => Seq::empty(),
            ResolvedTypeView::Message(m) => m.name,
        }
    }

    /// The size in bytes of a sized type.
    pub open spec fn size(self) -> nat {
        match self {
            ResolvedTypeView::Char | ResolvedTypeView::Bool => 1,
            ResolvedTypeView::F32 => 4,
            ResolvedTypeView::F64 => 8,
            ResolvedTypeView::String => vstd::layout::size_of::<String>(),
            ResolvedTypeView::Primitive(p) => p.size(),
            ResolvedTypeView::Enum(e) => e.size,
            ResolvedTypeView::Wrapper(w) => w.size,
            ResolvedTypeView::ByteArray(n) => n,
            _ => 0,
        }
    }

    /// The alignment in bytes of a sized type.
    pub open spec fn align(self) -> nat {
        match self {
            ResolvedTypeView::Char | ResolvedTypeView::Bool | ResolvedTypeView::ByteArray(_) => 1,
            ResolvedTypeView::F32 => 4,
            ResolvedTypeView::F64 => 8,
            ResolvedTypeView::String => vstd::layout::align_of::<String>(),
            ResolvedTypeView::Primitive(p) => p.size(),
            ResolvedTypeView::Enum(e) => e.size,
            ResolvedTypeView::Wrapper(w) => w.align,
            _ => 0,
        }
    }

    /// The handle by which generated code names a sized type.
    pub open spec fn handle(self) -> TypeHandleView {
        match self {
            ResolvedTypeView::Char => TypeHandleView::Char,
            ResolvedTypeView::Bool => TypeHandleView::Bool,
            ResolvedTypeView::F32 => TypeHandleView::F32,
            ResolvedTypeView::F64 => TypeHandleView::F64,
            ResolvedTypeView::String => TypeHandleView::String,
            ResolvedTypeView::Primitive(p) => p.handle()@,
            ResolvedTypeView::Enum(e) => TypeHandleView::Other(e.name),
            ResolvedTypeView::Wrapper(w) => TypeHandleView::Other(w.name),
            ResolvedTypeView::ByteArray(n) => TypeHandleView::ByteArray(n),
            _ => TypeHandleView::Char,
        }
    }
}

impl ResolvedType {
    /// The name under which the type is known; a remainder has none.
    pub fn name(&self) -> (r: String)
        requires
            !(self is Remainder),
        ensures
            r@ == self@.name(),
    {
        match self {
            ResolvedType::Char => String::from_str("char"),
            ResolvedType::Bool => String::from_str("bool"),
            ResolvedType::F32 => String::from_str("f32"),
            ResolvedType::F64 => String::from_str("f64"),
            ResolvedType::String => String::from_str("String"),
            ResolvedType::Primitive(p) => p.name(),
            ResolvedType::Enum(e) => e.name(),
            ResolvedType::Wrapper(w) => w.name(),
            ResolvedType::Message(m) => m.name(),
            ResolvedType::ByteArray(n) => byte_array_string(*n),
            ResolvedType::Remainder => String::new(),
        }
    }

    /// The size in bytes; a remainder or a message has none of its own.
    pub fn get_size(&self) -> (r: usize)
        requires
            self@.is_sized(),
        ensures
            r == self@.size(),
    {
        match self {
            ResolvedType::Char | ResolvedType::Bool => 1,
            ResolvedType::F32 => 4,
            ResolvedType::F64 => 8,
            ResolvedType::String => core::mem::size_of::<String>(),
            ResolvedType::Primitive(p) => p.get_size(),
            ResolvedType::Enum(e) => e.get_size(),
            ResolvedType::Wrapper(w) => w.get_size(),
            ResolvedType::ByteArray(n) => *n,
            _ => 0,
        }
    }

    /// The alignment in bytes, which is never zero.
    pub fn get_align(&self) -> (r: usize)
        requires
            self@.is_sized(),
        ensures
            r == self@.align(),
    {
        match self {
            ResolvedType::Char | ResolvedType::Bool | ResolvedType::ByteArray(_) => 1,
            ResolvedType::F32 => 4,
            ResolvedType::F64 => 8,
            ResolvedType::String => core::mem::align_of::<String>(),
            ResolvedType::Primitive(p) => p.get_align(),
            ResolvedType::Enum(e) => e.get_align(),
            ResolvedType::Wrapper(w) => w.get_align(),
            _ => 0,
        }
    }

    /// The handle by which generated code names the type.
    pub fn get_handle(&self) -> (r: TypeHandle)
        requires
            self@.is_sized(),
        ensures
            r@ == self@.handle(),
    {
        match self {
            ResolvedType::Char => TypeHandle::Char,
            ResolvedType::Bool => TypeHandle::Bool,
            ResolvedType::F32 => TypeHandle::F32,
            ResolvedType::F64 => TypeHandle::F64,
            ResolvedType::String => TypeHandle::String,
            ResolvedType::Primitive(p) => p.get_handle(),
            ResolvedType::Enum(e) => TypeHandle::Other(e.name()),
            ResolvedType::Wrapper(w) => TypeHandle::Other(w.name()),
            ResolvedType::ByteArray(n) => TypeHandle::ByteArray(*n),
            _ => TypeHandle::Char,
        }
    }
}

} // verus!
