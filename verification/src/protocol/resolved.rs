//! The types that definitions resolve to: enums, wrappers, messages and the
//! coders of their chunks.
use vstd::prelude::*;
use vstd::string::*;

use crate::protocol::types::{TypeHandle, TypeHandleView};

verus! {

/// An enum of a protocol, one byte wide up to 255 variants.
#[derive(Debug)]
pub struct Enum {
    pub name: String,
    pub variants: Vec<String>,
    pub size: usize,
}

pub struct EnumView {
    pub name: Seq<char>,
    pub variants: Seq<Seq<char>>,
    pub size: nat,
}

impl View for Enum {
    type V = EnumView;

    open spec fn view(&self) -> EnumView {
        EnumView {
            name: self.name@,
            variants: self.variants@.map_values(|v: String| v@),
            size: self.size as nat,
        }
    }
}

impl Enum {
    pub fn name(&self) -> (r: String)
        ensures
            r == self.name,
    {
        self.name.clone()
    }

    pub fn get_size(&self) -> (r: usize)
        ensures
            r == self.size,
    {
        self.size
    }

    /// The alignment, which is the size.
    pub fn get_align(&self) -> (r: usize)
        ensures
            r == self.size,
    {
        self.size
    }
}

/// A tuple struct of primitive fields, with the padding that aligns them.
#[derive(Debug)]
pub struct Wrapper {
    pub name: String,
    pub types: Vec<TypeHandle>,
    pub size: usize,
    pub align: usize,
}

pub struct WrapperView {
    pub name: Seq<char>,
    pub types: Seq<TypeHandleView>,
    pub size: nat,
    pub align: nat,
}

impl View for Wrapper {
    type V = WrapperView;

    open spec fn view(&self) -> WrapperView {
        WrapperView {
            name: self.name@,
            types: self.types@.map_values(|t: TypeHandle| t@),
            size: self.size as nat,
            align: self.align as nat,
        }
    }
}

impl Wrapper {
    pub fn name(&self) -> (r: String)
        ensures
            r == self.name,
    {
        self.name.clone()
    }

    pub fn get_size(&self) -> (r: usize)
        ensures
            r == self.size,
    {
        self.size
    }

    pub fn get_align(&self) -> (r: usize)
        ensures
            r == self.align,
    {
        self.align
    }
}

/// A field of a message: a name and the handle of its type.
#[derive(Debug)]
pub struct Field {
    pub name: String,
    pub ty: TypeHandle,
}

pub struct FieldView {
    pub name: Seq<char>,
    pub ty: TypeHandleView,
}

impl View for Field {
    type V = FieldView;

    open spec fn view(&self) -> FieldView {
        FieldView { name: self.name@, ty: self.ty@ }
    }
}

/// How a value of a chunk is decoded: by a length read from another field at
/// run time, or by a type known at compile time.
#[derive(Debug)]
pub enum PatternType {
    RunTime(TypeHandle, String),
    CompileTime(TypeHandle),
}

pub enum PatternTypeView {
    RunTime(TypeHandleView, Seq<char>),
    CompileTime(TypeHandleView),
}

impl View for PatternType {
    type V = PatternTypeView;

    open spec fn view(&self) -> PatternTypeView {
        match self {
            PatternType::RunTime(h, src) => PatternTypeView::RunTime(h@, src@),
            PatternType::CompileTime(h) => PatternTypeView::CompileTime(h@),
        }
    }
}

impl PatternTypeView {
    /// How documentation of generated code describes the pattern.
    pub open spec fn display(self) -> Seq<char> {
        match self {
            PatternTypeView::RunTime(_, _) => "variable"@,
            PatternTypeView::CompileTime(h) => h.display(),
        }
    }
}

impl PatternType {
    /// How documentation of generated code describes the pattern:
    /// `variable` for one decoded at run time, else its type.
    pub fn to_string(&self) -> (r: String)
        ensures
            r@ == self@.display(),
    {
        match self {
            PatternType::RunTime(_, _) => String::from_str("variable"),
            PatternType::CompileTime(h) => h.to_string(),
        }
    }
}

/// One value of a chunk: its name, how it is decoded and its size.
#[derive(Debug)]
pub struct Pattern {
    pub name: String,
    pub ty: PatternType,
    pub size: usize,
}

pub struct PatternView {
    pub name: Seq<char>,
    pub ty: PatternTypeView,
    pub size: nat,
}

impl View for Pattern {
    type V = PatternView;

    open spec fn view(&self) -> PatternView {
        PatternView { name: self.name@, ty: self.ty@, size: self.size as nat }
    }
}

/// The coder of the chunk at the end of a message: the values each entry of
/// the chunk holds.
#[derive(Debug)]
pub struct ChunkCoder {
    pub name: String,
    pub patterns: Vec<Pattern>,
}

pub struct ChunkCoderView {
    pub name: Seq<char>,
    pub patterns: Seq<PatternView>,
}

impl View for ChunkCoder {
    type V = ChunkCoderView;

    open spec fn view(&self) -> ChunkCoderView {
        ChunkCoderView { name: self.name@, patterns: self.patterns@.map_values(|p: Pattern| p@) }
    }
}

/// A message of a protocol, laid out in the bytes after its header.
#[derive(Debug)]
pub struct Message {
    pub name: String,
    pub ty: String,
    pub version: u8,
    pub fields: Vec<Field>,
    pub size: usize,
    pub chunk: Option<ChunkCoder>,
}

pub struct MessageView {
    pub name: Seq<char>,
    pub ty: Seq<char>,
    pub version: u8,
    pub fields: Seq<FieldView>,
    pub size: nat,
    pub chunk: Option<ChunkCoderView>,
}

impl View for Message {
    type V = MessageView;

    open spec fn view(&self) -> MessageView {
        MessageView {
            name: self.name@,
            ty: self.ty@,
            version: self.version,
            fields: self.fields@.map_values(|f: Field| f@),
            size: self.size as nat,
            chunk: match self.chunk {
                Some(c) => Some(c@),
                None => None,
            },
        }
    }
}

impl Message {
    pub fn name(&self) -> (r: String)
        ensures
            r == self.name,
    {
        self.name.clone()
    }

    /// The mask of the header's bytes that a filter on messages compares:
    /// destination and version are ignored, both bytes of the type are
    /// compared.
    pub fn get_mask(&self) -> (r: String)
        ensures
            r@ == "[0x00,0x00,0xFF,0xFF]"@,
    {
        String::from_str("[0x00,0x00,0xFF,0xFF]")
    }
}

} // verus!
