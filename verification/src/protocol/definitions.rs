//! Definitions of a protocol's types as a protocol document states them,
//! and how each resolves against the table of the types known so far.
use vstd::prelude::*;
use vstd::string::*;

use crate::protocol::error::{Error, ErrorView};
use crate::protocol::primitive::PrimitiveType;
use crate::protocol::resolved::{
    ChunkCoder, ChunkCoderView, Enum, EnumView, Field, FieldView, Message, MessageView, Pattern,
    PatternType, PatternTypeView, PatternView, Wrapper, WrapperView,
};
use crate::protocol::table::{table_get, table_has, table_primitive, TableView, TypeTable};
use crate::protocol::text::{decimal, decimal_string, lowercase, parse_u8, parsed_u8, to_lowercase};
use crate::protocol::types::{ResolvedType, ResolvedTypeView, TypeHandle, TypeHandleView};

verus! {

/// The first index below `n` at which `p` holds, if there is one.
pub open spec fn first_where(n: int, p: spec_fn(int) -> bool) -> Option<int>
    decreases n,
{
    if n <= 0 {
        None
    } else {
        match first_where(n - 1, p) {
            Some(k) => Some(k),
            None => if p(n - 1) {
                Some(n - 1)
            } else {
                None
            },
        }
    }
}

pub proof fn lemma_first_where_found(n: int, p: spec_fn(int) -> bool)
    requires
        0 <= n,
        first_where(n, p) is None,
        p(n),
    ensures
        first_where(n + 1, p) == Some(n),
{
}

pub proof fn lemma_first_where_stable(n: int, m: int, p: spec_fn(int) -> bool)
    requires
        0 <= n <= m,
        first_where(n, p) is Some,
    ensures
        first_where(m, p) == first_where(n, p),
    decreases m - n,
{
    if n < m {
        lemma_first_where_stable(n, m - 1, p);
    }
}

pub proof fn lemma_first_where_bounds(n: int, p: spec_fn(int) -> bool)
    ensures
        first_where(n, p) matches Some(k) ==> 0 <= k < n && p(k),
        first_where(n, p) is None ==> forall|k: int| 0 <= k < n ==> !#[trigger] p(k),
    decreases n,
{
    if n > 0 {
        lemma_first_where_bounds(n - 1, p);
    }
}

/// The first name of `names` that repeats an earlier one.
pub open spec fn first_duplicate(names: Seq<Seq<char>>) -> Option<Seq<char>> {
    match first_where(names.len() as int, |i: int| names.take(i).contains(names[i])) {
        Some(k) => Some(names[k]),
        None => None,
    }
}

/// The characters of each string.
pub open spec fn views_of(v: Seq<String>) -> Seq<Seq<char>> {
    v.map_values(|s: String| s@)
}

/// The first string of `vec` equal to an earlier one, if any.
pub fn has_duplicates(vec: &[String]) -> (r: Option<&str>)
    ensures
        match r {
            Some(d) => first_duplicate(views_of(vec@)) == Some(d@),
            None => first_duplicate(views_of(vec@)) is None,
        },
{
    let ghost names = views_of(vec@);
    let ghost rep = |i: int| names.take(i).contains(names[i]);
    let mut i: usize = 0;
    while i < vec.len()
        invariant
            i <= vec@.len(),
            names == views_of(vec@),
            rep == (|i: int| names.take(i).contains(names[i])),
            first_where(i as int, rep) is None,
        decreases vec@.len() - i,
    {
        let mut j: usize = 0;
        let mut found = false;
        while j < i
            invariant
                j <= i < vec@.len(),
                names == views_of(vec@),
                found == exists|k: int| 0 <= k < j && names[k] == names[i as int],
            decreases i - j,
        {
            let same = vec[j] == vec[i];
            assert(names[j as int] == vec@[j as int]@ && names[i as int] == vec@[i as int]@);
            if same {
                found = true;
            }
            j = j + 1;
        }
        proof {
            if found {
                let k = choose|k: int| 0 <= k < j && names[k] == names[i as int];
                assert(names.take(i as int)[k] == names[i as int]);
            } else {
                assert forall|k: int| 0 <= k < i implies names.take(i as int)[k] != names[i as int] by {
                }
            }
            assert(rep(i as int) == found);
        }
        if found {
            proof {
                lemma_first_where_found(i as int, rep);
                lemma_first_where_stable(i as int + 1, vec@.len() as int, rep);
            }
            return Some(vec[i].as_str());
        }
        i = i + 1;
    }
    None
}

/// The view of the outcome of a check.
pub open spec fn check_view(r: Result<(), Error>) -> Result<(), ErrorView> {
    match r {
        Ok(()) => Ok(()),
        Err(e) => Err(e@),
    }
}

/// The view of the outcome of a resolution.
pub open spec fn resolution_view(r: Result<ResolvedType, Error>) -> Result<ResolvedTypeView, ErrorView> {
    match r {
        Ok(t) => Ok(t@),
        Err(e) => Err(e@),
    }
}

// ------------------------------------------------------------------ enums

/// An enum as a protocol document defines it: a name and its variants.
#[derive(Debug)]
pub struct EnumDefinition {
    pub name: String,
    pub variants: Vec<String>,
}

/// The width of an enum of `variants` variants: one byte up to 255 of them,
/// two bytes beyond.
pub open spec fn enum_size(variants: nat) -> nat {
    if variants > 255 {
        2
    } else {
        1
    }
}

impl EnumDefinition {
    pub open spec fn resolvable(&self, t: TableView) -> bool {
        !table_has(t, self.name@) && first_duplicate(views_of(self.variants@)) is None
    }

    pub open spec fn reason(&self, t: TableView) -> Result<(), ErrorView> {
        if table_has(t, self.name@) {
            Err(ErrorView::AlreadyDefined(self.name@))
        } else {
            match first_duplicate(views_of(self.variants@)) {
                Some(d) => Err(ErrorView::DuplicateVariant { duplicate: d, src: self.name@ }),
                None => Ok(()),
            }
        }
    }

    /// Whether the enum can be resolved now: its name is free and no variant
    /// repeats.
    pub fn can_resolve(&self, table: &TypeTable) -> (r: bool)
        requires
            table.wf(),
        ensures
            r == self.resolvable(table@),
    {
        !table.contains(self.name.as_str()) && has_duplicates(self.variants.as_slice()).is_none()
    }

    fn get_size(&self) -> (r: usize)
        ensures
            r == enum_size(self.variants@.len()),
    {
        if self.variants.len() > 255 {
            2
        } else {
            1
        }
    }

    /// The enum, one byte wide up to 255 variants and two bytes beyond.
    pub fn resolve(self, table: &TypeTable) -> (r: ResolvedType)
        ensures
            r == ResolvedType::Enum(
                Enum {
                    name: self.name,
                    variants: self.variants,
                    size: enum_size(self.variants@.len()) as usize,
                },
            ),
    {
        let size = self.get_size();
        ResolvedType::Enum(Enum { name: self.name, variants: self.variants, size })
    }

    /// Why the enum cannot be resolved now: its name is taken, or the first
    /// variant that repeats an earlier one.
    pub fn get_reason(&self, table: &TypeTable) -> (r: Result<(), Error>)
        requires
            table.wf(),
        ensures
            check_view(r) == self.reason(table@),
    {
        if table.contains(self.name.as_str()) {
            return Err(Error::AlreadyDefined(self.name.clone()));
        }
        if let Some(dup) = has_duplicates(self.variants.as_slice()) {
            return Err(Error::DuplicateVariant { duplicate: String::from_str(dup), src: self.name.clone() });
        }
        Ok(())
    }
}

// --------------------------------------------------------------- wrappers

/// A wrapper as a protocol document defines it: a name and the primitive
/// types of its fields, in order.
#[derive(Debug)]
pub struct WrapperDefinition {
    pub name: String,
    pub types: Vec<String>,
}

/// The layout of a wrapper: the handles of its fields with the padding
/// between them, its size and its alignment.
pub struct WrapperLayout {
    pub types: Seq<TypeHandleView>,
    pub size: nat,
    pub align: nat,
}

/// The layout of the first `n` fields of a wrapper whose field types are
/// `types`: each field starts at the next multiple of its size.
pub open spec fn wrapper_layout(types: Seq<Seq<char>>, t: TableView, n: int) -> WrapperLayout
    decreases n,
{
    if n <= 0 {
        WrapperLayout { types: Seq::empty(), size: 0, align: 0 }
    } else {
        let l = wrapper_layout(types, t, n - 1);
        let p = table_primitive(t, types[n - 1]).unwrap();
        let a = p.size();
        let rem = l.size % a;
        let padding: nat = if rem == 0 {
            0
        } else {
            (a - rem) as nat
        };
        let padded = if rem == 0 {
            l.types
        } else {
            l.types.push(TypeHandleView::ByteArray(padding))
        };
        WrapperLayout {
            types: padded.push(p.handle()@),
            size: l.size + padding + p.size(),
            align: if a > l.align {
                a
            } else {
                l.align
            },
        }
    }
}

impl WrapperDefinition {
    pub open spec fn resolvable(&self, t: TableView) -> bool {
        &&& !table_has(t, self.name@)
        &&& forall|i: int| 0 <= i < self.types@.len() ==> #[trigger] table_primitive(t, self.types@[i]@) is Some
    }

    /// The field types that the table does not know as primitive.
    pub open spec fn not_primitive(&self, t: TableView) -> spec_fn(int) -> bool {
        |i: int| table_primitive(t, self.types@[i]@) is None
    }

    pub open spec fn reason(&self, t: TableView) -> Result<(), ErrorView> {
        if table_has(t, self.name@) {
            Err(ErrorView::AlreadyDefined(self.name@))
        } else {
            match first_where(self.types@.len() as int, self.not_primitive(t)) {
                Some(k) => Err(ErrorView::MissingType(self.types@[k]@)),
                None => Ok(()),
            }
        }
    }

    /// The layout of the whole wrapper.
    pub open spec fn layout(&self, t: TableView) -> WrapperLayout {
        wrapper_layout(views_of(self.types@), t, self.types@.len() as int)
    }

    /// Whether the wrapper can be resolved now: its name is free and each of
    /// its types is primitive.
    pub fn can_resolve(&self, table: &TypeTable) -> (r: bool)
        requires
            table.wf(),
        ensures
            r == self.resolvable(table@),
    {
        if table.contains(self.name.as_str()) {
            return false;
        }
        let mut i: usize = 0;
        while i < self.types.len()
            invariant
                table.wf(),
                i <= self.types@.len(),
                forall|k: int| 0 <= k < i ==> #[trigger] table_primitive(table@, self.types@[k]@) is Some,
            decreases self.types@.len() - i,
        {
            if table.get_primitive(self.types[i].as_str()).is_none() {
                return false;
            }
            i = i + 1;
        }
        true
    }

    /// The wrapper with its fields laid out: each field starts at the next
    /// multiple of its size, with a byte array of padding before it where
    /// needed; the alignment is the largest of the fields'.
    pub fn resolve(self, table: &TypeTable) -> (r: ResolvedType)
        requires
            table.wf(),
            self.resolvable(table@),
            self.types@.len() * 32 <= usize::MAX,
        ensures
            r matches ResolvedType::Wrapper(w) && w.name == self.name,
            r@ == ResolvedTypeView::Wrapper(
                WrapperView {
                    name: self.name@,
                    types: self.layout(table@).types,
                    size: self.layout(table@).size,
                    align: self.layout(table@).align,
                },
            ),
    {
        let ghost names = views_of(self.types@);
        let mut types: Vec<TypeHandle> = Vec::new();
        let mut total_size: usize = 0;
        let mut max_align: usize = 0;
        let mut i: usize = 0;
        assert(types@.map_values(|h: TypeHandle| h@) =~= Seq::<TypeHandleView>::empty());
        while i < self.types.len()
            invariant
                table.wf(),
                self.resolvable(table@),
                self.types@.len() * 32 <= usize::MAX,
                i <= self.types@.len(),
                names == views_of(self.types@),
                total_size <= 32 * i,
                wrapper_layout(names, table@, i as int) == (WrapperLayout {
                    types: types@.map_values(|h: TypeHandle| h@),
                    size: total_size as nat,
                    align: max_align as nat,
                }),
            decreases self.types@.len() - i,
        {
            assert(table_primitive(table@, self.types@[i as int]@) is Some);
            let primitive = table.get_primitive(self.types[i].as_str()).unwrap();
            let size = primitive.get_size();
            let alignment = primitive.get_align();
            let remainder = total_size % alignment;
            if alignment > max_align {
                max_align = alignment;
            }
            let ghost before = types@.map_values(|h: TypeHandle| h@);
            let padding = if remainder == 0 {
                0
            } else {
                let padding = alignment - remainder;
                types.push(TypeHandle::ByteArray(padding));
                padding
            };
            total_size = total_size + padding + size;
            types.push(primitive.get_handle());
            proof {
                let padded = if remainder == 0 {
                    before
                } else {
                    before.push(TypeHandleView::ByteArray(padding as nat))
                };
                assert(types@.map_values(|h: TypeHandle| h@) =~= padded.push(primitive.handle()@));
            }
            i = i + 1;
        }
        ResolvedType::Wrapper(Wrapper { name: self.name, types, size: total_size, align: max_align })
    }

    /// Why the wrapper cannot be resolved now: its name is taken, or the
    /// first of its types that is not primitive.
    pub fn get_reason(&self, table: &TypeTable) -> (r: Result<(), Error>)
        requires
            table.wf(),
        ensures
            check_view(r) == self.reason(table@),
    {
        if table.contains(self.name.as_str()) {
            return Err(Error::AlreadyDefined(self.name.clone()));
        }
        let ghost p = self.not_primitive(table@);
        let mut i: usize = 0;
        while i < self.types.len()
            invariant
                table.wf(),
                i <= self.types@.len(),
                p == self.not_primitive(table@),
                !table_has(table@, self.name@),
                first_where(i as int, p) is None,
            decreases self.types@.len() - i,
        {
            if table.get_primitive(self.types[i].as_str()).is_none() {
                proof {
                    lemma_first_where_found(i as int, p);
                    lemma_first_where_stable(i as int + 1, self.types@.len() as int, p);
                }
                return Err(Error::MissingType(self.types[i].clone()));
            }
            i = i + 1;
        }
        Ok(())
    }
}

// ----------------------------------------------------------------- chunks

/// A field of a message or of a chunk: its name and the name of its type.
#[derive(Debug)]
pub struct FieldDefinition {
    pub name: String,
    pub ty: String,
}

/// A string of a chunk, whose length another field holds.
#[derive(Debug)]
pub struct VariableFieldDefinition {
    pub name: String,
    pub length_src: String,
}

/// A value of a chunk: of a type known at compile time, or a string of a
/// length known at run time.
#[derive(Debug)]
pub enum FieldType {
    General(FieldDefinition),
    Variable(VariableFieldDefinition),
}

impl FieldType {
    /// The name of the value's type; a variable value is a `String`.
    pub open spec fn value_type(&self) -> Seq<char> {
        match self {
            FieldType::General(def) => def.ty@,
            FieldType::Variable(_) => "String"@,
        }
    }

    pub fn ty(&self) -> (r: &str)
        ensures
            r@ == self.value_type(),
    {
        match self {
            FieldType::General(def) => def.ty.as_str(),
            FieldType::Variable(_) => "String",
        }
    }
}

/// How the value `f` of a chunk is decoded, where its type has a size.
pub open spec fn pattern_of(f: FieldType, t: TableView) -> Option<PatternView> {
    let ty = table_get(t, f.value_type()).unwrap();
    if ty.is_sized() {
        match f {
            FieldType::General(def) => Some(
                PatternView {
                    name: lowercase(def.name@),
                    ty: PatternTypeView::CompileTime(ty.handle()),
                    size: ty.size(),
                },
            ),
            FieldType::Variable(var) => Some(
                PatternView {
                    name: lowercase(var.name@),
                    ty: PatternTypeView::RunTime(TypeHandleView::String, var.length_src@),
                    size: ty.size(),
                },
            ),
        }
    } else {
        None
    }
}

/// The chunk at the end of a message: the values of each of its entries.
#[derive(Debug)]
pub struct ChunkPattern {
    pub name: String,
    pub fields: Vec<FieldType>,
}

impl ChunkPattern {
    pub open spec fn resolvable(&self, t: TableView) -> bool {
        forall|i: int| 0 <= i < self.fields@.len() ==> #[trigger] table_has(t, self.fields@[i].value_type())
    }

    /// The values whose type the table does not know.
    pub open spec fn missing(&self, t: TableView) -> spec_fn(int) -> bool {
        |i: int| !table_has(t, self.fields@[i].value_type())
    }

    pub open spec fn reason(&self, t: TableView) -> Result<(), ErrorView> {
        match first_where(self.fields@.len() as int, self.missing(t)) {
            Some(k) => Err(ErrorView::MissingType(self.fields@[k].value_type())),
            None => Ok(()),
        }
    }

    /// The values whose type has no size of its own.
    pub open spec fn unsized_at(&self, t: TableView) -> spec_fn(int) -> bool {
        |i: int| pattern_of(self.fields@[i], t) is None
    }

    /// The coder of the chunk, or the first value whose type has no size.
    pub open spec fn coder(&self, t: TableView) -> Result<ChunkCoderView, ErrorView> {
        match first_where(self.fields@.len() as int, self.unsized_at(t)) {
            Some(k) => Err(ErrorView::UnsizedType { ty: self.fields@[k].value_type(), src: self.name@ }),
            None => Ok(
                ChunkCoderView {
                    name: self.name@ + "Coder"@,
                    patterns: Seq::new(self.fields@.len(), |i: int| pattern_of(self.fields@[i], t).unwrap()),
                },
            ),
        }
    }

    /// Whether the type of every value is known.
    pub fn can_resolve(&self, table: &TypeTable) -> (r: bool)
        requires
            table.wf(),
        ensures
            r == self.resolvable(table@),
    {
        let mut i: usize = 0;
        while i < self.fields.len()
            invariant
                table.wf(),
                i <= self.fields@.len(),
                forall|k: int| 0 <= k < i ==> #[trigger] table_has(table@, self.fields@[k].value_type()),
            decreases self.fields@.len() - i,
        {
            if table.get_type(self.fields[i].ty()).is_none() {
                return false;
            }
            i = i + 1;
        }
        true
    }

    /// The coder of the chunk: named after the message with `Coder` behind,
    /// one pattern per value, its name in lower case.
    pub fn resolve(self, table: &TypeTable) -> (r: Result<ChunkCoder, Error>)
        requires
            table.wf(),
            self.resolvable(table@),
        ensures
            match r {
                Ok(c) => self.coder(table@) == Ok::<ChunkCoderView, ErrorView>(c@),
                Err(e) => self.coder(table@) == Err::<ChunkCoderView, ErrorView>(e@),
            },
    {
        let ghost u = self.unsized_at(table@);
        let ghost want = Seq::new(self.fields@.len(), |i: int| pattern_of(self.fields@[i], table@).unwrap());
        let mut patterns: Vec<Pattern> = Vec::new();
        let mut i: usize = 0;
        while i < self.fields.len()
            invariant
                table.wf(),
                self.resolvable(table@),
                i <= self.fields@.len(),
                u == self.unsized_at(table@),
                want == Seq::new(self.fields@.len(), |i: int| pattern_of(self.fields@[i], table@).unwrap()),
                first_where(i as int, u) is None,
                patterns@.map_values(|p: Pattern| p@) == want.take(i as int),
            decreases self.fields@.len() - i,
        {
            assert(table_has(table@, self.fields@[i as int].value_type()));
            let ty = table.get_type(self.fields[i].ty()).unwrap();
            if !(match ty {
                ResolvedType::Remainder | ResolvedType::Message(_) => false,
                _ => true,
            }) {
                proof {
                    lemma_first_where_found(i as int, u);
                    lemma_first_where_stable(i as int + 1, self.fields@.len() as int, u);
                }
                return Err(Error::UnsizedType { ty: String::from_str(self.fields[i].ty()), src: self.name });
            }
            let pattern = match &self.fields[i] {
                FieldType::General(def) => Pattern {
                    name: to_lowercase(def.name.as_str()),
                    ty: PatternType::CompileTime(ty.get_handle()),
                    size: ty.get_size(),
                },
                FieldType::Variable(var) => Pattern {
                    name: to_lowercase(var.name.as_str()),
                    ty: PatternType::RunTime(TypeHandle::String, var.length_src.clone()),
                    size: ty.get_size(),
                },
            };
            assert(pattern@ == want[i as int]);
            let ghost before = patterns@.map_values(|p: Pattern| p@);
            let ghost pv = pattern@;
            patterns.push(pattern);
            assert(patterns@.map_values(|p: Pattern| p@) =~= before.push(pv));
            assert(want.take(i as int + 1) =~= want.take(i as int).push(want[i as int]));
            i = i + 1;
        }
        assert(want.take(i as int) =~= want);
        let mut name = self.name;
        name.append("Coder");
        Ok(ChunkCoder { name, patterns })
    }

    /// Why the chunk cannot be resolved now: the first value whose type is
    /// not known.
    pub fn get_reason(&self, table: &TypeTable) -> (r: Result<(), Error>)
        requires
            table.wf(),
        ensures
            check_view(r) == self.reason(table@),
    {
        let ghost p = self.missing(table@);
        let mut i: usize = 0;
        while i < self.fields.len()
            invariant
                table.wf(),
                i <= self.fields@.len(),
                p == self.missing(table@),
                first_where(i as int, p) is None,
            decreases self.fields@.len() - i,
        {
            if table.get_type(self.fields[i].ty()).is_none() {
                proof {
                    lemma_first_where_found(i as int, p);
                    lemma_first_where_stable(i as int + 1, self.fields@.len() as int, p);
                }
                return Err(Error::MissingType(String::from_str(self.fields[i].ty())));
            }
            i = i + 1;
        }
        Ok(())
    }
}

// --------------------------------------------------------------- messages

/// The bytes of a message.
pub const MESSAGE_SIZE: usize = 32;

/// The bytes of a message that its fields share: all but the header's
/// destination, source and version bytes and its two bytes of type.
pub const MESSAGE_PAYLOAD_SIZE: usize = 27;

/// The name of the `k`-th padding field of a message.
pub open spec fn padding_name(k: nat) -> Seq<char> {
    "padding"@ + decimal(k)
}

fn padding_string(k: usize) -> (r: String)
    ensures
        r@ == padding_name(k as nat),
{
    let mut s = String::from_str("padding");
    let d = decimal_string(k);
    s.append(d.as_str());
    s
}

/// The fields of a message placed so far: with their padding, the bytes they
/// take and the number of padding fields among them.
pub struct Placement {
    pub fields: Seq<FieldView>,
    pub size: nat,
    pub pads: nat,
}

/// The type that field `d` of a message gets where `available` bytes are
/// left: the remainder becomes a byte array of those bytes.
pub open spec fn placed_type(d: FieldDefinition, t: TableView, available: nat) -> ResolvedTypeView {
    let found = table_get(t, d.ty@).unwrap();
    if found is Remainder {
        ResolvedTypeView::ByteArray(available)
    } else {
        found
    }
}

/// The placement of the first `n` fields of message `src`: each field starts
/// at the next multiple of its alignment, with a padding field before it
/// where needed; the error of the first field whose type has no size, or
/// that does not fit in the bytes left.
pub open spec fn placement(fields: Seq<FieldDefinition>, t: TableView, src: Seq<char>, n: int) -> Result<
    Placement,
    ErrorView,
>
    decreases n,
{
    if n <= 0 {
        Ok(Placement { fields: Seq::empty(), size: 0, pads: 0 })
    } else {
        match placement(fields, t, src, n - 1) {
            Err(e) => Err(e),
            Ok(p) => {
                let d = fields[n - 1];
                let available = (MESSAGE_PAYLOAD_SIZE - p.size) as nat;
                let ty = placed_type(d, t, available);
                if !ty.is_sized() || ty.align() == 0 {
                    Err(ErrorView::UnsizedType { ty: d.ty@, src })
                } else {
                    let rem = p.size % ty.align();
                    let padding: nat = if rem == 0 {
                        0
                    } else {
                        (ty.align() - rem) as nat
                    };
                    if padding + ty.size() > available {
                        Err(ErrorView::MessageTooLarge(src))
                    } else {
                        let padded = if rem == 0 {
                            p.fields
                        } else {
                            p.fields.push(
                                FieldView { name: padding_name(p.pads), ty: TypeHandleView::ByteArray(padding) },
                            )
                        };
                        Ok(
                            Placement {
                                fields: padded.push(FieldView { name: d.name@, ty: ty.handle() }),
                                size: p.size + padding + ty.size(),
                                pads: if rem == 0 {
                                    p.pads
                                } else {
                                    p.pads + 1
                                },
                            },
                        )
                    }
                }
            },
        }
    }
}

proof fn lemma_placement_err_stable(
    fields: Seq<FieldDefinition>,
    t: TableView,
    src: Seq<char>,
    n: int,
    m: int,
)
    requires
        0 <= n <= m,
        placement(fields, t, src, n) is Err,
    ensures
        placement(fields, t, src, m) == placement(fields, t, src, n),
    decreases m - n,
{
    if n < m {
        lemma_placement_err_stable(fields, t, src, n, m - 1);
    }
}

/// The fields placed never take more than the payload.
proof fn lemma_placement_fits(fields: Seq<FieldDefinition>, t: TableView, src: Seq<char>, n: int)
    requires
        placement(fields, t, src, n) is Ok,
    ensures
        (placement(fields, t, src, n)->Ok_0).size <= MESSAGE_PAYLOAD_SIZE,
    decreases n,
{
    if n > 0 {
        lemma_placement_fits(fields, t, src, n - 1);
    }
}

/// Each field of a message is placed at an offset that is a multiple of its
/// alignment, right after the fields before it and a padding field of fewer
/// bytes than that alignment (none where the offset is already aligned); the
/// fields never run past the payload.
pub proof fn lemma_placement_aligned(fields: Seq<FieldDefinition>, t: TableView, src: Seq<char>, n: int)
    requires
        0 < n,
        placement(fields, t, src, n) is Ok,
    ensures
        placement(fields, t, src, n - 1) is Ok,
        ({
            let before = placement(fields, t, src, n - 1)->Ok_0;
            let after = placement(fields, t, src, n)->Ok_0;
            let ty = placed_type(fields[n - 1], t, (MESSAGE_PAYLOAD_SIZE - before.size) as nat);
            let offset = after.size - ty.size();
            &&& ty.is_sized()
            &&& ty.align() > 0
            &&& offset % (ty.align() as int) == 0
            &&& before.size <= offset < before.size + ty.align()
            &&& after.size <= MESSAGE_PAYLOAD_SIZE
            &&& after.fields == (if offset == before.size {
                before.fields
            } else {
                before.fields.push(
                    FieldView {
                        name: padding_name(before.pads),
                        ty: TypeHandleView::ByteArray((offset - before.size) as nat),
                    },
                )
            }).push(FieldView { name: fields[n - 1].name@, ty: ty.handle() })
        }),
{
    let before = placement(fields, t, src, n - 1)->Ok_0;
    let ty = placed_type(fields[n - 1], t, (MESSAGE_PAYLOAD_SIZE - before.size) as nat);
    let a = ty.align() as int;
    let rem = (before.size as int) % a;
    lemma_placement_fits(fields, t, src, n - 1);
    assert(ty.is_sized() && a > 0);
    vstd::arithmetic::div_mod::lemma_fundamental_div_mod(before.size as int, a);
    vstd::arithmetic::div_mod::lemma_mod_bound(before.size as int, a);
    assert(0 <= rem < a);
    assert(before.size % ty.align() == rem);
    if rem != 0 {
        let offset = before.size + (a - rem);
        assert(offset == a * ((before.size as int) / a + 1)) by (nonlinear_arith)
            requires
                before.size as int == a * ((before.size as int) / a) + rem,
                offset == before.size + (a - rem),
        ;
        vstd::arithmetic::div_mod::lemma_mod_multiples_basic((before.size as int) / a + 1, a);
        assert(offset % a == 0) by (nonlinear_arith)
            requires
                offset == a * ((before.size as int) / a + 1),
                ((before.size as int) / a + 1) * a % a == 0,
        ;
    }
    let after = placement(fields, t, src, n)->Ok_0;
    let padding: nat = if rem == 0 { 0 } else { (a - rem) as nat };
    assert(after.size == before.size + padding + ty.size());
    let offset = after.size - ty.size();
    assert(offset == before.size + padding);
    assert(offset % a == 0);
    assert(before.size <= offset < before.size + a);
    assert(after.size <= MESSAGE_PAYLOAD_SIZE);
}

/// A message as a protocol document defines it.
#[derive(Debug)]
pub struct MessageDefinition {
    pub name: String,
    pub ty: String,
    pub version: String,
    pub fields: Vec<FieldDefinition>,
    pub chunk: Option<ChunkPattern>,
}

/// The names of fields.
pub open spec fn field_names(fields: Seq<FieldDefinition>) -> Seq<Seq<char>> {
    fields.map_values(|f: FieldDefinition| f.name@)
}

impl MessageDefinition {
    pub open spec fn resolvable(&self, t: TableView) -> bool {
        &&& !table_has(t, self.name@)
        &&& first_duplicate(field_names(self.fields@)) is None
        &&& forall|i: int| 0 <= i < self.fields@.len() ==> #[trigger] table_has(t, self.fields@[i].ty@)
        &&& match self.chunk {
            Some(c) => c.resolvable(t),
            None => true,
        }
    }

    /// The fields whose type the table does not know.
    pub open spec fn missing(&self, t: TableView) -> spec_fn(int) -> bool {
        |i: int| !table_has(t, self.fields@[i].ty@)
    }

    pub open spec fn reason(&self, t: TableView) -> Result<(), ErrorView> {
        if table_has(t, self.name@) {
            Err(ErrorView::AlreadyDefined(self.name@))
        } else if first_duplicate(field_names(self.fields@)) is Some {
            Err(
                ErrorView::DuplicateVariant {
                    duplicate: first_duplicate(field_names(self.fields@)).unwrap(),
                    src: self.name@,
                },
            )
        } else {
            match first_where(self.fields@.len() as int, self.missing(t)) {
                Some(k) => Err(ErrorView::MissingType(self.fields@[k].ty@)),
                None => match self.chunk {
                    Some(c) => c.reason(t),
                    None => Ok(()),
                },
            }
        }
    }

    /// The message laid out: its fields placed, then the chunk in all the
    /// bytes left where the message has one, else a last padding field in
    /// them; so that the fields fill the payload exactly.
    pub open spec fn message(&self, t: TableView) -> Result<MessageView, ErrorView> {
        match placement(self.fields@, t, self.name@, self.fields@.len() as int) {
            Err(e) => Err(e),
            Ok(p) => {
                let available = (MESSAGE_PAYLOAD_SIZE - p.size) as nat;
                let with_chunk = if self.chunk is Some {
                    p.fields.push(FieldView { name: "chunk"@, ty: TypeHandleView::ByteArray(available) })
                } else {
                    p.fields
                };
                let rest: nat = if self.chunk is Some {
                    0
                } else {
                    available
                };
                let fields = if rest != 0 {
                    with_chunk.push(FieldView { name: padding_name(p.pads), ty: TypeHandleView::ByteArray(rest) })
                } else {
                    with_chunk
                };
                let coder: Result<Option<ChunkCoderView>, ErrorView> = match self.chunk {
                    Some(c) => match c.coder(t) {
                        Ok(cv) => Ok(Some(cv)),
                        Err(e) => Err(e),
                    },
                    None => Ok(None),
                };
                match coder {
                    Err(e) => Err(e),
                    Ok(chunk) => match parsed_u8(self.version@) {
                        None => Err(ErrorView::InvalidVersion { version: self.version@, src: self.name@ }),
                        Some(version) => Ok(
                            MessageView {
                                name: self.name@,
                                ty: self.ty@,
                                version,
                                fields,
                                size: MESSAGE_PAYLOAD_SIZE as nat,
                                chunk,
                            },
                        ),
                    },
                }
            },
        }
    }

    /// Whether the message can be resolved now: its name is free, no field
    /// name repeats, the type of every field and of every value of its chunk
    /// is known.
    pub fn can_resolve(&self, table: &TypeTable) -> (r: bool)
        requires
            table.wf(),
        ensures
            r == self.resolvable(table@),
    {
        if table.contains(self.name.as_str()) {
            return false;
        }
        let names = self.field_names();
        if has_duplicates(names.as_slice()).is_some() {
            return false;
        }
        let mut i: usize = 0;
        while i < self.fields.len()
            invariant
                table.wf(),
                i <= self.fields@.len(),
                forall|k: int| 0 <= k < i ==> #[trigger] table_has(table@, self.fields@[k].ty@),
            decreases self.fields@.len() - i,
        {
            if table.get_type(self.fields[i].ty.as_str()).is_none() {
                return false;
            }
            i = i + 1;
        }
        match &self.chunk {
            Some(c) => c.can_resolve(table),
            None => true,
        }
    }

    fn field_names(&self) -> (r: Vec<String>)
        ensures
            views_of(r@) == field_names(self.fields@),
    {
        let mut names: Vec<String> = Vec::new();
        let mut i: usize = 0;
        while i < self.fields.len()
            invariant
                i <= self.fields@.len(),
                views_of(names@) == field_names(self.fields@).take(i as int),
            decreases self.fields@.len() - i,
        {
            let ghost before = views_of(names@);
            names.push(self.fields[i].name.clone());
            assert(field_names(self.fields@)[i as int] == self.fields@[i as int].name@);
            assert(views_of(names@) =~= before.push(self.fields@[i as int].name@));
            assert(views_of(names@) =~= field_names(self.fields@).take(i as int + 1));
            i = i + 1;
        }
        assert(field_names(self.fields@).take(i as int) =~= field_names(self.fields@));
        names
    }

    /// The message laid out in the payload of a message: see `message`.
    pub fn resolve(self, table: &TypeTable) -> (r: Result<ResolvedType, Error>)
        requires
            table.wf(),
            self.resolvable(table@),
        ensures
            resolution_view(r) == match self.message(table@) {
                Ok(m) => Ok(ResolvedTypeView::Message(m)),
                Err(e) => Err(e),
            },
    {
        let ghost defs = self.fields@;
        let ghost src = self.name@;
        let mut available: usize = MESSAGE_PAYLOAD_SIZE;
        let mut total_size: usize = 0;
        let mut fields: Vec<Field> = Vec::new();
        let mut padding_index: usize = 0;
        let mut i: usize = 0;
        assert(fields@.map_values(|f: Field| f@) =~= Seq::<FieldView>::empty());
        while i < self.fields.len()
            invariant
                table.wf(),
                self.resolvable(table@),
                defs == self.fields@,
                src == self.name@,
                i <= defs.len(),
                total_size <= MESSAGE_PAYLOAD_SIZE,
                available == MESSAGE_PAYLOAD_SIZE - total_size,
                padding_index <= total_size,
                placement(defs, table@, src, i as int) == Ok::<Placement, ErrorView>(
                    Placement {
                        fields: fields@.map_values(|f: Field| f@),
                        size: total_size as nat,
                        pads: padding_index as nat,
                    },
                ),
            decreases defs.len() - i,
        {
            let def = &self.fields[i];
            assert(table_has(table@, defs[i as int].ty@));
            let found = table.get_type(def.ty.as_str()).unwrap();
            let ghost ty = placed_type(defs[i as int], table@, available as nat);
            let (size, align, handle) = match found {
                ResolvedType::Remainder => (available, 1usize, TypeHandle::ByteArray(available)),
                ResolvedType::Message(_) => (0usize, 0usize, TypeHandle::Char),
                _ => (found.get_size(), found.get_align(), found.get_handle()),
            };
            if align == 0 {
                proof {
                    lemma_placement_err_stable(defs, table@, src, i as int + 1, defs.len() as int);
                }
                return Err(Error::UnsizedType { ty: def.ty.clone(), src: self.name.clone() });
            }
            assert(ty.is_sized() && size == ty.size() && align == ty.align() && handle@ == ty.handle());
            let remainder = total_size % align;
            let padding = if remainder == 0 {
                0
            } else {
                align - remainder
            };
            if padding > available || size > available - padding {
                proof {
                    lemma_placement_err_stable(defs, table@, src, i as int + 1, defs.len() as int);
                }
                return Err(Error::MessageTooLarge(self.name.clone()));
            }
            let ghost before = fields@.map_values(|f: Field| f@);
            if remainder != 0 {
                fields.push(Field { name: padding_string(padding_index), ty: TypeHandle::ByteArray(padding) });
                padding_index = padding_index + 1;
            }
            let ghost padded = fields@.map_values(|f: Field| f@);
            assert(padded =~= (if remainder == 0 {
                before
            } else {
                before.push(FieldView { name: padding_name((padding_index - 1) as nat), ty: TypeHandleView::ByteArray(padding as nat) })
            }));
            total_size = total_size + padding + size;
            available = available - padding - size;
            fields.push(Field { name: def.name.clone(), ty: handle });
            assert(fields@.map_values(|f: Field| f@) =~= padded.push(FieldView { name: defs[i as int].name@, ty: ty.handle() }));
            i = i + 1;
        }
        let ghost placed = Placement {
            fields: fields@.map_values(|f: Field| f@),
            size: total_size as nat,
            pads: padding_index as nat,
        };
        assert(placement(defs, table@, src, defs.len() as int) == Ok::<Placement, ErrorView>(placed));
        let chunk = match self.chunk {
            Some(chunk) => {
                fields.push(Field { name: String::from_str("chunk"), ty: TypeHandle::ByteArray(available) });
                total_size = total_size + available;
                available = 0;
                match chunk.resolve(table) {
                    Ok(coder) => Some(coder),
                    Err(e) => {
                        return Err(e);
                    },
                }
            },
            None => None,
        };
        let ghost with_chunk = fields@.map_values(|f: Field| f@);
        assert(with_chunk =~= (if self.chunk is Some {
            placed.fields.push(FieldView { name: "chunk"@, ty: TypeHandleView::ByteArray((MESSAGE_PAYLOAD_SIZE - placed.size) as nat) })
        } else {
            placed.fields
        }));
        if available != 0 {
            fields.push(Field { name: padding_string(padding_index), ty: TypeHandle::ByteArray(available) });
            total_size = total_size + available;
        }
        assert(fields@.map_values(|f: Field| f@) =~= (if available != 0 {
            with_chunk.push(FieldView { name: padding_name(placed.pads), ty: TypeHandleView::ByteArray(available as nat) })
        } else {
            with_chunk
        }));
        assert(total_size == MESSAGE_PAYLOAD_SIZE);
        let version = match parse_u8(self.version.as_str()) {
            Some(v) => v,
            None => {
                return Err(Error::InvalidVersion { version: self.version, src: self.name });
            },
        };
        let r = ResolvedType::Message(
            Message { name: self.name, ty: self.ty, version, fields, size: total_size, chunk },
        );
        proof {
            let m = self.message(table@);
            assert(m matches Ok(mv) && r@ == ResolvedTypeView::Message(mv));
        }
        Ok(r)
    }

    /// Why the message cannot be resolved now: its name is taken, the first
    /// field name that repeats, the first field type that is not known, or
    /// why its chunk cannot be resolved.
    pub fn get_reason(&self, table: &TypeTable) -> (r: Result<(), Error>)
        requires
            table.wf(),
        ensures
            check_view(r) == self.reason(table@),
    {
        if table.contains(self.name.as_str()) {
            return Err(Error::AlreadyDefined(self.name.clone()));
        }
        let names = self.field_names();
        if let Some(dup) = has_duplicates(names.as_slice()) {
            return Err(Error::DuplicateVariant { duplicate: String::from_str(dup), src: self.name.clone() });
        }
        let ghost p = self.missing(table@);
        let mut i: usize = 0;
        while i < self.fields.len()
            invariant
                table.wf(),
                i <= self.fields@.len(),
                p == self.missing(table@),
                first_where(i as int, p) is None,
                !table_has(table@, self.name@),
                first_duplicate(field_names(self.fields@)) is None,
            decreases self.fields@.len() - i,
        {
            if table.get_type(self.fields[i].ty.as_str()).is_none() {
                proof {
                    lemma_first_where_found(i as int, p);
                    lemma_first_where_stable(i as int + 1, self.fields@.len() as int, p);
                }
                return Err(Error::MissingType(self.fields[i].ty.clone()));
            }
            i = i + 1;
        }
        match &self.chunk {
            Some(c) => c.get_reason(table),
            None => Ok(()),
        }
    }
}

// ------------------------------------------------------------ definitions

/// A definition of a protocol's type.
#[derive(Debug)]
pub enum Definition {
    Enum(EnumDefinition),
    Wrapper(WrapperDefinition),
    Message(MessageDefinition),
}

impl Definition {
    /// The name of the type that the definition defines.
    pub open spec fn defined_name(&self) -> Seq<char> {
        match self {
            Definition::Enum(d) => d.name@,
            Definition::Wrapper(d) => d.name@,
            Definition::Message(d) => d.name@,
        }
    }

    pub open spec fn resolvable(&self, t: TableView) -> bool {
        match self {
            Definition::Enum(d) => d.resolvable(t),
            Definition::Wrapper(d) => d.resolvable(t),
            Definition::Message(d) => d.resolvable(t),
        }
    }

    pub open spec fn reason(&self, t: TableView) -> Result<(), ErrorView> {
        match self {
            Definition::Enum(d) => d.reason(t),
            Definition::Wrapper(d) => d.reason(t),
            Definition::Message(d) => d.reason(t),
        }
    }

    /// The type the definition resolves to against table `t`.
    pub open spec fn resolution(&self, t: TableView) -> Result<ResolvedTypeView, ErrorView> {
        match self {
            Definition::Enum(d) => Ok(
                ResolvedTypeView::Enum(
                    EnumView {
                        name: d.name@,
                        variants: views_of(d.variants@),
                        size: enum_size(d.variants@.len()),
                    },
                ),
            ),
            Definition::Wrapper(d) => Ok(
                ResolvedTypeView::Wrapper(
                    WrapperView {
                        name: d.name@,
                        types: d.layout(t).types,
                        size: d.layout(t).size,
                        align: d.layout(t).align,
                    },
                ),
            ),
            Definition::Message(d) => match d.message(t) {
                Ok(m) => Ok(ResolvedTypeView::Message(m)),
                Err(e) => Err(e),
            },
        }
    }

    /// The sizes of what the definition holds fit the machine's words.
    pub open spec fn within_limits(&self) -> bool {
        match self {
            Definition::Wrapper(d) => d.types@.len() * 32 <= usize::MAX,
            _ => true,
        }
    }

    pub fn can_resolve(&self, table: &TypeTable) -> (r: bool)
        requires
            table.wf(),
        ensures
            r == self.resolvable(table@),
    {
        match self {
            Definition::Enum(d) => d.can_resolve(table),
            Definition::Wrapper(d) => d.can_resolve(table),
            Definition::Message(d) => d.can_resolve(table),
        }
    }

    pub fn resolve(self, table: &TypeTable) -> (r: Result<ResolvedType, Error>)
        requires
            table.wf(),
            self.resolvable(table@),
            self.within_limits(),
        ensures
            resolution_view(r) == self.resolution(table@),
    {
        match self {
            Definition::Enum(d) => Ok(d.resolve(table)),
            Definition::Wrapper(d) => Ok(d.resolve(table)),
            Definition::Message(d) => d.resolve(table),
        }
    }

    pub fn get_reason(&self, table: &TypeTable) -> (r: Result<(), Error>)
        requires
            table.wf(),
        ensures
            check_view(r) == self.reason(table@),
    {
        match self {
            Definition::Enum(d) => d.get_reason(table),
            Definition::Wrapper(d) => d.get_reason(table),
            Definition::Message(d) => d.get_reason(table),
        }
    }

    /// Whether the definition is one that the table can take: a definition
    /// that resolves gives a type under the definition's own name.
    pub proof fn lemma_resolution_named(&self, t: TableView)
        ensures
            self.resolution(t) matches Ok(rt) ==> rt.name() == self.defined_name()
                && (rt is Enum || rt is Wrapper || rt is Message),
    {
    }

    /// A definition that cannot be resolved has a reason.
    pub proof fn lemma_reason_when_stuck(&self, t: TableView)
        requires
            !self.resolvable(t),
        ensures
            self.reason(t) is Err,
    {
        match self {
            Definition::Enum(d) => {},
            Definition::Wrapper(d) => {
                lemma_first_where_bounds(d.types@.len() as int, d.not_primitive(t));
                if !table_has(t, d.name@) && first_where(d.types@.len() as int, d.not_primitive(t)) is None {
                    let i = choose|i: int|
                        0 <= i < d.types@.len() && !(#[trigger] table_primitive(t, d.types@[i]@) is Some);
                    assert(d.not_primitive(t)(i));
                }
            },
            Definition::Message(d) => {
                lemma_first_where_bounds(d.fields@.len() as int, d.missing(t));
                if !table_has(t, d.name@) && first_duplicate(field_names(d.fields@)) is None
                    && first_where(d.fields@.len() as int, d.missing(t)) is None {
                    if exists|i: int| 0 <= i < d.fields@.len() && !#[trigger] table_has(t, d.fields@[i].ty@) {
                        let i = choose|i: int| 0 <= i < d.fields@.len() && !#[trigger] table_has(t, d.fields@[i].ty@);
                        assert(d.missing(t)(i));
                    } else {
                        let c = d.chunk.unwrap();
                        lemma_first_where_bounds(c.fields@.len() as int, c.missing(t));
                        let i = choose|i: int|
                            0 <= i < c.fields@.len() && !#[trigger] table_has(t, c.fields@[i].value_type());
                        assert(c.missing(t)(i));
                    }
                }
            },
        }
    }
}

/// A protocol's name and the definitions of its types, in document order.
#[derive(Debug)]
pub struct Definitions {
    pub protocol: String,
    pub definitions: Vec<Definition>,
}

// ------------------------------------------------------------------ views

pub struct FieldDefinitionView {
    pub name: Seq<char>,
    pub ty: Seq<char>,
}

impl View for FieldDefinition {
    type V = FieldDefinitionView;

    open spec fn view(&self) -> FieldDefinitionView {
        FieldDefinitionView { name: self.name@, ty: self.ty@ }
    }
}

pub enum FieldTypeView {
    General(FieldDefinitionView),
    Variable { name: Seq<char>, length_src: Seq<char> },
}

impl View for FieldType {
    type V = FieldTypeView;

    open spec fn view(&self) -> FieldTypeView {
        match self {
            FieldType::General(d) => FieldTypeView::General(d@),
            FieldType::Variable(v) => FieldTypeView::Variable { name: v.name@, length_src: v.length_src@ },
        }
    }
}

pub struct ChunkPatternView {
    pub name: Seq<char>,
    pub fields: Seq<FieldTypeView>,
}

impl View for ChunkPattern {
    type V = ChunkPatternView;

    open spec fn view(&self) -> ChunkPatternView {
        ChunkPatternView { name: self.name@, fields: self.fields@.map_values(|f: FieldType| f@) }
    }
}

pub struct EnumDefinitionView {
    pub name: Seq<char>,
    pub variants: Seq<Seq<char>>,
}

impl View for EnumDefinition {
    type V = EnumDefinitionView;

    open spec fn view(&self) -> EnumDefinitionView {
        EnumDefinitionView { name: self.name@, variants: views_of(self.variants@) }
    }
}

pub struct WrapperDefinitionView {
    pub name: Seq<char>,
    pub types: Seq<Seq<char>>,
}

impl View for WrapperDefinition {
    type V = WrapperDefinitionView;

    open spec fn view(&self) -> WrapperDefinitionView {
        WrapperDefinitionView { name: self.name@, types: views_of(self.types@) }
    }
}

pub struct MessageDefinitionView {
    pub name: Seq<char>,
    pub ty: Seq<char>,
    pub version: Seq<char>,
    pub fields: Seq<FieldDefinitionView>,
    pub chunk: Option<ChunkPatternView>,
}

impl View for MessageDefinition {
    type V = MessageDefinitionView;

    open spec fn view(&self) -> MessageDefinitionView {
        MessageDefinitionView {
            name: self.name@,
            ty: self.ty@,
            version: self.version@,
            fields: self.fields@.map_values(|f: FieldDefinition| f@),
            chunk: match self.chunk {
                Some(c) => Some(c@),
                None => None,
            },
        }
    }
}

pub enum DefinitionView {
    Enum(EnumDefinitionView),
    Wrapper(WrapperDefinitionView),
    Message(MessageDefinitionView),
}

impl View for Definition {
    type V = DefinitionView;

    open spec fn view(&self) -> DefinitionView {
        match self {
            Definition::Enum(d) => DefinitionView::Enum(d@),
            Definition::Wrapper(d) => DefinitionView::Wrapper(d@),
            Definition::Message(d) => DefinitionView::Message(d@),
        }
    }
}

pub struct DefinitionsView {
    pub protocol: Seq<char>,
    pub definitions: Seq<DefinitionView>,
}

impl View for Definitions {
    type V = DefinitionsView;

    open spec fn view(&self) -> DefinitionsView {
        DefinitionsView {
            protocol: self.protocol@,
            definitions: self.definitions@.map_values(|d: Definition| d@),
        }
    }
}

impl Definitions {
    /// Whether every wrapper has few enough types for its layout to be
    /// computed in machine words: at most a 32nd of `usize::MAX`.
    pub fn within_limits(&self) -> (r: bool)
        ensures
            r == forall|i: int| 0 <= i < self.definitions@.len() ==> #[trigger] self.definitions@[i].within_limits(),
    {
        let mut i: usize = 0;
        while i < self.definitions.len()
            invariant
                i <= self.definitions@.len(),
                forall|k: int| 0 <= k < i ==> #[trigger] self.definitions@[k].within_limits(),
            decreases self.definitions@.len() - i,
        {
            let ok = match &self.definitions[i] {
                Definition::Wrapper(d) => {
                    let n = d.types.len();
                    proof {
                        if n <= usize::MAX / 32 {
                            assert(n * 32 <= usize::MAX) by (nonlinear_arith)
                                requires
                                    n <= usize::MAX / 32,
                            ;
                        } else {
                            assert(n * 32 > usize::MAX) by (nonlinear_arith)
                                requires
                                    n > usize::MAX / 32,
                            ;
                        }
                    }
                    n <= usize::MAX / 32
                },
                _ => true,
            };
            assert(ok == self.definitions@[i as int].within_limits());
            if !ok {
                return false;
            }
            i = i + 1;
        }
        true
    }
}

} // verus!
