//! Reading the definitions of a protocol from its XML document.
use vstd::prelude::*;
use vstd::string::*;

use crate::protocol::definitions::{
    ChunkPattern, ChunkPatternView, Definition, DefinitionView, Definitions, DefinitionsView,
    EnumDefinition, EnumDefinitionView, FieldDefinition, FieldDefinitionView, FieldType, FieldTypeView,
    MessageDefinition, MessageDefinitionView, VariableFieldDefinition, WrapperDefinition,
    WrapperDefinitionView, first_where, lemma_first_where_found, views_of,
};
use crate::protocol::error::{Error, ErrorView};
use crate::protocol::text::str_eq;
use crate::protocol::xml::{element_children, read_attribute, xml_nodes, XmlDocument, XmlNodeView};

verus! {

/// The values of `f` at `0..n`, in order; or the first error among them.
pub open spec fn collect<T>(n: int, f: spec_fn(int) -> Result<T, ErrorView>) -> Result<Seq<T>, ErrorView>
    decreases n,
{
    if n <= 0 {
        Ok(Seq::empty())
    } else {
        match collect(n - 1, f) {
            Err(e) => Err(e),
            Ok(s) => match f(n - 1) {
                Err(e) => Err(e),
                Ok(v) => Ok(s.push(v)),
            },
        }
    }
}

proof fn lemma_collect_err_stable<T>(n: int, m: int, f: spec_fn(int) -> Result<T, ErrorView>)
    requires
        0 <= n <= m,
        collect(n, f) is Err,
    ensures
        collect(m, f) == collect(n, f),
    decreases m - n,
{
    if n < m {
        lemma_collect_err_stable(n, m - 1, f);
    }
}

/// A variant of an enum, read from child `c`.
pub open spec fn variant_of(nodes: Seq<XmlNodeView>, c: int) -> Result<Seq<char>, ErrorView> {
    if nodes[c].tag == "Variant"@ {
        read_attribute(nodes[c], "name"@)
    } else {
        Err(ErrorView::UnknownTag(nodes[c].tag))
    }
}

/// An enum read from element `k`: its name, then a variant per child.
pub open spec fn parse_enum(nodes: Seq<XmlNodeView>, k: int) -> Result<EnumDefinitionView, ErrorView> {
    match read_attribute(nodes[k], "name"@) {
        Err(e) => Err(e),
        Ok(name) => {
            let cs = element_children(nodes, nodes[k].id);
            match collect(cs.len() as int, |j: int| variant_of(nodes, cs[j])) {
                Err(e) => Err(e),
                Ok(variants) => Ok(EnumDefinitionView { name, variants }),
            }
        },
    }
}

/// A field type of a wrapper, read from child `c`.
pub open spec fn wrapped_type_of(nodes: Seq<XmlNodeView>, c: int) -> Result<Seq<char>, ErrorView> {
    if nodes[c].tag == "Type"@ {
        read_attribute(nodes[c], "name"@)
    } else {
        Err(ErrorView::UnknownTag(nodes[c].tag))
    }
}

/// A wrapper read from element `k`: its name, then a type per child.
pub open spec fn parse_wrapper(nodes: Seq<XmlNodeView>, k: int) -> Result<WrapperDefinitionView, ErrorView> {
    match read_attribute(nodes[k], "name"@) {
        Err(e) => Err(e),
        Ok(name) => {
            let cs = element_children(nodes, nodes[k].id);
            match collect(cs.len() as int, |j: int| wrapped_type_of(nodes, cs[j])) {
                Err(e) => Err(e),
                Ok(types) => Ok(WrapperDefinitionView { name, types }),
            }
        },
    }
}

/// A value of a chunk, read from child `c`: a `Pattern` element with a name
/// (`type` becomes `ty`) and a type; a `String` also names the field that
/// holds its length.
pub open spec fn pattern_of_node(nodes: Seq<XmlNodeView>, c: int) -> Result<FieldTypeView, ErrorView> {
    if nodes[c].tag != "Pattern"@ {
        Err(ErrorView::UnknownTag(nodes[c].tag))
    } else {
        match read_attribute(nodes[c], "name"@) {
            Err(e) => Err(e),
            Ok(raw) => {
                let name = if raw == "type"@ {
                    "ty"@
                } else {
                    raw
                };
                match read_attribute(nodes[c], "type"@) {
                    Err(e) => Err(e),
                    Ok(ty) => if ty == "String"@ {
                        match read_attribute(nodes[c], "length_src"@) {
                            Err(e) => Err(e),
                            Ok(length_src) => Ok(FieldTypeView::Variable { name, length_src }),
                        }
                    } else {
                        Ok(FieldTypeView::General(FieldDefinitionView { name, ty }))
                    },
                }
            },
        }
    }
}

/// The chunk of message `src_name`, read from element `k`.
pub open spec fn parse_chunk(nodes: Seq<XmlNodeView>, src_name: Seq<char>, k: int) -> Result<
    ChunkPatternView,
    ErrorView,
> {
    let cs = element_children(nodes, nodes[k].id);
    match collect(cs.len() as int, |j: int| pattern_of_node(nodes, cs[j])) {
        Err(e) => Err(e),
        Ok(fields) => Ok(ChunkPatternView { name: src_name, fields }),
    }
}

/// The fields and the chunk of a message read so far.
pub struct MessageBody {
    pub fields: Seq<FieldDefinitionView>,
    pub chunk: Option<ChunkPatternView>,
}

/// The first `n` children `cs` of message `name`: `Field` elements with a
/// name and a type, and at most one `Chunk`.
pub open spec fn message_body(nodes: Seq<XmlNodeView>, name: Seq<char>, cs: Seq<int>, n: int) -> Result<
    MessageBody,
    ErrorView,
>
    decreases n,
{
    if n <= 0 {
        Ok(MessageBody { fields: Seq::empty(), chunk: None })
    } else {
        match message_body(nodes, name, cs, n - 1) {
            Err(e) => Err(e),
            Ok(b) => {
                let c = cs[n - 1];
                let tag = nodes[c].tag;
                if tag == "Field"@ {
                    match read_attribute(nodes[c], "name"@) {
                        Err(e) => Err(e),
                        Ok(fname) => match read_attribute(nodes[c], "type"@) {
                            Err(e) => Err(e),
                            Ok(fty) => Ok(
                                MessageBody {
                                    fields: b.fields.push(FieldDefinitionView { name: fname, ty: fty }),
                                    chunk: b.chunk,
                                },
                            ),
                        },
                    }
                } else if tag == "Chunk"@ {
                    if b.chunk is Some {
                        Err(ErrorView::DuplicateChunk(name))
                    } else {
                        match parse_chunk(nodes, name, c) {
                            Err(e) => Err(e),
                            Ok(chunk) => Ok(MessageBody { fields: b.fields, chunk: Some(chunk) }),
                        }
                    }
                } else {
                    Err(ErrorView::UnknownTag(tag))
                }
            },
        }
    }
}

proof fn lemma_body_err_stable(nodes: Seq<XmlNodeView>, name: Seq<char>, cs: Seq<int>, n: int, m: int)
    requires
        0 <= n <= m,
        message_body(nodes, name, cs, n) is Err,
    ensures
        message_body(nodes, name, cs, m) == message_body(nodes, name, cs, n),
    decreases m - n,
{
    if n < m {
        lemma_body_err_stable(nodes, name, cs, n, m - 1);
    }
}

/// A message read from element `k`: its name, type and version, then its
/// fields and chunk.
pub open spec fn parse_message(nodes: Seq<XmlNodeView>, k: int) -> Result<MessageDefinitionView, ErrorView> {
    match read_attribute(nodes[k], "name"@) {
        Err(e) => Err(e),
        Ok(name) => match read_attribute(nodes[k], "type"@) {
            Err(e) => Err(e),
            Ok(ty) => match read_attribute(nodes[k], "version"@) {
                Err(e) => Err(e),
                Ok(version) => {
                    let cs = element_children(nodes, nodes[k].id);
                    match message_body(nodes, name, cs, cs.len() as int) {
                        Err(e) => Err(e),
                        Ok(b) => Ok(MessageDefinitionView { name, ty, version, fields: b.fields, chunk: b.chunk }),
                    }
                },
            },
        },
    }
}

/// The definition that child `c` of a protocol holds: enums, wrappers and
/// messages; `Structs` and `LocalKindTable` elements are passed over.
pub open spec fn definition_of(nodes: Seq<XmlNodeView>, c: int) -> Result<Option<DefinitionView>, ErrorView> {
    let tag = nodes[c].tag;
    if tag == "Enum"@ {
        match parse_enum(nodes, c) {
            Err(e) => Err(e),
            Ok(d) => Ok(Some(DefinitionView::Enum(d))),
        }
    } else if tag == "Structs"@ || tag == "LocalKindTable"@ {
        Ok(None)
    } else if tag == "Wrapper"@ {
        match parse_wrapper(nodes, c) {
            Err(e) => Err(e),
            Ok(d) => Ok(Some(DefinitionView::Wrapper(d))),
        }
    } else if tag == "Message"@ {
        match parse_message(nodes, c) {
            Err(e) => Err(e),
            Ok(d) => Ok(Some(DefinitionView::Message(d))),
        }
    } else {
        Err(ErrorView::UnknownTag(tag))
    }
}

/// The definitions of the first `n` children `cs` of a protocol, in order.
pub open spec fn protocol_items(nodes: Seq<XmlNodeView>, cs: Seq<int>, n: int) -> Result<
    Seq<DefinitionView>,
    ErrorView,
>
    decreases n,
{
    if n <= 0 {
        Ok(Seq::empty())
    } else {
        match protocol_items(nodes, cs, n - 1) {
            Err(e) => Err(e),
            Ok(s) => match definition_of(nodes, cs[n - 1]) {
                Err(e) => Err(e),
                Ok(Some(d)) => Ok(s.push(d)),
                Ok(None) => Ok(s),
            },
        }
    }
}

proof fn lemma_items_err_stable(nodes: Seq<XmlNodeView>, cs: Seq<int>, n: int, m: int)
    requires
        0 <= n <= m,
        protocol_items(nodes, cs, n) is Err,
    ensures
        protocol_items(nodes, cs, m) == protocol_items(nodes, cs, n),
    decreases m - n,
{
    if n < m {
        lemma_items_err_stable(nodes, cs, n, m - 1);
    }
}

/// The definitions of a protocol document: its first node below the
/// document's root is a `Protocol` element with a name, whose children hold
/// the definitions.
pub open spec fn parse_protocol(nodes: Seq<XmlNodeView>) -> Result<DefinitionsView, ErrorView> {
    if nodes.len() == 0 {
        Err(ErrorView::MalformedXml)
    } else {
        match first_where(nodes.len() as int, |k: int| nodes[k].parent == Some(nodes[0].id)) {
            None => Err(ErrorView::MalformedXml),
            Some(r) => if nodes[r].tag != "Protocol"@ {
                Err(ErrorView::UnknownTag(nodes[r].tag))
            } else {
                match read_attribute(nodes[r], "name"@) {
                    Err(e) => Err(e),
                    Ok(protocol) => {
                        let cs = element_children(nodes, nodes[r].id);
                        match protocol_items(nodes, cs, cs.len() as int) {
                            Err(e) => Err(e),
                            Ok(definitions) => Ok(DefinitionsView { protocol, definitions }),
                        }
                    },
                }
            },
        }
    }
}

/// The definitions that the protocol document `content` holds.
pub open spec fn parse_xml(content: Seq<char>) -> Result<DefinitionsView, ErrorView> {
    match xml_nodes(content) {
        None => Err(ErrorView::MalformedXml),
        Some(nodes) => parse_protocol(nodes),
    }
}

fn tag_is(doc: &XmlDocument, node: usize, tag: &str) -> (r: bool)
    requires
        node < doc@.len(),
    ensures
        r == (doc@[node as int].tag == tag@),
{
    assert(doc@[node as int] == doc.nodes@[node as int]@);
    str_eq(doc.nodes[node].tag.as_str(), tag)
}

fn unknown_tag(doc: &XmlDocument, node: usize) -> (r: Error)
    requires
        node < doc@.len(),
    ensures
        r@ == ErrorView::UnknownTag(doc@[node as int].tag),
{
    assert(doc@[node as int] == doc.nodes@[node as int]@);
    Error::UnknownTag(doc.nodes[node].tag.clone())
}

fn variant_at(doc: &XmlDocument, c: usize) -> (r: Result<String, Error>)
    requires
        c < doc@.len(),
    ensures
        match r {
            Ok(v) => variant_of(doc@, c as int) == Ok::<Seq<char>, ErrorView>(v@),
            Err(e) => variant_of(doc@, c as int) == Err::<Seq<char>, ErrorView>(e@),
        },
{
    if tag_is(doc, c, "Variant") {
        doc.read_attribute(c, "name")
    } else {
        Err(unknown_tag(doc, c))
    }
}

fn wrapped_type_at(doc: &XmlDocument, c: usize) -> (r: Result<String, Error>)
    requires
        c < doc@.len(),
    ensures
        match r {
            Ok(v) => wrapped_type_of(doc@, c as int) == Ok::<Seq<char>, ErrorView>(v@),
            Err(e) => wrapped_type_of(doc@, c as int) == Err::<Seq<char>, ErrorView>(e@),
        },
{
    if tag_is(doc, c, "Type") {
        doc.read_attribute(c, "name")
    } else {
        Err(unknown_tag(doc, c))
    }
}

/// Reads the names that the children of `node` hold, one per child, with
/// `read` as `spec` states it.
fn read_names(
    doc: &XmlDocument,
    node: usize,
    variants: bool,
) -> (r: Result<Vec<String>, Error>)
    requires
        node < doc@.len(),
    ensures
        ({
            let cs = element_children(doc@, doc@[node as int].id);
            let f = if variants {
                |j: int| variant_of(doc@, cs[j])
            } else {
                |j: int| wrapped_type_of(doc@, cs[j])
            };
            match r {
                Ok(v) => collect(cs.len() as int, f) == Ok::<Seq<Seq<char>>, ErrorView>(views_of(v@)),
                Err(e) => collect(cs.len() as int, f) == Err::<Seq<Seq<char>>, ErrorView>(e@),
            }
        }),
{
    let cs = doc.element_children(node);
    let ghost csv = element_children(doc@, doc@[node as int].id);
    let ghost f = if variants {
        |j: int| variant_of(doc@, csv[j])
    } else {
        |j: int| wrapped_type_of(doc@, csv[j])
    };
    let mut names: Vec<String> = Vec::new();
    let mut j: usize = 0;
    assert(views_of(names@) =~= Seq::<Seq<char>>::empty());
    while j < cs.len()
        invariant
            j <= cs@.len(),
            node < doc@.len(),
            csv == element_children(doc@, doc@[node as int].id),
            cs@.map_values(|k: usize| k as int) == csv,
            forall|i: int| 0 <= i < cs@.len() ==> #[trigger] cs@[i] < doc@.len(),
            f == (if variants {
                |j: int| variant_of(doc@, csv[j])
            } else {
                |j: int| wrapped_type_of(doc@, csv[j])
            }),
            collect(j as int, f) == Ok::<Seq<Seq<char>>, ErrorView>(views_of(names@)),
        decreases cs@.len() - j,
    {
        let c = cs[j];
        assert(csv[j as int] == c as int);
        let read = if variants {
            variant_at(doc, c)
        } else {
            wrapped_type_at(doc, c)
        };
        match read {
            Err(e) => {
                proof {
                    lemma_collect_err_stable(j as int + 1, cs@.len() as int, f);
                }
                return Err(e);
            },
            Ok(v) => {
                let ghost before = views_of(names@);
                names.push(v);
                assert(views_of(names@) =~= before.push(v@));
            },
        }
        j = j + 1;
    }
    assert(csv.len() == cs@.len());
    Ok(names)
}

impl EnumDefinition {
    /// Reads an enum from element `node`: its `name`, then the `name` of
    /// each `Variant` child.
    pub fn parse(doc: &XmlDocument, node: usize) -> (r: Result<EnumDefinition, Error>)
        requires
            node < doc@.len(),
        ensures
            match r {
                Ok(d) => parse_enum(doc@, node as int) == Ok::<EnumDefinitionView, ErrorView>(d@),
                Err(e) => parse_enum(doc@, node as int) == Err::<EnumDefinitionView, ErrorView>(e@),
            },
    {
        let name = match doc.read_attribute(node, "name") {
            Ok(name) => name,
            Err(e) => {
                return Err(e);
            },
        };
        match read_names(doc, node, true) {
            Ok(variants) => Ok(EnumDefinition { name, variants }),
            Err(e) => Err(e),
        }
    }
}

impl WrapperDefinition {
    /// Reads a wrapper from element `node`: its `name`, then the `name` of
    /// each `Type` child.
    pub fn parse(doc: &XmlDocument, node: usize) -> (r: Result<WrapperDefinition, Error>)
        requires
            node < doc@.len(),
        ensures
            match r {
                Ok(d) => parse_wrapper(doc@, node as int) == Ok::<WrapperDefinitionView, ErrorView>(d@),
                Err(e) => parse_wrapper(doc@, node as int) == Err::<WrapperDefinitionView, ErrorView>(e@),
            },
    {
        let name = match doc.read_attribute(node, "name") {
            Ok(name) => name,
            Err(e) => {
                return Err(e);
            },
        };
        match read_names(doc, node, false) {
            Ok(types) => Ok(WrapperDefinition { name, types }),
            Err(e) => Err(e),
        }
    }
}

fn pattern_at(doc: &XmlDocument, c: usize) -> (r: Result<FieldType, Error>)
    requires
        c < doc@.len(),
    ensures
        match r {
            Ok(v) => pattern_of_node(doc@, c as int) == Ok::<FieldTypeView, ErrorView>(v@),
            Err(e) => pattern_of_node(doc@, c as int) == Err::<FieldTypeView, ErrorView>(e@),
        },
{
    if !tag_is(doc, c, "Pattern") {
        return Err(unknown_tag(doc, c));
    }
    let raw = match doc.read_attribute(c, "name") {
        Ok(v) => v,
        Err(e) => {
            return Err(e);
        },
    };
    let name = if str_eq(raw.as_str(), "type") {
        String::from_str("ty")
    } else {
        raw
    };
    let ty = match doc.read_attribute(c, "type") {
        Ok(v) => v,
        Err(e) => {
            return Err(e);
        },
    };
    if str_eq(ty.as_str(), "String") {
        match doc.read_attribute(c, "length_src") {
            Ok(length_src) => Ok(FieldType::Variable(VariableFieldDefinition { name, length_src })),
            Err(e) => Err(e),
        }
    } else {
        Ok(FieldType::General(FieldDefinition { name, ty }))
    }
}

impl ChunkPattern {
    /// Reads the chunk of message `src_name` from element `node`: a value
    /// per `Pattern` child.
    pub fn parse(src_name: String, doc: &XmlDocument, node: usize) -> (r: Result<ChunkPattern, Error>)
        requires
            node < doc@.len(),
        ensures
            match r {
                Ok(d) => parse_chunk(doc@, src_name@, node as int) == Ok::<ChunkPatternView, ErrorView>(d@),
                Err(e) => parse_chunk(doc@, src_name@, node as int) == Err::<ChunkPatternView, ErrorView>(e@),
            },
    {
        let cs = doc.element_children(node);
        let ghost csv = element_children(doc@, doc@[node as int].id);
        let ghost f = |j: int| pattern_of_node(doc@, csv[j]);
        let mut fields: Vec<FieldType> = Vec::new();
        let mut j: usize = 0;
        assert(fields@.map_values(|f: FieldType| f@) =~= Seq::<FieldTypeView>::empty());
        while j < cs.len()
            invariant
                j <= cs@.len(),
                node < doc@.len(),
                csv == element_children(doc@, doc@[node as int].id),
                cs@.map_values(|k: usize| k as int) == csv,
                forall|i: int| 0 <= i < cs@.len() ==> #[trigger] cs@[i] < doc@.len(),
                f == (|j: int| pattern_of_node(doc@, csv[j])),
                collect(j as int, f) == Ok::<Seq<FieldTypeView>, ErrorView>(fields@.map_values(|f: FieldType| f@)),
            decreases cs@.len() - j,
        {
            let c = cs[j];
            assert(csv[j as int] == c as int);
            match pattern_at(doc, c) {
                Err(e) => {
                    proof {
                        lemma_collect_err_stable(j as int + 1, cs@.len() as int, f);
                    }
                    return Err(e);
                },
                Ok(v) => {
                    let ghost before = fields@.map_values(|f: FieldType| f@);
                    let ghost vv = v@;
                    fields.push(v);
                    assert(fields@.map_values(|f: FieldType| f@) =~= before.push(vv));
                },
            }
            j = j + 1;
        }
        assert(csv.len() == cs@.len());
        Ok(ChunkPattern { name: src_name, fields })
    }
}

impl MessageDefinition {
    /// Reads a message from element `node`: its `name`, `type` and
    /// `version`, then a field per `Field` child (with `name` and `type`)
    /// and at most one `Chunk` child.
    pub fn parse(doc: &XmlDocument, node: usize) -> (r: Result<MessageDefinition, Error>)
        requires
            node < doc@.len(),
        ensures
            match r {
                Ok(d) => parse_message(doc@, node as int) == Ok::<MessageDefinitionView, ErrorView>(d@),
                Err(e) => parse_message(doc@, node as int) == Err::<MessageDefinitionView, ErrorView>(e@),
            },
    {
        let name = match doc.read_attribute(node, "name") {
            Ok(v) => v,
            Err(e) => {
                return Err(e);
            },
        };
        let ty = match doc.read_attribute(node, "type") {
            Ok(v) => v,
            Err(e) => {
                return Err(e);
            },
        };
        let version = match doc.read_attribute(node, "version") {
            Ok(v) => v,
            Err(e) => {
                return Err(e);
            },
        };
        let cs = doc.element_children(node);
        let ghost csv = element_children(doc@, doc@[node as int].id);
        let mut fields: Vec<FieldDefinition> = Vec::new();
        let mut chunk: Option<ChunkPattern> = None;
        let mut j: usize = 0;
        assert(fields@.map_values(|f: FieldDefinition| f@) =~= Seq::<FieldDefinitionView>::empty());
        while j < cs.len()
            invariant
                j <= cs@.len(),
                node < doc@.len(),
                csv == element_children(doc@, doc@[node as int].id),
                cs@.map_values(|k: usize| k as int) == csv,
                forall|i: int| 0 <= i < cs@.len() ==> #[trigger] cs@[i] < doc@.len(),
                read_attribute(doc@[node as int], "name"@) == Ok::<Seq<char>, ErrorView>(name@),
                read_attribute(doc@[node as int], "type"@) == Ok::<Seq<char>, ErrorView>(ty@),
                read_attribute(doc@[node as int], "version"@) == Ok::<Seq<char>, ErrorView>(version@),
                message_body(doc@, name@, csv, j as int) == Ok::<MessageBody, ErrorView>(
                    MessageBody {
                        fields: fields@.map_values(|f: FieldDefinition| f@),
                        chunk: match chunk {
                            Some(c) => Some(c@),
                            None => None,
                        },
                    },
                ),
            decreases cs@.len() - j,
        {
            let c = cs[j];
            assert(csv[j as int] == c as int);
            if tag_is(doc, c, "Field") {
                let fname = match doc.read_attribute(c, "name") {
                    Ok(v) => v,
                    Err(e) => {
                        proof {
                            lemma_body_err_stable(doc@, name@, csv, j as int + 1, csv.len() as int);
                        }
                        return Err(e);
                    },
                };
                let fty = match doc.read_attribute(c, "type") {
                    Ok(v) => v,
                    Err(e) => {
                        proof {
                            lemma_body_err_stable(doc@, name@, csv, j as int + 1, csv.len() as int);
                        }
                        return Err(e);
                    },
                };
                let ghost before = fields@.map_values(|f: FieldDefinition| f@);
                fields.push(FieldDefinition { name: fname, ty: fty });
                assert(fields@.map_values(|f: FieldDefinition| f@) =~= before.push(
                    FieldDefinitionView { name: fname@, ty: fty@ },
                ));
            } else if tag_is(doc, c, "Chunk") {
                if chunk.is_some() {
                    proof {
                        lemma_body_err_stable(doc@, name@, csv, j as int + 1, csv.len() as int);
                    }
                    return Err(Error::DuplicateChunk(name));
                }
                match ChunkPattern::parse(name.clone(), doc, c) {
                    Ok(p) => {
                        chunk = Some(p);
                    },
                    Err(e) => {
                        proof {
                            lemma_body_err_stable(doc@, name@, csv, j as int + 1, csv.len() as int);
                        }
                        return Err(e);
                    },
                }
            } else {
                proof {
                    lemma_body_err_stable(doc@, name@, csv, j as int + 1, csv.len() as int);
                }
                return Err(unknown_tag(doc, c));
            }
            j = j + 1;
        }
        assert(csv.len() == cs@.len());
        Ok(MessageDefinition { name, ty, version, fields, chunk })
    }
}

fn definition_at(doc: &XmlDocument, c: usize) -> (r: Result<Option<Definition>, Error>)
    requires
        c < doc@.len(),
    ensures
        match r {
            Ok(Some(d)) => definition_of(doc@, c as int) == Ok::<Option<DefinitionView>, ErrorView>(Some(d@)),
            Ok(None) => definition_of(doc@, c as int) == Ok::<Option<DefinitionView>, ErrorView>(None),
            Err(e) => definition_of(doc@, c as int) == Err::<Option<DefinitionView>, ErrorView>(e@),
        },
{
    if tag_is(doc, c, "Enum") {
        match EnumDefinition::parse(doc, c) {
            Ok(d) => Ok(Some(Definition::Enum(d))),
            Err(e) => Err(e),
        }
    } else if tag_is(doc, c, "Structs") || tag_is(doc, c, "LocalKindTable") {
        Ok(None)
    } else if tag_is(doc, c, "Wrapper") {
        match WrapperDefinition::parse(doc, c) {
            Ok(d) => Ok(Some(Definition::Wrapper(d))),
            Err(e) => Err(e),
        }
    } else if tag_is(doc, c, "Message") {
        match MessageDefinition::parse(doc, c) {
            Ok(d) => Ok(Some(Definition::Message(d))),
            Err(e) => Err(e),
        }
    } else {
        Err(unknown_tag(doc, c))
    }
}

impl Definitions {
    /// Reads the definitions of a protocol from its document: the first
    /// node below the document's root must be a `Protocol` element with a
    /// `name`; each of its `Enum`, `Wrapper` and `Message` children is a
    /// definition, `Structs` and `LocalKindTable` children are passed over.
    pub fn parse_document(doc: &XmlDocument) -> (r: Result<Definitions, Error>)
        ensures
            match r {
                Ok(d) => parse_protocol(doc@) == Ok::<DefinitionsView, ErrorView>(d@),
                Err(e) => parse_protocol(doc@) == Err::<DefinitionsView, ErrorView>(e@),
            },
    {
        if doc.nodes.len() == 0 {
            return Err(Error::MalformedXml);
        }
        let ghost nodes = doc@;
        let root_id = doc.nodes[0].id;
        assert(nodes[0].id == root_id);
        let ghost p = |k: int| nodes[k].parent == Some(nodes[0].id);
        let mut k: usize = 0;
        let mut top: Option<usize> = None;
        while k < doc.nodes.len() && top.is_none()
            invariant
                k <= doc.nodes@.len(),
                nodes == doc@,
                nodes.len() == doc.nodes@.len(),
                nodes.len() > 0,
                root_id == nodes[0].id,
                p == (|k: int| nodes[k].parent == Some(nodes[0].id)),
                match top {
                    Some(t) => first_where(nodes.len() as int, p) == Some(t as int) && t < nodes.len(),
                    None => first_where(k as int, p) is None,
                },
            decreases doc.nodes@.len() - k,
        {
            assert(nodes[k as int] == doc.nodes@[k as int]@);
            let is_top = match doc.nodes[k].parent {
                Some(parent) => parent == root_id,
                None => false,
            };
            if is_top {
                proof {
                    lemma_first_where_found(k as int, p);
                    crate::protocol::definitions::lemma_first_where_stable(k as int + 1, nodes.len() as int, p);
                }
                top = Some(k);
            }
            k = k + 1;
        }
        let top = match top {
            Some(t) => t,
            None => {
                return Err(Error::MalformedXml);
            },
        };
        if !tag_is(doc, top, "Protocol") {
            return Err(unknown_tag(doc, top));
        }
        let protocol = match doc.read_attribute(top, "name") {
            Ok(v) => v,
            Err(e) => {
                return Err(e);
            },
        };
        let cs = doc.element_children(top);
        let ghost csv = element_children(doc@, doc@[top as int].id);
        let mut definitions: Vec<Definition> = Vec::new();
        let mut j: usize = 0;
        assert(definitions@.map_values(|d: Definition| d@) =~= Seq::<DefinitionView>::empty());
        while j < cs.len()
            invariant
                j <= cs@.len(),
                top < doc@.len(),
                doc@.len() > 0,
                first_where(doc@.len() as int, |k: int| doc@[k].parent == Some(doc@[0].id)) == Some(top as int),
                doc@[top as int].tag == "Protocol"@,
                read_attribute(doc@[top as int], "name"@) == Ok::<Seq<char>, ErrorView>(protocol@),
                csv == element_children(doc@, doc@[top as int].id),
                cs@.map_values(|k: usize| k as int) == csv,
                forall|i: int| 0 <= i < cs@.len() ==> #[trigger] cs@[i] < doc@.len(),
                protocol_items(doc@, csv, j as int) == Ok::<Seq<DefinitionView>, ErrorView>(
                    definitions@.map_values(|d: Definition| d@),
                ),
            decreases cs@.len() - j,
        {
            let c = cs[j];
            assert(csv[j as int] == c as int);
            match definition_at(doc, c) {
                Err(e) => {
                    proof {
                        lemma_items_err_stable(doc@, csv, j as int + 1, csv.len() as int);
                    }
                    return Err(e);
                },
                Ok(Some(d)) => {
                    let ghost before = definitions@.map_values(|d: Definition| d@);
                    let ghost dv = d@;
                    definitions.push(d);
                    assert(definitions@.map_values(|d: Definition| d@) =~= before.push(dv));
                },
                Ok(None) => {},
            }
            j = j + 1;
        }
        assert(csv.len() == cs@.len());
        Ok(Definitions { protocol, definitions })
    }

    /// Reads the definitions of a protocol from its XML text; `MalformedXml`
    /// where the text is not well-formed XML.
    pub fn parse_from_xml(content: &str) -> (r: Result<Definitions, Error>)
        ensures
            match r {
                Ok(d) => parse_xml(content@) == Ok::<DefinitionsView, ErrorView>(d@),
                Err(e) => parse_xml(content@) == Err::<DefinitionsView, ErrorView>(e@),
            },
    {
        match XmlDocument::parse(content) {
            Some(doc) => Definitions::parse_document(&doc),
            None => Err(Error::MalformedXml),
        }
    }
}

} // verus!
