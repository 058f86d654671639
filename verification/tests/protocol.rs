use cbus::protocol::definitions::{
    has_duplicates, Definition, Definitions, EnumDefinition, MessageDefinition, WrapperDefinition,
};
use cbus::protocol::error::Error;
use cbus::protocol::primitive::PrimitiveType;
use cbus::protocol::resolved::PatternType;
use cbus::protocol::table::{resolve, TypeTable};
use cbus::protocol::text::{decimal_string, parse_u8, str_eq};
use cbus::protocol::types::{ResolvedType, TypeHandle};
use cbus::protocol::xml::XmlDocument;

const DEMO: &str = r#"<Protocol name="demo">
  <Enum name="Color"><Variant name="Red"/><Variant name="Green"/></Enum>
  <Wrapper name="Pair"><Type name="u8"/><Type name="u32"/></Wrapper>
  <Structs/>
  <Message name="Paint" type="paint" version="3">
    <Field name="color" type="Color"/>
    <Field name="pair" type="Pair"/>
    <Field name="rest" type="[remainder]"/>
  </Message>
  <Message name="Names" type="names" version="+1">
    <Field name="count" type="u16"/>
    <Chunk><Pattern name="type" type="u8"/><Pattern name="Label" type="String" length_src="type"/></Chunk>
  </Message>
  <LocalKindTable/>
</Protocol>"#;

fn resolved(xml: &str) -> Result<(String, TypeTable), Vec<Error>> {
    let defs = Definitions::parse_from_xml(xml).map_err(|e| vec![e])?;
    assert!(defs.within_limits());
    resolve(defs)
}

fn handle_name(h: &TypeHandle) -> String {
    h.to_string()
}

#[test]
fn primitive_names_sizes_and_handles() {
    let all = [
        PrimitiveType::U8,
        PrimitiveType::U16,
        PrimitiveType::U32,
        PrimitiveType::U64,
        PrimitiveType::U128,
        PrimitiveType::I8,
        PrimitiveType::I16,
        PrimitiveType::I32,
        PrimitiveType::I64,
        PrimitiveType::I128,
    ];
    let sizes = [1, 2, 4, 8, 16, 1, 2, 4, 8, 16];
    for (p, size) in all.iter().zip(sizes) {
        assert_eq!(p.get_size(), size);
        assert_eq!(p.get_align(), size);
        assert_eq!(PrimitiveType::from_name(&p.name()), Some(*p));
        assert_eq!(handle_name(&p.get_handle()), p.name());
    }
    assert_eq!(PrimitiveType::U128.name(), "u128");
    assert_eq!(PrimitiveType::from_name("u7"), None);
    assert_eq!(PrimitiveType::from_name("U8"), None);
}

#[test]
fn type_handles_print_as_rust_types() {
    assert_eq!(TypeHandle::ByteArray(12).to_string(), "[u8; 12]");
    assert_eq!(TypeHandle::ByteArray(0).to_string(), "[u8; 0]");
    assert_eq!(TypeHandle::Other("Color".to_string()).to_string(), "Color");
    assert_eq!(TypeHandle::F64.to_string(), "f64");
    assert_eq!(TypeHandle::String.to_string(), "String");
    assert_eq!(PatternType::RunTime(TypeHandle::String, "len".to_string()).to_string(), "variable");
    assert_eq!(PatternType::CompileTime(TypeHandle::I16).to_string(), "i16");
}

#[test]
fn text_helpers() {
    assert_eq!(decimal_string(0), "0");
    assert_eq!(decimal_string(907), "907");
    assert_eq!(decimal_string(usize::MAX), usize::MAX.to_string());
    assert!(str_eq("abc", "abc"));
    assert!(!str_eq("abc", "abd"));
    assert!(!str_eq("ab", "abc"));
    assert_eq!(parse_u8("0"), Some(0));
    assert_eq!(parse_u8("255"), Some(255));
    assert_eq!(parse_u8("+7"), Some(7));
    assert_eq!(parse_u8("007"), Some(7));
    assert_eq!(parse_u8("256"), None);
    assert_eq!(parse_u8("99999999999"), None);
    assert_eq!(parse_u8(""), None);
    assert_eq!(parse_u8("+"), None);
    assert_eq!(parse_u8("-1"), None);
    assert_eq!(parse_u8("1a"), None);
    for s in ["0", "12", "255", "+3", "256", "x", "", "+", "1 "] {
        assert_eq!(parse_u8(s), s.parse::<u8>().ok(), "{s}");
    }
}

#[test]
fn duplicates_are_found_in_order() {
    let v: Vec<String> = ["a", "b", "c", "b", "a"].iter().map(|s| s.to_string()).collect();
    assert_eq!(has_duplicates(&v), Some("b"));
    let w: Vec<String> = ["x", "y"].iter().map(|s| s.to_string()).collect();
    assert_eq!(has_duplicates(&w), None);
    assert_eq!(has_duplicates(&[]), None);
}

#[test]
fn builtin_table_knows_the_builtin_types() {
    let t = TypeTable::default();
    assert_eq!(t.entries().len(), 16);
    assert!(t.contains("u8") && t.contains("String") && t.contains("[remainder]"));
    assert!(!t.contains("Color"));
    assert_eq!(t.get_primitive("i64"), Some(PrimitiveType::I64));
    assert_eq!(t.get_primitive("bool"), None);
    assert!(matches!(t.get_type("[remainder]"), Some(ResolvedType::Remainder)));
    assert!(t.get_type("nothing").is_none());
}

#[test]
fn document_is_read_into_definitions() {
    let defs = Definitions::parse_from_xml(DEMO).unwrap();
    assert_eq!(defs.protocol, "demo");
    assert_eq!(defs.definitions.len(), 4);
    match &defs.definitions[0] {
        Definition::Enum(e) => {
            assert_eq!(e.name, "Color");
            assert_eq!(e.variants, vec!["Red".to_string(), "Green".to_string()]);
        }
        other => panic!("unexpected {other:?}"),
    }
    match &defs.definitions[1] {
        Definition::Wrapper(w) => assert_eq!(w.types, vec!["u8".to_string(), "u32".to_string()]),
        other => panic!("unexpected {other:?}"),
    }
    match &defs.definitions[3] {
        Definition::Message(m) => {
            assert_eq!(m.name, "Names");
            assert_eq!(m.version, "+1");
            let chunk = m.chunk.as_ref().unwrap();
            assert_eq!(chunk.name, "Names");
            assert_eq!(chunk.fields.len(), 2);
        }
        other => panic!("unexpected {other:?}"),
    }
}

#[test]
fn resolution_lays_out_wrappers_and_messages() {
    let (protocol, mut table) = resolved(DEMO).unwrap();
    assert_eq!(protocol, "demo");
    assert_eq!(table.entries().len(), 20);
    table.filter();
    let names: Vec<&str> = table.entries().iter().map(|e| e.name.as_str()).collect();
    assert_eq!(names, vec!["Color", "Pair", "Paint", "Names"]);

    match table.get_type("Color") {
        Some(ResolvedType::Enum(e)) => assert_eq!(e.size, 1),
        other => panic!("unexpected {other:?}"),
    }
    match table.get_type("Pair") {
        Some(ResolvedType::Wrapper(w)) => {
            assert_eq!(w.size, 8);
            assert_eq!(w.align, 4);
            let types: Vec<String> = w.types.iter().map(handle_name).collect();
            assert_eq!(types, vec!["u8", "[u8; 3]", "u32"]);
        }
        other => panic!("unexpected {other:?}"),
    }
    match table.get_type("Paint") {
        Some(ResolvedType::Message(m)) => {
            assert_eq!(m.version, 3);
            assert_eq!(m.ty, "paint");
            assert_eq!(m.size, 27);
            let fields: Vec<(String, String)> =
                m.fields.iter().map(|f| (f.name.clone(), handle_name(&f.ty))).collect();
            assert_eq!(
                fields,
                vec![
                    ("color".to_string(), "Color".to_string()),
                    ("padding0".to_string(), "[u8; 3]".to_string()),
                    ("pair".to_string(), "Pair".to_string()),
                    ("rest".to_string(), "[u8; 15]".to_string()),
                ]
            );
            assert!(m.chunk.is_none());
            assert_eq!(m.get_mask(), "[0x00,0x00,0xFF,0xFF]");
        }
        other => panic!("unexpected {other:?}"),
    }
    match table.get_type("Names") {
        Some(ResolvedType::Message(m)) => {
            assert_eq!(m.version, 1);
            let fields: Vec<(String, String)> =
                m.fields.iter().map(|f| (f.name.clone(), handle_name(&f.ty))).collect();
            assert_eq!(
                fields,
                vec![
                    ("count".to_string(), "u16".to_string()),
                    ("chunk".to_string(), "[u8; 25]".to_string()),
                ]
            );
            let coder = m.chunk.as_ref().unwrap();
            assert_eq!(coder.name, "NamesCoder");
            assert_eq!(coder.patterns[0].name, "ty");
            assert_eq!(coder.patterns[0].size, 1);
            assert!(matches!(coder.patterns[0].ty, PatternType::CompileTime(TypeHandle::U8)));
            assert_eq!(coder.patterns[1].name, "label");
            assert_eq!(coder.patterns[1].size, std::mem::size_of::<String>());
            assert!(
                matches!(&coder.patterns[1].ty, PatternType::RunTime(TypeHandle::String, src) if src == "type")
            );
        }
        other => panic!("unexpected {other:?}"),
    }
}

#[test]
fn definitions_wait_for_the_types_they_use() {
    let xml = r#"<Protocol name="p">
        <Message name="M" type="m" version="0"><Field name="k" type="Kind"/><Field name="x" type="u64"/></Message>
        <Enum name="Kind"><Variant name="A"/></Enum>
    </Protocol>"#;
    let (_, mut table) = resolved(xml).unwrap();
    table.filter();
    let names: Vec<&str> = table.entries().iter().map(|e| e.name.as_str()).collect();
    assert_eq!(names, vec!["Kind", "M"]);
    match table.get_type("M") {
        Some(ResolvedType::Message(m)) => {
            let fields: Vec<(String, String)> =
                m.fields.iter().map(|f| (f.name.clone(), handle_name(&f.ty))).collect();
            assert_eq!(
                fields,
                vec![
                    ("k".to_string(), "Kind".to_string()),
                    ("padding0".to_string(), "[u8; 7]".to_string()),
                    ("x".to_string(), "u64".to_string()),
                    ("padding1".to_string(), "[u8; 11]".to_string()),
                ]
            );
        }
        other => panic!("unexpected {other:?}"),
    }
}

#[test]
fn enum_width_grows_past_255_variants() {
    let small = EnumDefinition { name: "S".into(), variants: (0..255).map(|i| format!("V{i}")).collect() };
    let big = EnumDefinition { name: "B".into(), variants: (0..256).map(|i| format!("V{i}")).collect() };
    let table = TypeTable::new();
    assert!(matches!(small.resolve(&table), ResolvedType::Enum(e) if e.size == 1));
    assert!(matches!(big.resolve(&table), ResolvedType::Enum(e) if e.size == 2));
}

#[test]
fn wrapper_of_three_fields() {
    let table = TypeTable::new();
    let w = WrapperDefinition {
        name: "W".into(),
        types: vec!["u16".into(), "u8".into(), "u64".into(), "u8".into()],
    };
    assert!(w.can_resolve(&table));
    match w.resolve(&table) {
        ResolvedType::Wrapper(w) => {
            let types: Vec<String> = w.types.iter().map(handle_name).collect();
            assert_eq!(types, vec!["u16", "u8", "[u8; 5]", "u64", "u8"]);
            assert_eq!(w.size, 17);
            assert_eq!(w.align, 8);
        }
        other => panic!("unexpected {other:?}"),
    }
    let not_primitive = WrapperDefinition { name: "X".into(), types: vec!["u8".into(), "bool".into()] };
    assert!(!not_primitive.can_resolve(&table));
    assert!(matches!(not_primitive.get_reason(&table), Err(Error::MissingType(t)) if t == "bool"));
}

#[test]
fn errors_of_documents() {
    assert!(matches!(Definitions::parse_from_xml("<Protocol"), Err(Error::MalformedXml)));
    assert!(matches!(
        Definitions::parse_from_xml("<Other name='x'/>"),
        Err(Error::UnknownTag(t)) if t == "Other"
    ));
    assert!(matches!(
        Definitions::parse_from_xml("<Protocol/>"),
        Err(Error::MissingAttribute { name, src }) if name == "name" && src == "Protocol"
    ));
    assert!(matches!(
        Definitions::parse_from_xml("<Protocol name='p'><Bogus/></Protocol>"),
        Err(Error::UnknownTag(t)) if t == "Bogus"
    ));
    assert!(matches!(
        Definitions::parse_from_xml("<Protocol name='p'><Enum name='E'><Item name='A'/></Enum></Protocol>"),
        Err(Error::UnknownTag(t)) if t == "Item"
    ));
    assert!(matches!(
        Definitions::parse_from_xml("<Protocol name='p'><Enum name='E'><Variant/></Enum></Protocol>"),
        Err(Error::MissingAttribute { name, src }) if name == "name" && src == "Variant"
    ));
    assert!(matches!(
        Definitions::parse_from_xml(
            "<Protocol name='p'><Message name='M' type='m' version='1'><Chunk/><Chunk/></Message></Protocol>"
        ),
        Err(Error::DuplicateChunk(m)) if m == "M"
    ));
    assert!(matches!(
        Definitions::parse_from_xml("<Protocol name='p'><Message name='M' type='m'/></Protocol>"),
        Err(Error::MissingAttribute { name, .. }) if name == "version"
    ));
    assert!(matches!(
        Definitions::parse_from_xml(
            "<Protocol name='p'><Message name='M' type='m' version='1'><Chunk><Pattern name='s' type='String'/></Chunk></Message></Protocol>"
        ),
        Err(Error::MissingAttribute { name, src }) if name == "length_src" && src == "Pattern"
    ));
}

#[test]
fn errors_of_resolution() {
    let dup = r#"<Protocol name="p"><Enum name="E"><Variant name="A"/><Variant name="B"/><Variant name="A"/></Enum></Protocol>"#;
    match resolved(dup) {
        Err(reasons) => {
            assert_eq!(reasons.len(), 1);
            assert!(matches!(&reasons[0], Error::DuplicateVariant { duplicate, src } if duplicate == "A" && src == "E"));
        }
        Ok(_) => panic!("resolved"),
    }
    let missing = r#"<Protocol name="p">
        <Message name="M" type="m" version="1"><Field name="a" type="Nope"/></Message>
        <Enum name="u8"><Variant name="A"/></Enum>
    </Protocol>"#;
    match resolved(missing) {
        Err(reasons) => {
            assert_eq!(reasons.len(), 2);
            assert!(matches!(&reasons[0], Error::MissingType(t) if t == "Nope"));
            assert!(matches!(&reasons[1], Error::AlreadyDefined(t) if t == "u8"));
        }
        Ok(_) => panic!("resolved"),
    }
    let dup_field = r#"<Protocol name="p"><Message name="M" type="m" version="1"><Field name="a" type="u8"/><Field name="a" type="u8"/></Message></Protocol>"#;
    assert!(matches!(resolved(dup_field).unwrap_err()[0], Error::DuplicateVariant { ref duplicate, .. } if duplicate == "a"));
    let too_large = r#"<Protocol name="p"><Message name="Big" type="b" version="1"><Field name="a" type="u128"/><Field name="b" type="u128"/></Message></Protocol>"#;
    assert!(matches!(&resolved(too_large).unwrap_err()[0], Error::MessageTooLarge(m) if m == "Big"));
    let bad_version = r#"<Protocol name="p"><Message name="M" type="m" version="300"/></Protocol>"#;
    assert!(matches!(&resolved(bad_version).unwrap_err()[0], Error::InvalidVersion { version, src } if version == "300" && src == "M"));
    let nested = r#"<Protocol name="p"><Message name="A" type="a" version="1"/><Message name="B" type="b" version="1"><Field name="a" type="A"/></Message></Protocol>"#;
    assert!(matches!(&resolved(nested).unwrap_err()[0], Error::UnsizedType { ty, src } if ty == "A" && src == "B"));
}

#[test]
fn reasons_for_single_definitions() {
    let table = TypeTable::new();
    let taken = EnumDefinition { name: "u8".into(), variants: vec![] };
    assert!(!taken.can_resolve(&table));
    assert!(matches!(taken.get_reason(&table), Err(Error::AlreadyDefined(n)) if n == "u8"));
    let fine = EnumDefinition { name: "E".into(), variants: vec!["A".into()] };
    assert!(fine.can_resolve(&table));
    assert!(fine.get_reason(&table).is_ok());
    let m = MessageDefinition {
        name: "M".into(),
        ty: "m".into(),
        version: "1".into(),
        fields: vec![],
        chunk: None,
    };
    assert!(m.can_resolve(&table));
    match Definition::Message(m).resolve(&table) {
        Ok(ResolvedType::Message(m)) => {
            assert_eq!(m.fields.len(), 1);
            assert_eq!(m.fields[0].name, "padding0");
            assert_eq!(m.fields[0].ty.to_string(), "[u8; 27]");
        }
        other => panic!("unexpected {other:?}"),
    }
}

#[test]
fn documents_are_flattened_in_document_order() {
    let doc = XmlDocument::parse("<a x='1'><b/>text<c y='2' x='3'/></a>").unwrap();
    assert_eq!(doc.nodes.len(), 5);
    assert_eq!(doc.nodes[0].parent, None);
    assert_eq!(doc.nodes[1].tag, "a");
    let children = doc.element_children(1);
    assert_eq!(children.len(), 2);
    assert_eq!(doc.nodes[children[0]].tag, "b");
    assert_eq!(doc.nodes[children[1]].tag, "c");
    assert_eq!(doc.attribute(children[1], "x").map(|s| s.as_str()), Some("3"));
    assert!(doc.attribute(children[0], "x").is_none());
    assert!(matches!(doc.read_attribute(children[0], "x"), Err(Error::MissingAttribute { src, .. }) if src == "b"));
}
