use move_crawler::move_helper::create_spec;
use move_crawler::move_parser::{MoveField, MovePrimitiveType, MoveSourceMetadata, MoveStruct};

const SOURCE: &str = "module 0x1::coin {
    use std::signer;

    // a coin
    struct Coin<phantom T> has key, store {
        value: u64,
        owner: address,
    }

    struct Flag has drop { set: bool }

    public fun value(c: &Coin): u64 {
        c.value
    }
}
";

#[test]
fn default_values_of_primitive_types() {
    assert_eq!(MovePrimitiveType::Integer.default(), "0");
    assert_eq!(MovePrimitiveType::Bool.default(), "true");
    assert_eq!(MovePrimitiveType::Address.default(), "@0xCAFE");
}

#[test]
fn parses_modules_and_structs() {
    let meta = MoveSourceMetadata::parse_move_source_metadata(SOURCE).unwrap();
    assert_eq!(meta.modules.len(), 1);
    assert_eq!(meta.modules[0].address, "0x1");
    assert_eq!(meta.modules[0].name, "coin");
    assert_eq!(meta.modules[0].declaration_line, 0);
    assert_eq!(meta.structs.len(), 2);
    let coin = &meta.structs[0];
    assert_eq!(coin.name, "Coin");
    assert_eq!(coin.declaration_span, (4, 7));
    assert_eq!(
        coin.fields,
        vec![
            MoveField { name: "value".to_string(), _type: "u64".to_string() },
            MoveField { name: "owner".to_string(), _type: "address".to_string() },
        ]
    );
    let flag = &meta.structs[1];
    assert_eq!(flag.name, "Flag");
    assert_eq!(flag.declaration_span, (9, 9));
    assert!(flag.fields.is_empty());
}

#[test]
fn closing_brace_of_a_function_ends_no_struct() {
    let meta = MoveSourceMetadata::parse_move_source_metadata("fun f() {\n}\n").unwrap();
    assert!(meta.modules.is_empty());
    assert!(meta.structs.is_empty());
}

#[test]
fn unterminated_struct_is_an_error() {
    let r = MoveSourceMetadata::parse_move_source_metadata("module 0x1::m {\nstruct S {\n  a: u8,\n");
    assert_eq!(r, Err("Unterminated struct definition".to_string()));
}

#[test]
fn crlf_lines_and_unicode_whitespace_are_trimmed() {
    let code = "module 0x2::m {\r\n\u{3000}struct P {\r\n\tx : u128 ,\r\n}\r\n";
    let meta = MoveSourceMetadata::parse_move_source_metadata(code).unwrap();
    assert_eq!(meta.modules[0].address, "0x2");
    assert_eq!(meta.structs[0].name, "P");
    assert_eq!(meta.structs[0].declaration_span, (1, 3));
    assert_eq!(meta.structs[0].fields[0].name, "x");
    assert_eq!(meta.structs[0].fields[0]._type, "u128 ");
}

#[test]
fn comments_and_blank_lines_inside_structs_are_skipped() {
    let code = "struct S {\n\n  // note: not a field\n  a: vector<u8>\n}";
    let meta = MoveSourceMetadata::parse_move_source_metadata(code).unwrap();
    assert_eq!(meta.structs[0].fields.len(), 1);
    assert_eq!(meta.structs[0].fields[0]._type, "vector<u8>");
}

#[test]
fn a_new_struct_line_replaces_an_open_struct() {
    let code = "struct A {\n a: u8,\nstruct B {\n b: u8,\n}";
    let meta = MoveSourceMetadata::parse_move_source_metadata(code).unwrap();
    assert_eq!(meta.structs.len(), 1);
    assert_eq!(meta.structs[0].name, "B");
    assert_eq!(meta.structs[0].declaration_span, (2, 4));
    assert_eq!(meta.structs[0].fields.len(), 1);
}

#[test]
fn unreadable_lines_stop_the_scan() {
    assert!(MoveSourceMetadata::try_parse_move_source_metadata("module m {").is_none());
    assert!(MoveSourceMetadata::try_parse_move_source_metadata("module").is_none());
    assert!(MoveSourceMetadata::try_parse_move_source_metadata("struct").is_none());
    assert!(MoveSourceMetadata::try_parse_move_source_metadata("struct S {\n no colon\n}").is_none());
    assert!(MoveSourceMetadata::try_parse_move_source_metadata("").is_some());
}

#[test]
fn empty_source_has_no_declarations() {
    let meta = MoveSourceMetadata::parse_move_source_metadata("").unwrap();
    assert_eq!(meta, MoveSourceMetadata::default());
}

#[test]
fn spec_for_primitive_fields() {
    let s = MoveStruct { name: "Coin".to_string(), declaration_span: (0, 3), fields: vec![] };
    let f = MoveField { name: "value".to_string(), _type: "u64".to_string() };
    assert_eq!(
        create_spec(&s, &f).unwrap(),
        "    spec Coin {\n        invariant value == 0;\n    }\n"
    );
    let b = MoveField { name: "on".to_string(), _type: "bool".to_string() };
    assert_eq!(create_spec(&s, &b).unwrap(), "    spec Coin {\n        invariant on == true;\n    }\n");
    let a = MoveField { name: "who".to_string(), _type: "address".to_string() };
    assert_eq!(
        create_spec(&s, &a).unwrap(),
        "    spec Coin {\n        invariant who == @0xCAFE;\n    }\n"
    );
}

#[test]
fn no_spec_for_other_fields() {
    let s = MoveStruct { name: "Coin".to_string(), declaration_span: (0, 3), fields: vec![] };
    let f = MoveField { name: "v".to_string(), _type: "vector<u8>".to_string() };
    assert_eq!(create_spec(&s, &f), None);
    let g = MoveField { name: "v".to_string(), _type: "U64".to_string() };
    assert_eq!(create_spec(&s, &g), None);
}

#[test]
fn whitespace_around_lines_does_not_change_the_scan() {
    let reindented: String = SOURCE.lines().map(|l| format!("\t {}  \n", l.trim())).collect();
    let a = MoveSourceMetadata::parse_move_source_metadata(SOURCE).unwrap();
    let b = MoveSourceMetadata::parse_move_source_metadata(&reindented).unwrap();
    assert_eq!(a.modules, b.modules);
    assert_eq!(a.structs, b.structs);
}
