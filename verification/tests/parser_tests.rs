//! Tests for the protocol-definition parser.

use libvirt_rpc::ast::{ConstValue, LengthSpec, Type, TypeDef};
use libvirt_rpc::parser::{
    const_def, parse_protocol, remove_comments, resolve_well_known_constant,
};

#[test]
fn test_remove_comments() {
    let input = r#"
            /* block comment */
            const FOO = 1; // line comment
            # preprocessor
            const BAR = 2;
        "#;
    let result = String::from_utf8(remove_comments(input.as_bytes())).unwrap();
    assert!(!result.contains("block comment"));
    assert!(!result.contains("line comment"));
    assert!(!result.contains("preprocessor"));
}

#[test]
fn test_block_comment_newlines_kept() {
    // Newlines inside a block comment survive, so line numbers stay
    // right; the closed comment itself leaves one space.
    let out = String::from_utf8(remove_comments(b"a/*x\ny*/b")).unwrap();
    assert_eq!(out, "a\n b");
    let input = "const A = 1;\n/* one\n   two */\nconst B = 2;\n";
    let stripped = String::from_utf8(remove_comments(input.as_bytes())).unwrap();
    assert_eq!(
        stripped.matches('\n').count(),
        input.matches('\n').count()
    );
}

#[test]
fn test_parse_const() {
    let input = "const FOO = 42;";
    let (c, _) = const_def(input.as_bytes(), 0).unwrap();
    assert_eq!(c.name, "FOO");
    assert!(matches!(c.value, ConstValue::Int(42)));
}

#[test]
fn test_parse_struct() {
    let input = r#"
            struct Point {
                int x;
                int y;
            };
        "#;
    let result = parse_protocol(input).unwrap();
    assert_eq!(result.types.len(), 1);

    if let TypeDef::Struct(s) = &result.types[0] {
        assert_eq!(s.name, "Point");
        assert_eq!(s.fields.len(), 2);
    } else {
        panic!("expected struct");
    }
}

#[test]
fn test_point_struct_fields() {
    // The same input yields exactly one struct whose two fields are
    // 32-bit integers named x and y, in that order.
    let input = "struct Point { int x; int y; };";
    let result = parse_protocol(input).unwrap();
    assert_eq!(result.types.len(), 1);
    if let TypeDef::Struct(s) = &result.types[0] {
        assert_eq!(s.fields[0].name, "x");
        assert!(matches!(s.fields[0].ty, Type::Int));
        assert_eq!(s.fields[1].name, "y");
        assert!(matches!(s.fields[1].ty, Type::Int));
    } else {
        panic!("expected struct");
    }
}

#[test]
fn test_parse_enum() {
    let input = r#"
            enum Color {
                RED = 0,
                GREEN = 1,
                BLUE = 2
            };
        "#;
    let result = parse_protocol(input).unwrap();
    assert_eq!(result.types.len(), 1);

    if let TypeDef::Enum(e) = &result.types[0] {
        assert_eq!(e.name, "Color");
        assert_eq!(e.variants.len(), 3);
    } else {
        panic!("expected enum");
    }
}

#[test]
fn test_parse_typedef() {
    let input = "typedef string remote_string<>;";
    let result = parse_protocol(input).unwrap();
    assert_eq!(result.types.len(), 1);

    if let TypeDef::Typedef(t) = &result.types[0] {
        assert_eq!(t.name, "remote_string");
    } else {
        panic!("expected typedef");
    }
}

#[test]
fn test_parse_union() {
    let input = r#"
            union remote_answer switch (int kind) {
            case 0:
                int plain;
            case 1:
                void;
            };
        "#;
    let result = parse_protocol(input).unwrap();
    assert_eq!(result.types.len(), 1);
    if let TypeDef::Union(u) = &result.types[0] {
        assert_eq!(u.name, "remote_answer");
        assert_eq!(u.discriminant.name, "kind");
        assert!(matches!(u.discriminant.ty, Type::Int));
        assert_eq!(u.cases.len(), 2);
        assert!(u.cases[0].field.is_some());
        assert!(u.cases[1].field.is_none());
    } else {
        panic!("expected union");
    }
}

#[test]
fn test_fixed_opaque_via_well_known_constant() {
    let input = "struct remote_domain { opaque uuid[VIR_UUID_BUFLEN]; };";
    let result = parse_protocol(input).unwrap();
    if let TypeDef::Struct(s) = &result.types[0] {
        assert!(matches!(
            s.fields[0].ty,
            Type::Opaque {
                len: LengthSpec::Fixed(16)
            }
        ));
    } else {
        panic!("expected struct");
    }
}

#[test]
fn test_resolve_well_known_constants() {
    assert_eq!(resolve_well_known_constant("VIR_UUID_BUFLEN"), Some(16));
    assert_eq!(resolve_well_known_constant("VIR_UUID_STRING_BUFLEN"), Some(37));
    assert_eq!(resolve_well_known_constant("SOMETHING_ELSE"), None);
}

#[test]
fn test_string_and_array_bounds() {
    let input = r#"
            struct remote_thing {
                string name<100>;
                opaque data<256>;
                int values<>;
                int fixed[4];
            };
            typedef remote_other *remote_maybe_other;
        "#;
    let result = parse_protocol(input).unwrap();
    if let TypeDef::Struct(s) = &result.types[0] {
        assert!(matches!(s.fields[0].ty, Type::String { max_len: Some(100) }));
        assert!(matches!(
            s.fields[1].ty,
            Type::Opaque {
                len: LengthSpec::Variable { max: Some(256) }
            }
        ));
        assert!(matches!(
            s.fields[2].ty,
            Type::Array {
                len: LengthSpec::Variable { max: None },
                ..
            }
        ));
        assert!(matches!(
            s.fields[3].ty,
            Type::Array {
                len: LengthSpec::Fixed(4),
                ..
            }
        ));
    } else {
        panic!("expected struct");
    }
    if let TypeDef::Typedef(t) = &result.types[1] {
        assert_eq!(t.name, "remote_maybe_other");
        assert!(matches!(t.target, Type::Optional(_)));
    } else {
        panic!("expected typedef");
    }
}

#[test]
fn test_hex_integer_constant() {
    let input = "const REMOTE_PROGRAM = 0x20008086;";
    let result = parse_protocol(input).unwrap();
    assert!(matches!(
        result.constants[0].value,
        ConstValue::Int(0x20008086)
    ));
    assert_eq!(result.program_id, Some(0x20008086));
    assert_eq!(result.name, "remote");
}

#[test]
fn test_protocol_metadata_and_procedures() {
    let input = r#"
            const REMOTE_PROGRAM = 0x20008086;
            const REMOTE_PROTOCOL_VERSION = 1;

            struct remote_connect_open_args {
                remote_string name;
                unsigned int flags;
            };

            enum remote_procedure {
                REMOTE_PROC_CONNECT_OPEN = 1,
                REMOTE_PROC_CONNECT_CLOSE = 2
            };
        "#;
    let result = parse_protocol(input).unwrap();
    assert_eq!(result.program_id, Some(0x20008086));
    assert_eq!(result.protocol_version, Some(1));
    assert_eq!(result.procedures.len(), 2);
    let open = &result.procedures[0];
    assert_eq!(open.name, "REMOTE_PROC_CONNECT_OPEN");
    assert_eq!(open.number, 1);
    assert_eq!(open.args.as_deref(), Some("remote_connect_open_args"));
    assert_eq!(open.ret, None);
    let close = &result.procedures[1];
    assert_eq!(close.number, 2);
    assert_eq!(close.args, None);
    assert_eq!(close.ret, None);
}

#[test]
fn test_syntax_error_position() {
    let err = parse_protocol("struct Broken {").unwrap_err();
    assert!(err.pos <= "struct Broken {".len());
}

#[test]
fn test_passthrough_lines_stripped() {
    let input = "%#include <something.h>\nconst FOO = 7;\n";
    let result = parse_protocol(input).unwrap();
    assert_eq!(result.constants.len(), 1);
    assert_eq!(result.constants[0].name, "FOO");
}
