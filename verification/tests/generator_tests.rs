//! Tests for name mapping and code emission.

use libvirt_rpc::ast::{
    Constant, ConstValue, EnumDef, EnumVariant, Field, LengthSpec, Procedure, Priority,
    StructDef, Type, TypedefDef,
};
use libvirt_rpc::ast::{Protocol, ProtocolBundle, TypeDef};
use libvirt_rpc::generator::{
    generate, generate_bundle, generate_client_methods, generate_constant, generate_enum,
    generate_struct, generate_typedef, i64_to_dec, to_rust_field_name, to_rust_type_name,
    to_rust_variant_name, u64_to_dec,
};

#[test]
fn test_to_rust_type_name() {
    assert_eq!(to_rust_type_name("remote_domain"), "Domain");
    assert_eq!(to_rust_type_name("remote_nonnull_domain"), "NonnullDomain");
    assert_eq!(to_rust_type_name("foo_bar"), "FooBar");
}

#[test]
fn test_to_rust_field_name() {
    assert_eq!(to_rust_field_name("maxMem"), "max_mem");
    assert_eq!(to_rust_field_name("nrVirtCpu"), "nr_virt_cpu");
}

#[test]
fn test_generate_struct() {
    let s = StructDef {
        name: "remote_domain".to_string(),
        fields: vec![
            Field {
                name: "name".to_string(),
                ty: Type::String { max_len: None },
            },
            Field {
                name: "id".to_string(),
                ty: Type::Int,
            },
        ],
    };

    let code = generate_struct(&s);
    assert!(code.contains("struct Domain"));
    assert!(code.contains("name : String"));
    assert!(code.contains("id : i32"));
}

#[test]
fn test_generate_enum() {
    let e = EnumDef {
        name: "remote_domain_state".to_string(),
        variants: vec![
            EnumVariant {
                name: "VIR_DOMAIN_NOSTATE".to_string(),
                value: Some(ConstValue::Int(0)),
            },
            EnumVariant {
                name: "VIR_DOMAIN_RUNNING".to_string(),
                value: Some(ConstValue::Int(1)),
            },
        ],
    };

    let code = generate_enum(&e);
    assert!(code.contains("enum DomainState"));
    assert!(code.contains("DomainNostate"));
    assert!(code.contains("DomainRunning"));
}

#[test]
fn test_keyword_fields_escaped() {
    assert_eq!(to_rust_field_name("type"), "r#type");
    assert_eq!(to_rust_field_name("match"), "r#match");
    assert_eq!(to_rust_field_name("plain"), "plain");
}

#[test]
fn test_primitive_type_names_pass_through() {
    assert_eq!(to_rust_type_name("u8"), "u8");
    assert_eq!(to_rust_type_name("i64"), "i64");
    assert_eq!(to_rust_type_name("String"), "String");
}

#[test]
fn test_reserved_type_name_collision() {
    // remote_string camel-cases to String, which collides with the
    // standard type and gains a Remote prefix.
    assert_eq!(to_rust_type_name("remote_string"), "RemoteString");
}

#[test]
fn test_variant_name_prefix_stripping() {
    assert_eq!(
        to_rust_variant_name("VIR_DOMAIN_RUNNING", "remote_domain_state"),
        "DomainRunning"
    );
    assert_eq!(
        to_rust_variant_name("REMOTE_SECRET_USAGE_TYPE_NONE", "remote_secret_usage_type"),
        "None"
    );
}

#[test]
fn test_decimal_spelling() {
    assert_eq!(u64_to_dec(0), "0");
    assert_eq!(u64_to_dec(42), "42");
    assert_eq!(u64_to_dec(537002118), "537002118");
    assert_eq!(i64_to_dec(-1), "-1");
    assert_eq!(i64_to_dec(i64::MIN), "-9223372036854775808");
}

#[test]
fn test_generate_constant() {
    let c = Constant {
        name: "REMOTE_STRING_MAX".to_string(),
        value: ConstValue::Int(4194304),
    };
    assert_eq!(
        generate_constant(&c),
        "pub const REMOTE_STRING_MAX: i64 = 4194304;\n"
    );
    let skipped = Constant {
        name: "REMOTE_ALIAS".to_string(),
        value: ConstValue::Ident("VIR_SOMETHING".to_string()),
    };
    assert_eq!(generate_constant(&skipped), "");
}

#[test]
fn test_generate_typedef() {
    let t = TypedefDef {
        name: "remote_nonnull_string".to_string(),
        target: Type::String { max_len: None },
    };
    assert_eq!(
        generate_typedef(&t),
        "pub type NonnullString = String;\n\n"
    );
}

#[test]
fn test_generate_client_method_shapes() {
    let procs = vec![
        Procedure {
            name: "REMOTE_PROC_CONNECT_OPEN".to_string(),
            number: 1,
            args: Some("remote_connect_open_args".to_string()),
            ret: None,
            priority: Priority::Low,
        },
        Procedure {
            name: "REMOTE_PROC_CONNECT_GET_VERSION".to_string(),
            number: 4,
            args: None,
            ret: Some("remote_connect_get_version_ret".to_string()),
            priority: Priority::Low,
        },
    ];
    let code = generate_client_methods(&procs);
    assert!(code.contains("pub async fn connect_open(&self, args: ConnectOpenArgs)"));
    assert!(code.contains("Procedure::ProcConnectOpen as u32"));
    assert!(code.contains(
        "pub async fn connect_get_version(&self) -> Result<ConnectGetVersionRet, RpcError>"
    ));
    assert!(code.contains("pub trait LibvirtRpc"));
    assert!(code.contains("pub struct GeneratedClient"));
}

#[test]
fn test_fixed_opaque_maps_to_wrapper() {
    // Every fixed-length opaque item gets a length-prefix-free
    // wrapper, never a bare byte array.
    let t16 = TypedefDef {
        name: "remote_uuid".to_string(),
        target: Type::Opaque {
            len: LengthSpec::Fixed(16),
        },
    };
    assert_eq!(generate_typedef(&t16), "pub type Uuid = FixedOpaque16;\n\n");
    let t8 = TypedefDef {
        name: "remote_token".to_string(),
        target: Type::Opaque {
            len: LengthSpec::Fixed(8),
        },
    };
    assert_eq!(
        generate_typedef(&t8),
        "pub type Token = FixedOpaque<8>;\n\n"
    );
}

#[test]
fn test_generation_deterministic() {
    let e = EnumDef {
        name: "remote_domain_state".to_string(),
        variants: vec![EnumVariant {
            name: "VIR_DOMAIN_RUNNING".to_string(),
            value: Some(ConstValue::Int(1)),
        }],
    };
    assert_eq!(generate_enum(&e), generate_enum(&e));
}

#[test]
fn test_generate_bundle_with_secondary_protocol() {
    let mut remote = Protocol::new("remote");
    remote.constants.push(Constant {
        name: "REMOTE_PROGRAM".to_string(),
        value: ConstValue::Int(0x20008086),
    });
    let mut qemu = Protocol::new("qemu");
    qemu.procedures.push(Procedure {
        name: "QEMU_PROC_DOMAIN_MONITOR_COMMAND".to_string(),
        number: 1,
        args: Some("qemu_domain_monitor_command_args".to_string()),
        ret: Some("qemu_domain_monitor_command_ret".to_string()),
        priority: Priority::Low,
    });
    let bundle = ProtocolBundle {
        remote: Some(remote),
        qemu: Some(qemu),
        lxc: None,
    };
    let code = generate_bundle(&bundle);
    assert!(code.contains("pub const REMOTE_PROGRAM: i64 = 536903814;\n"));
    assert!(code.contains("pub struct QemuClient"));
    assert!(code.contains("pub async fn domain_monitor_command"));
    assert!(code.contains("QEMU_PROGRAM as u32, 1,"));
}

#[test]
fn test_generate_whole_protocol() {
    let mut proto = Protocol::new("remote");
    proto.types.push(TypeDef::Struct(StructDef {
        name: "remote_connect_open_args".to_string(),
        fields: vec![Field {
            name: "flags".to_string(),
            ty: Type::UInt,
        }],
    }));
    proto.procedures.push(Procedure {
        name: "REMOTE_PROC_CONNECT_OPEN".to_string(),
        number: 1,
        args: Some("remote_connect_open_args".to_string()),
        ret: None,
        priority: Priority::Low,
    });
    let code = generate(&proto);
    assert!(code.starts_with("use serde::{Serialize, Deserialize};\n"));
    assert!(code.contains("pub struct ConnectOpenArgs"));
    assert!(code.contains("pub async fn connect_open(&self, args: ConnectOpenArgs) -> Result<(), RpcError>"));
}
