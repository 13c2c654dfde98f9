//! The protocol AST: what the parser produces and the code generator
//! consumes.

use vstd::prelude::*;

verus! {

/// A complete protocol definition.
#[derive(Debug, PartialEq)]
pub struct Protocol {
    /// The protocol's name: `remote`, `qemu` or `lxc`.
    pub name: String,
    /// The program identifier, read from the protocol's constants.
    pub program_id: Option<u32>,
    /// The protocol version, read from the protocol's constants.
    pub protocol_version: Option<u32>,
    /// Constant definitions, in source order.
    pub constants: Vec<Constant>,
    /// Type definitions, in source order.
    pub types: Vec<TypeDef>,
    /// RPC procedures, extracted from the procedure enum.
    pub procedures: Vec<Procedure>,
}

impl Protocol {
    /// An empty protocol with the given name.
    pub fn new(name: &str) -> (r: Self)
        ensures
            r.name@ == name@,
            r.program_id is None,
            r.protocol_version is None,
            r.constants@ == Seq::<Constant>::empty(),
            r.types@ == Seq::<TypeDef>::empty(),
            r.procedures@ == Seq::<Procedure>::empty(),
    {
        Self {
            name: name.to_owned(),
            program_id: None,
            protocol_version: None,
            constants: Vec::new(),
            types: Vec::new(),
            procedures: Vec::new(),
        }
    }
}

/// The protocols of one build: the main remote protocol and the
/// optional QEMU and LXC protocols, which reuse its types.
#[derive(Debug, PartialEq)]
pub struct ProtocolBundle {
    /// The main remote protocol.
    pub remote: Option<Protocol>,
    /// The QEMU protocol, where one was parsed.
    pub qemu: Option<Protocol>,
    /// The LXC protocol, where one was parsed.
    pub lxc: Option<Protocol>,
}

/// A constant definition.
#[derive(Debug, Clone, PartialEq)]
pub struct Constant {
    /// The constant's name.
    pub name: String,
    /// Its value.
    pub value: ConstValue,
}

/// A constant's value: an integer, or a reference to another name.
#[derive(Debug, Clone, PartialEq)]
pub enum ConstValue {
    /// An integer literal.
    Int(i64),
    /// A symbolic reference.
    Ident(String),
}

/// A type definition.
#[derive(Debug, PartialEq)]
pub enum TypeDef {
    /// A struct.
    Struct(StructDef),
    /// An enum.
    Enum(EnumDef),
    /// A discriminated union.
    Union(UnionDef),
    /// A type alias.
    Typedef(TypedefDef),
}

/// A struct definition.
#[derive(Debug, PartialEq)]
pub struct StructDef {
    /// The struct's name.
    pub name: String,
    /// Its fields, in declared order.
    pub fields: Vec<Field>,
}

/// A struct field or union arm.
#[derive(Debug, PartialEq)]
pub struct Field {
    /// The field's name.
    pub name: String,
    /// The field's type.
    pub ty: Type,
}

/// An enum definition.
#[derive(Debug, Clone, PartialEq)]
pub struct EnumDef {
    /// The enum's name.
    pub name: String,
    /// Its variants, in declared order.
    pub variants: Vec<EnumVariant>,
}

/// An enum variant.
#[derive(Debug, Clone, PartialEq)]
pub struct EnumVariant {
    /// The variant's name.
    pub name: String,
    /// Its value, where one is declared.
    pub value: Option<ConstValue>,
}

/// A discriminated union definition.
#[derive(Debug, PartialEq)]
pub struct UnionDef {
    /// The union's name.
    pub name: String,
    /// The discriminant field.
    pub discriminant: Field,
    /// The union's cases.
    pub cases: Vec<UnionCase>,
    /// The default arm's type, where one is declared.
    pub default: Option<Box<Type>>,
}

/// One case of a union: the discriminant values it covers and its
/// field, absent for a void case.
#[derive(Debug, PartialEq)]
pub struct UnionCase {
    /// The discriminant values selecting this case.
    pub values: Vec<ConstValue>,
    /// The case's field; a void case has none.
    pub field: Option<Field>,
}

/// A type alias definition.
#[derive(Debug, PartialEq)]
pub struct TypedefDef {
    /// The alias's name.
    pub name: String,
    /// The type it names.
    pub target: Type,
}

/// A type, as written in a protocol definition.
#[derive(Debug, PartialEq)]
pub enum Type {
    /// No value.
    Void,
    /// Signed 32-bit integer.
    Int,
    /// Unsigned 32-bit integer.
    UInt,
    /// Signed 64-bit integer.
    Hyper,
    /// Unsigned 64-bit integer.
    UHyper,
    /// 32-bit IEEE 754 floating point.
    Float,
    /// 64-bit IEEE 754 floating point.
    Double,
    /// Boolean.
    Bool,
    /// A string, with an optional maximum length.
    String {
        /// The declared maximum length, if any.
        max_len: Option<u32>,
    },
    /// Opaque bytes, fixed or bounded.
    Opaque {
        /// Fixed length, or variable with an optional bound.
        len: LengthSpec,
    },
    /// An array, fixed or bounded.
    Array {
        /// The element type.
        elem: Box<Type>,
        /// Fixed length, or variable with an optional bound.
        len: LengthSpec,
    },
    /// An optional value (the `*` pointer syntax).
    Optional(Box<Type>),
    /// A reference to a named type.
    Named(String),
}

/// The length of an array or opaque item.
#[derive(Debug, Clone, PartialEq)]
pub enum LengthSpec {
    /// Exactly this many elements.
    Fixed(u32),
    /// At most `max` elements, where a bound is declared.
    Variable {
        /// The declared bound, if any.
        max: Option<u32>,
    },
}

/// An RPC procedure.
#[derive(Debug, Clone, PartialEq)]
pub struct Procedure {
    /// The procedure's name, as in the procedure enum.
    pub name: String,
    /// Its number within the program.
    pub number: u32,
    /// The name of its argument struct, where one exists.
    pub args: Option<String>,
    /// The name of its return struct, where one exists.
    pub ret: Option<String>,
    /// Scheduling priority; parsed but not acted on.
    pub priority: Priority,
}

/// A procedure's scheduling priority.
#[derive(Debug, Clone, Copy, PartialEq, Eq, Structural)]
pub enum Priority {
    /// The ordinary queue.
    Low,
    /// The priority queue.
    High,
}

impl Default for Priority {
    /// Procedures default to the ordinary queue.
    fn default() -> (r: Self)
        ensures
            r == Priority::Low,
    {
        Priority::Low
    }
}

} // verus!
