//! The code generator: from a protocol AST to Rust source text.
//!
//! Emission is deterministic string concatenation, stated exactly by
//! the `spec_*` functions: the same AST always yields the same text.
//! Name mapping follows the protocol's conventions — type names lose a
//! `remote_` or `virNet` prefix and turn UpperCamelCase, field names
//! turn snake_case with Rust keywords escaped, enum variant names lose
//! their enum's prefix — with the case conversions themselves supplied
//! by the `heck` crate.

use vstd::prelude::*;

verus! {

use crate::ast::Constant;
use crate::ast::ConstValue;
use crate::ast::EnumDef;
use crate::ast::EnumVariant;
use crate::ast::LengthSpec;
use crate::ast::Procedure;
use crate::ast::Protocol;
use crate::ast::StructDef;
use crate::ast::Type;
use crate::ast::TypeDef;
use crate::ast::TypedefDef;
use crate::ast::UnionCase;
use crate::ast::UnionDef;
use crate::codec::ascii_to_string;
use crate::codec::chars_of_ascii;
use crate::parser::ascii_lower_byte;
use crate::parser::is_ascii_bytes;
use crate::parser::spec_strip_prefix;
use crate::parser::str_eq;
use crate::parser::tag_at;
use vstd::string::StringExecFns;
use vstd::string::StringSliceAdditionalSpecFns;
use vstd::utf8::encode_utf8;
use vstd::utf8::is_ascii_chars;

/// What heck's snake-case conversion returns; a function of the
/// characters alone.
pub uninterp spec fn snake_case_of(s: Seq<char>) -> Seq<char>;

/// What heck's UpperCamelCase conversion returns; a function of the
/// characters alone.
pub uninterp spec fn upper_camel_of(s: Seq<char>) -> Seq<char>;

/// Relies on heck's `to_snake_case`: the result depends on the input
/// characters alone.
#[verifier::external_body]
fn to_snake(s: &str) -> (r: String)
    ensures
        r@ == snake_case_of(s@),
{
    heck::ToSnakeCase::to_snake_case(s)
}

/// Relies on heck's `to_upper_camel_case`: the result depends on the
/// input characters alone.
#[verifier::external_body]
fn to_upper_camel(s: &str) -> (r: String)
    ensures
        r@ == upper_camel_of(s@),
{
    heck::ToUpperCamelCase::to_upper_camel_case(s)
}

/// The byte source of a type name's case conversion: the name without
/// a leading `remote_` or `virNet`.
pub open spec fn spec_type_name_source(s: Seq<u8>) -> Seq<u8> {
    if spec_is_prefix(s, "remote_".spec_bytes()) {
        s.skip("remote_".spec_bytes().len() as int)
    } else if spec_is_prefix(s, "virNet".spec_bytes()) {
        s.skip("virNet".spec_bytes().len() as int)
    } else {
        s
    }
}

/// Whether `p` is a prefix of `s`.
pub open spec fn spec_is_prefix(s: Seq<u8>, p: Seq<u8>) -> bool {
    p.len() <= s.len() && s.subrange(0, p.len() as int) == p
}

/// Whether the characters name one of Rust's primitive scalar or
/// string types, which pass through name mapping unchanged.
pub open spec fn spec_is_primitive_name(s: Seq<char>) -> bool {
    ||| s == "u8"@
    ||| s == "u16"@
    ||| s == "u32"@
    ||| s == "u64"@
    ||| s == "u128"@
    ||| s == "usize"@
    ||| s == "i8"@
    ||| s == "i16"@
    ||| s == "i32"@
    ||| s == "i64"@
    ||| s == "i128"@
    ||| s == "isize"@
    ||| s == "f32"@
    ||| s == "f64"@
    ||| s == "bool"@
    ||| s == "char"@
    ||| s == "str"@
    ||| s == "String"@
}

/// The characters handed to the camel-case conversion for a type name:
/// for an ASCII name, the name without its prefix; a name with bytes
/// beyond ASCII keeps all its characters.
pub open spec fn spec_camel_source(s: Seq<char>) -> Seq<char> {
    if is_ascii_chars(s) {
        chars_of_ascii(spec_type_name_source(encode_utf8(s)))
    } else {
        s
    }
}

/// The Rust type name for a protocol type name: primitives pass
/// through; otherwise the name loses its prefix, turns UpperCamelCase,
/// and a collision with a well-known standard type name gains a
/// `Remote` prefix.
pub open spec fn spec_rust_type_name(s: Seq<char>) -> Seq<char> {
    if spec_is_primitive_name(s) {
        s
    } else {
        let camel = upper_camel_of(spec_camel_source(s));
        if camel == "String"@ {
            "RemoteString"@
        } else if camel == "Vec"@ {
            "RemoteVec"@
        } else if camel == "Option"@ {
            "RemoteOption"@
        } else if camel == "Box"@ {
            "RemoteBox"@
        } else if camel == "Result"@ {
            "RemoteResult"@
        } else {
            camel
        }
    }
}

/// Map a protocol type name to its Rust type name, as
/// [`spec_rust_type_name`] states.
pub fn to_rust_type_name(name: &str) -> (r: String)
    ensures
        r@ == spec_rust_type_name(name@),
{
    if str_eq(name, "u8") || str_eq(name, "u16") || str_eq(name, "u32") || str_eq(name, "u64")
        || str_eq(name, "u128") || str_eq(name, "usize") || str_eq(name, "i8") || str_eq(
        name,
        "i16",
    ) || str_eq(name, "i32") || str_eq(name, "i64") || str_eq(name, "i128") || str_eq(
        name,
        "isize",
    ) || str_eq(name, "f32") || str_eq(name, "f64") || str_eq(name, "bool") || str_eq(
        name,
        "char",
    ) || str_eq(name, "str") || str_eq(name, "String") {
        return name.to_owned();
    }
    let nb: &[u8] = name.as_bytes();
    let camel: String = if is_ascii_bytes(nb) {
        proof {
            crate::codec::lemma_ascii_bytes_iff_chars(name@);
        }
        let src_end: usize = nb.len();
        let start: usize = match tag_at(nb, 0, "remote_".as_bytes()) {
            Some(p) => p,
            None => match tag_at(nb, 0, "virNet".as_bytes()) {
                Some(p) => p,
                None => 0,
            },
        };
        let src = vstd::slice::slice_to_vec(vstd::slice::slice_subrange(nb, start, src_end));
        proof {
            assert(src@ =~= spec_type_name_source(nb@));
        }
        let src_s = ascii_to_string(src);
        to_upper_camel(src_s.as_str())
    } else {
        proof {
            crate::codec::lemma_ascii_bytes_iff_chars(name@);
        }
        to_upper_camel(name)
    };
    if str_eq(camel.as_str(), "String") {
        String::from_str("RemoteString")
    } else if str_eq(camel.as_str(), "Vec") {
        String::from_str("RemoteVec")
    } else if str_eq(camel.as_str(), "Option") {
        String::from_str("RemoteOption")
    } else if str_eq(camel.as_str(), "Box") {
        String::from_str("RemoteBox")
    } else if str_eq(camel.as_str(), "Result") {
        String::from_str("RemoteResult")
    } else {
        camel
    }
}

/// The escape of a snake-cased field name that collides with a Rust
/// keyword: a raw identifier.
pub open spec fn spec_keyword_escape(sn: Seq<char>) -> Seq<char> {
    if spec_is_rust_keyword(sn) {
        "r#"@ + sn
    } else {
        sn
    }
}

/// The Rust keywords that a field name must not collide with.
pub open spec fn spec_is_rust_keyword(s: Seq<char>) -> bool {
    ||| s == "type"@
    ||| s == "match"@
    ||| s == "ref"@
    ||| s == "mod"@
    ||| s == "fn"@
    ||| s == "struct"@
    ||| s == "enum"@
    ||| s == "trait"@
    ||| s == "impl"@
    ||| s == "self"@
    ||| s == "super"@
    ||| s == "crate"@
    ||| s == "use"@
    ||| s == "pub"@
    ||| s == "in"@
    ||| s == "where"@
    ||| s == "async"@
    ||| s == "await"@
    ||| s == "dyn"@
    ||| s == "loop"@
    ||| s == "move"@
    ||| s == "return"@
    ||| s == "static"@
    ||| s == "const"@
    ||| s == "unsafe"@
    ||| s == "extern"@
    ||| s == "let"@
    ||| s == "mut"@
    ||| s == "if"@
    ||| s == "else"@
    ||| s == "for"@
    ||| s == "while"@
    ||| s == "break"@
    ||| s == "continue"@
    ||| s == "as"@
    ||| s == "box"@
    ||| s == "priv"@
    ||| s == "abstract"@
    ||| s == "final"@
    ||| s == "override"@
    ||| s == "virtual"@
    ||| s == "yield"@
    ||| s == "become"@
    ||| s == "macro"@
    ||| s == "typeof"@
    ||| s == "try"@
    ||| s == "union"@
}

/// The Rust field name for a protocol field name: snake_case, escaped
/// as a raw identifier where it collides with a Rust keyword.
pub open spec fn spec_rust_field_name(s: Seq<char>) -> Seq<char> {
    spec_keyword_escape(snake_case_of(s))
}

/// Map a protocol field name to its Rust field name, as
/// [`spec_rust_field_name`] states.
pub fn to_rust_field_name(name: &str) -> (r: String)
    ensures
        r@ == spec_rust_field_name(name@),
{
    let sn = to_snake(name);
    let kw = str_eq(sn.as_str(), "type") || str_eq(sn.as_str(), "match") || str_eq(
        sn.as_str(),
        "ref",
    ) || str_eq(sn.as_str(), "mod") || str_eq(sn.as_str(), "fn") || str_eq(sn.as_str(), "struct")
        || str_eq(sn.as_str(), "enum") || str_eq(sn.as_str(), "trait") || str_eq(
        sn.as_str(),
        "impl",
    ) || str_eq(sn.as_str(), "self") || str_eq(sn.as_str(), "super") || str_eq(
        sn.as_str(),
        "crate",
    ) || str_eq(sn.as_str(), "use") || str_eq(sn.as_str(), "pub") || str_eq(sn.as_str(), "in")
        || str_eq(sn.as_str(), "where") || str_eq(sn.as_str(), "async") || str_eq(
        sn.as_str(),
        "await",
    ) || str_eq(sn.as_str(), "dyn") || str_eq(sn.as_str(), "loop") || str_eq(sn.as_str(), "move")
        || str_eq(sn.as_str(), "return") || str_eq(sn.as_str(), "static") || str_eq(
        sn.as_str(),
        "const",
    ) || str_eq(sn.as_str(), "unsafe") || str_eq(sn.as_str(), "extern") || str_eq(
        sn.as_str(),
        "let",
    ) || str_eq(sn.as_str(), "mut") || str_eq(sn.as_str(), "if") || str_eq(sn.as_str(), "else")
        || str_eq(sn.as_str(), "for") || str_eq(sn.as_str(), "while") || str_eq(
        sn.as_str(),
        "break",
    ) || str_eq(sn.as_str(), "continue") || str_eq(sn.as_str(), "as") || str_eq(
        sn.as_str(),
        "box",
    ) || str_eq(sn.as_str(), "priv") || str_eq(sn.as_str(), "abstract") || str_eq(
        sn.as_str(),
        "final",
    ) || str_eq(sn.as_str(), "override") || str_eq(sn.as_str(), "virtual") || str_eq(
        sn.as_str(),
        "yield",
    ) || str_eq(sn.as_str(), "become") || str_eq(sn.as_str(), "macro") || str_eq(
        sn.as_str(),
        "typeof",
    ) || str_eq(sn.as_str(), "try") || str_eq(sn.as_str(), "union");
    if kw {
        let mut out = String::from_str("r#");
        out.append(sn.as_str());
        out
    } else {
        sn
    }
}

/// The byte source of a variant name's case conversion: the name
/// without the enum's uppercased name and an underscore, else without
/// `REMOTE_`, else without `VIR_`.
pub open spec fn spec_variant_source(nb: Seq<u8>, eb: Seq<u8>) -> Seq<u8> {
    let p1 = spec_upper_bytes(eb) + seq![95u8];
    if spec_is_prefix(nb, p1) {
        nb.skip(p1.len() as int)
    } else if spec_is_prefix(nb, "REMOTE_".spec_bytes()) {
        nb.skip("REMOTE_".spec_bytes().len() as int)
    } else if spec_is_prefix(nb, "VIR_".spec_bytes()) {
        nb.skip("VIR_".spec_bytes().len() as int)
    } else {
        nb
    }
}

/// The bytes with ASCII lowercase letters uppercased.
pub open spec fn spec_upper_bytes(s: Seq<u8>) -> Seq<u8> {
    s.map_values(|b: u8| ascii_upper_byte(b))
}

/// A byte, uppercased when it is an ASCII lowercase letter.
pub open spec fn ascii_upper_byte(b: u8) -> u8 {
    if 97 <= b <= 122 {
        (b - 32) as u8
    } else {
        b
    }
}

/// The Rust variant name for a protocol enum variant: the variant's
/// name without its enum's prefix, in UpperCamelCase. A name with
/// bytes beyond ASCII keeps all its characters.
pub open spec fn spec_rust_variant_name(n: Seq<char>, e: Seq<char>) -> Seq<char> {
    if is_ascii_chars(n) {
        upper_camel_of(chars_of_ascii(spec_variant_source(encode_utf8(n), encode_utf8(e))))
    } else {
        upper_camel_of(n)
    }
}

/// Map a protocol enum variant name to its Rust variant name, as
/// [`spec_rust_variant_name`] states.
pub fn to_rust_variant_name(name: &str, enum_name: &str) -> (r: String)
    ensures
        r@ == spec_rust_variant_name(name@, enum_name@),
{
    let nb: &[u8] = name.as_bytes();
    if !is_ascii_bytes(nb) {
        proof {
            crate::codec::lemma_ascii_bytes_iff_chars(name@);
        }
        return to_upper_camel(name);
    }
    proof {
        crate::codec::lemma_ascii_bytes_iff_chars(name@);
    }
    let eb: &[u8] = enum_name.as_bytes();
    let mut p1: Vec<u8> = Vec::new();
    let mut i: usize = 0;
    while i < eb.len()
        invariant
            i <= eb@.len(),
            eb@ == enum_name.spec_bytes(),
            p1@ == eb@.subrange(0, i as int).map_values(|b: u8| ascii_upper_byte(b)),
        decreases eb@.len() - i,
    {
        let b = eb[i];
        let up: u8 = if 97 <= b && b <= 122 {
            b - 32
        } else {
            b
        };
        p1.push(up);
        proof {
            assert(p1@ =~= eb@.subrange(0, i + 1).map_values(|b: u8| ascii_upper_byte(b)));
        }
        i = i + 1;
    }
    p1.push(95);
    proof {
        assert(eb@.subrange(0, eb@.len() as int) =~= eb@);
        assert(p1@ =~= spec_upper_bytes(enum_name.spec_bytes()) + seq![95u8]);
    }
    let start: usize = match tag_at(nb, 0, p1.as_slice()) {
        Some(p) => p,
        None => match tag_at(nb, 0, "REMOTE_".as_bytes()) {
            Some(p) => p,
            None => match tag_at(nb, 0, "VIR_".as_bytes()) {
                Some(p) => p,
                None => 0,
            },
        },
    };
    let src = vstd::slice::slice_to_vec(vstd::slice::slice_subrange(nb, start, nb.len()));
    proof {
        assert(src@ =~= spec_variant_source(nb@, enum_name.spec_bytes()));
    }
    let src_s = ascii_to_string(src);
    to_upper_camel(src_s.as_str())
}

/// The ASCII digits of `n`, most significant first.
pub open spec fn spec_dec_ascii(n: nat) -> Seq<u8>
    decreases n,
{
    if n < 10 {
        seq![(n + 48) as u8]
    } else {
        spec_dec_ascii(n / 10) + seq![((n % 10) + 48) as u8]
    }
}

/// The decimal spelling of `n`.
pub open spec fn spec_dec_chars(n: nat) -> Seq<char> {
    chars_of_ascii(spec_dec_ascii(n))
}

/// The decimal spelling of a signed value, with its sign.
pub open spec fn spec_dec_i64(v: i64) -> Seq<char> {
    if v < 0 {
        seq!['-'] + spec_dec_chars((-(v as int)) as nat)
    } else {
        spec_dec_chars(v as nat)
    }
}

/// Decimal digits are ASCII.
proof fn lemma_dec_ascii_bounds(n: nat)
    ensures
        forall|i: int|
            0 <= i < spec_dec_ascii(n).len() ==> 48 <= #[trigger] spec_dec_ascii(n)[i] <= 57,
    decreases n,
{
    if n >= 10 {
        lemma_dec_ascii_bounds(n / 10);
        assert forall|i: int|
            0 <= i < spec_dec_ascii(n).len() implies 48 <= #[trigger] spec_dec_ascii(n)[i]
            <= 57 by {
            if i < spec_dec_ascii((n / 10) as nat).len() {
                assert(spec_dec_ascii(n)[i] == spec_dec_ascii((n / 10) as nat)[i]);
            } else {
                assert(spec_dec_ascii(n)[i] == ((n % 10) + 48) as u8);
            }
        }
    }
}

/// Append the decimal digits of `n` to a byte buffer.
fn push_dec(n: u64, out: &mut Vec<u8>)
    ensures
        final(out)@ == old(out)@ + spec_dec_ascii(n as nat),
    decreases n,
{
    if n < 10 {
        out.push((n as u8) + 48);
        proof {
            assert(out@ =~= old(out)@ + spec_dec_ascii(n as nat));
        }
    } else {
        push_dec(n / 10, out);
        out.push(((n % 10) as u8) + 48);
        proof {
            assert(out@ =~= old(out)@ + spec_dec_ascii(n as nat));
        }
    }
}

/// The decimal spelling of an unsigned 64-bit value.
pub fn u64_to_dec(n: u64) -> (r: String)
    ensures
        r@ == spec_dec_chars(n as nat),
{
    let mut out: Vec<u8> = Vec::new();
    push_dec(n, &mut out);
    proof {
        lemma_dec_ascii_bounds(n as nat);
    }
    ascii_to_string(out)
}

/// The decimal spelling of a signed 64-bit value.
pub fn i64_to_dec(v: i64) -> (r: String)
    ensures
        r@ == spec_dec_i64(v),
{
    if v < 0 {
        let mag: u64 = if v == i64::MIN {
            0x8000_0000_0000_0000u64
        } else {
            (-v) as u64
        };
        let mut out = String::from_str("-");
        let digits = u64_to_dec(mag);
        out.append(digits.as_str());
        proof {
            reveal_strlit("-");
            assert(out@ =~= spec_dec_i64(v));
        }
        out
    } else {
        u64_to_dec(v as u64)
    }
}

/// The lowercased remainder of a name after a prefix: names with bytes
/// beyond ASCII pass unchanged.
pub open spec fn spec_strip_lower(s: Seq<char>, p: Seq<u8>) -> Seq<char> {
    if is_ascii_chars(s) {
        chars_of_ascii(crate::parser::spec_lower_bytes(spec_strip_prefix(encode_utf8(s), p)))
    } else {
        s
    }
}

/// The remainder of a name after a prefix, case kept: names with bytes
/// beyond ASCII pass unchanged.
pub open spec fn spec_strip_keep(s: Seq<char>, p: Seq<u8>) -> Seq<char> {
    if is_ascii_chars(s) {
        chars_of_ascii(spec_strip_prefix(encode_utf8(s), p))
    } else {
        s
    }
}

/// Strip a prefix from a name and lowercase the rest.
fn strip_lower(name: &str, prefix: &[u8]) -> (r: String)
    ensures
        r@ == spec_strip_lower(name@, prefix@),
{
    let nb: &[u8] = name.as_bytes();
    if !is_ascii_bytes(nb) {
        proof {
            crate::codec::lemma_ascii_bytes_iff_chars(name@);
        }
        return name.to_owned();
    }
    proof {
        crate::codec::lemma_ascii_bytes_iff_chars(name@);
    }
    let start: usize = match tag_at(nb, 0, prefix) {
        Some(p) => p,
        None => 0,
    };
    let mut out: Vec<u8> = Vec::new();
    let mut t = start;
    while t < nb.len()
        invariant
            start <= t <= nb@.len(),
            nb@ == name.spec_bytes(),
            forall|b: int| 0 <= b < nb@.len() ==> nb@[b] < 128,
            out@ == nb@.subrange(start as int, t as int).map_values(|b: u8| ascii_lower_byte(b)),
            forall|b: int| 0 <= b < out@.len() ==> out@[b] < 128,
        decreases nb@.len() - t,
    {
        let b = nb[t];
        let low: u8 = if 65 <= b && b <= 90 {
            b + 32
        } else {
            b
        };
        out.push(low);
        proof {
            assert(out@ =~= nb@.subrange(start as int, t + 1).map_values(
                |b: u8| ascii_lower_byte(b),
            ));
        }
        t = t + 1;
    }
    proof {
        assert(nb@.subrange(start as int, nb@.len() as int) =~= nb@.skip(start as int));
        assert(out@ =~= crate::parser::spec_lower_bytes(
            spec_strip_prefix(name.spec_bytes(), prefix@),
        ));
    }
    ascii_to_string(out)
}

/// Strip a prefix from a name, keeping its case.
fn strip_keep(name: &str, prefix: &[u8]) -> (r: String)
    ensures
        r@ == spec_strip_keep(name@, prefix@),
{
    let nb: &[u8] = name.as_bytes();
    if !is_ascii_bytes(nb) {
        proof {
            crate::codec::lemma_ascii_bytes_iff_chars(name@);
        }
        return name.to_owned();
    }
    proof {
        crate::codec::lemma_ascii_bytes_iff_chars(name@);
    }
    let start: usize = match tag_at(nb, 0, prefix) {
        Some(p) => p,
        None => 0,
    };
    let out = vstd::slice::slice_to_vec(vstd::slice::slice_subrange(nb, start, nb.len()));
    proof {
        assert(out@ =~= spec_strip_prefix(name.spec_bytes(), prefix@));
    }
    ascii_to_string(out)
}

/// The Rust source text of a type. Every fixed-length opaque item
/// maps to a length-prefix-free wrapper — the named 16-byte one for
/// UUIDs, the length-parametrised one otherwise — never to a bare
/// byte array, whose elements would each take a full word on the
/// wire.
pub open spec fn spec_type_source(ty: Type) -> Seq<char>
    decreases ty,
{
    match ty {
        Type::Void => "()"@,
        Type::Int => "i32"@,
        Type::UInt => "u32"@,
        Type::Hyper => "i64"@,
        Type::UHyper => "u64"@,
        Type::Float => "f32"@,
        Type::Double => "f64"@,
        Type::Bool => "bool"@,
        Type::String { .. } => "String"@,
        Type::Opaque { len } => match len {
            LengthSpec::Fixed(n) => if n == 16 {
                "FixedOpaque16"@
            } else {
                "FixedOpaque<"@ + spec_dec_chars(n as nat) + ">"@
            },
            LengthSpec::Variable { .. } => "Vec<u8>"@,
        },
        Type::Array { elem, len } => match len {
            LengthSpec::Fixed(n) => "["@ + spec_type_source(*elem) + "; "@ + spec_dec_chars(
                n as nat,
            ) + "]"@,
            LengthSpec::Variable { .. } => "Vec<"@ + spec_type_source(*elem) + ">"@,
        },
        Type::Optional(inner) => "Option<"@ + spec_type_source(*inner) + ">"@,
        Type::Named(n) => spec_rust_type_name(n@),
    }
}

/// Render a type as Rust source text, as [`spec_type_source`] states.
pub fn type_to_source(ty: &Type) -> (r: String)
    ensures
        r@ == spec_type_source(*ty),
    decreases *ty,
{
    match ty {
        Type::Void => String::from_str("()"),
        Type::Int => String::from_str("i32"),
        Type::UInt => String::from_str("u32"),
        Type::Hyper => String::from_str("i64"),
        Type::UHyper => String::from_str("u64"),
        Type::Float => String::from_str("f32"),
        Type::Double => String::from_str("f64"),
        Type::Bool => String::from_str("bool"),
        Type::String { .. } => String::from_str("String"),
        Type::Opaque { len } => match len {
            LengthSpec::Fixed(n) => {
                if *n == 16 {
                    String::from_str("FixedOpaque16")
                } else {
                    let mut out = String::from_str("FixedOpaque<");
                    let d = u64_to_dec(*n as u64);
                    out.append(d.as_str());
                    out.append(">");
                    proof {
                        assert(out@ =~= spec_type_source(*ty));
                    }
                    out
                }
            },
            LengthSpec::Variable { .. } => String::from_str("Vec<u8>"),
        },
        Type::Array { elem, len } => match len {
            LengthSpec::Fixed(n) => {
                let mut out = String::from_str("[");
                let e = type_to_source(elem);
                out.append(e.as_str());
                out.append("; ");
                let d = u64_to_dec(*n as u64);
                out.append(d.as_str());
                out.append("]");
                proof {
                    assert(out@ =~= spec_type_source(*ty));
                }
                out
            },
            LengthSpec::Variable { .. } => {
                let mut out = String::from_str("Vec<");
                let e = type_to_source(elem);
                out.append(e.as_str());
                out.append(">");
                proof {
                    assert(out@ =~= spec_type_source(*ty));
                }
                out
            },
        },
        Type::Optional(inner) => {
            let mut out = String::from_str("Option<");
            let e = type_to_source(inner);
            out.append(e.as_str());
            out.append(">");
            proof {
                assert(out@ =~= spec_type_source(*ty));
            }
            out
        },
        Type::Named(n) => to_rust_type_name(n.as_str()),
    }
}

/// The source text of one constant: integer-valued constants become
/// typed constants; one whose value is a symbolic reference is
/// skipped, since its definition lives outside the protocol.
pub open spec fn spec_gen_constant(c: Constant) -> Seq<char> {
    match c.value {
        ConstValue::Int(n) => "pub const "@ + c.name@ + ": i64 = "@ + spec_dec_i64(n) + ";\n"@,
        ConstValue::Ident(_) => Seq::<char>::empty(),
    }
}

/// Emit one constant, as [`spec_gen_constant`] states.
pub fn generate_constant(c: &Constant) -> (r: String)
    ensures
        r@ == spec_gen_constant(*c),
{
    match &c.value {
        ConstValue::Int(n) => {
            let mut out = String::from_str("pub const ");
            out.append(c.name.as_str());
            out.append(": i64 = ");
            let d = i64_to_dec(*n);
            out.append(d.as_str());
            out.append(";\n");
            proof {
                assert(out@ =~= spec_gen_constant(*c));
            }
            out
        },
        ConstValue::Ident(_) => String::new(),
    }
}

/// The source text of one struct field.
pub open spec fn spec_gen_field(f: crate::ast::Field) -> Seq<char> {
    "    pub "@ + spec_rust_field_name(f.name@) + " : "@ + spec_type_source(f.ty) + ",\n"@
}

/// The source text of a struct's fields, in declared order.
pub open spec fn spec_gen_fields(fs: Seq<crate::ast::Field>) -> Seq<char>
    decreases fs.len(),
{
    if fs.len() == 0 {
        Seq::<char>::empty()
    } else {
        spec_gen_fields(fs.drop_last()) + spec_gen_field(fs.last())
    }
}

/// The source text of one struct.
pub open spec fn spec_gen_struct(s: StructDef) -> Seq<char> {
    "#[derive(Debug, Clone, PartialEq, Serialize, Deserialize)]\npub struct "@
        + spec_rust_type_name(s.name@) + " {\n"@ + spec_gen_fields(s.fields@) + "}\n\n"@
}

/// Emit one struct, as [`spec_gen_struct`] states.
pub fn generate_struct(s: &StructDef) -> (r: String)
    ensures
        r@ == spec_gen_struct(*s),
{
    let mut out = String::from_str(
        "#[derive(Debug, Clone, PartialEq, Serialize, Deserialize)]\npub struct ",
    );
    let tn = to_rust_type_name(s.name.as_str());
    out.append(tn.as_str());
    out.append(" {\n");
    let n = s.fields.len();
    proof {
        assert(s.fields@.take(0) =~= Seq::<crate::ast::Field>::empty());
    }
    let mut i: usize = 0;
    let mut body = String::new();
    while i < n
        invariant
            i <= n,
            n == s.fields@.len(),
            body@ == spec_gen_fields(s.fields@.take(i as int)),
        decreases n - i,
    {
        proof {
            assert(s.fields@.take(i + 1).drop_last() =~= s.fields@.take(i as int));
            assert(s.fields@.take(i + 1).last() == s.fields@[i as int]);
        }
        let f = &s.fields[i];
        body.append("    pub ");
        let fname = to_rust_field_name(f.name.as_str());
        body.append(fname.as_str());
        body.append(" : ");
        let ty = type_to_source(&f.ty);
        body.append(ty.as_str());
        body.append(",\n");
        proof {
            assert(body@ =~= spec_gen_fields(s.fields@.take(i + 1)));
        }
        i = i + 1;
    }
    proof {
        assert(s.fields@.take(n as int) =~= s.fields@);
    }
    out.append(body.as_str());
    out.append("}\n\n");
    proof {
        assert(out@ =~= spec_gen_struct(*s));
    }
    out
}

/// The source text of one enum variant: integer-valued variants carry
/// their value; one whose value references another constant is
/// skipped.
pub open spec fn spec_gen_variant(v: EnumVariant, ename: Seq<char>) -> Seq<char> {
    match v.value {
        Some(ConstValue::Int(n)) => "    "@ + spec_rust_variant_name(v.name@, ename)
            + " = "@ + spec_dec_i64((n as i32) as i64) + ",\n"@,
        Some(ConstValue::Ident(_)) => Seq::<char>::empty(),
        None => "    "@ + spec_rust_variant_name(v.name@, ename) + ",\n"@,
    }
}

/// The source text of an enum's variants, in declared order.
pub open spec fn spec_gen_variants(vs: Seq<EnumVariant>, ename: Seq<char>) -> Seq<char>
    decreases vs.len(),
{
    if vs.len() == 0 {
        Seq::<char>::empty()
    } else {
        spec_gen_variants(vs.drop_last(), ename) + spec_gen_variant(vs.last(), ename)
    }
}

/// The source text of one enum.
pub open spec fn spec_gen_enum(e: EnumDef) -> Seq<char> {
    "#[derive(Debug, Clone, Copy, PartialEq, Eq, Hash, Serialize, Deserialize)]\n#[repr(i32)]\npub enum "@
        + spec_rust_type_name(e.name@) + " {\n"@ + spec_gen_variants(e.variants@, e.name@)
        + "}\n\n"@
}

/// Emit one enum, as [`spec_gen_enum`] states.
pub fn generate_enum(e: &EnumDef) -> (r: String)
    ensures
        r@ == spec_gen_enum(*e),
{
    let mut out = String::from_str(
        "#[derive(Debug, Clone, Copy, PartialEq, Eq, Hash, Serialize, Deserialize)]\n#[repr(i32)]\npub enum ",
    );
    let tn = to_rust_type_name(e.name.as_str());
    out.append(tn.as_str());
    out.append(" {\n");
    let n = e.variants.len();
    proof {
        assert(e.variants@.take(0) =~= Seq::<EnumVariant>::empty());
    }
    let mut i: usize = 0;
    let mut body = String::new();
    while i < n
        invariant
            i <= n,
            n == e.variants@.len(),
            body@ == spec_gen_variants(e.variants@.take(i as int), e.name@),
        decreases n - i,
    {
        proof {
            assert(e.variants@.take(i + 1).drop_last() =~= e.variants@.take(i as int));
            assert(e.variants@.take(i + 1).last() == e.variants@[i as int]);
        }
        let v = &e.variants[i];
        match &v.value {
            Option::Some(ConstValue::Int(num)) => {
                body.append("    ");
                let vn = to_rust_variant_name(v.name.as_str(), e.name.as_str());
                body.append(vn.as_str());
                body.append(" = ");
                let d = i64_to_dec((#[verifier::truncate] (*num as i32)) as i64);
                body.append(d.as_str());
                body.append(",\n");
            },
            Option::Some(ConstValue::Ident(_)) => {},
            Option::None => {
                body.append("    ");
                let vn = to_rust_variant_name(v.name.as_str(), e.name.as_str());
                body.append(vn.as_str());
                body.append(",\n");
            },
        }
        proof {
            assert(body@ =~= spec_gen_variants(e.variants@.take(i + 1), e.name@));
        }
        i = i + 1;
    }
    proof {
        assert(e.variants@.take(n as int) =~= e.variants@);
    }
    out.append(body.as_str());
    out.append("}\n\n");
    proof {
        assert(out@ =~= spec_gen_enum(*e));
    }
    out
}

/// The variant name of one union case: from the case's first
/// discriminant value, either a synthesized `V<n>` for a bare integer
/// or the mapped name of a symbolic value.
pub open spec fn spec_union_case_name(cv: ConstValue, uname: Seq<char>) -> Seq<char> {
    match cv {
        ConstValue::Int(n) => "V"@ + spec_dec_chars(((n as u64)) as nat),
        ConstValue::Ident(s) => spec_rust_variant_name(s@, uname),
    }
}

/// The source text of one union case; a case with no discriminant
/// values is skipped.
pub open spec fn spec_gen_union_case(c: UnionCase, uname: Seq<char>) -> Seq<char> {
    if c.values@.len() == 0 {
        Seq::<char>::empty()
    } else {
        let vn = spec_union_case_name(c.values@[0], uname);
        match c.field {
            Some(f) => "    "@ + vn + "("@ + spec_type_source(f.ty) + "),\n"@,
            None => "    "@ + vn + ",\n"@,
        }
    }
}

/// The source text of a union's cases, in declared order.
pub open spec fn spec_gen_union_cases(cs: Seq<UnionCase>, uname: Seq<char>) -> Seq<char>
    decreases cs.len(),
{
    if cs.len() == 0 {
        Seq::<char>::empty()
    } else {
        spec_gen_union_cases(cs.drop_last(), uname) + spec_gen_union_case(cs.last(), uname)
    }
}

/// The source text of one union: a tagged enum.
pub open spec fn spec_gen_union(u: UnionDef) -> Seq<char> {
    "#[derive(Debug, Clone, PartialEq, Serialize, Deserialize)]\npub enum "@
        + spec_rust_type_name(u.name@) + " {\n"@ + spec_gen_union_cases(u.cases@, u.name@)
        + "}\n\n"@
}

/// Emit one union, as [`spec_gen_union`] states.
pub fn generate_union(u: &UnionDef) -> (r: String)
    ensures
        r@ == spec_gen_union(*u),
{
    let mut out = String::from_str(
        "#[derive(Debug, Clone, PartialEq, Serialize, Deserialize)]\npub enum ",
    );
    let tn = to_rust_type_name(u.name.as_str());
    out.append(tn.as_str());
    out.append(" {\n");
    let n = u.cases.len();
    proof {
        assert(u.cases@.take(0) =~= Seq::<UnionCase>::empty());
    }
    let mut i: usize = 0;
    let mut body = String::new();
    while i < n
        invariant
            i <= n,
            n == u.cases@.len(),
            body@ == spec_gen_union_cases(u.cases@.take(i as int), u.name@),
        decreases n - i,
    {
        proof {
            assert(u.cases@.take(i + 1).drop_last() =~= u.cases@.take(i as int));
            assert(u.cases@.take(i + 1).last() == u.cases@[i as int]);
        }
        let c = &u.cases[i];
        if c.values.len() > 0 {
            let vn: String = match &c.values[0] {
                ConstValue::Int(num) => {
                    let mut v = String::from_str("V");
                    let d = u64_to_dec(#[verifier::truncate] (*num as u64));
                    v.append(d.as_str());
                    v
                },
                ConstValue::Ident(s) => to_rust_variant_name(s.as_str(), u.name.as_str()),
            };
            match &c.field {
                Option::Some(f) => {
                    body.append("    ");
                    body.append(vn.as_str());
                    body.append("(");
                    let ty = type_to_source(&f.ty);
                    body.append(ty.as_str());
                    body.append("),\n");
                },
                Option::None => {
                    body.append("    ");
                    body.append(vn.as_str());
                    body.append(",\n");
                },
            }
        }
        proof {
            assert(body@ =~= spec_gen_union_cases(u.cases@.take(i + 1), u.name@));
        }
        i = i + 1;
    }
    proof {
        assert(u.cases@.take(n as int) =~= u.cases@);
    }
    out.append(body.as_str());
    out.append("}\n\n");
    proof {
        assert(out@ =~= spec_gen_union(*u));
    }
    out
}

/// The source text of one typedef: a type alias.
pub open spec fn spec_gen_typedef(t: TypedefDef) -> Seq<char> {
    "pub type "@ + spec_rust_type_name(t.name@) + " = "@ + spec_type_source(t.target) + ";\n\n"@
}

/// Emit one typedef, as [`spec_gen_typedef`] states.
pub fn generate_typedef(t: &TypedefDef) -> (r: String)
    ensures
        r@ == spec_gen_typedef(*t),
{
    let mut out = String::from_str("pub type ");
    let tn = to_rust_type_name(t.name.as_str());
    out.append(tn.as_str());
    out.append(" = ");
    let ty = type_to_source(&t.target);
    out.append(ty.as_str());
    out.append(";\n\n");
    proof {
        assert(out@ =~= spec_gen_typedef(*t));
    }
    out
}

/// The source text of one type definition.
pub open spec fn spec_gen_type(t: TypeDef) -> Seq<char> {
    match t {
        TypeDef::Struct(s) => spec_gen_struct(s),
        TypeDef::Enum(e) => spec_gen_enum(e),
        TypeDef::Union(u) => spec_gen_union(u),
        TypeDef::Typedef(td) => spec_gen_typedef(td),
    }
}

/// Emit one type definition, as [`spec_gen_type`] states.
pub fn generate_type(t: &TypeDef) -> (r: String)
    ensures
        r@ == spec_gen_type(*t),
{
    match t {
        TypeDef::Struct(s) => generate_struct(s),
        TypeDef::Enum(e) => generate_enum(e),
        TypeDef::Union(u) => generate_union(u),
        TypeDef::Typedef(td) => generate_typedef(td),
    }
}

/// The fixed text that opens every generated file: the serialization
/// imports, the well-known length constants, and the fixed-opaque
/// re-export.
pub open spec fn spec_gen_prelude() -> Seq<char> {
    "use serde::{Serialize, Deserialize};\n\npub const VIR_UUID_BUFLEN: usize = 16;\npub const VIR_UUID_STRING_BUFLEN: usize = 37;\n\npub use libvirt_xdr::opaque::{FixedOpaque, FixedOpaque16};\n\n"@
}

/// Emit the generated file's prelude, as [`spec_gen_prelude`] states.
pub fn generate_prelude() -> (r: String)
    ensures
        r@ == spec_gen_prelude(),
{
    String::from_str(
        "use serde::{Serialize, Deserialize};\n\npub const VIR_UUID_BUFLEN: usize = 16;\npub const VIR_UUID_STRING_BUFLEN: usize = 37;\n\npub use libvirt_xdr::opaque::{FixedOpaque, FixedOpaque16};\n\n",
    )
}

/// The method name of a procedure: its name without the procedure
/// prefix, lowercased.
pub open spec fn spec_method_name(p: Procedure, pprefix: Seq<u8>) -> Seq<char> {
    spec_strip_lower(p.name@, pprefix)
}

/// The generated `Procedure` enum variant of a procedure: `Proc`
/// followed by the UpperCamelCase of its name without the prefix.
pub open spec fn spec_proc_variant(p: Procedure, pprefix: Seq<u8>) -> Seq<char> {
    "Proc"@ + upper_camel_of(spec_strip_keep(p.name@, pprefix))
}

/// The source text of one generated RPC method for the main protocol:
/// of the four signature shapes, the one matching whether the
/// procedure has an argument struct and a return struct. The body
/// encodes the arguments, calls the transport capability with the
/// procedure's number, and decodes the reply.
pub open spec fn spec_gen_method(p: Procedure, pprefix: Seq<u8>) -> Seq<char> {
    let m = spec_method_name(p, pprefix);
    let v = spec_proc_variant(p, pprefix);
    match (p.args, p.ret) {
        (Some(a), Some(rt)) => "    pub async fn "@ + m + "(&self, args: "@
            + spec_rust_type_name(a@) + ") -> Result<"@ + spec_rust_type_name(rt@)
            + ", RpcError> {\n        let payload = libvirt_xdr::to_bytes(&args).map_err(|e| RpcError::Encode(e.to_string()))?;\n        let response = self.inner.rpc_call(Procedure::"@
            + v
            + " as u32, payload).await?;\n        libvirt_xdr::from_bytes(&response).map_err(|e| RpcError::Decode(e.to_string()))\n    }\n\n"@,
        (Some(a), None) => "    pub async fn "@ + m + "(&self, args: "@ + spec_rust_type_name(a@)
            + ") -> Result<(), RpcError> {\n        let payload = libvirt_xdr::to_bytes(&args).map_err(|e| RpcError::Encode(e.to_string()))?;\n        let _ = self.inner.rpc_call(Procedure::"@
            + v + " as u32, payload).await?;\n        Ok(())\n    }\n\n"@,
        (None, Some(rt)) => "    pub async fn "@ + m + "(&self) -> Result<"@
            + spec_rust_type_name(rt@)
            + ", RpcError> {\n        let response = self.inner.rpc_call(Procedure::"@ + v
            + " as u32, Vec::new()).await?;\n        libvirt_xdr::from_bytes(&response).map_err(|e| RpcError::Decode(e.to_string()))\n    }\n\n"@,
        (None, None) => "    pub async fn "@ + m
            + "(&self) -> Result<(), RpcError> {\n        let _ = self.inner.rpc_call(Procedure::"@
            + v + " as u32, Vec::new()).await?;\n        Ok(())\n    }\n\n"@,
    }
}

/// Emit one RPC method for the main protocol, as [`spec_gen_method`]
/// states.
pub fn generate_client_method(p: &Procedure, pprefix: &[u8]) -> (r: String)
    ensures
        r@ == spec_gen_method(*p, pprefix@),
{
    let m = strip_lower(p.name.as_str(), pprefix);
    let stripped = strip_keep(p.name.as_str(), pprefix);
    let mut v = String::from_str("Proc");
    let camel = to_upper_camel(stripped.as_str());
    v.append(camel.as_str());
    let mut out = String::from_str("    pub async fn ");
    out.append(m.as_str());
    match (&p.args, &p.ret) {
        (Option::Some(a), Option::Some(rt)) => {
            out.append("(&self, args: ");
            let an = to_rust_type_name(a.as_str());
            out.append(an.as_str());
            out.append(") -> Result<");
            let rn = to_rust_type_name(rt.as_str());
            out.append(rn.as_str());
            out.append(
                ", RpcError> {\n        let payload = libvirt_xdr::to_bytes(&args).map_err(|e| RpcError::Encode(e.to_string()))?;\n        let response = self.inner.rpc_call(Procedure::",
            );
            out.append(v.as_str());
            out.append(
                " as u32, payload).await?;\n        libvirt_xdr::from_bytes(&response).map_err(|e| RpcError::Decode(e.to_string()))\n    }\n\n",
            );
        },
        (Option::Some(a), Option::None) => {
            out.append("(&self, args: ");
            let an = to_rust_type_name(a.as_str());
            out.append(an.as_str());
            out.append(
                ") -> Result<(), RpcError> {\n        let payload = libvirt_xdr::to_bytes(&args).map_err(|e| RpcError::Encode(e.to_string()))?;\n        let _ = self.inner.rpc_call(Procedure::",
            );
            out.append(v.as_str());
            out.append(" as u32, payload).await?;\n        Ok(())\n    }\n\n");
        },
        (Option::None, Option::Some(rt)) => {
            out.append("(&self) -> Result<");
            let rn = to_rust_type_name(rt.as_str());
            out.append(rn.as_str());
            out.append(
                ", RpcError> {\n        let response = self.inner.rpc_call(Procedure::",
            );
            out.append(v.as_str());
            out.append(
                " as u32, Vec::new()).await?;\n        libvirt_xdr::from_bytes(&response).map_err(|e| RpcError::Decode(e.to_string()))\n    }\n\n",
            );
        },
        (Option::None, Option::None) => {
            out.append(
                "(&self) -> Result<(), RpcError> {\n        let _ = self.inner.rpc_call(Procedure::",
            );
            out.append(v.as_str());
            out.append(" as u32, Vec::new()).await?;\n        Ok(())\n    }\n\n");
        },
    }
    proof {
        assert(out@ =~= spec_gen_method(*p, pprefix@));
    }
    out
}

/// The source text of the main protocol's methods, in order.
pub open spec fn spec_gen_methods(ps: Seq<Procedure>, pprefix: Seq<u8>) -> Seq<char>
    decreases ps.len(),
{
    if ps.len() == 0 {
        Seq::<char>::empty()
    } else {
        spec_gen_methods(ps.drop_last(), pprefix) + spec_gen_method(ps.last(), pprefix)
    }
}

/// The fixed text that precedes the main protocol's methods: the
/// transport capability trait, the RPC error type, and the generated
/// client's constructor and accessors.
pub open spec fn spec_gen_client_header() -> Seq<char> {
    "#[allow(async_fn_in_trait)]\npub trait LibvirtRpc {\n    async fn rpc_call(&self, procedure: u32, payload: Vec<u8>) -> Result<Vec<u8>, RpcError>;\n    async fn rpc_call_program(&self, program: u32, procedure: u32, payload: Vec<u8>) -> Result<Vec<u8>, RpcError>;\n}\n\n#[derive(Debug)]\npub enum RpcError {\n    Encode(String),\n    Decode(String),\n    Transport(String),\n    Server(Error),\n}\n\nimpl std::fmt::Display for RpcError {\n    fn fmt(&self, f: &mut std::fmt::Formatter<'_>) -> std::fmt::Result {\n        match self {\n            RpcError::Encode(e) => write!(f, \"XDR encode error: {}\", e),\n            RpcError::Decode(e) => write!(f, \"XDR decode error: {}\", e),\n            RpcError::Transport(e) => write!(f, \"Transport error: {}\", e),\n            RpcError::Server(e) => write!(f, \"Server error: {:?}\", e),\n        }\n    }\n}\n\nimpl std::error::Error for RpcError {}\n\npub struct GeneratedClient<T: LibvirtRpc> {\n    inner: T,\n}\n\nimpl<T: LibvirtRpc> GeneratedClient<T> {\n    pub fn new(inner: T) -> Self {\n        Self { inner }\n    }\n\n    pub fn inner(&self) -> &T {\n        &self.inner\n    }\n\n    pub fn inner_mut(&mut self) -> &mut T {\n        &mut self.inner\n    }\n\n"@
}

/// The source text of the whole generated client for the main
/// protocol: the capability trait and error type, then the client with
/// one method per procedure.
pub open spec fn spec_gen_client(ps: Seq<Procedure>) -> Seq<char> {
    spec_gen_client_header() + spec_gen_methods(ps, "REMOTE_PROC_".spec_bytes()) + "}\n"@
}

/// Emit the transport trait, error type and client with one method per
/// procedure, as [`spec_gen_client`] states.
pub fn generate_client_methods(procedures: &Vec<Procedure>) -> (r: String)
    ensures
        r@ == spec_gen_client(procedures@),
{
    let mut out = String::from_str(
        "#[allow(async_fn_in_trait)]\npub trait LibvirtRpc {\n    async fn rpc_call(&self, procedure: u32, payload: Vec<u8>) -> Result<Vec<u8>, RpcError>;\n    async fn rpc_call_program(&self, program: u32, procedure: u32, payload: Vec<u8>) -> Result<Vec<u8>, RpcError>;\n}\n\n#[derive(Debug)]\npub enum RpcError {\n    Encode(String),\n    Decode(String),\n    Transport(String),\n    Server(Error),\n}\n\nimpl std::fmt::Display for RpcError {\n    fn fmt(&self, f: &mut std::fmt::Formatter<'_>) -> std::fmt::Result {\n        match self {\n            RpcError::Encode(e) => write!(f, \"XDR encode error: {}\", e),\n            RpcError::Decode(e) => write!(f, \"XDR decode error: {}\", e),\n            RpcError::Transport(e) => write!(f, \"Transport error: {}\", e),\n            RpcError::Server(e) => write!(f, \"Server error: {:?}\", e),\n        }\n    }\n}\n\nimpl std::error::Error for RpcError {}\n\npub struct GeneratedClient<T: LibvirtRpc> {\n    inner: T,\n}\n\nimpl<T: LibvirtRpc> GeneratedClient<T> {\n    pub fn new(inner: T) -> Self {\n        Self { inner }\n    }\n\n    pub fn inner(&self) -> &T {\n        &self.inner\n    }\n\n    pub fn inner_mut(&mut self) -> &mut T {\n        &mut self.inner\n    }\n\n",
    );
    let n = procedures.len();
    proof {
        assert(procedures@.take(0) =~= Seq::<Procedure>::empty());
    }
    let mut i: usize = 0;
    let mut body = String::new();
    while i < n
        invariant
            i <= n,
            n == procedures@.len(),
            body@ == spec_gen_methods(procedures@.take(i as int), "REMOTE_PROC_".spec_bytes()),
        decreases n - i,
    {
        proof {
            assert(procedures@.take(i + 1).drop_last() =~= procedures@.take(i as int));
            assert(procedures@.take(i + 1).last() == procedures@[i as int]);
        }
        let piece = generate_client_method(&procedures[i], "REMOTE_PROC_".as_bytes());
        body.append(piece.as_str());
        i = i + 1;
    }
    proof {
        assert(procedures@.take(n as int) =~= procedures@);
    }
    out.append(body.as_str());
    out.append("}\n");
    proof {
        assert(out@ =~= spec_gen_client(procedures@));
    }
    out
}

/// The source text of one RPC method of a secondary protocol: as for
/// the main protocol, but the call goes through the program-qualified
/// capability with the protocol's program constant, and the procedure
/// number is spelled directly.
pub open spec fn spec_gen_secondary_method(
    p: Procedure,
    pprefix: Seq<u8>,
    pconst: Seq<char>,
) -> Seq<char> {
    let m = spec_strip_lower(p.name@, pprefix);
    let num = spec_dec_chars(p.number as nat);
    match (p.args, p.ret) {
        (Some(a), Some(rt)) => "    pub async fn "@ + m + "(&self, args: "@
            + spec_rust_type_name(a@) + ") -> Result<"@ + spec_rust_type_name(rt@)
            + ", RpcError> {\n        let payload = libvirt_xdr::to_bytes(&args).map_err(|e| RpcError::Encode(e.to_string()))?;\n        let response = self.inner.rpc_call_program("@
            + pconst + " as u32, "@ + num
            + ", payload).await?;\n        libvirt_xdr::from_bytes(&response).map_err(|e| RpcError::Decode(e.to_string()))\n    }\n\n"@,
        (Some(a), None) => "    pub async fn "@ + m + "(&self, args: "@ + spec_rust_type_name(a@)
            + ") -> Result<(), RpcError> {\n        let payload = libvirt_xdr::to_bytes(&args).map_err(|e| RpcError::Encode(e.to_string()))?;\n        let _ = self.inner.rpc_call_program("@
            + pconst + " as u32, "@ + num + ", payload).await?;\n        Ok(())\n    }\n\n"@,
        (None, Some(rt)) => "    pub async fn "@ + m + "(&self) -> Result<"@
            + spec_rust_type_name(rt@)
            + ", RpcError> {\n        let response = self.inner.rpc_call_program("@ + pconst
            + " as u32, "@ + num
            + ", Vec::new()).await?;\n        libvirt_xdr::from_bytes(&response).map_err(|e| RpcError::Decode(e.to_string()))\n    }\n\n"@,
        (None, None) => "    pub async fn "@ + m
            + "(&self) -> Result<(), RpcError> {\n        let _ = self.inner.rpc_call_program("@
            + pconst + " as u32, "@ + num + ", Vec::new()).await?;\n        Ok(())\n    }\n\n"@,
    }
}

/// Emit one RPC method of a secondary protocol, as
/// [`spec_gen_secondary_method`] states.
pub fn generate_secondary_client_method(p: &Procedure, pprefix: &[u8], pconst: &str) -> (r:
    String)
    ensures
        r@ == spec_gen_secondary_method(*p, pprefix@, pconst@),
{
    let m = strip_lower(p.name.as_str(), pprefix);
    let num = u64_to_dec(p.number as u64);
    let mut out = String::from_str("    pub async fn ");
    out.append(m.as_str());
    match (&p.args, &p.ret) {
        (Option::Some(a), Option::Some(rt)) => {
            out.append("(&self, args: ");
            let an = to_rust_type_name(a.as_str());
            out.append(an.as_str());
            out.append(") -> Result<");
            let rn = to_rust_type_name(rt.as_str());
            out.append(rn.as_str());
            out.append(
                ", RpcError> {\n        let payload = libvirt_xdr::to_bytes(&args).map_err(|e| RpcError::Encode(e.to_string()))?;\n        let response = self.inner.rpc_call_program(",
            );
            out.append(pconst);
            out.append(" as u32, ");
            out.append(num.as_str());
            out.append(
                ", payload).await?;\n        libvirt_xdr::from_bytes(&response).map_err(|e| RpcError::Decode(e.to_string()))\n    }\n\n",
            );
        },
        (Option::Some(a), Option::None) => {
            out.append("(&self, args: ");
            let an = to_rust_type_name(a.as_str());
            out.append(an.as_str());
            out.append(
                ") -> Result<(), RpcError> {\n        let payload = libvirt_xdr::to_bytes(&args).map_err(|e| RpcError::Encode(e.to_string()))?;\n        let _ = self.inner.rpc_call_program(",
            );
            out.append(pconst);
            out.append(" as u32, ");
            out.append(num.as_str());
            out.append(", payload).await?;\n        Ok(())\n    }\n\n");
        },
        (Option::None, Option::Some(rt)) => {
            out.append("(&self) -> Result<");
            let rn = to_rust_type_name(rt.as_str());
            out.append(rn.as_str());
            out.append(", RpcError> {\n        let response = self.inner.rpc_call_program(");
            out.append(pconst);
            out.append(" as u32, ");
            out.append(num.as_str());
            out.append(
                ", Vec::new()).await?;\n        libvirt_xdr::from_bytes(&response).map_err(|e| RpcError::Decode(e.to_string()))\n    }\n\n",
            );
        },
        (Option::None, Option::None) => {
            out.append("(&self) -> Result<(), RpcError> {\n        let _ = self.inner.rpc_call_program(");
            out.append(pconst);
            out.append(" as u32, ");
            out.append(num.as_str());
            out.append(", Vec::new()).await?;\n        Ok(())\n    }\n\n");
        },
    }
    proof {
        assert(out@ =~= spec_gen_secondary_method(*p, pprefix@, pconst@));
    }
    out
}

/// The source text of a secondary protocol's methods, in order.
pub open spec fn spec_gen_secondary_methods(
    ps: Seq<Procedure>,
    pprefix: Seq<u8>,
    pconst: Seq<char>,
) -> Seq<char>
    decreases ps.len(),
{
    if ps.len() == 0 {
        Seq::<char>::empty()
    } else {
        spec_gen_secondary_methods(ps.drop_last(), pprefix, pconst) + spec_gen_secondary_method(
            ps.last(),
            pprefix,
            pconst,
        )
    }
}

/// The source text of a secondary protocol's generated client: a
/// struct named after the protocol, its constructor and accessors, and
/// one method per procedure.
pub open spec fn spec_gen_secondary_client(ps: Seq<Procedure>, pname: Seq<char>) -> Seq<char> {
    let cname = upper_camel_of(pname) + "Client"@;
    let pr = spec_secondary_prefixes(pname);
    "pub struct "@ + cname + "<T: LibvirtRpc> {\n    inner: T,\n}\n\nimpl<T: LibvirtRpc> "@
        + cname
        + "<T> {\n    pub fn new(inner: T) -> Self {\n        Self { inner }\n    }\n\n    pub fn inner(&self) -> &T {\n        &self.inner\n    }\n\n    pub fn inner_mut(&mut self) -> &mut T {\n        &mut self.inner\n    }\n\n"@
        + spec_gen_secondary_methods(ps, pr.0, pr.1) + "}\n"@
}

/// The procedure prefix and program constant of a secondary protocol.
pub open spec fn spec_secondary_prefixes(pname: Seq<char>) -> (Seq<u8>, Seq<char>) {
    if pname == "qemu"@ {
        ("QEMU_PROC_".spec_bytes(), "QEMU_PROGRAM"@)
    } else if pname == "lxc"@ {
        ("LXC_PROC_".spec_bytes(), "LXC_PROGRAM"@)
    } else {
        ("REMOTE_PROC_".spec_bytes(), "REMOTE_PROGRAM"@)
    }
}

/// Emit a secondary protocol's client, as
/// [`spec_gen_secondary_client`] states.
pub fn generate_secondary_client_methods(procedures: &Vec<Procedure>, protocol_name: &str) -> (r:
    String)
    ensures
        r@ == spec_gen_secondary_client(procedures@, protocol_name@),
{
    let is_qemu = str_eq(protocol_name, "qemu");
    let is_lxc = str_eq(protocol_name, "lxc");
    let pprefix: &[u8] = if is_qemu {
        "QEMU_PROC_".as_bytes()
    } else if is_lxc {
        "LXC_PROC_".as_bytes()
    } else {
        "REMOTE_PROC_".as_bytes()
    };
    let pconst: &str = if is_qemu {
        "QEMU_PROGRAM"
    } else if is_lxc {
        "LXC_PROGRAM"
    } else {
        "REMOTE_PROGRAM"
    };
    let cname0 = to_upper_camel(protocol_name);
    let mut cname = cname0;
    cname.append("Client");
    let mut out = String::from_str("pub struct ");
    out.append(cname.as_str());
    out.append("<T: LibvirtRpc> {\n    inner: T,\n}\n\nimpl<T: LibvirtRpc> ");
    out.append(cname.as_str());
    out.append(
        "<T> {\n    pub fn new(inner: T) -> Self {\n        Self { inner }\n    }\n\n    pub fn inner(&self) -> &T {\n        &self.inner\n    }\n\n    pub fn inner_mut(&mut self) -> &mut T {\n        &mut self.inner\n    }\n\n",
    );
    let n = procedures.len();
    proof {
        assert(procedures@.take(0) =~= Seq::<Procedure>::empty());
    }
    let mut i: usize = 0;
    let mut body = String::new();
    while i < n
        invariant
            i <= n,
            n == procedures@.len(),
            body@ == spec_gen_secondary_methods(
                procedures@.take(i as int),
                pprefix@,
                pconst@,
            ),
        decreases n - i,
    {
        proof {
            assert(procedures@.take(i + 1).drop_last() =~= procedures@.take(i as int));
            assert(procedures@.take(i + 1).last() == procedures@[i as int]);
        }
        let piece = generate_secondary_client_method(&procedures[i], pprefix, pconst);
        body.append(piece.as_str());
        i = i + 1;
    }
    proof {
        assert(procedures@.take(n as int) =~= procedures@);
    }
    out.append(body.as_str());
    out.append("}\n");
    proof {
        assert(out@ =~= spec_gen_secondary_client(procedures@, protocol_name@));
    }
    out
}

/// The source text of a protocol's constants, in order.
pub open spec fn spec_gen_constants(cs: Seq<Constant>) -> Seq<char>
    decreases cs.len(),
{
    if cs.len() == 0 {
        Seq::<char>::empty()
    } else {
        spec_gen_constants(cs.drop_last()) + spec_gen_constant(cs.last())
    }
}

/// The source text of a protocol's types, in order.
pub open spec fn spec_gen_types(ts: Seq<TypeDef>) -> Seq<char>
    decreases ts.len(),
{
    if ts.len() == 0 {
        Seq::<char>::empty()
    } else {
        spec_gen_types(ts.drop_last()) + spec_gen_type(ts.last())
    }
}

/// Emit a protocol's constants, in order.
fn generate_constants(cs: &Vec<Constant>) -> (r: String)
    ensures
        r@ == spec_gen_constants(cs@),
{
    let n = cs.len();
    proof {
        assert(cs@.take(0) =~= Seq::<Constant>::empty());
    }
    let mut i: usize = 0;
    let mut out = String::new();
    while i < n
        invariant
            i <= n,
            n == cs@.len(),
            out@ == spec_gen_constants(cs@.take(i as int)),
        decreases n - i,
    {
        proof {
            assert(cs@.take(i + 1).drop_last() =~= cs@.take(i as int));
            assert(cs@.take(i + 1).last() == cs@[i as int]);
        }
        let piece = generate_constant(&cs[i]);
        out.append(piece.as_str());
        i = i + 1;
    }
    proof {
        assert(cs@.take(n as int) =~= cs@);
    }
    out
}

/// Emit a protocol's types, in order.
fn generate_types(ts: &Vec<TypeDef>) -> (r: String)
    ensures
        r@ == spec_gen_types(ts@),
{
    let n = ts.len();
    proof {
        assert(ts@.take(0) =~= Seq::<TypeDef>::empty());
    }
    let mut i: usize = 0;
    let mut out = String::new();
    while i < n
        invariant
            i <= n,
            n == ts@.len(),
            out@ == spec_gen_types(ts@.take(i as int)),
        decreases n - i,
    {
        proof {
            assert(ts@.take(i + 1).drop_last() =~= ts@.take(i as int));
            assert(ts@.take(i + 1).last() == ts@[i as int]);
        }
        let piece = generate_type(&ts[i]);
        out.append(piece.as_str());
        i = i + 1;
    }
    proof {
        assert(ts@.take(n as int) =~= ts@);
    }
    out
}

/// The source text generated for one protocol: the prelude, its
/// constants, its types, and the generated client.
pub open spec fn spec_generate(p: Protocol) -> Seq<char> {
    spec_gen_prelude() + spec_gen_constants(p.constants@) + spec_gen_types(p.types@)
        + spec_gen_client(p.procedures@)
}

/// Generate Rust source text for one protocol, as [`spec_generate`]
/// states: the same AST always yields the same text.
pub fn generate(protocol: &Protocol) -> (r: String)
    ensures
        r@ == spec_generate(*protocol),
{
    let mut out = generate_prelude();
    let cs = generate_constants(&protocol.constants);
    out.append(cs.as_str());
    let ts = generate_types(&protocol.types);
    out.append(ts.as_str());
    let cl = generate_client_methods(&protocol.procedures);
    out.append(cl.as_str());
    proof {
        assert(out@ =~= spec_generate(*protocol));
    }
    out
}

/// The source text generated for a secondary protocol: its constants
/// and types — its types reuse the main protocol's — and its own
/// client.
pub open spec fn spec_generate_secondary(p: Protocol, pname: Seq<char>) -> Seq<char> {
    spec_gen_constants(p.constants@) + spec_gen_types(p.types@) + spec_gen_secondary_client(
        p.procedures@,
        pname,
    )
}

/// Generate the source text of a secondary protocol (QEMU or LXC), as
/// [`spec_generate_secondary`] states.
pub fn generate_secondary_protocol(protocol: &Protocol, prefix: &str) -> (r: String)
    ensures
        r@ == spec_generate_secondary(*protocol, prefix@),
{
    let mut out = generate_constants(&protocol.constants);
    let ts = generate_types(&protocol.types);
    out.append(ts.as_str());
    let cl = generate_secondary_client_methods(&protocol.procedures, prefix);
    out.append(cl.as_str());
    proof {
        assert(out@ =~= spec_generate_secondary(*protocol, prefix@));
    }
    out
}

/// The source text generated for a bundle: the prelude, the main
/// protocol's constants, types and client, then each secondary
/// protocol present.
pub open spec fn spec_generate_bundle(b: crate::ast::ProtocolBundle) -> Seq<char> {
    spec_gen_prelude() + (match b.remote {
        Some(rp) => spec_gen_constants(rp.constants@) + spec_gen_types(rp.types@)
            + spec_gen_client(rp.procedures@),
        None => Seq::<char>::empty(),
    }) + (match b.qemu {
        Some(qp) => spec_generate_secondary(qp, "qemu"@),
        None => Seq::<char>::empty(),
    }) + (match b.lxc {
        Some(lp) => spec_generate_secondary(lp, "lxc"@),
        None => Seq::<char>::empty(),
    })
}

/// Generate Rust source text for a whole bundle, as
/// [`spec_generate_bundle`] states.
pub fn generate_bundle(bundle: &crate::ast::ProtocolBundle) -> (r: String)
    ensures
        r@ == spec_generate_bundle(*bundle),
{
    let mut out = generate_prelude();
    match &bundle.remote {
        Option::Some(rp) => {
            let cs = generate_constants(&rp.constants);
            out.append(cs.as_str());
            let ts = generate_types(&rp.types);
            out.append(ts.as_str());
            let cl = generate_client_methods(&rp.procedures);
            out.append(cl.as_str());
        },
        Option::None => {},
    }
    match &bundle.qemu {
        Option::Some(qp) => {
            let t = generate_secondary_protocol(qp, "qemu");
            out.append(t.as_str());
        },
        Option::None => {},
    }
    match &bundle.lxc {
        Option::Some(lp) => {
            let t = generate_secondary_protocol(lp, "lxc");
            out.append(t.as_str());
        },
        Option::None => {},
    }
    proof {
        assert(out@ =~= spec_generate_bundle(*bundle));
    }
    out
}

} // verus!
