//! A native client library for the libvirt RPC protocol.
//!
//! The library is organised around three subsystems:
//!
//! - an XDR (RFC 4506) codec with libvirt's conventions
//!   ([`codec`], [`opaque`]): big-endian primitives, length-prefixed
//!   strings and opaque data padded to four-byte boundaries, and a
//!   prefix-free fixed-length opaque form used for UUIDs;
//! - a compiler for XDR protocol definitions ([`ast`], [`parser`],
//!   [`generator`]): a parser from `.x` definition text to a protocol
//!   AST, and a code generator that emits typed constants, data types
//!   and one method per RPC procedure;
//! - the wire-packet and dispatch logic of the RPC engine ([`packet`],
//!   [`connection`]): framed packets with a 24-byte header, serial
//!   assignment, and the matching of replies to outstanding calls.
//!
//! All I/O lives outside this crate; every function here is a pure
//! transformation on plain values.

pub mod ast;
pub mod codec;
pub mod connection;
pub mod generator;
pub mod opaque;
pub mod packet;
pub mod parser;
