//! XDR primitive encoding and decoding (RFC 4506).
//!
//! Every XDR item occupies a multiple of four bytes. Integers are
//! big-endian two's complement; booleans are 32-bit integers `0` or `1`;
//! variable-length strings and opaque data carry a 4-byte length prefix
//! and are zero-padded to a four-byte boundary; fixed-length opaque data
//! is padded but carries no prefix.
//!
//! The wire form of each shape is given by the `spec_xdr_*` functions,
//! the serializer appends exactly those bytes, and the deserializer
//! reads them back; the `lemma_*_round_trip` functions state that the
//! two are inverse to one another.

use vstd::prelude::*;

verus! {

use vstd::slice::slice_subrange;
use vstd::slice::slice_to_vec;
use vstd::string::StringExecFns;
use vstd::string::StringSliceAdditionalSpecFns;
use vstd::utf8::decode_utf8;
use vstd::utf8::encode_utf8;
use vstd::utf8::valid_utf8;

/// Errors reported by XDR serialization and deserialization.
#[derive(Debug, Clone, PartialEq)]
pub enum Error {
    /// A failure outside the fixed taxonomy, described in text.
    Message(String),
    /// Unexpected end of input.
    Eof,
    /// A boolean word other than `0` or `1`.
    InvalidBool(u32),
    /// An enum discriminant matching no variant.
    InvalidEnumDiscriminant(i32),
    /// String bytes that are not valid UTF-8.
    InvalidUtf8,
    /// A string longer than its declared maximum.
    StringTooLong(usize, usize),
    /// An array longer than its declared maximum.
    ArrayTooLong(usize, usize),
    /// Input left over after a whole-value decode.
    TrailingData(usize),
}

/// The number of zero bytes that pad an item of `len` bytes to a
/// four-byte boundary.
pub open spec fn pad_len(len: int) -> int {
    (4 - len % 4) % 4
}

/// `n` zero bytes.
pub open spec fn zeros(n: int) -> Seq<u8> {
    Seq::new(n as nat, |i: int| 0u8)
}

/// The four big-endian bytes of a 32-bit word.
pub open spec fn be_bytes_u32(v: u32) -> Seq<u8> {
    seq![(v >> 24) as u8, (v >> 16) as u8, (v >> 8) as u8, v as u8]
}

/// The 32-bit word read from four big-endian bytes.
pub open spec fn be_u32(s: Seq<u8>) -> u32
    recommends
        s.len() == 4,
{
    ((s[0] as u32) << 24) | ((s[1] as u32) << 16) | ((s[2] as u32) << 8) | (s[3] as u32)
}

/// The eight big-endian bytes of a 64-bit word.
pub open spec fn be_bytes_u64(v: u64) -> Seq<u8> {
    seq![
        (v >> 56) as u8,
        (v >> 48) as u8,
        (v >> 40) as u8,
        (v >> 32) as u8,
        (v >> 24) as u8,
        (v >> 16) as u8,
        (v >> 8) as u8,
        v as u8,
    ]
}

/// The 64-bit word read from eight big-endian bytes.
pub open spec fn be_u64(s: Seq<u8>) -> u64
    recommends
        s.len() == 8,
{
    ((s[0] as u64) << 56) | ((s[1] as u64) << 48) | ((s[2] as u64) << 40) | ((s[3] as u64) << 32)
        | ((s[4] as u64) << 24) | ((s[5] as u64) << 16) | ((s[6] as u64) << 8) | (s[7] as u64)
}

/// Wire form of an unsigned 32-bit integer.
pub open spec fn spec_xdr_u32(v: u32) -> Seq<u8> {
    be_bytes_u32(v)
}

/// Wire form of a signed 32-bit integer.
pub open spec fn spec_xdr_i32(v: i32) -> Seq<u8> {
    be_bytes_u32(v as u32)
}

/// Wire form of an unsigned 64-bit integer.
pub open spec fn spec_xdr_u64(v: u64) -> Seq<u8> {
    be_bytes_u64(v)
}

/// Wire form of a signed 64-bit integer.
pub open spec fn spec_xdr_i64(v: i64) -> Seq<u8> {
    be_bytes_u64(v as u64)
}

/// Wire form of a boolean: the 32-bit integer `1` or `0`.
pub open spec fn spec_xdr_bool(v: bool) -> Seq<u8> {
    be_bytes_u32(if v { 1u32 } else { 0u32 })
}

/// Wire form of variable-length opaque data: length prefix, bytes,
/// zero padding to a four-byte boundary.
pub open spec fn spec_xdr_bytes(data: Seq<u8>) -> Seq<u8>
    recommends
        data.len() <= u32::MAX,
{
    be_bytes_u32(data.len() as u32) + data + zeros(pad_len(data.len() as int))
}

/// Wire form of fixed-length opaque data: the bytes with zero padding
/// and no length prefix.
pub open spec fn spec_xdr_opaque_fixed(data: Seq<u8>) -> Seq<u8> {
    data + zeros(pad_len(data.len() as int))
}

/// Wire form of a string: its UTF-8 bytes as variable-length opaque.
pub open spec fn spec_xdr_string(s: Seq<char>) -> Seq<u8> {
    spec_xdr_bytes(encode_utf8(s))
}

/// Wire form of the presence word of an optional value: `1` for a
/// present value (whose encoding follows), `0` for an absent one.
pub open spec fn spec_xdr_option_tag(present: bool) -> Seq<u8> {
    be_bytes_u32(if present { 1u32 } else { 0u32 })
}

/// XDR serializer: appends the wire form of each value to an output
/// buffer.
pub struct XdrSerializer {
    output: Vec<u8>,
}

impl View for XdrSerializer {
    type V = Seq<u8>;

    closed spec fn view(&self) -> Seq<u8> {
        self.output@
    }
}

impl XdrSerializer {
    /// Create a new XDR serializer.
    pub fn new() -> (r: Self)
        ensures
            r@ == Seq::<u8>::empty(),
    {
        Self { output: Vec::new() }
    }

    /// Create a new XDR serializer with a capacity hint.
    pub fn with_capacity(capacity: usize) -> (r: Self)
        ensures
            r@ == Seq::<u8>::empty(),
    {
        Self { output: Vec::with_capacity(capacity) }
    }

    /// Take the serialized bytes.
    pub fn into_bytes(self) -> (r: Vec<u8>)
        ensures
            r@ == self@,
    {
        self.output
    }

    /// The number of bytes written so far.
    pub fn len(&self) -> (r: usize)
        ensures
            r == self@.len(),
    {
        self.output.len()
    }

    /// Append zero padding for an item of `len` bytes, so that the
    /// item ends on a four-byte boundary.
    pub fn write_padding(&mut self, len: usize)
        ensures
            final(self)@ == old(self)@ + zeros(pad_len(len as int)),
    {
        let padding: usize = (4 - (len % 4)) % 4;
        let mut i: usize = 0;
        while i < padding
            invariant
                i <= padding,
                padding == pad_len(len as int),
                self@ == old(self)@ + zeros(i as int),
            decreases padding - i,
        {
            self.output.push(0u8);
            proof {
                assert(self@ =~= old(self)@ + zeros(i + 1));
            }
            i = i + 1;
        }
        proof {
            assert(self@ =~= old(self)@ + zeros(pad_len(len as int)));
        }
    }

    /// Append an unsigned 32-bit integer, big-endian.
    pub fn serialize_u32(&mut self, v: u32)
        ensures
            final(self)@ == old(self)@ + spec_xdr_u32(v),
    {
        self.output.push((v >> 24) as u8);
        self.output.push((v >> 16) as u8);
        self.output.push((v >> 8) as u8);
        self.output.push(v as u8);
        proof {
            assert(self@ =~= old(self)@ + spec_xdr_u32(v));
        }
    }

    /// Append a signed 32-bit integer, big-endian two's complement.
    pub fn serialize_i32(&mut self, v: i32)
        ensures
            final(self)@ == old(self)@ + spec_xdr_i32(v),
    {
        self.serialize_u32(v as u32);
    }

    /// Append an unsigned 64-bit integer, big-endian.
    pub fn serialize_u64(&mut self, v: u64)
        ensures
            final(self)@ == old(self)@ + spec_xdr_u64(v),
    {
        self.output.push((v >> 56) as u8);
        self.output.push((v >> 48) as u8);
        self.output.push((v >> 40) as u8);
        self.output.push((v >> 32) as u8);
        self.output.push((v >> 24) as u8);
        self.output.push((v >> 16) as u8);
        self.output.push((v >> 8) as u8);
        self.output.push(v as u8);
        proof {
            assert(self@ =~= old(self)@ + spec_xdr_u64(v));
        }
    }

    /// Append a signed 64-bit integer, big-endian two's complement.
    pub fn serialize_i64(&mut self, v: i64)
        ensures
            final(self)@ == old(self)@ + spec_xdr_i64(v),
    {
        self.serialize_u64(v as u64);
    }

    /// Append a signed 8-bit integer, sign-extended to the 32-bit wire
    /// form.
    pub fn serialize_i8(&mut self, v: i8)
        ensures
            final(self)@ == old(self)@ + spec_xdr_i32(v as i32),
    {
        self.serialize_i32(v as i32);
    }

    /// Append a signed 16-bit integer, sign-extended to the 32-bit wire
    /// form.
    pub fn serialize_i16(&mut self, v: i16)
        ensures
            final(self)@ == old(self)@ + spec_xdr_i32(v as i32),
    {
        self.serialize_i32(v as i32);
    }

    /// Append an unsigned 8-bit integer, zero-extended to the 32-bit
    /// wire form.
    pub fn serialize_u8(&mut self, v: u8)
        ensures
            final(self)@ == old(self)@ + spec_xdr_u32(v as u32),
    {
        self.serialize_u32(v as u32);
    }

    /// Append an unsigned 16-bit integer, zero-extended to the 32-bit
    /// wire form.
    pub fn serialize_u16(&mut self, v: u16)
        ensures
            final(self)@ == old(self)@ + spec_xdr_u32(v as u32),
    {
        self.serialize_u32(v as u32);
    }

    /// Append a boolean as the 32-bit integer `1` or `0`.
    pub fn serialize_bool(&mut self, v: bool)
        ensures
            final(self)@ == old(self)@ + spec_xdr_bool(v),
    {
        self.serialize_u32(if v { 1u32 } else { 0u32 });
    }

    /// Append variable-length opaque data: length prefix, bytes, zero
    /// padding.
    pub fn serialize_bytes(&mut self, v: &[u8])
        requires
            v@.len() <= u32::MAX,
        ensures
            final(self)@ == old(self)@ + spec_xdr_bytes(v@),
    {
        self.serialize_u32(v.len() as u32);
        self.output.extend_from_slice(v);
        self.write_padding(v.len());
        proof {
            assert(self@ =~= old(self)@ + spec_xdr_bytes(v@));
        }
    }

    /// Append fixed-length opaque data: the bytes with zero padding and
    /// no length prefix.
    pub fn serialize_opaque_fixed(&mut self, v: &[u8])
        ensures
            final(self)@ == old(self)@ + spec_xdr_opaque_fixed(v@),
    {
        self.output.extend_from_slice(v);
        self.write_padding(v.len());
        proof {
            assert(self@ =~= old(self)@ + spec_xdr_opaque_fixed(v@));
        }
    }

    /// Append a string: its UTF-8 bytes as variable-length opaque.
    pub fn serialize_str(&mut self, v: &str)
        requires
            v.spec_bytes().len() <= u32::MAX,
        ensures
            final(self)@ == old(self)@ + spec_xdr_string(v@),
    {
        let bytes: &[u8] = v.as_bytes();
        self.serialize_bytes(bytes);
    }

    /// Append the presence word of an optional value: `1` if a value
    /// follows, `0` if not.
    pub fn serialize_option_tag(&mut self, present: bool)
        ensures
            final(self)@ == old(self)@ + spec_xdr_option_tag(present),
    {
        self.serialize_u32(if present { 1u32 } else { 0u32 });
    }

    /// Append the absence word of an optional value.
    pub fn serialize_none(&mut self)
        ensures
            final(self)@ == old(self)@ + spec_xdr_option_tag(false),
    {
        self.serialize_option_tag(false);
    }
}

/// XDR deserializer: reads values back from a byte buffer, tracking a
/// current position.
pub struct XdrDeserializer<'a> {
    /// The input buffer.
    pub input: &'a [u8],
    /// The read position, always within the buffer.
    pub pos: usize,
}

impl<'a> XdrDeserializer<'a> {
    /// The position never runs past the end of the input.
    pub open spec fn wf(&self) -> bool {
        self.pos <= self.input@.len()
    }

    /// The bytes not yet consumed.
    pub open spec fn spec_remaining(&self) -> int {
        self.input@.len() - self.pos
    }

    /// Create a new XDR deserializer reading from the start of `input`.
    pub fn new(input: &'a [u8]) -> (r: Self)
        ensures
            r.input@ == input@,
            r.pos == 0,
            r.wf(),
    {
        Self { input, pos: 0 }
    }

    /// The number of bytes left to read.
    pub fn remaining(&self) -> (r: usize)
        requires
            self.wf(),
        ensures
            r == self.spec_remaining(),
    {
        self.input.len() - self.pos
    }

    /// Read exactly `n` bytes; `Eof` exactly when fewer than `n` are
    /// left, in which case nothing is consumed.
    pub fn read_bytes(&mut self, n: usize) -> (r: Result<&'a [u8], Error>)
        requires
            old(self).wf(),
        ensures
            final(self).wf(),
            final(self).input@ == old(self).input@,
            r is Ok <==> n <= old(self).spec_remaining(),
            r matches Ok(b) ==> {
                &&& b@ == old(self).input@.subrange(old(self).pos as int, old(self).pos + n)
                &&& final(self).pos == old(self).pos + n
            },
            r is Err ==> r == Err::<&'a [u8], Error>(Error::Eof) && *final(self) == *old(self),
    {
        if n > self.input.len() - self.pos {
            return Err(Error::Eof);
        }
        let inp: &'a [u8] = self.input;
        let b: &'a [u8] = slice_subrange(inp, self.pos, self.pos + n);
        self.pos = self.pos + n;
        Ok(b)
    }

    /// Skip the padding that follows an item of `len` bytes; the
    /// padding bytes themselves are not inspected.
    pub fn skip_padding(&mut self, len: usize) -> (r: Result<(), Error>)
        requires
            old(self).wf(),
        ensures
            final(self).wf(),
            final(self).input@ == old(self).input@,
            r is Ok <==> pad_len(len as int) <= old(self).spec_remaining(),
            r is Ok ==> final(self).pos == old(self).pos + pad_len(len as int),
            r is Err ==> r == Err::<(), Error>(Error::Eof) && *final(self) == *old(self),
    {
        let padding: usize = (4 - (len % 4)) % 4;
        if padding > 0 {
            match self.read_bytes(padding) {
                Ok(_) => Ok(()),
                Err(e) => Err(e),
            }
        } else {
            Ok(())
        }
    }

    /// Read a big-endian unsigned 32-bit integer.
    pub fn read_u32(&mut self) -> (r: Result<u32, Error>)
        requires
            old(self).wf(),
        ensures
            final(self).wf(),
            final(self).input@ == old(self).input@,
            r is Ok <==> old(self).spec_remaining() >= 4,
            r matches Ok(v) ==> {
                &&& v == be_u32(old(self).input@.subrange(old(self).pos as int, old(self).pos + 4))
                &&& final(self).pos == old(self).pos + 4
            },
            r is Err ==> r == Err::<u32, Error>(Error::Eof) && *final(self) == *old(self),
    {
        match self.read_bytes(4) {
            Ok(b) => {
                let v: u32 = ((b[0] as u32) << 24) | ((b[1] as u32) << 16) | ((b[2] as u32) << 8)
                    | (b[3] as u32);
                Ok(v)
            },
            Err(e) => Err(e),
        }
    }

    /// Read a big-endian signed 32-bit integer.
    pub fn read_i32(&mut self) -> (r: Result<i32, Error>)
        requires
            old(self).wf(),
        ensures
            final(self).wf(),
            final(self).input@ == old(self).input@,
            r is Ok <==> old(self).spec_remaining() >= 4,
            r matches Ok(v) ==> {
                &&& v == be_u32(
                    old(self).input@.subrange(old(self).pos as int, old(self).pos + 4),
                ) as i32
                &&& final(self).pos == old(self).pos + 4
            },
            r is Err ==> r == Err::<i32, Error>(Error::Eof) && *final(self) == *old(self),
    {
        match self.read_u32() {
            Ok(v) => Ok(v as i32),
            Err(e) => Err(e),
        }
    }

    /// Read a big-endian unsigned 64-bit integer.
    pub fn read_u64(&mut self) -> (r: Result<u64, Error>)
        requires
            old(self).wf(),
        ensures
            final(self).wf(),
            final(self).input@ == old(self).input@,
            r is Ok <==> old(self).spec_remaining() >= 8,
            r matches Ok(v) ==> {
                &&& v == be_u64(old(self).input@.subrange(old(self).pos as int, old(self).pos + 8))
                &&& final(self).pos == old(self).pos + 8
            },
            r is Err ==> r == Err::<u64, Error>(Error::Eof) && *final(self) == *old(self),
    {
        match self.read_bytes(8) {
            Ok(b) => {
                let v: u64 = ((b[0] as u64) << 56) | ((b[1] as u64) << 48) | ((b[2] as u64) << 40)
                    | ((b[3] as u64) << 32) | ((b[4] as u64) << 24) | ((b[5] as u64) << 16)
                    | ((b[6] as u64) << 8) | (b[7] as u64);
                Ok(v)
            },
            Err(e) => Err(e),
        }
    }

    /// Read a big-endian signed 64-bit integer.
    pub fn read_i64(&mut self) -> (r: Result<i64, Error>)
        requires
            old(self).wf(),
        ensures
            final(self).wf(),
            final(self).input@ == old(self).input@,
            r is Ok <==> old(self).spec_remaining() >= 8,
            r matches Ok(v) ==> {
                &&& v == be_u64(
                    old(self).input@.subrange(old(self).pos as int, old(self).pos + 8),
                ) as i64
                &&& final(self).pos == old(self).pos + 8
            },
            r is Err ==> r == Err::<i64, Error>(Error::Eof) && *final(self) == *old(self),
    {
        match self.read_u64() {
            Ok(v) => Ok(v as i64),
            Err(e) => Err(e),
        }
    }

    /// Read a boolean: the words `0` and `1` decode to `false` and
    /// `true`, any other word is rejected as `InvalidBool` (and has
    /// been consumed), and a short buffer is `Eof`.
    pub fn read_bool(&mut self) -> (r: Result<bool, Error>)
        requires
            old(self).wf(),
        ensures
            final(self).wf(),
            final(self).input@ == old(self).input@,
            ({
                let w = be_u32(old(self).input@.subrange(old(self).pos as int, old(self).pos + 4));
                &&& r is Ok <==> old(self).spec_remaining() >= 4 && (w == 0 || w == 1)
                &&& r matches Ok(v) ==> v == (w == 1) && final(self).pos == old(self).pos + 4
                &&& (old(self).spec_remaining() >= 4 && w != 0 && w != 1) ==> r == Err::<
                    bool,
                    Error,
                >(Error::InvalidBool(w)) && final(self).pos == old(self).pos + 4
                &&& old(self).spec_remaining() < 4 ==> r == Err::<bool, Error>(Error::Eof)
                    && *final(self) == *old(self)
            }),
    {
        match self.read_u32() {
            Ok(0u32) => Ok(false),
            Ok(1u32) => Ok(true),
            Ok(v) => Err(Error::InvalidBool(v)),
            Err(e) => Err(e),
        }
    }

    /// Read the presence word of an optional value: `0` means absent,
    /// `1` means a value follows, and any other word is rejected as
    /// `InvalidBool` (and has been consumed).
    pub fn read_option_tag(&mut self) -> (r: Result<bool, Error>)
        requires
            old(self).wf(),
        ensures
            final(self).wf(),
            final(self).input@ == old(self).input@,
            ({
                let w = be_u32(old(self).input@.subrange(old(self).pos as int, old(self).pos + 4));
                &&& r is Ok <==> old(self).spec_remaining() >= 4 && (w == 0 || w == 1)
                &&& r matches Ok(v) ==> v == (w == 1) && final(self).pos == old(self).pos + 4
                &&& (old(self).spec_remaining() >= 4 && w != 0 && w != 1) ==> r == Err::<
                    bool,
                    Error,
                >(Error::InvalidBool(w)) && final(self).pos == old(self).pos + 4
                &&& old(self).spec_remaining() < 4 ==> r == Err::<bool, Error>(Error::Eof)
                    && *final(self) == *old(self)
            }),
    {
        match self.read_u32() {
            Ok(0u32) => Ok(false),
            Ok(1u32) => Ok(true),
            Ok(v) => Err(Error::InvalidBool(v)),
            Err(e) => Err(e),
        }
    }

    /// Read variable-length opaque data: a length prefix, that many
    /// bytes, and padding to a four-byte boundary.
    pub fn read_bytes_var(&mut self) -> (r: Result<Vec<u8>, Error>)
        requires
            old(self).wf(),
        ensures
            final(self).wf(),
            final(self).input@ == old(self).input@,
            r matches Ok(b) ==> {
                let len = be_u32(
                    old(self).input@.subrange(old(self).pos as int, old(self).pos + 4),
                ) as int;
                &&& old(self).spec_remaining() >= 4 + len + pad_len(len)
                &&& b@ == old(self).input@.subrange(old(self).pos + 4, old(self).pos + 4 + len)
                &&& final(self).pos == old(self).pos + 4 + len + pad_len(len)
            },
            r is Err ==> r == Err::<Vec<u8>, Error>(Error::Eof),
            old(self).spec_remaining() >= 4 ==> (r is Ok <==> old(self).spec_remaining() >= 4
                + be_u32(old(self).input@.subrange(old(self).pos as int, old(self).pos + 4)) as int
                + pad_len(
                be_u32(old(self).input@.subrange(old(self).pos as int, old(self).pos + 4)) as int,
            )),
            old(self).spec_remaining() < 4 ==> r is Err,
    {
        let len_w = match self.read_u32() {
            Ok(v) => v,
            Err(e) => {
                return Err(e);
            },
        };
        let len = len_w as usize;
        let body = match self.read_bytes(len) {
            Ok(b) => b,
            Err(e) => {
                return Err(e);
            },
        };
        match self.skip_padding(len) {
            Ok(_) => (),
            Err(e) => {
                return Err(e);
            },
        }
        Ok(slice_to_vec(body))
    }

    /// Read a string: variable-length opaque data whose bytes must be
    /// valid UTF-8; anything else is rejected as `InvalidUtf8`.
    pub fn read_string(&mut self) -> (r: Result<String, Error>)
        requires
            old(self).wf(),
        ensures
            final(self).wf(),
            final(self).input@ == old(self).input@,
            r matches Ok(s) ==> {
                let len = be_u32(
                    old(self).input@.subrange(old(self).pos as int, old(self).pos + 4),
                ) as int;
                let body = old(self).input@.subrange(old(self).pos + 4, old(self).pos + 4 + len);
                &&& old(self).spec_remaining() >= 4 + len + pad_len(len)
                &&& valid_utf8(body)
                &&& s@ == decode_utf8(body)
                &&& final(self).pos == old(self).pos + 4 + len + pad_len(len)
            },
            r is Err ==> r == Err::<String, Error>(Error::Eof) || r == Err::<String, Error>(
                Error::InvalidUtf8,
            ),
            ({
                let len = be_u32(
                    old(self).input@.subrange(old(self).pos as int, old(self).pos + 4),
                ) as int;
                let body = old(self).input@.subrange(old(self).pos + 4, old(self).pos + 4 + len);
                &&& (old(self).spec_remaining() >= 4 + len + pad_len(len) && !valid_utf8(body))
                    ==> r == Err::<String, Error>(Error::InvalidUtf8)
                &&& old(self).spec_remaining() >= 4 ==> (r is Ok <==> old(self).spec_remaining()
                    >= 4 + len + pad_len(len) && valid_utf8(body))
            }),
            old(self).spec_remaining() < 4 ==> r == Err::<String, Error>(Error::Eof),
    {
        let bytes = match self.read_bytes_var() {
            Ok(b) => b,
            Err(e) => {
                return Err(e);
            },
        };
        match string_from_utf8(bytes) {
            Some(s) => Ok(s),
            None => Err(Error::InvalidUtf8),
        }
    }

    /// Consume and return all bytes not yet read.
    pub fn rest(&mut self) -> (r: Vec<u8>)
        requires
            old(self).wf(),
        ensures
            final(self).wf(),
            final(self).input@ == old(self).input@,
            r@ == old(self).input@.skip(old(self).pos as int),
            final(self).pos == final(self).input@.len(),
    {
        let inp: &[u8] = self.input;
        let b: &[u8] = slice_subrange(inp, self.pos, inp.len());
        self.pos = inp.len();
        proof {
            assert(b@ =~= old(self).input@.skip(old(self).pos as int));
        }
        slice_to_vec(b)
    }

    /// Read fixed-length opaque data of `n` bytes followed by padding;
    /// there is no length prefix on the wire.
    pub fn read_opaque_fixed(&mut self, n: usize) -> (r: Result<Vec<u8>, Error>)
        requires
            old(self).wf(),
        ensures
            final(self).wf(),
            final(self).input@ == old(self).input@,
            r is Ok <==> old(self).spec_remaining() >= n + pad_len(n as int),
            r matches Ok(b) ==> {
                &&& b@ == old(self).input@.subrange(old(self).pos as int, old(self).pos + n)
                &&& final(self).pos == old(self).pos + n + pad_len(n as int)
            },
            r is Err ==> r == Err::<Vec<u8>, Error>(Error::Eof),
    {
        let body = match self.read_bytes(n) {
            Ok(b) => b,
            Err(e) => {
                return Err(e);
            },
        };
        match self.skip_padding(n) {
            Ok(_) => (),
            Err(e) => {
                return Err(e);
            },
        }
        Ok(slice_to_vec(body))
    }
}

/// The bytes consumed by a string or opaque item of payload length
/// `len` end on a four-byte boundary: the padding is less than four
/// bytes and completes `len` to a multiple of four.
pub proof fn lemma_padding_aligned(len: int)
    requires
        len >= 0,
    ensures
        0 <= pad_len(len) < 4,
        (len + pad_len(len)) % 4 == 0,
{
}

/// Decoding the four big-endian bytes of a 32-bit word yields the word
/// back.
pub proof fn lemma_be_u32_round_trip(v: u32)
    ensures
        be_u32(be_bytes_u32(v)) == v,
{
    assert((((((v >> 24) as u8) as u32) << 24) | ((((v >> 16) as u8) as u32) << 16) | ((((v
        >> 8) as u8) as u32) << 8) | ((v as u8) as u32)) == v) by (bit_vector);
}

/// Re-encoding the 32-bit word read from four bytes yields those bytes
/// back: every four-byte buffer is the encoding of exactly one word.
pub proof fn lemma_be_bytes_u32_round_trip(s: Seq<u8>)
    requires
        s.len() == 4,
    ensures
        be_bytes_u32(be_u32(s)) == s,
{
    let b0 = s[0];
    let b1 = s[1];
    let b2 = s[2];
    let b3 = s[3];
    let v = be_u32(s);
    assert(v == ((b0 as u32) << 24) | ((b1 as u32) << 16) | ((b2 as u32) << 8) | (b3 as u32));
    assert(((((b0 as u32) << 24) | ((b1 as u32) << 16) | ((b2 as u32) << 8) | (b3 as u32)) >> 24) as u8
        == b0) by (bit_vector);
    assert(((((b0 as u32) << 24) | ((b1 as u32) << 16) | ((b2 as u32) << 8) | (b3 as u32)) >> 16) as u8
        == b1) by (bit_vector);
    assert(((((b0 as u32) << 24) | ((b1 as u32) << 16) | ((b2 as u32) << 8) | (b3 as u32)) >> 8) as u8
        == b2) by (bit_vector);
    assert(((((b0 as u32) << 24) | ((b1 as u32) << 16) | ((b2 as u32) << 8) | (b3 as u32)) as u8)
        == b3) by (bit_vector);
    assert(be_bytes_u32(v) =~= s);
}

/// Decoding the eight big-endian bytes of a 64-bit word yields the word
/// back.
pub proof fn lemma_be_u64_round_trip(v: u64)
    ensures
        be_u64(be_bytes_u64(v)) == v,
{
    assert((((((v >> 56) as u8) as u64) << 56) | ((((v >> 48) as u8) as u64) << 48) | ((((v
        >> 40) as u8) as u64) << 40) | ((((v >> 32) as u8) as u64) << 32) | ((((v
        >> 24) as u8) as u64) << 24) | ((((v >> 16) as u8) as u64) << 16) | ((((v
        >> 8) as u8) as u64) << 8) | ((v as u8) as u64)) == v) by (bit_vector);
}

/// Re-encoding the 64-bit word read from eight bytes yields those bytes
/// back.
pub proof fn lemma_be_bytes_u64_round_trip(s: Seq<u8>)
    requires
        s.len() == 8,
    ensures
        be_bytes_u64(be_u64(s)) == s,
{
    let b0 = s[0];
    let b1 = s[1];
    let b2 = s[2];
    let b3 = s[3];
    let b4 = s[4];
    let b5 = s[5];
    let b6 = s[6];
    let b7 = s[7];
    let v = be_u64(s);
    assert(v == ((b0 as u64) << 56) | ((b1 as u64) << 48) | ((b2 as u64) << 40) | ((b3 as u64)
        << 32) | ((b4 as u64) << 24) | ((b5 as u64) << 16) | ((b6 as u64) << 8) | (b7 as u64));
    assert({
        let w = ((b0 as u64) << 56) | ((b1 as u64) << 48) | ((b2 as u64) << 40) | ((b3 as u64)
            << 32) | ((b4 as u64) << 24) | ((b5 as u64) << 16) | ((b6 as u64) << 8) | (b7 as u64);
        &&& (w >> 56) as u8 == b0
        &&& (w >> 48) as u8 == b1
        &&& (w >> 40) as u8 == b2
        &&& (w >> 32) as u8 == b3
        &&& (w >> 24) as u8 == b4
        &&& (w >> 16) as u8 == b5
        &&& (w >> 8) as u8 == b6
        &&& w as u8 == b7
    }) by (bit_vector);
    assert(be_bytes_u64(v) =~= s);
}

/// The signed 32-bit round trip: a value encoded as its unsigned
/// two's-complement word reads back as the same signed value.
pub proof fn lemma_i32_round_trip(v: i32)
    ensures
        be_u32(spec_xdr_i32(v)) as i32 == v,
{
    lemma_be_u32_round_trip(v as u32);
    assert(((v as u32) as i32) == v) by (bit_vector);
}

/// The signed 64-bit round trip.
pub proof fn lemma_i64_round_trip(v: i64)
    ensures
        be_u64(spec_xdr_i64(v)) as i64 == v,
{
    lemma_be_u64_round_trip(v as u64);
    assert(((v as u64) as i64) == v) by (bit_vector);
}

/// The boolean wire forms are exactly `[0,0,0,1]` and `[0,0,0,0]`, and
/// each reads back as the boolean it encodes.
pub proof fn lemma_bool_round_trip(v: bool)
    ensures
        spec_xdr_bool(v) == if v {
            seq![0u8, 0u8, 0u8, 1u8]
        } else {
            seq![0u8, 0u8, 0u8, 0u8]
        },
        be_u32(spec_xdr_bool(v)) == if v {
            1u32
        } else {
            0u32
        },
{
    let w: u32 = if v { 1u32 } else { 0u32 };
    assert((1u32 >> 24) as u8 == 0u8 && (1u32 >> 16) as u8 == 0u8 && (1u32 >> 8) as u8 == 0u8
        && 1u32 as u8 == 1u8) by (bit_vector);
    assert((0u32 >> 24) as u8 == 0u8 && (0u32 >> 16) as u8 == 0u8 && (0u32 >> 8) as u8 == 0u8
        && 0u32 as u8 == 0u8) by (bit_vector);
    lemma_be_u32_round_trip(w);
    if v {
        assert(spec_xdr_bool(v) =~= seq![0u8, 0u8, 0u8, 1u8]);
    } else {
        assert(spec_xdr_bool(v) =~= seq![0u8, 0u8, 0u8, 0u8]);
    }
}

/// Decoding a variable-length opaque encoding yields the payload back,
/// and the encoding is wholly consumed: the length prefix reads back as
/// the payload length, the payload sits after the prefix, and the total
/// size is the prefix plus the payload rounded up to a multiple of
/// four.
pub proof fn lemma_bytes_round_trip(data: Seq<u8>)
    requires
        data.len() <= u32::MAX,
    ensures
        ({
            let b = spec_xdr_bytes(data);
            &&& b.len() == 4 + data.len() + pad_len(data.len() as int)
            &&& b.len() == 4 + 4 * ((data.len() + 3) / 4)
            &&& be_u32(b.subrange(0, 4)) == data.len()
            &&& b.subrange(4, 4 + data.len() as int) == data
        }),
{
    let b = spec_xdr_bytes(data);
    let n = data.len() as u32;
    lemma_be_u32_round_trip(n);
    assert(b.subrange(0, 4) =~= be_bytes_u32(n));
    assert(b.subrange(4, 4 + data.len() as int) =~= data);
    lemma_padding_aligned(data.len() as int);
}

/// Decoding a fixed-length opaque encoding yields the payload back: the
/// bytes sit first, followed only by padding, so a 16-byte payload
/// occupies exactly 16 bytes.
pub proof fn lemma_opaque_fixed_round_trip(data: Seq<u8>)
    ensures
        ({
            let b = spec_xdr_opaque_fixed(data);
            &&& b.len() == data.len() + pad_len(data.len() as int)
            &&& b.subrange(0, data.len() as int) == data
            &&& data.len() % 4 == 0 ==> b == data
        }),
{
    let b = spec_xdr_opaque_fixed(data);
    assert(b.subrange(0, data.len() as int) =~= data);
    lemma_padding_aligned(data.len() as int);
    if data.len() % 4 == 0 {
        assert(b =~= data);
    }
}

/// Decoding a string encoding yields the string back: the payload is
/// the string's UTF-8 bytes, which are valid UTF-8 and decode to the
/// original character sequence.
pub proof fn lemma_string_round_trip(s: Seq<char>)
    requires
        encode_utf8(s).len() <= u32::MAX,
    ensures
        ({
            let data = encode_utf8(s);
            let b = spec_xdr_string(s);
            &&& b.len() == 4 + data.len() + pad_len(data.len() as int)
            &&& be_u32(b.subrange(0, 4)) == data.len()
            &&& b.subrange(4, 4 + data.len() as int) == data
            &&& valid_utf8(data)
            &&& decode_utf8(data) == s
        }),
{
    lemma_bytes_round_trip(encode_utf8(s));
    broadcast use vstd::utf8::encode_utf8_valid_utf8;
    broadcast use vstd::utf8::encode_utf8_decode_utf8;

}

/// Re-encoding a decoded variable-length opaque item yields the input
/// bytes back: a buffer that is the encoding of some payload is the
/// encoding of exactly that payload, so decode followed by encode is
/// the identity on valid encodings.
pub proof fn lemma_bytes_reencode(b: Seq<u8>, data: Seq<u8>)
    requires
        data.len() <= u32::MAX,
        b == spec_xdr_bytes(data),
    ensures
        data == b.subrange(4, 4 + be_u32(b.subrange(0, 4)) as int),
        spec_xdr_bytes(b.subrange(4, 4 + be_u32(b.subrange(0, 4)) as int)) == b,
{
    lemma_bytes_round_trip(data);
}

/// Re-encoding a decoded string yields the input bytes back: a buffer
/// that is the encoding of some string re-encodes to itself, so decode
/// followed by encode is the identity on valid string encodings.
pub proof fn lemma_string_reencode(b: Seq<u8>, s: Seq<char>)
    requires
        encode_utf8(s).len() <= u32::MAX,
        b == spec_xdr_string(s),
    ensures
        spec_xdr_string(decode_utf8(b.subrange(4, 4 + be_u32(b.subrange(0, 4)) as int))) == b,
{
    lemma_string_round_trip(s);
}

/// Relies on `String::from_utf8`: it succeeds exactly on valid UTF-8
/// input and returns the string those bytes encode.
#[verifier::external_body]
fn string_from_utf8(bytes: Vec<u8>) -> (r: Option<String>)
    ensures
        r is Some <==> valid_utf8(bytes@),
        r matches Some(s) ==> s@ == decode_utf8(bytes@),
{
    String::from_utf8(bytes).ok()
}

/// The characters spelled by a sequence of ASCII bytes.
pub open spec fn chars_of_ascii(bytes: Seq<u8>) -> Seq<char> {
    bytes.map_values(|b: u8| b as char)
}

/// A sequence of ASCII bytes decodes to its characters one for one.
pub proof fn lemma_ascii_decode(bytes: Seq<u8>)
    requires
        forall|i: int| 0 <= i < bytes.len() ==> bytes[i] < 128,
    ensures
        valid_utf8(bytes),
        decode_utf8(bytes) == chars_of_ascii(bytes),
{
    let chars = chars_of_ascii(bytes);
    assert(vstd::utf8::is_ascii_chars(chars));
    vstd::utf8::is_ascii_chars_encode_utf8(chars);
    assert(encode_utf8(chars) =~= bytes);
    broadcast use vstd::utf8::encode_utf8_valid_utf8;
    broadcast use vstd::utf8::encode_utf8_decode_utf8;

}

/// ASCII bytes spelled as characters are ASCII characters and encode
/// back to the same bytes.
pub proof fn lemma_ascii_encode_bytes(bytes: Seq<u8>)
    requires
        forall|i: int| 0 <= i < bytes.len() ==> bytes[i] < 128,
    ensures
        vstd::utf8::is_ascii_chars(chars_of_ascii(bytes)),
        encode_utf8(chars_of_ascii(bytes)) == bytes,
{
    let chars = chars_of_ascii(bytes);
    assert(vstd::utf8::is_ascii_chars(chars));
    vstd::utf8::is_ascii_chars_encode_utf8(chars);
    assert(encode_utf8(chars) =~= bytes);
}

/// A string's bytes are all ASCII exactly when its characters are.
pub proof fn lemma_ascii_bytes_iff_chars(s: Seq<char>)
    ensures
        (forall|i: int| 0 <= i < encode_utf8(s).len() ==> encode_utf8(s)[i] < 128)
            <==> vstd::utf8::is_ascii_chars(s),
        vstd::utf8::is_ascii_chars(s) ==> chars_of_ascii(encode_utf8(s)) == s,
{
    broadcast use vstd::utf8::encode_utf8_decode_utf8;

    if vstd::utf8::is_ascii_chars(s) {
        vstd::utf8::is_ascii_chars_encode_utf8(s);
        assert forall|i: int|
            0 <= i < encode_utf8(s).len() implies encode_utf8(s)[i] < 128 by {
            assert(encode_utf8(s)[i] == s[i] as u8);
            assert(s[i] <= '\u{7f}');
        }
        lemma_ascii_encode_bytes(encode_utf8(s));
        assert(decode_utf8(encode_utf8(chars_of_ascii(encode_utf8(s)))) == chars_of_ascii(
            encode_utf8(s),
        ));
        assert(decode_utf8(encode_utf8(s)) == s);
    } else {
        if forall|i: int| 0 <= i < encode_utf8(s).len() ==> encode_utf8(s)[i] < 128 {
            lemma_ascii_encode_bytes(encode_utf8(s));
            assert(decode_utf8(encode_utf8(chars_of_ascii(encode_utf8(s)))) == chars_of_ascii(
                encode_utf8(s),
            ));
            assert(decode_utf8(encode_utf8(s)) == s);
            assert(vstd::utf8::is_ascii_chars(s));
        }
    }
}

/// An ASCII string literal's bytes mirror its characters one for
/// one.
pub proof fn lemma_ascii_encode_bytes_of_str(t: &str)
    requires
        vstd::utf8::is_ascii_chars(t@),
    ensures
        t.spec_bytes().len() == t@.len(),
        forall|i: int|
            #![trigger t.spec_bytes()[i]]
            0 <= i < t@.len() ==> t.spec_bytes()[i] == t@[i] as u8,
{
    vstd::utf8::is_ascii_chars_encode_utf8(t@);
}

/// Build a string from a buffer of ASCII bytes, one character per
/// byte.
pub fn ascii_to_string(bytes: Vec<u8>) -> (r: String)
    requires
        forall|i: int| 0 <= i < bytes@.len() ==> bytes@[i] < 128,
    ensures
        r@ == chars_of_ascii(bytes@),
{
    proof {
        lemma_ascii_decode(bytes@);
    }
    match string_from_utf8(bytes) {
        Some(s) => s,
        None => vstd::pervasive::unreached(),
    }
}

} // verus!
