//! Fixed-length opaque data.
//!
//! XDR fixed-length opaque items (libvirt uses a 16-byte one for
//! UUIDs) are written as raw bytes with zero padding to a four-byte
//! boundary and no length prefix, unlike variable-length opaque data.
//! [`FixedOpaque16`] carries such a 16-byte value; being a multiple of
//! four bytes it occupies exactly 16 bytes on the wire.

use vstd::prelude::*;

verus! {

use crate::codec::chars_of_ascii;
use crate::codec::ascii_to_string;

/// A 16-byte fixed-length opaque value (a UUID).
#[derive(Debug, Clone, Copy, PartialEq, Eq, Hash, Default)]
pub struct FixedOpaque16(pub [u8; 16]);

/// The ASCII code of the lowercase hexadecimal digit for `n`.
pub open spec fn spec_hex_digit(n: u8) -> u8
    recommends
        n < 16,
{
    if n < 10 {
        (n + 48) as u8
    } else {
        (n + 87) as u8
    }
}

/// The two lowercase hexadecimal digits of a byte, as ASCII codes.
pub open spec fn spec_hex_pair(v: u8) -> Seq<u8> {
    seq![spec_hex_digit(v >> 4), spec_hex_digit((v & 15) as u8)]
}

/// The 36 ASCII codes of the canonical UUID spelling of 16 bytes:
/// lowercase hexadecimal pairs in groups of 4, 2, 2, 2 and 6 bytes,
/// separated by dashes.
pub open spec fn spec_uuid_ascii(b: Seq<u8>) -> Seq<u8>
    recommends
        b.len() == 16,
{
    spec_hex_pair(b[0]) + spec_hex_pair(b[1]) + spec_hex_pair(b[2]) + spec_hex_pair(b[3])
        + seq![45u8] + spec_hex_pair(b[4]) + spec_hex_pair(b[5]) + seq![45u8] + spec_hex_pair(b[6])
        + spec_hex_pair(b[7]) + seq![45u8] + spec_hex_pair(b[8]) + spec_hex_pair(b[9])
        + seq![45u8] + spec_hex_pair(b[10]) + spec_hex_pair(b[11]) + spec_hex_pair(b[12])
        + spec_hex_pair(b[13]) + spec_hex_pair(b[14]) + spec_hex_pair(b[15])
}

/// The ASCII code of the lowercase hexadecimal digit for `n`.
fn hex_digit(n: u8) -> (r: u8)
    requires
        n < 16,
    ensures
        r == spec_hex_digit(n),
        r < 128,
{
    if n < 10 {
        n + 48
    } else {
        n + 87
    }
}

impl FixedOpaque16 {
    /// Create a new 16-byte opaque value from a byte array.
    pub fn new(data: [u8; 16]) -> (r: Self)
        ensures
            r.0@ == data@,
    {
        Self(data)
    }

    /// Borrow the inner byte array.
    pub fn as_bytes(&self) -> (r: &[u8; 16])
        ensures
            r@ == self.0@,
    {
        &self.0
    }

    /// Spell the bytes as a canonical UUID string: lowercase
    /// hexadecimal with dashes.
    pub fn to_uuid_string(&self) -> (r: String)
        ensures
            r@ == chars_of_ascii(spec_uuid_ascii(self.0@)),
    {
        let mut out: Vec<u8> = Vec::new();
        let mut i: usize = 0;
        while i < 16
            invariant
                i <= 16,
                out@.len() == 2 * i + (if i > 10 { 4int } else if i > 8 { 3int } else if i > 6 {
                    2int
                } else if i > 4 {
                    1int
                } else {
                    0int
                }),
                forall|j: int| 0 <= j < out@.len() ==> out@[j] < 128,
                out@ == spec_uuid_ascii(self.0@).take(out@.len() as int),
            decreases 16 - i,
        {
            if i == 4 || i == 6 || i == 8 || i == 10 {
                out.push(45u8);
            }
            let b = self.0[i];
            proof {
                assert(b & 15 < 16) by (bit_vector);
                assert(b >> 4 < 16) by (bit_vector);
            }
            out.push(hex_digit(b >> 4));
            out.push(hex_digit(b & 15));
            proof {
                assert(out@ =~= spec_uuid_ascii(self.0@).take(out@.len() as int));
            }
            i = i + 1;
        }
        proof {
            assert(out@ =~= spec_uuid_ascii(self.0@));
        }
        ascii_to_string(out)
    }
}

} // verus!
